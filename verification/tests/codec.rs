use event_emitter_rs::{EventEmitter, Invocation};
use serde::de::DeserializeOwned;
use serde::ser::Error;
use serde::{Serialize, Serializer};
use std::sync::{Arc, Mutex};

/// A listener's callback: decodes the bytes to its own type and says whether
/// they did decode.
type Callback = Box<dyn Fn(Vec<u8>) -> Result<(), bincode::Error> + Send + Sync>;

/// A callback that decodes to `T` and keeps what it got in `seen`.
fn keeping<T>(seen: &Arc<Mutex<Vec<T>>>) -> Callback
where
    T: DeserializeOwned + Send + 'static,
{
    let seen = Arc::clone(seen);
    Box::new(move |bytes: Vec<u8>| {
        let value: T = bincode::deserialize(&bytes)?;
        seen.lock().unwrap().push(value);
        Ok(())
    })
}

fn emit<T: Serialize>(
    emitter: &mut EventEmitter<Callback>,
    event: &str,
    value: &T,
) -> Result<Vec<Invocation<Callback>>, bincode::Error> {
    emitter.emit_with(event, || bincode::serialize(value))
}

/// Runs the calls and says, call by call, whether the bytes did decode.
fn run(calls: Vec<Invocation<Callback>>) -> Vec<bool> {
    calls
        .into_iter()
        .map(|call| {
            let (callback, bytes) = call.into_parts();
            (*callback)(bytes).is_ok()
        })
        .collect()
}

/// A value that refuses to be encoded.
struct Sealed;

impl Serialize for Sealed {
    fn serialize<S: Serializer>(&self, _: S) -> Result<S::Ok, S::Error> {
        Err(S::Error::custom("sealed"))
    }
}

#[test]
fn a_number_arrives_as_it_was_emitted() {
    let seen = Arc::new(Mutex::new(Vec::new()));
    let mut emitter: EventEmitter<Callback> = EventEmitter::new();
    emitter.on("n", keeping::<u32>(&seen));
    for value in [0u32, 10, u32::MAX] {
        assert_eq!(vec![true], run(emit(&mut emitter, "n", &value).unwrap()));
    }
    assert_eq!(vec![0, 10, u32::MAX], *seen.lock().unwrap());
}

#[test]
fn a_string_arrives_as_it_was_emitted() {
    let seen = Arc::new(Mutex::new(Vec::new()));
    let mut emitter: EventEmitter<Callback> = EventEmitter::new();
    emitter.on("s", keeping::<String>(&seen));
    for value in ["hello", "", "grüße, мир"] {
        run(emit(&mut emitter, "s", &value.to_string()).unwrap());
    }
    assert_eq!(
        vec!["hello".to_string(), String::new(), "grüße, мир".to_string()],
        *seen.lock().unwrap()
    );
}

#[test]
fn a_compound_value_arrives_as_it_was_emitted() {
    type Record = (String, Vec<i64>, Option<bool>);
    let seen = Arc::new(Mutex::new(Vec::new()));
    let mut emitter: EventEmitter<Callback> = EventEmitter::new();
    emitter.on("r", keeping::<Record>(&seen));
    let value: Record = ("January".to_string(), vec![-1, 0, i64::MAX], Some(true));
    run(emit(&mut emitter, "r", &value).unwrap());
    run(emit(&mut emitter, "r", &(String::new(), Vec::<i64>::new(), None::<bool>)).unwrap());
    assert_eq!(vec![value, (String::new(), vec![], None)], *seen.lock().unwrap());
}

#[test]
fn the_unit_value_arrives() {
    let seen = Arc::new(Mutex::new(Vec::new()));
    let mut emitter: EventEmitter<Callback> = EventEmitter::new();
    emitter.on("u", keeping::<()>(&seen));
    let calls = emit(&mut emitter, "u", &()).unwrap();
    assert!(calls[0].payload().is_empty());
    run(calls);
    assert_eq!(vec![()], *seen.lock().unwrap());
}

#[test]
fn every_call_carries_the_bytes_of_the_one_encoding() {
    let seen = Arc::new(Mutex::new(Vec::new()));
    let mut emitter: EventEmitter<Callback> = EventEmitter::new();
    emitter.on("n", keeping::<u32>(&seen));
    emitter.on("n", keeping::<u32>(&seen));
    let calls = emit(&mut emitter, "n", &0x0102_0304u32).unwrap();
    assert_eq!(2, calls.len());
    for call in &calls {
        assert_eq!(vec![4, 3, 2, 1], *call.payload());
    }
}

#[test]
fn listeners_of_different_types_stand_under_one_event() {
    let numbers = Arc::new(Mutex::new(Vec::new()));
    let pairs = Arc::new(Mutex::new(Vec::new()));
    let mut emitter: EventEmitter<Callback> = EventEmitter::new();
    emitter.on("x", keeping::<u64>(&numbers));
    emitter.on("x", keeping::<(u32, u32)>(&pairs));
    // Eight bytes: a u64 to the one, two u32 to the other.
    assert_eq!(vec![true, true], run(emit(&mut emitter, "x", &((1u64 << 32) + 2)).unwrap()));
    assert_eq!(vec![(1u64 << 32) + 2], *numbers.lock().unwrap());
    assert_eq!(vec![(2, 1)], *pairs.lock().unwrap());
}

#[test]
fn a_listener_of_another_type_fails_alone() {
    let strings = Arc::new(Mutex::new(Vec::new()));
    let numbers = Arc::new(Mutex::new(Vec::new()));
    let more_numbers = Arc::new(Mutex::new(Vec::new()));
    let mut emitter: EventEmitter<Callback> = EventEmitter::new();
    emitter.on("x", keeping::<u32>(&numbers));
    emitter.on("x", keeping::<String>(&strings));
    emitter.on("x", keeping::<u32>(&more_numbers));

    // Four bytes that say 10: no string starts like that.
    let calls = emit(&mut emitter, "x", &10u32).unwrap();
    assert_eq!(vec![true, false, true], run(calls));
    assert_eq!(vec![10], *numbers.lock().unwrap());
    assert_eq!(vec![10], *more_numbers.lock().unwrap());
    assert!(strings.lock().unwrap().is_empty());
    // All three are still registered.
    assert_eq!(3, emitter.listeners("x").unwrap().len());
}

#[test]
fn a_value_that_cannot_be_encoded_is_an_error() {
    let seen = Arc::new(Mutex::new(Vec::new()));
    let mut emitter: EventEmitter<Callback> = EventEmitter::new();
    emitter.once("x", keeping::<u32>(&seen));
    assert!(emit(&mut emitter, "x", &Sealed).is_err());
    // Nobody was called, and the one call of the listener is still due.
    assert!(seen.lock().unwrap().is_empty());
    assert_eq!(Some(1), emitter.listeners("x").unwrap()[0].limit());
    assert_eq!(vec![true], run(emit(&mut emitter, "x", &5u32).unwrap()));
    assert_eq!(vec![5], *seen.lock().unwrap());
}

#[test]
fn a_value_that_cannot_be_encoded_is_no_error_where_nobody_listens() {
    let mut emitter: EventEmitter<Callback> = EventEmitter::new();
    assert!(emit(&mut emitter, "x", &Sealed).unwrap().is_empty());
}
