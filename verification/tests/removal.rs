use event_emitter_rs::EventEmitter;
use std::sync::{Arc, Mutex};

type Callback = Box<dyn Fn(Vec<u8>) + Send + Sync>;

fn idle() -> Callback {
    Box::new(|_: Vec<u8>| {})
}

/// A callback that notes `tag` in `log` each time it runs.
fn noting(log: &Arc<Mutex<Vec<&'static str>>>, tag: &'static str) -> Callback {
    let log = Arc::clone(log);
    Box::new(move |_: Vec<u8>| log.lock().unwrap().push(tag))
}

fn ids(emitter: &EventEmitter<Callback>, event: &str) -> Vec<String> {
    emitter.listeners(event).unwrap().iter().map(|l| l.id().clone()).collect()
}

#[test]
fn removing_returns_the_id() {
    let mut emitter: EventEmitter<Callback> = EventEmitter::new();
    let id = emitter.on("x", idle());
    assert_eq!(Some(id.clone()), emitter.remove_listener(&id));
    assert!(!emitter.contains_id(&id));
}

#[test]
fn removing_an_unknown_id_changes_nothing() {
    let mut emitter: EventEmitter<Callback> = EventEmitter::new();
    assert_eq!(None, emitter.remove_listener("nobody"));
    let a = emitter.on("x", idle());
    let b = emitter.once("y", idle());
    assert_eq!(None, emitter.remove_listener("nobody"));
    assert_eq!(None, emitter.remove_listener(""));
    assert_eq!(None, emitter.remove_listener("x"));
    assert_eq!(vec![a], ids(&emitter, "x"));
    assert_eq!(vec![b], ids(&emitter, "y"));
    assert_eq!(Some(1), emitter.listeners("y").unwrap()[0].limit());
}

#[test]
fn removing_right_after_registering_undoes_it() {
    let mut emitter: EventEmitter<Callback> = EventEmitter::new();
    let a = emitter.on("x", idle());
    let b = emitter.on("x", idle());
    let before = ids(&emitter, "x");

    let c = emitter.on_limited("x", Some(2), idle());
    assert_eq!(3, emitter.listeners("x").unwrap().len());
    assert_eq!(Some(c.clone()), emitter.remove_listener(&c));
    assert_eq!(2, emitter.listeners("x").unwrap().len());
    assert_eq!(before, ids(&emitter, "x"));
    assert_eq!(vec![a, b], ids(&emitter, "x"));

    assert_eq!(None, emitter.remove_listener(&c));
    assert_eq!(before, ids(&emitter, "x"));
}

#[test]
fn removing_the_only_listener_leaves_the_event_known() {
    let mut emitter: EventEmitter<Callback> = EventEmitter::new();
    let id = emitter.on("x", idle());
    emitter.remove_listener(&id);
    assert_eq!(0, emitter.listeners("x").unwrap().len());
    assert!(emitter.listeners("y").is_none());
    assert!(emitter.emit("x", vec![1]).is_empty());
    assert_eq!(0, emitter.listeners("x").unwrap().len());
}

#[test]
fn removing_keeps_the_order_of_the_others() {
    let mut emitter: EventEmitter<Callback> = EventEmitter::new();
    let a = emitter.on("x", idle());
    let b = emitter.on("x", idle());
    let c = emitter.on("x", idle());
    let d = emitter.on("x", idle());
    emitter.remove_listener(&b);
    assert_eq!(vec![a.clone(), c.clone(), d.clone()], ids(&emitter, "x"));
    emitter.remove_listener(&a);
    assert_eq!(vec![c.clone(), d.clone()], ids(&emitter, "x"));
    emitter.remove_listener(&d);
    assert_eq!(vec![c], ids(&emitter, "x"));
}

#[test]
fn removing_finds_a_listener_under_any_event() {
    let mut emitter: EventEmitter<Callback> = EventEmitter::new();
    let a = emitter.on("x", idle());
    let b = emitter.on("y", idle());
    let c = emitter.on("z", idle());
    assert_eq!(Some(c.clone()), emitter.remove_listener(&c));
    assert_eq!(Some(b.clone()), emitter.remove_listener(&b));
    assert_eq!(vec![a], ids(&emitter, "x"));
    assert!(ids(&emitter, "y").is_empty());
    assert!(ids(&emitter, "z").is_empty());
}

#[test]
fn a_removed_listener_gets_no_further_call() {
    let log = Arc::new(Mutex::new(Vec::new()));
    let mut emitter: EventEmitter<Callback> = EventEmitter::new();
    let a = emitter.on("x", noting(&log, "a"));
    emitter.on("x", noting(&log, "b"));
    emitter.remove_listener(&a);

    let calls = emitter.emit("x", vec![]);
    assert_eq!(1, calls.len());
    assert!(calls.iter().all(|call| *call.listener() != a));
    for call in calls {
        let (callback, bytes) = call.into_parts();
        (*callback)(bytes);
    }
    assert_eq!(vec!["b"], *log.lock().unwrap());
}

#[test]
fn a_call_that_is_due_outlives_the_removal_of_its_listener() {
    let log = Arc::new(Mutex::new(Vec::new()));
    let mut emitter: EventEmitter<Callback> = EventEmitter::new();
    let a = emitter.on("x", noting(&log, "a"));

    // The call is handed out, and the listener is removed before it has run.
    let pending = emitter.emit("x", vec![7]);
    assert_eq!(Some(a.clone()), emitter.remove_listener(&a));
    assert!(log.lock().unwrap().is_empty());

    assert_eq!(1, pending.len());
    for call in pending {
        assert_eq!(a, *call.listener());
        assert_eq!(vec![7], *call.payload());
        let (callback, bytes) = call.into_parts();
        (*callback)(bytes);
    }
    assert_eq!(vec!["a"], *log.lock().unwrap());

    // It is not called again.
    assert!(emitter.emit("x", vec![7]).is_empty());
}
