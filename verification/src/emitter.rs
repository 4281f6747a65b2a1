//! The event emitter: a registry of listeners by event name.

use crate::dispatch::{dispatch, lemma_calls_are_due, lemma_dispatch_none};
use crate::ident::{
    is_longest, is_random_id, lemma_longest, lemma_unused_id, lengthen, random_id, unused_id,
};
use crate::laws::{lemma_dispatched, lemma_place, lemma_registered, lemma_removed};
use crate::listener::{
    accepts, invocation_views, listener_views, returned, Invocation, Listener, ListenerView,
};
use crate::model::{
    bucket, call_of, dispatched, due, due_calls, fires, has_id, holds, ids_within, is_due_call,
    place, registered, removed, scheduled, valid, RegistryView,
};
use vstd::prelude::*;
use vstd::string::StrSliceExecFns;

verus! {

/// The listeners registered under one event name, in registration order.
struct Bucket<C> {
    name: String,
    listeners: Vec<Listener<C>>,
}

/// A registry of listeners. Each event name has its own list of listeners, in
/// the order in which they were registered; every listener has an id that no
/// other listener in the registry has.
pub struct EventEmitter<C> {
    buckets: Vec<Bucket<C>>,
}

impl<C> View for EventEmitter<C> {
    type V = RegistryView<C>;

    closed spec fn view(&self) -> RegistryView<C> {
        view_of(self.buckets@)
    }
}

impl<C> EventEmitter<C> {
    /// What holds of every emitter: each event name has one list of
    /// listeners, and the registry is valid.
    #[verifier::type_invariant]
    pub closed spec fn wf(&self) -> bool {
        distinct_names(self.buckets@) && valid(view_of(self.buckets@))
    }

    /// The registry of an emitter is valid.
    pub proof fn lemma_wf_valid(&self)
        requires
            self.wf(),
        ensures
            valid(self@),
    {
    }

    /// An emitter without listeners.
    pub fn new() -> (e: EventEmitter<C>)
        ensures
            valid(e@),
            e@ == RegistryView::<C>::empty(),
    {
        let buckets: Vec<Bucket<C>> = Vec::new();
        assert(view_of(buckets@) =~= RegistryView::<C>::empty());
        assert(ids_within(view_of(buckets@), 0));
        EventEmitter { buckets }
    }

    /// The listeners registered under `event`, in registration order; `None`
    /// if nothing was ever registered under that name.
    pub fn listeners(&self, event: &str) -> (r: Option<&Vec<Listener<C>>>)
        ensures
            match r {
                Some(ls) => self@.dom().contains(event@) && listener_views(ls@) == self@[event@],
                None => !self@.dom().contains(event@),
            },
    {
        proof {
            use_type_invariant(self);
        }
        match self.find(event) {
            Some(b) => {
                proof {
                    lemma_slot(self.buckets@, b as int);
                }
                Some(&self.buckets[b].listeners)
            },
            None => None,
        }
    }

    /// Whether some listener has the id `id`.
    pub fn contains_id(&self, id: &str) -> (r: bool)
        ensures
            r == has_id(self@, id@),
    {
        proof {
            use_type_invariant(self);
        }
        let found = self.locate(id);
        proof {
            lemma_stored(self.buckets@);
            match found {
                Some((b, i)) => {
                    assert(stored(self.buckets@, b as int, i as int));
                    assert(holds(self@, self.buckets[b as int].name@, i as int));
                },
                None => {
                    if has_id(self@, id@) {
                        let (event, i) = place(self@, id@);
                        assert(holds(self@, event, i));
                        assert(stored(self.buckets@, slot(self.buckets@, event), i));
                    }
                },
            }
        }
        found.is_some()
    }

    /// Registers `callback` under `event` with `limit` calls to get, under the
    /// id drawn for it, `candidate`. Should a listener have that id already,
    /// the new one gets `candidate` followed by `0`s, one character longer
    /// than the longest id in use. The new listener stands last under
    /// `event`. Returns its id.
    pub fn register(
        &mut self,
        event: &str,
        limit: Option<u64>,
        candidate: String,
        callback: C,
    ) -> (id: String)
        ensures
            valid(final(self)@),
            id@ == unused_id(old(self)@, candidate@),
            !has_id(old(self)@, id@),
            final(self)@ == registered(
                old(self)@,
                event@,
                (ListenerView { id: id@, limit, callback }),
            ),
    {
        proof {
            use_type_invariant(&*self);
        }
        let ghost drawn = candidate@;
        let id = if self.contains_id(candidate.as_str()) {
            let longest = self.longest();
            let len = candidate.as_str().unicode_len();
            proof {
                lemma_longest(self@, longest as nat);
                let (e, i) = place(self@, drawn);
                assert(holds(self@, e, i));
            }
            lengthen(candidate, len, longest)
        } else {
            candidate
        };
        proof {
            lemma_unused_id(self@, drawn);
        }
        let listener = Listener::new(id.clone(), limit, callback);
        let ghost before = self.buckets@;
        let ghost added = listener@;
        let found = self.find(event);
        let mut buckets = self.take_buckets();
        match found {
            Some(b) => {
                buckets[b].listeners.push(listener);
                proof {
                    lemma_slot(before, b as int);
                    lemma_replace(before, buckets@, b as int);
                    assert(listener_views(buckets[b as int].listeners@) =~= listener_views(
                        before[b as int].listeners@,
                    ).push(added));
                }
            },
            None => {
                let mut listeners: Vec<Listener<C>> = Vec::new();
                listeners.push(listener);
                let fresh = Bucket { name: event.to_owned(), listeners };
                proof {
                    lemma_append(before, fresh);
                    assert(listener_views(fresh.listeners@) =~= seq![added]);
                }
                buckets.push(fresh);
            },
        }
        proof {
            lemma_registered(view_of(before), event@, added);
        }
        self.put_buckets(buckets);
        id
    }

    /// Registers `callback` under `event` with `limit` calls to get: `None`
    /// for a listener that every dispatch calls, `Some(n)` for one that leaves
    /// with its `n`-th call. Returns the new listener's id: a random UUID,
    /// made longer in the unlikely case that a listener has it already.
    pub fn on_limited(&mut self, event: &str, limit: Option<u64>, callback: C) -> (id: String)
        ensures
            valid(final(self)@),
            exists|candidate: Seq<char>|
                is_random_id(candidate) && id@ == #[trigger] unused_id(old(self)@, candidate),
            !has_id(old(self)@, id@),
            final(self)@ == registered(
                old(self)@,
                event@,
                (ListenerView { id: id@, limit, callback }),
            ),
    {
        let candidate = random_id();
        self.register(event, limit, candidate, callback)
    }

    /// Registers `callback` under `event` without a limit: every dispatch to
    /// `event` calls it until it is removed. Returns the new listener's id.
    pub fn on(&mut self, event: &str, callback: C) -> (id: String)
        ensures
            valid(final(self)@),
            exists|candidate: Seq<char>|
                is_random_id(candidate) && id@ == #[trigger] unused_id(old(self)@, candidate),
            !has_id(old(self)@, id@),
            final(self)@ == registered(
                old(self)@,
                event@,
                (ListenerView { id: id@, limit: None, callback }),
            ),
    {
        self.on_limited(event, None, callback)
    }

    /// Registers `callback` under `event` for one call: the first dispatch to
    /// `event` calls it and removes it. Returns the new listener's id.
    pub fn once(&mut self, event: &str, callback: C) -> (id: String)
        ensures
            valid(final(self)@),
            exists|candidate: Seq<char>|
                is_random_id(candidate) && id@ == #[trigger] unused_id(old(self)@, candidate),
            !has_id(old(self)@, id@),
            final(self)@ == registered(
                old(self)@,
                event@,
                (ListenerView { id: id@, limit: Some(1u64), callback }),
            ),
    {
        self.on_limited(event, Some(1), callback)
    }

    /// Removes the listener with the id `id_to_delete`, under whichever event
    /// it stands; the listeners behind it keep their order. Returns the id,
    /// or `None`, with nothing changed, if no listener has it.
    pub fn remove_listener(&mut self, id_to_delete: &str) -> (r: Option<String>)
        ensures
            valid(final(self)@),
            final(self)@ == removed(old(self)@, id_to_delete@),
            match r {
                Some(id) => id@ == id_to_delete@ && has_id(old(self)@, id_to_delete@),
                None => !has_id(old(self)@, id_to_delete@) && final(self)@ == old(self)@,
            },
    {
        proof {
            use_type_invariant(&*self);
        }
        let ghost before = self.buckets@;
        proof {
            lemma_stored(before);
            lemma_removed(self@, id_to_delete@);
        }
        match self.locate(id_to_delete) {
            Some((b, i)) => {
                proof {
                    assert(stored(before, b as int, i as int));
                    lemma_place(self@, before[b as int].name@, i as int);
                }
                let mut buckets = self.take_buckets();
                buckets[b].listeners.remove(i);
                proof {
                    lemma_replace(before, buckets@, b as int);
                    assert(listener_views(buckets[b as int].listeners@) =~= listener_views(
                        before[b as int].listeners@,
                    ).remove(i as int));
                }
                self.put_buckets(buckets);
                Some(id_to_delete.to_owned())
            },
            None => {
                proof {
                    if has_id(self@, id_to_delete@) {
                        let (event, i) = place(self@, id_to_delete@);
                        assert(holds(self@, event, i));
                        assert(stored(before, slot(before, event), i));
                    }
                }
                None
            },
        }
    }

    /// Dispatches `payload` to the listeners under `event`, in registration
    /// order, and returns the calls that are due, in that order; the emitter
    /// runs none of them. A listener with no calls left gets none and leaves.
    /// Every other listener gets one call carrying `payload`, and leaves if
    /// that was its last. Nothing happens if no listener stands under `event`.
    pub fn emit(&mut self, event: &str, payload: Vec<u8>) -> (calls: Vec<Invocation<C>>)
        ensures
            valid(final(self)@),
            final(self)@ == dispatched(old(self)@, event@),
            invocation_views(calls@) == scheduled(old(self)@, event@, payload@),
            bucket(old(self)@, event@).len() == 0 ==> calls@.len() == 0,
            bucket(old(self)@, event@).len() == 0 ==> final(self)@ == old(self)@,
    {
        proof {
            use_type_invariant(&*self);
        }
        let ghost before = self.buckets@;
        proof {
            lemma_dispatched(self@, event@);
            lemma_dispatch_none::<C>(payload@);
        }
        match self.find(event) {
            Some(b) => {
                let mut buckets = self.take_buckets();
                let mut listeners: Vec<Listener<C>> = Vec::new();
                std::mem::swap(&mut buckets[b].listeners, &mut listeners);
                let (kept, calls) = dispatch(listeners, &payload);
                buckets[b].listeners = kept;
                proof {
                    lemma_slot(before, b as int);
                    lemma_replace(before, buckets@, b as int);
                    if before[b as int].listeners@.len() == 0 {
                        assert(listener_views(before[b as int].listeners@) =~= Seq::empty());
                        assert(invocation_views(calls@).len() == calls@.len());
                        assert(view_of(buckets@) =~= view_of(before));
                    }
                }
                self.put_buckets(buckets);
                calls
            },
            None => {
                let calls: Vec<Invocation<C>> = Vec::new();
                assert(invocation_views(calls@) =~= Seq::empty());
                calls
            },
        }
    }

    /// Dispatches to the listeners under `event` the bytes that `encode`
    /// makes. Where nothing was ever registered under `event`, `encode` is not
    /// run and nothing happens. Else `encode` runs once, before any listener is
    /// looked at: its bytes are dispatched as by `emit`, and its error is
    /// handed back with the registry unchanged.
    pub fn emit_with<E, F>(&mut self, event: &str, encode: F) -> (r: Result<
        Vec<Invocation<C>>,
        E,
    >) where F: FnOnce() -> Result<Vec<u8>, E>
        requires
            call_requires(encode, ()),
        ensures
            valid(final(self)@),
            match r {
                Ok(calls) => if old(self)@.dom().contains(event@) {
                    exists|bytes: Vec<u8>| #[trigger]
                        call_ensures(encode, (), Ok::<Vec<u8>, E>(bytes)) && final(self)@
                            == dispatched(old(self)@, event@) && invocation_views(calls@)
                            == scheduled(old(self)@, event@, bytes@)
                } else {
                    calls@.len() == 0 && final(self)@ == old(self)@
                },
                Err(e) => old(self)@.dom().contains(event@) && call_ensures(
                    encode,
                    (),
                    Err::<Vec<u8>, E>(e),
                ) && final(self)@ == old(self)@,
            },
    {
        proof {
            use_type_invariant(&*self);
        }
        if self.listeners(event).is_none() {
            return Ok(Vec::new());
        }
        match encode() {
            Ok(bytes) => {
                let ghost made = bytes;
                let calls = self.emit(event, bytes);
                assert(call_ensures(encode, (), Ok::<Vec<u8>, E>(made)));
                Ok(calls)
            },
            Err(e) => Err(e),
        }
    }

    /// Dispatches `payload` to the listeners under `event` as `emit` does, and
    /// runs the calls that are due here and now: one after the other, in
    /// registration order, each to its end before the next begins. Returns
    /// what the callbacks came back with, in that order.
    pub fn sync_emit<R>(&mut self, event: &str, payload: Vec<u8>) -> (results: Vec<R>) where
        C: Fn(Vec<u8>) -> R,
        requires
            forall|i: int|
                0 <= i < bucket(old(self)@, event@).len() && fires(
                    #[trigger] bucket(old(self)@, event@)[i],
                ) ==> accepts(bucket(old(self)@, event@)[i].callback, payload@),
        ensures
            valid(final(self)@),
            final(self)@ == dispatched(old(self)@, event@),
            results@.len() == due(bucket(old(self)@, event@)).len(),
            forall|k: int|
                0 <= k < results@.len() ==> returned(
                    due(bucket(old(self)@, event@))[k].callback,
                    payload@,
                    #[trigger] results@[k],
                ),
    {
        let ghost listeners = bucket(self@, event@);
        let ghost sent = payload@;
        let calls = self.emit(event, payload);
        let mut results: Vec<R> = Vec::new();
        proof {
            lemma_calls_are_due(listeners, sent);
            assert(invocation_views(calls@).len() == calls@.len());
        }
        for call in it: calls
            invariant
                it.seq() == calls@,
                invocation_views(calls@) == due_calls(listeners, sent),
                forall|k: int|
                    0 <= k < due_calls(listeners, sent).len() ==> is_due_call(
                        listeners,
                        sent,
                        #[trigger] due_calls(listeners, sent)[k],
                    ),
                forall|i: int|
                    0 <= i < listeners.len() && fires(#[trigger] listeners[i]) ==> accepts(
                        listeners[i].callback,
                        sent,
                    ),
                results@.len() == it.index(),
                forall|k: int|
                    0 <= k < results@.len() ==> returned(
                        due(listeners)[k].callback,
                        sent,
                        #[trigger] results@[k],
                    ),
        {
            let ghost k = it.index() as int;
            assert(invocation_views(calls@).len() == calls@.len());
            assert(invocation_views(calls@)[k] == call@);
            assert(is_due_call(listeners, sent, due_calls(listeners, sent)[k]));
            assert(due_calls(listeners, sent)[k] == call_of(due(listeners)[k], sent));
            let result = call.run();
            results.push(result);
        }
        results
    }
}

impl<C> Default for EventEmitter<C> {
    /// An emitter without listeners.
    fn default() -> (e: EventEmitter<C>)
        ensures
            valid(e@),
            e@ == RegistryView::<C>::empty(),
    {
        EventEmitter::new()
    }
}

impl<C> EventEmitter<C> {
    /// Takes the buckets out, to be worked on and put back.
    fn take_buckets(&mut self) -> (buckets: Vec<Bucket<C>>)
        ensures
            buckets == old(self).buckets,
            final(self).buckets@.len() == 0,
    {
        let mut buckets: Vec<Bucket<C>> = Vec::new();
        proof {
            assert(ids_within(view_of(buckets@), 0));
        }
        std::mem::swap(&mut self.buckets, &mut buckets);
        buckets
    }

    /// Puts `buckets` in the place of the emitter's own.
    fn put_buckets(&mut self, buckets: Vec<Bucket<C>>)
        requires
            distinct_names(buckets@),
            valid(view_of(buckets@)),
        ensures
            final(self).buckets == buckets,
    {
        self.buckets = buckets;
    }

    /// The position of the bucket for `event`, if there is one.
    fn find(&self, event: &str) -> (r: Option<usize>)
        ensures
            match r {
                Some(b) => b < self.buckets.len() && self.buckets[b as int].name@ == event@,
                None => !named(self.buckets@, event@),
            },
    {
        let wanted = event.to_owned();
        let mut b: usize = 0;
        while b < self.buckets.len()
            invariant
                b <= self.buckets.len(),
                wanted@ == event@,
                forall|j: int| 0 <= j < b ==> self.buckets[j].name@ != event@,
            decreases self.buckets.len() - b,
        {
            if self.buckets[b].name == wanted {
                return Some(b);
            }
            b += 1;
        }
        None
    }

    /// Where the listener with the id `id` is stored, if there is one.
    fn locate(&self, id: &str) -> (r: Option<(usize, usize)>)
        ensures
            match r {
                Some((b, i)) => stored(self.buckets@, b as int, i as int)
                    && self.buckets[b as int].listeners[i as int]@.id == id@,
                None => forall|b: int, i: int| #[trigger]
                    stored(self.buckets@, b, i) ==> self.buckets[b].listeners[i]@.id != id@,
            },
    {
        let wanted = id.to_owned();
        let mut b: usize = 0;
        while b < self.buckets.len()
            invariant
                b <= self.buckets.len(),
                wanted@ == id@,
                forall|x: int, i: int| #[trigger]
                    stored(self.buckets@, x, i) && x < b ==> self.buckets[x].listeners[i]@.id
                        != id@,
            decreases self.buckets.len() - b,
        {
            let listeners = &self.buckets[b].listeners;
            let mut i: usize = 0;
            while i < listeners.len()
                invariant
                    b < self.buckets.len(),
                    listeners == &self.buckets[b as int].listeners,
                    i <= listeners.len(),
                    wanted@ == id@,
                    forall|j: int| 0 <= j < i ==> (#[trigger] listeners[j])@.id != id@,
                decreases listeners.len() - i,
            {
                if *listeners[i].id() == wanted {
                    return Some((b, i));
                }
                i += 1;
            }
            b += 1;
        }
        None
    }

    /// The length of the longest id in the registry, in characters.
    fn longest(&self) -> (n: usize)
        ensures
            is_longest(self@, n as nat),
    {
        proof {
            use_type_invariant(self);
        }
        let mut n: usize = 0;
        let mut b: usize = 0;
        while b < self.buckets.len()
            invariant
                b <= self.buckets.len(),
                forall|x: int, i: int| #[trigger]
                    stored(self.buckets@, x, i) && x < b ==> self.buckets[x].listeners[i]@.id.len()
                        <= n,
                n == 0 || exists|x: int, i: int| #[trigger]
                    stored(self.buckets@, x, i) && self.buckets[x].listeners[i]@.id.len() == n,
            decreases self.buckets.len() - b,
        {
            let listeners = &self.buckets[b].listeners;
            let mut i: usize = 0;
            while i < listeners.len()
                invariant
                    b < self.buckets.len(),
                    listeners == &self.buckets[b as int].listeners,
                    i <= listeners.len(),
                    forall|x: int, j: int| #[trigger]
                        stored(self.buckets@, x, j) && x < b
                            ==> self.buckets[x].listeners[j]@.id.len() <= n,
                    forall|j: int| 0 <= j < i ==> (#[trigger] listeners[j])@.id.len() <= n,
                    n == 0 || exists|x: int, j: int| #[trigger]
                        stored(self.buckets@, x, j) && self.buckets[x].listeners[j]@.id.len() == n,
                decreases listeners.len() - i,
            {
                let len = listeners[i].id().as_str().unicode_len();
                if len > n {
                    n = len;
                    assert(stored(self.buckets@, b as int, i as int));
                }
                i += 1;
            }
            b += 1;
        }
        proof {
            lemma_stored(self.buckets@);
            if n != 0 {
                let (x, i) = choose|x: int, i: int| #[trigger]
                    stored(self.buckets@, x, i) && self.buckets[x].listeners[i]@.id.len() == n;
                assert(holds(self@, self.buckets[x].name@, i));
            }
            assert forall|event: Seq<char>, i: int| #[trigger]
                holds(self@, event, i) implies self@[event][i].id.len() <= n by {
                assert(stored(self.buckets@, slot(self.buckets@, event), i));
            }
        }
        n
    }
}

/// No two buckets have the same name.
spec fn distinct_names<C>(bs: Seq<Bucket<C>>) -> bool {
    forall|a: int, b: int|
        0 <= a < bs.len() && 0 <= b < bs.len() && bs[a].name@ == bs[b].name@ ==> a == b
}

/// Some bucket has the name `name`.
spec fn named<C>(bs: Seq<Bucket<C>>, name: Seq<char>) -> bool {
    exists|b: int| 0 <= b < bs.len() && bs[b].name@ == name
}

/// The position of a bucket with the name `name`, if there is one.
spec fn slot<C>(bs: Seq<Bucket<C>>, name: Seq<char>) -> int {
    choose|b: int| 0 <= b < bs.len() && bs[b].name@ == name
}

/// The bucket at `b` has a listener at `i`.
spec fn stored<C>(bs: Seq<Bucket<C>>, b: int, i: int) -> bool {
    0 <= b < bs.len() && 0 <= i < bs[b].listeners@.len()
}

/// The registry that the buckets stand for.
spec fn view_of<C>(bs: Seq<Bucket<C>>) -> RegistryView<C> {
    Map::new(
        |name: Seq<char>| named(bs, name),
        |name: Seq<char>| listener_views(bs[slot(bs, name)].listeners@),
    )
}

/// The bucket at `b` is the one that its name leads to.
proof fn lemma_slot<C>(bs: Seq<Bucket<C>>, b: int)
    requires
        distinct_names(bs),
        0 <= b < bs.len(),
    ensures
        named(bs, bs[b].name@),
        slot(bs, bs[b].name@) == b,
        view_of(bs).dom().contains(bs[b].name@),
        view_of(bs)[bs[b].name@] == listener_views(bs[b].listeners@),
{
}

/// A name in the registry's domain leads to a bucket with that name.
proof fn lemma_named<C>(bs: Seq<Bucket<C>>, name: Seq<char>)
    requires
        distinct_names(bs),
        view_of(bs).dom().contains(name),
    ensures
        0 <= slot(bs, name) < bs.len(),
        bs[slot(bs, name)].name@ == name,
        view_of(bs)[name] == listener_views(bs[slot(bs, name)].listeners@),
{
}

/// The listeners of the registry are those in the buckets.
proof fn lemma_stored<C>(bs: Seq<Bucket<C>>)
    requires
        distinct_names(bs),
    ensures
        forall|b: int, i: int| #[trigger]
            stored(bs, b, i) ==> holds(view_of(bs), bs[b].name@, i) && view_of(bs)[bs[b].name@][i]
                == bs[b].listeners[i]@,
        forall|event: Seq<char>, i: int| #[trigger]
            holds(view_of(bs), event, i) ==> stored(bs, slot(bs, event), i) && view_of(
                bs,
            )[event][i] == bs[slot(bs, event)].listeners[i]@,
{
    assert forall|b: int, i: int| #[trigger] stored(bs, b, i) implies holds(
        view_of(bs),
        bs[b].name@,
        i,
    ) && view_of(bs)[bs[b].name@][i] == bs[b].listeners[i]@ by {
        lemma_slot(bs, b);
    }
    assert forall|event: Seq<char>, i: int| #[trigger] holds(view_of(bs), event, i) implies stored(
        bs,
        slot(bs, event),
        i,
    ) && view_of(bs)[event][i] == bs[slot(bs, event)].listeners[i]@ by {
        lemma_named(bs, event);
    }
}

/// Giving the bucket at `b` other listeners changes the registry under that
/// bucket's name, and nowhere else.
proof fn lemma_replace<C>(before: Seq<Bucket<C>>, after: Seq<Bucket<C>>, b: int)
    requires
        distinct_names(before),
        0 <= b < before.len(),
        after.len() == before.len(),
        forall|j: int| 0 <= j < before.len() ==> after[j].name@ == before[j].name@,
        forall|j: int|
            0 <= j < before.len() && j != b ==> after[j].listeners == before[j].listeners,
    ensures
        distinct_names(after),
        view_of(after) == view_of(before).insert(
            before[b].name@,
            listener_views(after[b].listeners@),
        ),
{
    let goal = view_of(before).insert(before[b].name@, listener_views(after[b].listeners@));
    assert forall|name: Seq<char>| named(after, name) == named(before, name) by {
        if named(before, name) {
            assert(after[slot(before, name)].name@ == name);
        }
        if named(after, name) {
            assert(before[slot(after, name)].name@ == name);
        }
    }
    assert forall|name: Seq<char>| #[trigger]
        view_of(after).dom().contains(name) implies view_of(after)[name] == goal[name] by {
        lemma_named(after, name);
        lemma_slot(before, slot(after, name));
    }
    assert(view_of(after) =~= goal);
}

/// A new bucket under a new name adds that name to the registry, with the
/// bucket's listeners.
proof fn lemma_append<C>(before: Seq<Bucket<C>>, bucket: Bucket<C>)
    requires
        distinct_names(before),
        !named(before, bucket.name@),
    ensures
        distinct_names(before.push(bucket)),
        view_of(before.push(bucket)) == view_of(before).insert(
            bucket.name@,
            listener_views(bucket.listeners@),
        ),
{
    let after = before.push(bucket);
    let goal = view_of(before).insert(bucket.name@, listener_views(bucket.listeners@));
    assert forall|name: Seq<char>|
        named(after, name) == (named(before, name) || name == bucket.name@) by {
        if named(before, name) {
            assert(after[slot(before, name)].name@ == name);
        }
        if name == bucket.name@ {
            assert(after[before.len() as int].name@ == name);
        }
        if named(after, name) && name != bucket.name@ {
            assert(before[slot(after, name)].name@ == name);
        }
    }
    assert forall|name: Seq<char>| #[trigger]
        view_of(after).dom().contains(name) implies view_of(after)[name] == goal[name] by {
        lemma_named(after, name);
        if name != bucket.name@ {
            lemma_slot(before, slot(after, name));
        }
    }
    assert(view_of(after) =~= goal);
}

} // verus!
