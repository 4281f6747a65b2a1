//! What holds of registering, removing and dispatching, in every valid
//! registry.

use crate::dispatch::{
    lemma_dispatch_absent, lemma_dispatch_listener, lemma_dispatch_none, lemma_survivors_ids,
};
use crate::ident::{lemma_unused_id, unused_id};
use crate::listener::ListenerView;
use crate::model::{
    bucket, calls_over, calls_to, dispatched, dispatched_times, distinct_ids, has_id, holds,
    ids_within, lists_id, place, registered, removed, scheduled, spent, survivors, unique_ids,
    valid, RegistryView,
};
use vstd::prelude::*;

verus! {

/// Where no two listeners of a registry share an id, none do under one name.
pub proof fn lemma_unique_in_bucket<C>(r: RegistryView<C>, event: Seq<char>)
    requires
        unique_ids(r),
    ensures
        distinct_ids(bucket(r, event)),
{
    let s = bucket(r, event);
    assert forall|i: int, j: int|
        0 <= i < s.len() && 0 <= j < s.len() && #[trigger] s[i].id == #[trigger] s[j].id implies i
        == j by {
        assert(holds(r, event, i) && holds(r, event, j));
    }
}

/// An id that a listener under `event` has is an id of the registry.
pub proof fn lemma_has_id_in_bucket<C>(r: RegistryView<C>, event: Seq<char>, id: Seq<char>)
    requires
        lists_id(bucket(r, event), id),
    ensures
        has_id(r, id),
{
    let s = bucket(r, event);
    let i = choose|i: int| 0 <= i < s.len() && #[trigger] s[i].id == id;
    assert(holds(r, event, i) && r[event][i].id == id);
}

/// Where no two listeners share an id, the listener with a given id stands
/// in one place only.
pub proof fn lemma_place<C>(r: RegistryView<C>, event: Seq<char>, i: int)
    requires
        unique_ids(r),
        holds(r, event, i),
    ensures
        has_id(r, r[event][i].id),
        place(r, r[event][i].id) == (event, i),
{
}

/// Registering a listener whose id no listener has leaves the registry
/// valid. The registry then has that id, and otherwise the ids it had.
pub proof fn lemma_registered<C>(r: RegistryView<C>, event: Seq<char>, l: ListenerView<C>)
    requires
        valid(r),
        !has_id(r, l.id),
    ensures
        valid(registered(r, event, l)),
        has_id(registered(r, event, l), l.id),
        forall|id: Seq<char>| id != l.id ==> has_id(registered(r, event, l), id) == has_id(r, id),
{
    let after = registered(r, event, l);
    let n = bucket(r, event).len() as int;
    assert(holds(after, event, n) && after[event][n].id == l.id);
    // Every place of `after` but the new one is a place of `r`, and the other way round.
    assert forall|e: Seq<char>, i: int| #[trigger] holds(after, e, i) implies (e == event && i == n)
        || (holds(r, e, i) && r[e][i] == after[e][i]) by {}
    assert forall|e: Seq<char>, i: int| #[trigger] holds(r, e, i) implies holds(after, e, i)
        && r[e][i] == after[e][i] by {}
    let bound = choose|b: nat| ids_within(r, b);
    let wider = if l.id.len() > bound {
        l.id.len()
    } else {
        bound
    };
    assert(ids_within(after, wider));
}

/// Removing a listener by its id leaves the registry valid. The registry
/// then lacks that id, and otherwise has the ids and the event names it had.
pub proof fn lemma_removed<C>(r: RegistryView<C>, id: Seq<char>)
    requires
        valid(r),
    ensures
        valid(removed(r, id)),
        !has_id(removed(r, id), id),
        removed(r, id).dom() == r.dom(),
        forall|other: Seq<char>| other != id ==> has_id(removed(r, id), other) == has_id(r, other),
{
    let after = removed(r, id);
    if has_id(r, id) {
        let (gone, at) = place(r, id);
        // Each place of `after` is a place of `r`: behind the gap, the next one.
        let back = |e: Seq<char>, i: int|
            if e == gone && i >= at {
                i + 1
            } else {
                i
            };
        assert forall|e: Seq<char>, i: int| #[trigger] holds(after, e, i) implies holds(
            r,
            e,
            back(e, i),
        ) && r[e][back(e, i)] == after[e][i] && (e, back(e, i)) != (gone, at) by {}
        // And each place of `r` but that of the listener is a place of `after`.
        assert forall|other: Seq<char>| other != id && has_id(r, other) implies has_id(
            after,
            other,
        ) by {
            let (e, i) = place(r, other);
            let j = if e == gone && i > at {
                i - 1
            } else {
                i
            };
            assert(holds(after, e, j) && after[e][j].id == other);
        }
        let bound = choose|b: nat| ids_within(r, b);
        assert(ids_within(after, bound));
    }
}

/// A dispatch brings no new id into the registry, and no new event name.
pub proof fn lemma_dispatched_ids<C>(r: RegistryView<C>, event: Seq<char>)
    ensures
        dispatched(r, event).dom() == r.dom(),
        forall|id: Seq<char>| has_id(dispatched(r, event), id) ==> has_id(r, id),
{
    let after = dispatched(r, event);
    assert forall|id: Seq<char>| has_id(after, id) implies has_id(r, id) by {
        let (e, i) = place(after, id);
        if e == event {
            lemma_survivors_ids(r[event]);
            lemma_has_id_in_bucket(r, event, id);
        } else {
            assert(holds(r, e, i));
        }
    }
}

/// A dispatch leaves the registry valid.
pub proof fn lemma_dispatched<C>(r: RegistryView<C>, event: Seq<char>)
    requires
        valid(r),
    ensures
        valid(dispatched(r, event)),
{
    let after = dispatched(r, event);
    if r.dom().contains(event) {
        lemma_survivors_ids(r[event]);
        lemma_unique_in_bucket(r, event);
        // Each listener of `after` has the id of a listener of `r` under the same name.
        assert forall|e: Seq<char>, i: int| #[trigger] holds(after, e, i) implies exists|j: int|
            #[trigger] holds(r, e, j) && r[e][j].id == after[e][i].id by {
            if e == event {
                let j = choose|j: int|
                    0 <= j < r[event].len() && #[trigger] r[event][j].id == after[e][i].id;
                assert(holds(r, e, j));
            } else {
                assert(holds(r, e, i));
            }
        }
        assert forall|e1: Seq<char>, i1: int, e2: Seq<char>, i2: int|
            #[trigger] holds(after, e1, i1) && #[trigger] holds(after, e2, i2) && after[e1][i1].id
                == after[e2][i2].id implies e1 == e2 && i1 == i2 by {
            if e1 != event {
                assert(holds(r, e1, i1) && holds(r, e2, i2));
            }
        }
        let bound = choose|b: nat| ids_within(r, b);
        assert(ids_within(after, bound));
    }
}

/// Any number of dispatches in a row leaves the registry valid.
pub proof fn lemma_dispatched_times<C>(r: RegistryView<C>, event: Seq<char>, k: nat)
    requires
        valid(r),
    ensures
        valid(dispatched_times(r, event, k)),
    decreases k,
{
    if k > 0 {
        lemma_dispatched(r, event);
        lemma_dispatched_times(dispatched(r, event), event, (k - 1) as nat);
    }
}

/// Whatever is drawn for them, two listeners registered one after the other
/// get different ids.
pub proof fn lemma_new_ids_differ<C>(
    r: RegistryView<C>,
    first: Seq<char>,
    event: Seq<char>,
    l: ListenerView<C>,
    second: Seq<char>,
)
    requires
        valid(r),
        l.id == unused_id(r, first),
    ensures
        !has_id(r, l.id),
        unused_id(registered(r, event, l), second) != l.id,
{
    lemma_unused_id(r, first);
    lemma_registered(r, event, l);
    lemma_unused_id(registered(r, event, l), second);
}

/// Removing a listener right after it was registered undoes the
/// registration: the listeners under its event are those from before, one
/// fewer than with it, and the id is gone, so that removing it once more
/// finds nothing and changes nothing.
pub proof fn lemma_remove_after_register<C>(
    r: RegistryView<C>,
    event: Seq<char>,
    l: ListenerView<C>,
)
    requires
        valid(r),
        !has_id(r, l.id),
    ensures
        removed(registered(r, event, l), l.id) == r.insert(event, bucket(r, event)),
        bucket(removed(registered(r, event, l), l.id), event) == bucket(r, event),
        bucket(removed(registered(r, event, l), l.id), event).len() + 1 == bucket(
            registered(r, event, l),
            event,
        ).len(),
        !has_id(removed(registered(r, event, l), l.id), l.id),
        removed(removed(registered(r, event, l), l.id), l.id) == removed(
            registered(r, event, l),
            l.id,
        ),
{
    let with = registered(r, event, l);
    let n = bucket(r, event).len() as int;
    lemma_registered(r, event, l);
    lemma_place(with, event, n);
    lemma_removed(with, l.id);
    assert(with[event].remove(n) =~= bucket(r, event));
}

/// A dispatch to an event that has no listeners hands out no calls and
/// changes nothing, whether the event's name is known or not.
pub proof fn lemma_dispatch_to_nobody<C>(r: RegistryView<C>, event: Seq<char>, payload: Seq<u8>)
    requires
        bucket(r, event).len() == 0,
    ensures
        scheduled(r, event, payload).len() == 0,
        dispatched(r, event) == r,
{
    lemma_dispatch_none::<C>(payload);
    assert(bucket(r, event) =~= Seq::empty());
}

/// An id that no listener has gets no call, however often an event is
/// dispatched, and no dispatch brings it into the registry.
pub proof fn lemma_absent_gets_no_call<C>(
    r: RegistryView<C>,
    event: Seq<char>,
    payload: Seq<u8>,
    id: Seq<char>,
    k: nat,
)
    requires
        !has_id(r, id),
    ensures
        calls_over(r, event, payload, id, k) == 0,
        !has_id(dispatched_times(r, event, k), id),
    decreases k,
{
    if k > 0 {
        if lists_id(bucket(r, event), id) {
            lemma_has_id_in_bucket(r, event, id);
        }
        lemma_dispatch_absent(bucket(r, event), id, payload);
        lemma_dispatched_ids(r, event);
        lemma_absent_gets_no_call(dispatched(r, event), event, payload, id, (k - 1) as nat);
    }
}

/// A listener with `n` calls left gets exactly `n` calls over `n` or more
/// dispatches to its event in a row, and is gone from the registry from its
/// last call on (from the first dispatch on, if it has no calls left).
pub proof fn lemma_limited_listener<C>(
    r: RegistryView<C>,
    event: Seq<char>,
    i: int,
    payload: Seq<u8>,
    n: u64,
    k: nat,
)
    requires
        valid(r),
        holds(r, event, i),
        r[event][i].limit == Some(n),
        k >= n,
    ensures
        calls_over(r, event, payload, r[event][i].id, k) == n,
        k >= 1 ==> !has_id(dispatched_times(r, event, k), r[event][i].id),
    decreases k,
{
    if k > 0 {
        let l = r[event][i];
        let after = dispatched(r, event);
        lemma_unique_in_bucket(r, event);
        lemma_dispatch_listener(r[event], i, payload);
        lemma_dispatched(r, event);
        if n >= 2 {
            let j = choose|j: int|
                0 <= j < survivors(r[event]).len() && #[trigger] survivors(r[event])[j] == spent(l);
            lemma_limited_listener(after, event, j, payload, (n - 1) as u64, (k - 1) as nat);
        } else {
            assert(!has_id(after, l.id)) by {
                if has_id(after, l.id) {
                    let (e, j) = place(after, l.id);
                    if e != event {
                        assert(holds(r, e, j));
                    }
                }
            }
            lemma_absent_gets_no_call(after, event, payload, l.id, (k - 1) as nat);
        }
    }
}

/// A listener registered for one call gets exactly one call, at the first
/// dispatch to its event, and is gone from the registry after it: it fares
/// as any listener with one call left.
pub proof fn lemma_once_listener<C>(
    r: RegistryView<C>,
    event: Seq<char>,
    i: int,
    payload: Seq<u8>,
    k: nat,
)
    requires
        valid(r),
        holds(r, event, i),
        r[event][i].limit == Some(1u64),
        k >= 1,
    ensures
        calls_to(scheduled(r, event, payload), r[event][i].id) == 1,
        !has_id(dispatched(r, event), r[event][i].id),
        calls_over(r, event, payload, r[event][i].id, k) == 1,
        !has_id(dispatched_times(r, event, k), r[event][i].id),
{
    lemma_limited_listener(r, event, i, payload, 1, k);
    lemma_limited_listener(r, event, i, payload, 1, 1);
    assert(dispatched_times(r, event, 1) == dispatched(r, event)) by {
        reveal_with_fuel(dispatched_times, 2);
    }
    assert(calls_over(r, event, payload, r[event][i].id, 1) == calls_to(
        scheduled(r, event, payload),
        r[event][i].id,
    )) by {
        reveal_with_fuel(calls_over, 2);
    }
}

/// A listener without a limit gets one call at every dispatch to its event
/// and stays in the registry.
pub proof fn lemma_unlimited_listener<C>(
    r: RegistryView<C>,
    event: Seq<char>,
    i: int,
    payload: Seq<u8>,
    k: nat,
)
    requires
        valid(r),
        holds(r, event, i),
        r[event][i].limit is None,
    ensures
        calls_over(r, event, payload, r[event][i].id, k) == k,
        has_id(dispatched_times(r, event, k), r[event][i].id),
    decreases k,
{
    if k > 0 {
        let after = dispatched(r, event);
        lemma_unique_in_bucket(r, event);
        lemma_dispatch_listener(r[event], i, payload);
        lemma_dispatched(r, event);
        let j = choose|j: int|
            0 <= j < survivors(r[event]).len() && #[trigger] survivors(r[event])[j] == spent(
                r[event][i],
            );
        lemma_unlimited_listener(after, event, j, payload, (k - 1) as nat);
    }
}

/// Once a listener is removed, no dispatch hands out a call to it. Calls
/// handed out before are values of their own, which the removal does not
/// touch.
pub proof fn lemma_removed_gets_no_call<C>(
    r: RegistryView<C>,
    id: Seq<char>,
    event: Seq<char>,
    payload: Seq<u8>,
    k: nat,
)
    requires
        valid(r),
    ensures
        calls_to(scheduled(removed(r, id), event, payload), id) == 0,
        calls_over(removed(r, id), event, payload, id, k) == 0,
{
    let after = removed(r, id);
    lemma_removed(r, id);
    lemma_absent_gets_no_call(after, event, payload, id, k);
    if lists_id(bucket(after, event), id) {
        lemma_has_id_in_bucket(after, event, id);
    }
    lemma_dispatch_absent(bucket(after, event), id, payload);
}

} // verus!
