//! One dispatch to the listeners of one event, and what holds of it.

use crate::listener::{
    invocation_views, listener_views, Invocation, InvocationView, Listener, ListenerView,
};
use crate::model::{
    call_of, calls_to, distinct_ids, due, due_calls, fires, is_due_call, lists_id, spent, stays,
    survivors,
};
use vstd::prelude::*;

verus! {

/// Dispatches `payload` to `listeners`, in order. A listener with no calls
/// left is dropped without a call. Every other listener gets one call, and
/// stays, with one call fewer, unless that was its last. Returns the
/// listeners that stay and the calls that are due, both in the order of
/// `listeners`.
pub fn dispatch<C>(listeners: Vec<Listener<C>>, payload: &Vec<u8>) -> (r: (
    Vec<Listener<C>>,
    Vec<Invocation<C>>,
))
    ensures
        listener_views(r.0@) == survivors(listener_views(listeners@)),
        invocation_views(r.1@) == due_calls(listener_views(listeners@), payload@),
{
    let mut kept: Vec<Listener<C>> = Vec::new();
    let mut calls: Vec<Invocation<C>> = Vec::new();
    proof {
        lemma_dispatch_none::<C>(payload@);
    }
    for listener in it: listeners
        invariant
            it.seq() == listeners@,
            listener_views(kept@) == survivors(listener_views(it.seq().take(it.index() as int))),
            invocation_views(calls@) == due_calls(
                listener_views(it.seq().take(it.index() as int)),
                payload@,
            ),
    {
        proof {
            let seen = it.seq().take(it.index() as int);
            assert(it.seq().take(it.index() + 1) =~= seen.push(listener));
            assert(listener_views(seen.push(listener)) =~= listener_views(seen).push(listener@));
            lemma_dispatch_push(listener_views(seen), listener@, payload@);
        }
        let limit = listener.limit();
        if limit != Some(0) {
            let call = listener.invocation(payload);
            calls.push(call);
            if limit.is_none() || limit.unwrap() > 1 {
                let left = listener.spend();
                kept.push(left);
            }
        }
    }
    proof {
        assert(listeners@.take(listeners@.len() as int) =~= listeners@);
    }
    (kept, calls)
}

/// A dispatch to no listeners hands out no calls and leaves no listeners.
pub proof fn lemma_dispatch_none<C>(payload: Seq<u8>)
    ensures
        due(Seq::<ListenerView<C>>::empty()) == Seq::<ListenerView<C>>::empty(),
        due_calls(Seq::<ListenerView<C>>::empty(), payload) == Seq::<InvocationView<C>>::empty(),
        survivors(Seq::<ListenerView<C>>::empty()) == Seq::<ListenerView<C>>::empty(),
{
    reveal(Seq::filter);
}

/// A dispatch treats the listeners one after the other: what it does to `s`
/// followed by `l` is what it does to `s`, followed by what it does to `l`.
pub proof fn lemma_dispatch_push<C>(s: Seq<ListenerView<C>>, l: ListenerView<C>, payload: Seq<u8>)
    ensures
        due(s.push(l)) == if fires(l) {
            due(s).push(l)
        } else {
            due(s)
        },
        due_calls(s.push(l), payload) == if fires(l) {
            due_calls(s, payload).push(call_of(l, payload))
        } else {
            due_calls(s, payload)
        },
        survivors(s.push(l)) == if stays(l) {
            survivors(s).push(spent(l))
        } else {
            survivors(s)
        },
{
    broadcast use Seq::lemma_filter_push;

}

/// Counting the calls to one listener, call by call.
pub proof fn lemma_calls_to_push<C>(s: Seq<InvocationView<C>>, v: InvocationView<C>, id: Seq<char>)
    ensures
        calls_to(s.push(v), id) == calls_to(s, id) + if v.listener == id {
            1nat
        } else {
            0nat
        },
{
    broadcast use Seq::lemma_filter_push;

}

/// Among no calls, none goes to `id`.
pub proof fn lemma_calls_to_none<C>(id: Seq<char>)
    ensures
        calls_to(Seq::<InvocationView<C>>::empty(), id) == 0,
{
    reveal(Seq::filter);
}

/// Where no two listeners of a sequence share an id, none do when the last
/// listener is left out, and none of the others has the id of the last.
pub proof fn lemma_distinct_drop_last<C>(s: Seq<ListenerView<C>>)
    requires
        distinct_ids(s),
        s.len() > 0,
    ensures
        distinct_ids(s.drop_last()),
        !lists_id(s.drop_last(), s.last().id),
{
}

/// The listeners that a dispatch leaves are listeners that were there, each
/// under its old id, and no two of them share an id if no two did before.
pub proof fn lemma_survivors_ids<C>(s: Seq<ListenerView<C>>)
    ensures
        survivors(s).len() <= s.len(),
        forall|j: int| 0 <= j < survivors(s).len() ==> lists_id(s, #[trigger] survivors(s)[j].id),
        distinct_ids(s) ==> distinct_ids(survivors(s)),
    decreases s.len(),
{
    if s.len() == 0 {
        lemma_dispatch_none::<C>(Seq::empty());
    } else {
        let t = s.drop_last();
        let l = s.last();
        assert(s =~= t.push(l));
        lemma_dispatch_push(t, l, Seq::empty());
        lemma_survivors_ids(t);
        if distinct_ids(s) {
            lemma_distinct_drop_last(s);
        }
    }
}

/// Every call of a dispatch is the call due to one of the listeners that
/// have a call left: it goes to that listener's callback and carries the
/// dispatched bytes.
pub proof fn lemma_calls_are_due<C>(s: Seq<ListenerView<C>>, payload: Seq<u8>)
    ensures
        due_calls(s, payload).len() <= s.len(),
        forall|k: int|
            0 <= k < due_calls(s, payload).len() ==> is_due_call(
                s,
                payload,
                #[trigger] due_calls(s, payload)[k],
            ),
    decreases s.len(),
{
    if s.len() == 0 {
        lemma_dispatch_none::<C>(payload);
    } else {
        let t = s.drop_last();
        let l = s.last();
        assert(s =~= t.push(l));
        lemma_dispatch_push(t, l, payload);
        lemma_calls_are_due(t, payload);
    }
}

/// A dispatch calls every listener that has a call left, with the
/// dispatched bytes.
pub proof fn lemma_listener_called<C>(s: Seq<ListenerView<C>>, payload: Seq<u8>, i: int)
    requires
        0 <= i < s.len(),
        fires(s[i]),
    ensures
        exists|a: int|
            0 <= a < due_calls(s, payload).len() && #[trigger] due_calls(s, payload)[a] == call_of(
                s[i],
                payload,
            ),
    decreases s.len(),
{
    let t = s.drop_last();
    let l = s.last();
    assert(s =~= t.push(l));
    lemma_dispatch_push(t, l, payload);
    if i == s.len() - 1 {
        let a = due_calls(t, payload).len() as int;
        assert(due_calls(s, payload)[a] == call_of(s[i], payload));
    } else {
        lemma_listener_called(t, payload, i);
        let a = choose|a: int|
            0 <= a < due_calls(t, payload).len() && #[trigger] due_calls(t, payload)[a] == call_of(
                t[i],
                payload,
            );
        assert(due_calls(s, payload)[a] == call_of(s[i], payload));
    }
}

/// The calls of a dispatch come in the order of the listeners: of two
/// listeners that have a call left, the one that stands first is called
/// first.
pub proof fn lemma_calls_in_order<C>(s: Seq<ListenerView<C>>, payload: Seq<u8>, i: int, j: int)
    requires
        0 <= i < j < s.len(),
        fires(s[i]),
        fires(s[j]),
    ensures
        exists|a: int, b: int|
            0 <= a < b < due_calls(s, payload).len() && #[trigger] due_calls(s, payload)[a]
                == call_of(s[i], payload) && #[trigger] due_calls(s, payload)[b] == call_of(
                s[j],
                payload,
            ),
    decreases s.len(),
{
    let t = s.drop_last();
    let l = s.last();
    assert(s =~= t.push(l));
    lemma_dispatch_push(t, l, payload);
    if j == s.len() - 1 {
        lemma_listener_called(t, payload, i);
        let a = choose|a: int|
            0 <= a < due_calls(t, payload).len() && #[trigger] due_calls(t, payload)[a] == call_of(
                t[i],
                payload,
            );
        let b = due_calls(t, payload).len() as int;
        assert(due_calls(s, payload)[a] == call_of(s[i], payload));
        assert(due_calls(s, payload)[b] == call_of(s[j], payload));
    } else {
        lemma_calls_in_order(t, payload, i, j);
        let (a, b) = choose|a: int, b: int|
            0 <= a < b < due_calls(t, payload).len() && #[trigger] due_calls(t, payload)[a]
                == call_of(t[i], payload) && #[trigger] due_calls(t, payload)[b] == call_of(
                t[j],
                payload,
            );
        assert(due_calls(s, payload)[a] == call_of(s[i], payload));
        assert(due_calls(s, payload)[b] == call_of(s[j], payload));
    }
}

/// A dispatch hands out no call to an id that no listener has, and leaves no
/// listener with that id.
pub proof fn lemma_dispatch_absent<C>(s: Seq<ListenerView<C>>, id: Seq<char>, payload: Seq<u8>)
    requires
        !lists_id(s, id),
    ensures
        calls_to(due_calls(s, payload), id) == 0,
        !lists_id(survivors(s), id),
    decreases s.len(),
{
    lemma_survivors_ids(s);
    if s.len() == 0 {
        lemma_dispatch_none::<C>(payload);
        lemma_calls_to_none::<C>(id);
    } else {
        let t = s.drop_last();
        let l = s.last();
        assert(s =~= t.push(l));
        lemma_dispatch_push(t, l, payload);
        lemma_dispatch_absent(t, id, payload);
        lemma_calls_to_push(due_calls(t, payload), call_of(l, payload), id);
    }
}

/// What one dispatch does to one listener, where no two listeners share an
/// id: it gets one call, unless it had no calls left; and it stays, with one
/// call fewer, unless it had at most one call left.
pub proof fn lemma_dispatch_listener<C>(s: Seq<ListenerView<C>>, i: int, payload: Seq<u8>)
    requires
        distinct_ids(s),
        0 <= i < s.len(),
    ensures
        calls_to(due_calls(s, payload), s[i].id) == if fires(s[i]) {
            1nat
        } else {
            0nat
        },
        stays(s[i]) ==> exists|j: int|
            0 <= j < survivors(s).len() && #[trigger] survivors(s)[j] == spent(s[i]),
        !stays(s[i]) ==> !lists_id(survivors(s), s[i].id),
    decreases s.len(),
{
    let t = s.drop_last();
    let l = s.last();
    let id = s[i].id;
    assert(s =~= t.push(l));
    lemma_dispatch_push(t, l, payload);
    lemma_calls_to_push(due_calls(t, payload), call_of(l, payload), id);
    lemma_distinct_drop_last(s);
    if i == s.len() - 1 {
        lemma_dispatch_absent(t, id, payload);
        if stays(l) {
            assert(survivors(s)[survivors(s).len() - 1] == spent(s[i]));
        }
    } else {
        lemma_dispatch_listener(t, i, payload);
        if stays(s[i]) {
            let j = choose|j: int|
                0 <= j < survivors(t).len() && #[trigger] survivors(t)[j] == spent(t[i]);
            assert(survivors(s)[j] == spent(s[i]));
        }
    }
}

} // verus!
