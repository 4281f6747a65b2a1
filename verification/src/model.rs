//! The registry as a mathematical value, and what each operation does to it.
//!
//! A registry is a map from event names to the listeners registered under
//! that name, in registration order. An event name is in the map's domain from
//! the first registration under it, and stays there when its last listener
//! leaves.

use crate::listener::{InvocationView, ListenerView};
use vstd::prelude::*;

verus! {

/// The registry's view: event name to listeners, in registration order.
pub type RegistryView<C> = Map<Seq<char>, Seq<ListenerView<C>>>;

/// `r` has a listener at position `i` under `event`.
pub open spec fn holds<C>(r: RegistryView<C>, event: Seq<char>, i: int) -> bool {
    r.dom().contains(event) && 0 <= i < r[event].len()
}

/// Some listener of `r` has the id `id`.
pub open spec fn has_id<C>(r: RegistryView<C>, id: Seq<char>) -> bool {
    exists|event: Seq<char>, i: int| #[trigger] holds(r, event, i) && r[event][i].id == id
}

/// No two listeners of `r` share an id, under whichever names they stand.
pub open spec fn unique_ids<C>(r: RegistryView<C>) -> bool {
    forall|e1: Seq<char>, i1: int, e2: Seq<char>, i2: int|
        #[trigger] holds(r, e1, i1) && #[trigger] holds(r, e2, i2) && r[e1][i1].id == r[e2][i2].id
            ==> e1 == e2 && i1 == i2
}

/// No id in `r` is longer than `n` characters.
pub open spec fn ids_within<C>(r: RegistryView<C>, n: nat) -> bool {
    forall|event: Seq<char>, i: int| #[trigger] holds(r, event, i) ==> r[event][i].id.len() <= n
}

/// A registry is valid if no two of its listeners share an id and no id is
/// longer than some bound. The registry of every emitter is.
pub open spec fn valid<C>(r: RegistryView<C>) -> bool {
    unique_ids(r) && exists|n: nat| ids_within(r, n)
}

/// Where the listener with the id `id` stands, if `r` has one: the name it is
/// under and its position there.
pub open spec fn place<C>(r: RegistryView<C>, id: Seq<char>) -> (Seq<char>, int) {
    choose|event: Seq<char>, i: int| #[trigger] holds(r, event, i) && r[event][i].id == id
}

/// The listeners under `event`; none if the name is unknown.
pub open spec fn bucket<C>(r: RegistryView<C>, event: Seq<char>) -> Seq<ListenerView<C>> {
    if r.dom().contains(event) {
        r[event]
    } else {
        Seq::empty()
    }
}

/// `r` after `l` was registered under `event`: `l` stands last under that name.
pub open spec fn registered<C>(
    r: RegistryView<C>,
    event: Seq<char>,
    l: ListenerView<C>,
) -> RegistryView<C> {
    r.insert(event, bucket(r, event).push(l))
}

/// `r` after the listener with the id `id` was removed; `r` itself if there is
/// none. The listeners behind it under the same name move up by one.
pub open spec fn removed<C>(r: RegistryView<C>, id: Seq<char>) -> RegistryView<C> {
    if has_id(r, id) {
        let p = place(r, id);
        r.insert(p.0, r[p.0].remove(p.1))
    } else {
        r
    }
}

/// Some listener in `s` has the id `id`.
pub open spec fn lists_id<C>(s: Seq<ListenerView<C>>, id: Seq<char>) -> bool {
    exists|i: int| 0 <= i < s.len() && #[trigger] s[i].id == id
}

/// No two listeners in `s` share an id.
pub open spec fn distinct_ids<C>(s: Seq<ListenerView<C>>) -> bool {
    forall|i: int, j: int|
        0 <= i < s.len() && 0 <= j < s.len() && #[trigger] s[i].id == #[trigger] s[j].id ==> i == j
}

/// A dispatch calls `l`: it calls every listener but one that has no calls left.
pub open spec fn fires<C>(l: ListenerView<C>) -> bool {
    l.limit != Some(0u64)
}

/// `l` is still registered after a dispatch: it has no limit, or more than
/// one call left.
pub open spec fn stays<C>(l: ListenerView<C>) -> bool {
    match l.limit {
        None => true,
        Some(n) => n > 1,
    }
}

/// `l` with one call fewer left; unchanged if it has no limit or none left.
pub open spec fn spent<C>(l: ListenerView<C>) -> ListenerView<C> {
    ListenerView {
        id: l.id,
        limit: match l.limit {
            None => None,
            Some(n) => Some(
                if n > 0 {
                    (n - 1) as u64
                } else {
                    0
                },
            ),
        },
        callback: l.callback,
    }
}

/// The call that is due to `l` when `payload` is dispatched.
pub open spec fn call_of<C>(l: ListenerView<C>, payload: Seq<u8>) -> InvocationView<C> {
    InvocationView { listener: l.id, callback: l.callback, payload }
}

/// `v` is the call due to one of the listeners of `s` that a dispatch of
/// `payload` calls.
pub open spec fn is_due_call<C>(
    s: Seq<ListenerView<C>>,
    payload: Seq<u8>,
    v: InvocationView<C>,
) -> bool {
    exists|i: int| 0 <= i < s.len() && fires(#[trigger] s[i]) && v == call_of(s[i], payload)
}

/// The listeners of `s` that a dispatch calls, in order.
pub open spec fn due<C>(s: Seq<ListenerView<C>>) -> Seq<ListenerView<C>> {
    s.filter(|l: ListenerView<C>| fires(l))
}

/// The calls that a dispatch of `payload` to `s` hands out, in order.
pub open spec fn due_calls<C>(s: Seq<ListenerView<C>>, payload: Seq<u8>) -> Seq<
    InvocationView<C>,
> {
    due(s).map_values(|l: ListenerView<C>| call_of(l, payload))
}

/// What is left of `s` after a dispatch: the listeners that stay, in order,
/// each with one call fewer.
pub open spec fn survivors<C>(s: Seq<ListenerView<C>>) -> Seq<ListenerView<C>> {
    s.filter(|l: ListenerView<C>| stays(l)).map_values(|l: ListenerView<C>| spent(l))
}

/// `r` after one dispatch to `event`; `r` itself if the name is unknown.
pub open spec fn dispatched<C>(r: RegistryView<C>, event: Seq<char>) -> RegistryView<C> {
    if r.dom().contains(event) {
        r.insert(event, survivors(r[event]))
    } else {
        r
    }
}

/// The calls that a dispatch of `payload` to `event` hands out.
pub open spec fn scheduled<C>(
    r: RegistryView<C>,
    event: Seq<char>,
    payload: Seq<u8>,
) -> Seq<InvocationView<C>> {
    due_calls(bucket(r, event), payload)
}

/// `r` after `k` dispatches to `event` in a row.
pub open spec fn dispatched_times<C>(r: RegistryView<C>, event: Seq<char>, k: nat) -> RegistryView<
    C,
>
    decreases k,
{
    if k == 0 {
        r
    } else {
        dispatched_times(dispatched(r, event), event, (k - 1) as nat)
    }
}

/// How many of the calls in `s` go to the listener with the id `id`.
pub open spec fn calls_to<C>(s: Seq<InvocationView<C>>, id: Seq<char>) -> nat {
    s.filter(|v: InvocationView<C>| v.listener == id).len()
}

/// How many calls go to the listener with the id `id` over `k` dispatches of
/// `payload` to `event` in a row.
pub open spec fn calls_over<C>(
    r: RegistryView<C>,
    event: Seq<char>,
    payload: Seq<u8>,
    id: Seq<char>,
    k: nat,
) -> nat
    decreases k,
{
    if k == 0 {
        0
    } else {
        calls_to(scheduled(r, event, payload), id) + calls_over(
            dispatched(r, event),
            event,
            payload,
            id,
            (k - 1) as nat,
        )
    }
}

} // verus!
