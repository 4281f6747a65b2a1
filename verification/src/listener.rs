//! Listeners, the calls that are due to them, and their mathematical views.

use crate::model::{call_of, spent};
use std::sync::Arc;
use vstd::prelude::*;

verus! {

/// What a listener is, as a value: its id, the number of calls it has left
/// (`None` for a listener without a limit) and its callback.
pub struct ListenerView<C> {
    pub id: Seq<char>,
    pub limit: Option<u64>,
    pub callback: C,
}

/// One call that is due: the id of the listener it goes to, that listener's
/// callback, and the bytes the callback is to be run on.
pub struct InvocationView<C> {
    pub listener: Seq<char>,
    pub callback: C,
    pub payload: Seq<u8>,
}

/// A callback with its id and the number of calls it has left.
pub struct Listener<C> {
    id: String,
    limit: Option<u64>,
    callback: Arc<C>,
}

/// A call handed out by a dispatch, ready to be run by whoever received it.
pub struct Invocation<C> {
    listener: String,
    callback: Arc<C>,
    payload: Vec<u8>,
}

impl<C> View for Listener<C> {
    type V = ListenerView<C>;

    closed spec fn view(&self) -> ListenerView<C> {
        ListenerView { id: self.id@, limit: self.limit, callback: *self.callback }
    }
}

impl<C> View for Invocation<C> {
    type V = InvocationView<C>;

    closed spec fn view(&self) -> InvocationView<C> {
        InvocationView {
            listener: self.listener@,
            callback: *self.callback,
            payload: self.payload@,
        }
    }
}

/// The views of a sequence of listeners, in the same order.
pub open spec fn listener_views<C>(s: Seq<Listener<C>>) -> Seq<ListenerView<C>> {
    s.map_values(|l: Listener<C>| l@)
}

/// The views of a sequence of invocations, in the same order.
pub open spec fn invocation_views<C>(s: Seq<Invocation<C>>) -> Seq<InvocationView<C>> {
    s.map_values(|v: Invocation<C>| v@)
}

/// `callback` may be called on the bytes `payload`.
pub open spec fn accepts<R, C: Fn(Vec<u8>) -> R>(callback: C, payload: Seq<u8>) -> bool {
    forall|bytes: Vec<u8>| bytes@ == payload ==> #[trigger] call_requires(callback, (bytes,))
}

/// `result` is what a call of `callback` on the bytes `payload` has come
/// back with.
pub open spec fn returned<R, C: Fn(Vec<u8>) -> R>(
    callback: C,
    payload: Seq<u8>,
    result: R,
) -> bool {
    exists|bytes: Vec<u8>| bytes@ == payload && #[trigger] call_ensures(callback, (bytes,), result)
}

impl<C> Listener<C> {
    /// A listener with the given id, limit and callback.
    pub fn new(id: String, limit: Option<u64>, callback: C) -> (l: Listener<C>)
        ensures
            l@ == (ListenerView { id: id@, limit, callback }),
    {
        Listener { id, limit, callback: Arc::new(callback) }
    }

    /// The listener's id.
    pub fn id(&self) -> (r: &String)
        ensures
            r@ == self@.id,
    {
        &self.id
    }

    /// The number of calls the listener has left; `None` if it has no limit.
    pub fn limit(&self) -> (r: Option<u64>)
        ensures
            r == self@.limit,
    {
        self.limit
    }

    /// A handle to the listener's callback.
    pub fn callback(&self) -> (r: Arc<C>)
        ensures
            *r == self@.callback,
    {
        self.callback.clone()
    }

    /// The call that is due to this listener when `payload` is dispatched.
    pub fn invocation(&self, payload: &Vec<u8>) -> (v: Invocation<C>)
        ensures
            v@ == call_of(self@, payload@),
    {
        Invocation {
            listener: self.id.clone(),
            callback: self.callback.clone(),
            payload: payload.clone(),
        }
    }

    /// This listener with one call fewer left; unchanged if it has no limit
    /// or no calls left.
    pub fn spend(self) -> (l: Listener<C>)
        ensures
            l@ == spent(self@),
    {
        let limit = match self.limit {
            None => None,
            Some(n) => Some(
                if n > 0 {
                    n - 1
                } else {
                    0
                },
            ),
        };
        Listener { id: self.id, limit, callback: self.callback }
    }
}

impl<C> Invocation<C> {
    /// The id of the listener that the call goes to.
    pub fn listener(&self) -> (r: &String)
        ensures
            r@ == self@.listener,
    {
        &self.listener
    }

    /// A handle to the callback to run.
    pub fn callback(&self) -> (r: Arc<C>)
        ensures
            *r == self@.callback,
    {
        self.callback.clone()
    }

    /// The bytes to run the callback on.
    pub fn payload(&self) -> (r: &Vec<u8>)
        ensures
            r@ == self@.payload,
    {
        &self.payload
    }

    /// Runs the call: the callback, on the bytes, to its end. Returns what
    /// the callback came back with.
    pub fn run<R>(self) -> (result: R) where C: Fn(Vec<u8>) -> R
        requires
            accepts(self@.callback, self@.payload),
        ensures
            returned(self@.callback, self@.payload, result),
    {
        let ghost handed = self.payload;
        let result = (*self.callback)(self.payload);
        assert(call_ensures(*self.callback, (handed,), result));
        result
    }

    /// The callback and the bytes to run it on, taken out of the call.
    pub fn into_parts(self) -> (r: (Arc<C>, Vec<u8>))
        ensures
            *r.0 == self@.callback,
            r.1@ == self@.payload,
    {
        (self.callback, self.payload)
    }
}

} // verus!
