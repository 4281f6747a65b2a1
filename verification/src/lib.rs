//! An in-process publish/subscribe registry.
//!
//! Listeners are registered under an event name, each with a callback on
//! bytes, an id of its own and, if wanted, a limit on the number of calls it
//! gets. Emitting an event yields the calls that are due, in the order in
//! which the listeners were registered, and removes the listeners that have
//! had their last call. Unless asked to (`sync_emit`), the registry runs no
//! callback: it hands the calls that are due to its caller, who decides where
//! they run.
//!
//! - [`model`]: the registry as a mathematical value, and each operation as a
//!   function on such values;
//! - [`listener`]: listeners and the calls due to them;
//! - [`ident`]: listener ids;
//! - [`dispatch`]: one dispatch to the listeners of one event;
//! - [`emitter`]: the emitter itself;
//! - [`laws`]: what holds of the operations in every valid registry.

pub mod dispatch;
pub mod emitter;
pub mod ident;
pub mod laws;
pub mod listener;
pub mod model;

pub use emitter::EventEmitter;
pub use listener::{Invocation, InvocationView, Listener, ListenerView};
