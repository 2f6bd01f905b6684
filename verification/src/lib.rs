//! The bookkeeping of a lightweight actor framework.
//!
//! The crate decides, and leaves the doing to its caller: what has to be sent
//! to the children of an actor while it terminates, which route takes a
//! request, when a client connects again. It talks to no socket and to no
//! executor.

pub mod channels;
pub mod connect;
pub mod handlers;
pub mod ids;
pub mod lifecycle;
pub mod runtime;

pub use handlers::{Action, Envelope, InstantAction, Interaction, Joiner, Operation};
pub use ids::{Id, IdOf, IdSource};
pub use runtime::{spawn, Actor, Address, LiteTask, System, TaskAddress, TaskError};
