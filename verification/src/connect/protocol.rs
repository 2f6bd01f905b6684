//! What two sides of a connection agree on.

use vstd::prelude::*;

verus! {

/// A message of a protocol.
pub trait ProtocolData: Send + 'static {

}

/// The messages that a client and a server exchange.
pub trait Protocol: Sized + Send + 'static {
    /// What the client sends.
    type ToServer: ProtocolData;

    /// What the server sends.
    type ToClient: ProtocolData;

    /// How messages become bytes.
    type Codec;
}

/// Why a talk over a connection ended without a failure.
#[derive(Clone, Copy, PartialEq, Eq, Structural, Debug)]
pub enum TermReason {
    /// The user asked to stop.
    Interrupted,
    /// The other side closed the connection.
    Closed,
}

impl TermReason {
    /// Tells if the user asked to stop.
    pub fn is_interrupted(&self) -> (interrupted: bool)
        ensures
            interrupted == (*self is Interrupted),
    {
        match self {
            TermReason::Interrupted => true,
            TermReason::Closed => false,
        }
    }
}

/// Whether a task may go on.
#[derive(Clone, Copy, PartialEq, Eq, Structural, Debug)]
pub enum LiteStatus {
    /// The task goes on.
    Alive,
    /// The task has to stop.
    Stop,
}

} // verus!
