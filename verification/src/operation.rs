//! Operations: one descriptor, one state.

use vstd::prelude::*;

verus! {

/// What an operation is waiting to do once its descriptor becomes ready.
#[derive(Clone, Copy, Debug, PartialEq, Eq, Structural)]
pub enum OpState {
    /// A listening socket waiting for a connection to accept.
    Listening,
    /// A connection waiting for bytes to read.
    Reading,
    /// Reserved for a connection waiting to write. Nothing creates it yet.
    Writing,
}

/// A unit of pending work, bound to one descriptor and one state.
#[derive(Clone, Copy, Debug, PartialEq, Eq, Structural)]
pub struct Operation {
    pub descriptor: i32,
    pub state: OpState,
}

impl Operation {
    /// The listening operation on `descriptor`.
    pub open spec fn listening_on(descriptor: i32) -> Operation {
        Operation { descriptor, state: OpState::Listening }
    }

    /// The reading operation on `descriptor`.
    pub open spec fn reading_on(descriptor: i32) -> Operation {
        Operation { descriptor, state: OpState::Reading }
    }

    /// An operation that waits for a connection on a listening socket.
    pub fn listening(descriptor: i32) -> (op: Operation)
        ensures
            op == Operation::listening_on(descriptor),
    {
        Operation { descriptor, state: OpState::Listening }
    }

    /// An operation that waits for bytes on a connection.
    pub fn reading(descriptor: i32) -> (op: Operation)
        ensures
            op == Operation::reading_on(descriptor),
    {
        Operation { descriptor, state: OpState::Reading }
    }
}

} // verus!
