//! The plain values that cross between the reactor and the kernel.
//!
//! The reactor makes no system call. It hands out requests, and whoever
//! drives it performs them and hands back what the kernel said. Every
//! registration is one-shot: a watch fires once and is gone, and a
//! descriptor is watched on only by registering it again.

use vstd::prelude::*;

use crate::token::PendingToken;

verus! {

/// Largest number of events taken from the kernel in one wait by default.
pub const DEFAULT_BATCH: usize = 16;

/// What a registration watches a descriptor for.
#[derive(Clone, Copy, Debug, PartialEq, Eq, Structural)]
pub enum Filter {
    /// Something to read, or a connection to accept.
    Read,
}

/// A request to the kernel to watch `descriptor` on `queue`, and to hand
/// `token` back with the event when the watch fires.
#[derive(Clone, Copy, Debug, PartialEq, Eq, Structural)]
pub struct Registration {
    pub queue: i32,
    pub descriptor: i32,
    pub filter: Filter,
    /// The kernel drops the registration after the first event.
    pub one_shot: bool,
    pub token: PendingToken,
}

impl Registration {
    /// The one-shot request to watch `descriptor` until it is readable.
    pub open spec fn read_once(queue: i32, descriptor: i32, token: PendingToken) -> Registration {
        Registration { queue, descriptor, filter: Filter::Read, one_shot: true, token }
    }

    /// The one-shot request to watch `descriptor` until it is readable.
    pub fn for_read(queue: i32, descriptor: i32, token: PendingToken) -> (request: Registration)
        ensures
            request == Registration::read_once(queue, descriptor, token),
    {
        Registration { queue, descriptor, filter: Filter::Read, one_shot: true, token }
    }

    /// The token as the kernel carries it.
    pub fn raw_token(&self) -> (raw: u64)
        ensures
            raw == self.token.encode(),
    {
        self.token.to_raw()
    }
}

/// A request to block on `queue` until something is ready, and to take at
/// most `max_events` events.
#[derive(Clone, Copy, Debug, PartialEq, Eq, Structural)]
pub struct WaitRequest {
    pub queue: i32,
    pub max_events: i32,
}

/// What the kernel reported about a descriptor that became ready.
#[derive(Clone, Copy, Debug, PartialEq, Eq, Structural)]
pub struct ReadySignal {
    /// There is something to read or to accept.
    pub readable: bool,
    /// The peer has closed its end.
    pub hang_up: bool,
    /// The descriptor is in an error state.
    pub error: bool,
}

/// One event from the kernel: the raw token of the registration that fired
/// and what was reported with it.
#[derive(Clone, Copy, Debug, PartialEq, Eq, Structural)]
pub struct Firing {
    pub token: u64,
    pub signal: ReadySignal,
}

impl Firing {
    /// The token that this event names.
    pub open spec fn names(self) -> PendingToken {
        PendingToken::decode(self.token)
    }
}

} // verus!
