//! The handle of the kernel's readiness queue.

use vstd::prelude::*;

verus! {

/// Why no queue handle could be made.
#[derive(Clone, Copy, Debug, PartialEq, Eq, Structural)]
pub enum QueueError {
    /// The kernel refused to create a queue.
    ResourceExhausted,
}

/// Owns the descriptor of one readiness queue until it is torn down.
///
/// The handle only keeps the books: the descriptor that [`teardown`]
/// returns is the caller's to close, and it is returned once.
///
/// [`teardown`]: QueueHandle::teardown
#[derive(Debug)]
pub struct QueueHandle {
    descriptor: i32,
    live: bool,
}

impl View for QueueHandle {
    type V = Option<i32>;

    /// The descriptor while the queue is live, nothing once it is torn down.
    closed spec fn view(&self) -> Option<i32> {
        if self.live {
            Some(self.descriptor)
        } else {
            None
        }
    }
}

impl QueueHandle {
    /// What a teardown releases from a handle in state `state`.
    pub open spec fn released_by_teardown(state: Option<i32>) -> Option<i32> {
        state
    }

    /// The state of a handle after a teardown.
    pub open spec fn after_teardown(state: Option<i32>) -> Option<i32> {
        None
    }

    /// Takes what the kernel returned from creating a queue: a descriptor,
    /// or a negative value when it refused.
    pub fn create(raw: i32) -> (made: Result<QueueHandle, QueueError>)
        ensures
            raw >= 0 ==> made is Ok && made->Ok_0@ == Some(raw),
            raw < 0 ==> made == Err::<QueueHandle, QueueError>(QueueError::ResourceExhausted),
    {
        if raw >= 0 {
            Ok(QueueHandle { descriptor: raw, live: true })
        } else {
            Err(QueueError::ResourceExhausted)
        }
    }

    /// The queue's descriptor, while it is live.
    pub fn descriptor(&self) -> (descriptor: Option<i32>)
        ensures
            descriptor == self@,
    {
        if self.live {
            Some(self.descriptor)
        } else {
            None
        }
    }

    /// Whether the queue has not been torn down yet.
    pub fn is_live(&self) -> (live: bool)
        ensures
            live == self@ is Some,
    {
        self.live
    }

    /// Ends the queue. Returns the descriptor to close, the first time, and
    /// nothing on every later call.
    pub fn teardown(&mut self) -> (released: Option<i32>)
        ensures
            released == Self::released_by_teardown(old(self)@),
            final(self)@ == Self::after_teardown(old(self)@),
    {
        if self.live {
            self.live = false;
            Some(self.descriptor)
        } else {
            None
        }
    }

    /// Tearing down twice releases the descriptor at most once: the second
    /// teardown releases nothing and changes nothing.
    pub proof fn lemma_teardown_idempotent(state: Option<i32>)
        ensures
            Self::released_by_teardown(Self::after_teardown(state)) is None,
            Self::after_teardown(Self::after_teardown(state)) == Self::after_teardown(state),
    {
    }
}

} // verus!
