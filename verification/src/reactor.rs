//! The reactor: a queue handle, a store, and the dispatch of what fired.
//!
//! The reactor makes no system call. [`Reactor::wait_request`] says what to
//! wait for, [`Reactor::turn`] takes what the wait returned, calls the
//! handler for every operation that fired and registers what the handler
//! asks for. Each registration comes back to the caller as a [`Submission`]
//! to carry out, and the kernel's answer to it goes to [`Reactor::settle`].
//!
//! The handler is passed in a [`Traced`], which keeps a record of the
//! calls: the contracts of [`Reactor::dispatch`] and [`Reactor::turn`] say
//! over that record which calls they make.

use vstd::prelude::*;

use crate::handler::{Handler, Traced};
use crate::kernel::{Firing, ReadySignal, Registration, WaitRequest};
use crate::ledger::Ledger;
use crate::operation::Operation;
use crate::queue::{QueueError, QueueHandle};
use crate::store::{considered, OperationStore, RegisterError, Rejection, MAX_SLOTS};
use crate::submission::{
    after_submissions, lemma_one_more_submission, lemma_sound_empty, lemma_submissions_concat,
    submissions_sound, Submission,
};
use crate::token::PendingToken;

verus! {

/// The operations of a batch, in its order.
pub open spec fn fired_ops(batch: Seq<(Operation, ReadySignal)>) -> Seq<Operation> {
    Seq::new(batch.len(), |i: int| batch[i].0)
}

/// The operations of a run of submissions, in its order.
pub open spec fn submitted_ops(subs: Seq<Submission>) -> Seq<Operation> {
    Seq::new(subs.len(), |i: int| subs[i].op)
}

/// What one turn of the reactor came to.
#[derive(Debug)]
pub enum Turn {
    /// Nothing fired: the loop ends.
    Stop,
    /// A batch was dispatched. These are the registrations that followed
    /// from it, for the caller to carry out.
    Continue(Vec<Submission>),
}

/// One readiness queue and the operations registered on it.
pub struct Reactor {
    queue: QueueHandle,
    store: OperationStore,
}

impl View for Reactor {
    type V = Ledger;

    closed spec fn view(&self) -> Ledger {
        self.store@
    }
}

impl Reactor {
    /// The reactor's invariant.
    pub closed spec fn wf(&self) -> bool {
        self.store.wf()
    }

    /// The queue's descriptor while it is live, nothing once it is torn
    /// down.
    pub closed spec fn queue(&self) -> Option<i32> {
        self.queue@
    }

    /// Most operations the reactor holds at a time.
    pub closed spec fn spec_capacity(&self) -> u32 {
        self.store.capacity()
    }

    /// A reactor on `queue` with nothing registered, which takes as many
    /// operations at a time as tokens can name.
    pub fn new(queue: QueueHandle) -> (reactor: Reactor)
        ensures
            reactor.wf(),
            reactor@ == Ledger::empty(),
            reactor.queue() == queue@,
            reactor.capacity() == MAX_SLOTS,
    {
        Reactor { queue, store: OperationStore::new() }
    }

    /// A reactor on `queue` with nothing registered, which takes at most
    /// `capacity` operations at a time.
    pub fn with_capacity(queue: QueueHandle, capacity: u32) -> (reactor: Reactor)
        ensures
            reactor.wf(),
            reactor@ == Ledger::empty(),
            reactor.queue() == queue@,
            reactor.capacity() == capacity,
    {
        Reactor { queue, store: OperationStore::with_capacity(capacity) }
    }

    /// Takes what the kernel returned from creating a queue, a descriptor
    /// or a negative value, and makes a reactor on that queue. Fails when
    /// the kernel refused.
    pub fn create(raw: i32) -> (made: Result<Reactor, QueueError>)
        ensures
            raw >= 0 ==> made is Ok && made->Ok_0.wf() && made->Ok_0@ == Ledger::empty()
                && made->Ok_0.queue() == Some(raw) && made->Ok_0.capacity() == MAX_SLOTS,
            raw < 0 ==> made is Err && made->Err_0 == QueueError::ResourceExhausted,
    {
        match QueueHandle::create(raw) {
            Ok(queue) => Ok(Reactor::new(queue)),
            Err(error) => Err(error),
        }
    }

    /// Most operations the reactor holds at a time.
    #[verifier::when_used_as_spec(spec_capacity)]
    pub fn capacity(&self) -> (capacity: u32)
        ensures
            capacity == self.capacity(),
    {
        self.store.capacity()
    }

    /// Number of operations in the kernel's custody.
    pub fn outstanding(&self) -> (count: usize)
        requires
            self.wf(),
        ensures
            count == self@.outstanding(),
    {
        self.store.outstanding()
    }

    /// The queue's descriptor, while it is live.
    pub fn queue_descriptor(&self) -> (descriptor: Option<i32>)
        ensures
            descriptor == self.queue(),
    {
        self.queue.descriptor()
    }

    /// The books of a reactor are in order, and it never holds more than
    /// its capacity.
    pub proof fn lemma_ledger_wf(&self)
        requires
            self.wf(),
        ensures
            self@.wf(),
            self@.outstanding() <= self.capacity(),
    {
        self.store.lemma_ledger_wf();
        self.store.lemma_exhausted();
    }

    /// Registers `op` and returns the request to make with the kernel. The
    /// kernel's answer goes to [`Reactor::settle`].
    ///
    /// Fails, and changes nothing, when the queue is torn down or the store
    /// is exhausted.
    pub fn submit(&mut self, op: Operation) -> (result: Result<Registration, RegisterError>)
        requires
            old(self).wf(),
        ensures
            final(self).wf(),
            final(self).queue() == old(self).queue(),
            final(self).capacity() == old(self).capacity(),
            (Submission { op, outcome: result }).sound(
                old(self)@,
                old(self).queue(),
                old(self).capacity(),
            ),
            final(self)@ == (Submission { op, outcome: result }).applied(old(self)@),
    {
        proof {
            self.store.lemma_exhausted();
        }
        self.store.register(&self.queue, op)
    }

    /// Registers a listening operation on `descriptor`.
    pub fn listen_async(&mut self, descriptor: i32) -> (result: Result<
        Registration,
        RegisterError,
    >)
        requires
            old(self).wf(),
        ensures
            final(self).wf(),
            final(self).queue() == old(self).queue(),
            final(self).capacity() == old(self).capacity(),
            (Submission { op: Operation::listening_on(descriptor), outcome: result }).sound(
                old(self)@,
                old(self).queue(),
                old(self).capacity(),
            ),
            final(self)@ == (Submission {
                op: Operation::listening_on(descriptor),
                outcome: result,
            }).applied(old(self)@),
    {
        self.submit(Operation::listening(descriptor))
    }

    /// Registers a reading operation on `descriptor`.
    pub fn read_async(&mut self, descriptor: i32) -> (result: Result<Registration, RegisterError>)
        requires
            old(self).wf(),
        ensures
            final(self).wf(),
            final(self).queue() == old(self).queue(),
            final(self).capacity() == old(self).capacity(),
            (Submission { op: Operation::reading_on(descriptor), outcome: result }).sound(
                old(self)@,
                old(self).queue(),
                old(self).capacity(),
            ),
            final(self)@ == (Submission {
                op: Operation::reading_on(descriptor),
                outcome: result,
            }).applied(old(self)@),
    {
        self.submit(Operation::reading(descriptor))
    }

    /// Takes the kernel's answer to the registration made under `token`:
    /// `status` is what the call returned and `os_error` the error code
    /// that came with a failure. A refusal hands the operation back and
    /// concerns that operation only.
    pub fn settle(&mut self, token: PendingToken, status: i32, os_error: i32) -> (result: Result<
        (),
        Rejection,
    >)
        requires
            old(self).wf(),
        ensures
            final(self).wf(),
            final(self).queue() == old(self).queue(),
            final(self).capacity() == old(self).capacity(),
            status >= 0 ==> result is Ok && final(self)@ == old(self)@,
            status < 0 ==> final(self)@ == old(self)@.resolve(token) && result == Err::<
                (),
                Rejection,
            >(
                Rejection {
                    error: RegisterError::Rejected(os_error),
                    op: if old(self)@.pending.contains_key(token) {
                        Some(old(self)@.pending[token])
                    } else {
                        None
                    },
                },
            ),
    {
        self.store.settle(token, status, os_error)
    }

    /// What to wait for next, taking at most `max_batch` events, or as many
    /// as the kernel can be asked for at once if that is less. Nothing is
    /// to be waited for when the queue is torn down, when no registration
    /// is outstanding, so that no event could ever come, and when the
    /// batch has no room.
    pub fn wait_request(&self, max_batch: usize) -> (request: Option<WaitRequest>)
        requires
            self.wf(),
        ensures
            request == match self.queue() {
                Some(queue) if self@.outstanding() > 0 && max_batch > 0 => Some(
                    WaitRequest {
                        queue,
                        max_events: if max_batch <= i32::MAX {
                            max_batch as i32
                        } else {
                            i32::MAX
                        },
                    },
                ),
                _ => None,
            },
    {
        match self.queue.descriptor() {
            Some(queue) => {
                if self.store.outstanding() > 0 && max_batch > 0 {
                    let max_events: i32 = if max_batch <= i32::MAX as usize {
                        max_batch as i32
                    } else {
                        i32::MAX
                    };
                    Some(WaitRequest { queue, max_events })
                } else {
                    None
                }
            },
            None => None,
        }
    }

    /// Takes what a wait on the queue returned, `count` and the buffer
    /// `events`, and hands back the operations that have fired, at most
    /// `max_batch` of them, each with the signal of its event and in the
    /// order of the events. Their tokens are spent. The batch is empty when
    /// the wait failed or reported nothing, when the queue is torn down,
    /// and when no event named a pending token.
    pub fn poll(&mut self, count: i32, events: &Vec<Firing>, max_batch: usize) -> (batch: Vec<
        (Operation, ReadySignal),
    >)
        requires
            old(self).wf(),
        ensures
            final(self).wf(),
            final(self).queue() == old(self).queue(),
            final(self).capacity() == old(self).capacity(),
            batch@ == old(self)@.harvest(
                considered(old(self).queue(), count, events@, max_batch),
            ),
            final(self)@ == old(self)@.after_firings(
                considered(old(self).queue(), count, events@, max_batch),
            ),
    {
        self.store.poll(&self.queue, count, events, max_batch)
    }

    /// Registers each of `ops`, in order, and returns what became of each.
    pub fn resubmit(&mut self, ops: &Vec<Operation>) -> (subs: Vec<Submission>)
        requires
            old(self).wf(),
        ensures
            final(self).wf(),
            final(self).queue() == old(self).queue(),
            final(self).capacity() == old(self).capacity(),
            subs@.len() == ops@.len(),
            forall|i: int| 0 <= i < subs@.len() ==> (#[trigger] subs@[i]).op == ops@[i],
            submissions_sound(old(self)@, old(self).queue(), old(self).capacity(), subs@),
            final(self)@ == after_submissions(old(self)@, subs@),
    {
        let ghost start = self@;
        let mut subs: Vec<Submission> = Vec::new();
        proof {
            lemma_sound_empty(start, self.queue(), self.capacity());
        }
        let mut i: usize = 0;
        while i < ops.len()
            invariant
                self.wf(),
                self.queue() == old(self).queue(),
                self.capacity() == old(self).capacity(),
                start == old(self)@,
                i <= ops@.len(),
                subs@.len() == i,
                forall|k: int| 0 <= k < i ==> (#[trigger] subs@[k]).op == ops@[k],
                submissions_sound(start, self.queue(), self.capacity(), subs@),
                self@ == after_submissions(start, subs@),
            decreases ops@.len() - i,
        {
            let op: Operation = ops[i];
            let outcome = self.submit(op);
            let sub = Submission { op, outcome };
            proof {
                lemma_one_more_submission(start, self.queue(), self.capacity(), subs@, sub);
            }
            subs.push(sub);
            i = i + 1;
        }
        subs
    }

    /// Calls `handler` once for each operation of `batch`, in order, and
    /// registers after each call what the handler asked for: first what it
    /// pushed to its [`Resubmit`], then the operation it returned. Returns
    /// what became of each registration, in the order in which they were
    /// made.
    ///
    /// The handler is called with the operations of the batch and with no
    /// others, and the submissions made are those for what it asked, all
    /// of them and in its order. Nothing that was pending is lost and
    /// nothing becomes pending but through one of the submissions returned.
    pub fn dispatch<H: Handler>(
        &mut self,
        batch: Vec<(Operation, ReadySignal)>,
        handler: &mut Traced<H>,
    ) -> (subs: Vec<Submission>)
        requires
            old(self).wf(),
        ensures
            final(self).wf(),
            final(self).queue() == old(self).queue(),
            final(self).capacity() == old(self).capacity(),
            final(handler).handled() == old(handler).handled() + fired_ops(batch@),
            final(handler).asked() == old(handler).asked() + submitted_ops(subs@),
            submissions_sound(old(self)@, old(self).queue(), old(self).capacity(), subs@),
            final(self)@ == after_submissions(old(self)@, subs@),
            batch@.len() == 0 ==> subs@.len() == 0,
    {
        let ghost start = self@;
        let mut subs: Vec<Submission> = Vec::new();
        proof {
            lemma_sound_empty(start, self.queue(), self.capacity());
        }
        let mut i: usize = 0;
        while i < batch.len()
            invariant
                self.wf(),
                self.queue() == old(self).queue(),
                self.capacity() == old(self).capacity(),
                start == old(self)@,
                i <= batch@.len(),
                batch@.len() == 0 ==> subs@.len() == 0,
                handler.handled() == old(handler).handled() + fired_ops(batch@.take(i as int)),
                handler.asked() == old(handler).asked() + submitted_ops(subs@),
                submissions_sound(start, self.queue(), self.capacity(), subs@),
                self@ == after_submissions(start, subs@),
            decreases batch@.len() - i,
        {
            let fired: (Operation, ReadySignal) = batch[i];
            let asked = handler.handle(fired.0);
            let mut more = self.resubmit(&asked);
            proof {
                lemma_submissions_concat(start, self.queue(), self.capacity(), subs@, more@);
                assert(fired_ops(batch@.take(i as int)).push(fired.0) == fired_ops(
                    batch@.take(i as int + 1),
                ));
                assert(submitted_ops(more@) == asked@);
                assert(submitted_ops(subs@) + submitted_ops(more@) == submitted_ops(
                    subs@ + more@,
                ));
            }
            subs.append(&mut more);
            i = i + 1;
        }
        proof {
            assert(batch@.take(batch@.len() as int) == batch@);
        }
        subs
    }

    /// One turn of the loop. Takes what a wait on the queue returned,
    /// `count` and the buffer `events`, reclaims the operations that fired
    /// and dispatches them to `handler`: the handler is called once with
    /// each of them, in the order of the events, and what it asks for is
    /// registered.
    ///
    /// The loop ends when nothing was reclaimed: the wait failed or
    /// reported nothing, the queue is torn down, or no event named a
    /// pending token.
    pub fn turn<H: Handler>(
        &mut self,
        count: i32,
        events: &Vec<Firing>,
        max_batch: usize,
        handler: &mut Traced<H>,
    ) -> (turn: Turn)
        requires
            old(self).wf(),
        ensures
            final(self).wf(),
            final(self).queue() == old(self).queue(),
            final(self).capacity() == old(self).capacity(),
            ({
                let window = considered(old(self).queue(), count, events@, max_batch);
                let fired = old(self)@.harvest(window);
                let reclaimed = old(self)@.after_firings(window);
                &&& final(handler).handled() == old(handler).handled() + fired_ops(fired)
                &&& match turn {
                    Turn::Stop => {
                        &&& fired.len() == 0
                        &&& final(handler).asked() == old(handler).asked()
                        &&& final(self)@ == reclaimed
                    },
                    Turn::Continue(subs) => {
                        &&& fired.len() > 0
                        &&& final(handler).asked() == old(handler).asked() + submitted_ops(subs@)
                        &&& submissions_sound(
                            reclaimed,
                            old(self).queue(),
                            old(self).capacity(),
                            subs@,
                        )
                        &&& final(self)@ == after_submissions(reclaimed, subs@)
                    },
                }
            }),
    {
        let batch = self.poll(count, events, max_batch);
        if batch.len() == 0 {
            proof {
                assert(fired_ops(batch@) == Seq::<Operation>::empty());
            }
            Turn::Stop
        } else {
            Turn::Continue(self.dispatch(batch, handler))
        }
    }

    /// Ends the queue. Returns its descriptor, for the caller to close,
    /// the first time, and nothing on every later call. Nothing can be
    /// registered or polled afterwards.
    pub fn teardown(&mut self) -> (released: Option<i32>)
        requires
            old(self).wf(),
        ensures
            final(self).wf(),
            final(self).capacity() == old(self).capacity(),
            released == QueueHandle::released_by_teardown(old(self).queue()),
            final(self).queue() == QueueHandle::after_teardown(old(self).queue()),
            final(self)@ == old(self)@,
    {
        self.queue.teardown()
    }
}

} // verus!
