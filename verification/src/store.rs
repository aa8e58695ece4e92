//! The store of pending operations.
//!
//! An operation that is registered moves into a slot of the store, and the
//! kernel gets a token that names the slot and its generation. When the
//! token comes back the operation moves out again and the slot's generation
//! advances, so that the same token can never name anything again.

use vstd::prelude::*;

use crate::kernel::{Firing, ReadySignal, Registration};
use crate::ledger::Ledger;
use crate::operation::Operation;
use crate::queue::QueueHandle;
use crate::token::PendingToken;

verus! {

/// Most slots a store can have, and most tokens one slot can issue.
pub const MAX_SLOTS: u32 = 0xffff_ffff;

/// Why an operation was not registered.
#[derive(Clone, Copy, Debug, PartialEq, Eq, Structural)]
pub enum RegisterError {
    /// The kernel refused the registration, with this OS error code.
    Rejected(i32),
    /// The queue has been torn down.
    QueueClosed,
    /// Every slot the store may have is in use or worn out.
    Exhausted,
}

/// A registration that the kernel refused: the error, and the operation,
/// which is handed back to the caller.
#[derive(Clone, Copy, Debug, PartialEq, Eq, Structural)]
pub struct Rejection {
    pub error: RegisterError,
    pub op: Option<Operation>,
}

/// One place for an operation. `issued` counts the tokens that the slot has
/// given out: their generations are the numbers below it, and the one held
/// by the operation in the slot is the last.
struct Slot {
    issued: u32,
    op: Option<Operation>,
}

/// Holds the operations that are in the kernel's custody, each in a slot
/// of its own, and issues the tokens that name them.
pub struct OperationStore {
    slots: Vec<Slot>,
    /// The empty slots that can still issue a token.
    free: Vec<u32>,
    /// Number of slots that hold an operation.
    live: usize,
    /// Most slots this store may have.
    capacity: u32,
    /// Number of empty slots that have issued all their tokens.
    worn: Ghost<nat>,
}

spec fn was_issued(slots: Seq<Slot>, token: PendingToken) -> bool {
    &&& token.index < slots.len()
    &&& token.generation < slots[token.index as int].issued
}

spec fn is_pending(slots: Seq<Slot>, token: PendingToken) -> bool {
    &&& token.index < slots.len()
    &&& slots[token.index as int].op is Some
    &&& token.generation + 1 == slots[token.index as int].issued
}

spec fn listed(free: Seq<u32>, index: int) -> bool {
    exists|j: int| 0 <= j < free.len() && #[trigger] free[j] == index
}

spec fn ledger_of(slots: Seq<Slot>) -> Ledger {
    Ledger {
        pending: Map::new(
            |token: PendingToken| is_pending(slots, token),
            |token: PendingToken| slots[token.index as int].op->0,
        ),
        issued: Set::new(|token: PendingToken| was_issued(slots, token)),
    }
}

impl View for OperationStore {
    type V = Ledger;

    closed spec fn view(&self) -> Ledger {
        ledger_of(self.slots@)
    }
}

/// The events that one poll takes from what the kernel returned: none when
/// the queue is torn down or the wait reported nothing or an error, else
/// the first `count` of them, as far as there are that many and the batch
/// allows them.
pub open spec fn considered(
    queue: Option<i32>,
    count: i32,
    events: Seq<Firing>,
    max_batch: usize,
) -> Seq<Firing> {
    if queue is None || count <= 0 {
        Seq::empty()
    } else {
        let reported = if count <= events.len() {
            count as int
        } else {
            events.len() as int
        };
        events.take(if reported <= max_batch { reported } else { max_batch as int })
    }
}

impl OperationStore {
    /// The store's invariant.
    pub closed spec fn wf(&self) -> bool {
        &&& self@.wf()
        &&& self.slots@.len() <= self.capacity
        &&& self.live == self@.outstanding()
        &&& self.live + self.free@.len() + self.worn@ == self.slots@.len()
        &&& self.worn@ > 0 ==> self@.submitted() >= MAX_SLOTS
        &&& forall|i: int|
            0 <= i < self.slots@.len() ==> 1 <= (#[trigger] self.slots@[i]).issued
                <= self@.submitted()
        &&& forall|j: int|
            0 <= j < self.free@.len() ==> {
                &&& (#[trigger] self.free@[j]) < self.slots@.len()
                &&& self.slots@[self.free@[j] as int].op is None
                &&& self.slots@[self.free@[j] as int].issued < MAX_SLOTS
            }
        &&& forall|j: int, k: int|
            0 <= j < k < self.free@.len() ==> #[trigger] self.free@[j] != #[trigger] self.free@[k]
        &&& forall|i: int|
            0 <= i < self.slots@.len() && (#[trigger] self.slots@[i]).op is None
                && self.slots@[i].issued < MAX_SLOTS ==> listed(self.free@, i)
    }

    /// Most operations the store holds at a time.
    pub closed spec fn spec_capacity(&self) -> u32 {
        self.capacity
    }

    /// Whether the store can take no operation: every slot it may have is
    /// in use, or has issued all the tokens a slot can issue.
    pub closed spec fn exhausted(&self) -> bool {
        self.free@.len() == 0 && self.slots@.len() == self.capacity
    }

    /// A store that holds nothing and takes as many operations at a time
    /// as tokens can name.
    pub fn new() -> (store: OperationStore)
        ensures
            store.wf(),
            store@ == Ledger::empty(),
            store.capacity() == MAX_SLOTS,
    {
        OperationStore::with_capacity(MAX_SLOTS)
    }

    /// A store that holds nothing and takes at most `capacity` operations
    /// at a time.
    pub fn with_capacity(capacity: u32) -> (store: OperationStore)
        ensures
            store.wf(),
            store@ == Ledger::empty(),
            store.capacity() == capacity,
    {
        let store = OperationStore {
            slots: Vec::new(),
            free: Vec::new(),
            live: 0,
            capacity,
            worn: Ghost(0),
        };
        assert(store@.pending =~= Map::empty());
        assert(store@.issued =~= Set::empty());
        store
    }

    /// Most operations the store holds at a time.
    #[verifier::when_used_as_spec(spec_capacity)]
    pub fn capacity(&self) -> (capacity: u32)
        ensures
            capacity == self.capacity(),
    {
        self.capacity
    }

    /// Number of operations in the kernel's custody.
    pub fn outstanding(&self) -> (count: usize)
        requires
            self.wf(),
        ensures
            count == self@.outstanding(),
    {
        self.live
    }

    /// The books of a store are in order.
    pub proof fn lemma_ledger_wf(&self)
        requires
            self.wf(),
        ensures
            self@.wf(),
    {
    }

    /// A store never holds more than its capacity. Until a slot has worn
    /// out, which takes billions of registrations, the store is exhausted
    /// exactly when it holds that many.
    pub proof fn lemma_exhausted(&self)
        requires
            self.wf(),
        ensures
            self@.outstanding() <= self.capacity(),
            self@.outstanding() == self.capacity() ==> self.exhausted(),
            self@.submitted() < MAX_SLOTS ==> (self.exhausted() <==> self@.outstanding()
                == self.capacity()),
    {
    }

    /// Takes `op` into the store and returns the one-shot registration to
    /// make with the kernel. The token in it is fresh: the store has never
    /// issued it before.
    ///
    /// Fails, and leaves the store as it was, when the queue is torn down
    /// or the store is exhausted.
    pub fn register(&mut self, queue: &QueueHandle, op: Operation) -> (result: Result<
        Registration,
        RegisterError,
    >)
        requires
            old(self).wf(),
        ensures
            final(self).wf(),
            final(self).capacity() == old(self).capacity(),
            result is Err <==> queue@ is None || old(self).exhausted(),
            match result {
                Ok(request) => {
                    &&& request == Registration::read_once(
                        queue@->0,
                        op.descriptor,
                        request.token,
                    )
                    &&& old(self)@.fresh(request.token)
                    &&& old(self)@.outstanding() < old(self).capacity()
                    &&& final(self)@ == old(self)@.bind(request.token, op)
                },
                Err(error) => {
                    &&& final(self)@ == old(self)@
                    &&& error == if queue@ is None {
                        RegisterError::QueueClosed
                    } else {
                        RegisterError::Exhausted
                    }
                },
            },
    {
        let queue_descriptor: i32 = match queue.descriptor() {
            Some(descriptor) => descriptor,
            None => {
                return Err(RegisterError::QueueClosed);
            },
        };
        let ghost before = self@;
        let ghost old_slots = self.slots@;
        let ghost old_free = self.free@;
        let token: PendingToken;
        if self.free.len() > 0 {
            let index: u32 = self.free.pop().unwrap();
            let generation: u32 = self.slots[index as usize].issued;
            self.slots[index as usize] = Slot { issued: generation + 1, op: Some(op) };
            token = PendingToken { index, generation };
        } else if self.slots.len() < self.capacity as usize {
            let index: u32 = self.slots.len() as u32;
            self.slots.push(Slot { issued: 1, op: Some(op) });
            token = PendingToken { index, generation: 0 };
        } else {
            return Err(RegisterError::Exhausted);
        }
        proof {
            assert forall|i: int|
                0 <= i < self.slots@.len() && (#[trigger] self.slots@[i]).op is None
                    && self.slots@[i].issued < MAX_SLOTS implies listed(self.free@, i) by {
                assert(old_slots[i].op is None);
                let j = choose|j: int| 0 <= j < old_free.len() && old_free[j] == i;
                assert(self.free@[j] == i);
            }
            assert(!was_issued(old_slots, token));
            assert(self@.issued =~= before.bind(token, op).issued);
            assert(self@.pending =~= before.bind(token, op).pending);
            before.lemma_bind(token, op);
            assert forall|i: int| 0 <= i < self.slots@.len() implies 1 <= (
            #[trigger] self.slots@[i]).issued <= self@.submitted() by {
                if i != token.index && i < old_slots.len() {
                    assert(self.slots@[i] == old_slots[i]);
                }
            }
        }
        let slots: usize = self.slots.len();
        assert(self.live < slots);
        self.live = self.live + 1;
        Ok(Registration::for_read(queue_descriptor, op.descriptor, token))
    }

    /// Takes the operation registered under `token` out of the store, if
    /// the token is pending. The token is spent by this: it is pending no
    /// longer and is never issued again.
    ///
    /// This is how a fired registration is handed back, and how a caller
    /// cancels one that has not fired. An event that the kernel still
    /// delivers for a cancelled registration names a spent token and hands
    /// back nothing.
    pub fn reclaim(&mut self, token: PendingToken) -> (op: Option<Operation>)
        requires
            old(self).wf(),
        ensures
            final(self).wf(),
            final(self).capacity() == old(self).capacity(),
            op == if old(self)@.pending.contains_key(token) {
                Some(old(self)@.pending[token])
            } else {
                None
            },
            final(self)@ == old(self)@.resolve(token),
    {
        let ghost before = self@;
        let ghost old_slots = self.slots@;
        let ghost old_free = self.free@;
        proof {
            before.lemma_resolve(token);
        }
        let index: usize = token.index as usize;
        if index >= self.slots.len() {
            return None;
        }
        let issued: u32 = self.slots[index].issued;
        let held: Option<Operation> = self.slots[index].op;
        if held.is_none() || token.generation as u64 + 1 != issued as u64 {
            return None;
        }
        let op: Operation = held.unwrap();
        self.slots[index] = Slot { issued, op: None };
        if issued < MAX_SLOTS {
            self.free.push(token.index);
        } else {
            proof {
                self.worn@ = self.worn@ + 1;
            }
        }
        proof {
            assert forall|i: int|
                0 <= i < self.slots@.len() && (#[trigger] self.slots@[i]).op is None
                    && self.slots@[i].issued < MAX_SLOTS implies listed(self.free@, i) by {
                if i == index {
                    assert(self.free@[old_free.len() as int] == i);
                } else {
                    assert(old_slots[i].op is None);
                    let j = choose|j: int| 0 <= j < old_free.len() && old_free[j] == i;
                    assert(self.free@[j] == i);
                }
            }
            assert(self@.issued =~= before.resolve(token).issued);
            assert(self@.pending =~= before.resolve(token).pending);
            assert forall|i: int| 0 <= i < self.slots@.len() implies 1 <= (
            #[trigger] self.slots@[i]).issued <= self@.submitted() by {
                assert(old_slots[i].issued == self.slots@[i].issued);
            }
        }
        self.live = self.live - 1;
        Some(op)
    }

    /// Takes the kernel's answer to the registration made under `token`:
    /// `status` is what the call returned and `os_error` the error code
    /// that came with a failure.
    ///
    /// When the kernel accepted, nothing changes. When it refused, the
    /// operation leaves the store and goes back to the caller with the
    /// error, so that nothing stays pending that can never fire.
    pub fn settle(&mut self, token: PendingToken, status: i32, os_error: i32) -> (result: Result<
        (),
        Rejection,
    >)
        requires
            old(self).wf(),
        ensures
            final(self).wf(),
            final(self).capacity() == old(self).capacity(),
            status >= 0 ==> result is Ok && final(self)@ == old(self)@,
            status < 0 ==> final(self)@ == old(self)@.resolve(token) && result == Err::<
                (),
                Rejection,
            >(
                Rejection {
                    error: RegisterError::Rejected(os_error),
                    op: if old(self)@.pending.contains_key(token) {
                        Some(old(self)@.pending[token])
                    } else {
                        None
                    },
                },
            ),
    {
        if status >= 0 {
            Ok(())
        } else {
            let op = self.reclaim(token);
            Err(Rejection { error: RegisterError::Rejected(os_error), op })
        }
    }

    /// Takes what a wait on the queue returned, `count` and the buffer
    /// `events`, and hands back the operations that have fired, each with
    /// the signal of its event and in the order of the events.
    ///
    /// At most `max_batch` events are taken. Every token among them is
    /// spent. An event whose token is not pending, because it is stale or
    /// was never issued, hands back nothing. The batch is empty when the
    /// wait failed or reported nothing, and when the queue is torn down.
    pub fn poll(
        &mut self,
        queue: &QueueHandle,
        count: i32,
        events: &Vec<Firing>,
        max_batch: usize,
    ) -> (batch: Vec<(Operation, ReadySignal)>)
        requires
            old(self).wf(),
        ensures
            final(self).wf(),
            final(self).capacity() == old(self).capacity(),
            batch@ == old(self)@.harvest(considered(queue@, count, events@, max_batch)),
            final(self)@ == old(self)@.after_firings(
                considered(queue@, count, events@, max_batch),
            ),
    {
        let mut batch: Vec<(Operation, ReadySignal)> = Vec::new();
        if !queue.is_live() || count <= 0 {
            return batch;
        }
        let mut taken: usize = events.len();
        if count as u64 <= taken as u64 {
            taken = count as usize;
        }
        if max_batch < taken {
            taken = max_batch;
        }
        let ghost before = self@;
        let ghost window = considered(queue@, count, events@, max_batch);
        assert(window == events@.take(taken as int));
        let mut i: usize = 0;
        while i < taken
            invariant
                self.wf(),
                self.capacity() == old(self).capacity(),
                i <= taken <= events@.len(),
                window == events@.take(taken as int),
                batch@ == before.harvest(window.take(i as int)),
                self@ == before.after_firings(window.take(i as int)),
            decreases taken - i,
        {
            let event: Firing = events[i];
            proof {
                let upto = window.take(i as int + 1);
                assert(upto.drop_last() == window.take(i as int));
                assert(upto.last() == event);
            }
            match self.reclaim(PendingToken::from_raw(event.token)) {
                Some(op) => {
                    batch.push((op, event.signal));
                },
                None => {},
            }
            i = i + 1;
        }
        assert(window.take(taken as int) == window);
        batch
    }
}

} // verus!
