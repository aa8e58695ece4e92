//! Submissions: what became of each operation that was to be registered.
//!
//! The reactor reports every registration it makes, or cannot make, as a
//! [`Submission`]. This module says when such a report is right and what a
//! run of them does to the books.

use vstd::prelude::*;

use crate::connection::{transition, IoOutcomeView};
use crate::kernel::Registration;
use crate::ledger::Ledger;
use crate::operation::{OpState, Operation};
use crate::store::{RegisterError, MAX_SLOTS};
use crate::token::PendingToken;

verus! {

/// One registration that the reactor made or could not make: the operation
/// and what became of it. An `Ok` holds the request that the caller now
/// makes with the kernel.
#[derive(Clone, Copy, Debug, PartialEq, Eq)]
pub struct Submission {
    pub op: Operation,
    pub outcome: Result<Registration, RegisterError>,
}

impl Submission {
    /// The ledger after this submission: the operation is pending under
    /// the request's token, or nothing has changed.
    pub open spec fn applied(self, ledger: Ledger) -> Ledger {
        match self.outcome {
            Ok(request) => ledger.bind(request.token, self.op),
            Err(_) => ledger,
        }
    }

    /// Whether this submission is the right answer to registering its
    /// operation in the state `ledger`, on a queue in state `queue`, in a
    /// store of capacity `capacity`.
    ///
    /// A registration is a one-shot request to watch the operation's
    /// descriptor on the live queue, under a fresh token, and it is made
    /// only where the store has room. A refusal says that the queue is torn
    /// down, exactly when it is; or that the store is exhausted, which it
    /// is only when it is full or when so many tokens were issued that a
    /// slot may have worn out.
    pub open spec fn sound(self, ledger: Ledger, queue: Option<i32>, capacity: u32) -> bool {
        match self.outcome {
            Ok(request) => {
                &&& queue is Some
                &&& request == Registration::read_once(
                    queue->0,
                    self.op.descriptor,
                    request.token,
                )
                &&& ledger.fresh(request.token)
                &&& ledger.outstanding() < capacity
            },
            Err(error) => match queue {
                None => error == RegisterError::QueueClosed,
                Some(_) => {
                    &&& error == RegisterError::Exhausted
                    &&& ledger.outstanding() == capacity || ledger.submitted() >= MAX_SLOTS
                },
            },
        }
    }
}

/// The ledger after the submissions `subs`, in order.
pub open spec fn after_submissions(ledger: Ledger, subs: Seq<Submission>) -> Ledger
    decreases subs.len(),
{
    if subs.len() == 0 {
        ledger
    } else {
        subs.last().applied(after_submissions(ledger, subs.drop_last()))
    }
}

/// Whether each of `subs` is sound in the state that those before it have
/// left.
#[verifier::opaque]
pub open spec fn submissions_sound(
    ledger: Ledger,
    queue: Option<i32>,
    capacity: u32,
    subs: Seq<Submission>,
) -> bool {
    forall|i: int|
        0 <= i < subs.len() ==> (#[trigger] subs[i]).sound(
            after_submissions(ledger, subs.take(i)),
            queue,
            capacity,
        )
}

/// Number of submissions among `subs` that led to a registration.
pub open spec fn registered_by(subs: Seq<Submission>) -> nat
    decreases subs.len(),
{
    if subs.len() == 0 {
        0
    } else {
        registered_by(subs.drop_last()) + if subs.last().outcome is Ok {
            1nat
        } else {
            0nat
        }
    }
}

/// Whether one of `subs` registered something under `token`.
pub open spec fn submits(subs: Seq<Submission>, token: PendingToken) -> bool {
    exists|i: int|
        0 <= i < subs.len() && (#[trigger] subs[i]).outcome is Ok && subs[i].outcome->Ok_0.token
            == token
}

/// No submissions are sound submissions.
pub proof fn lemma_sound_empty(ledger: Ledger, queue: Option<i32>, capacity: u32)
    ensures
        submissions_sound(ledger, queue, capacity, Seq::empty()),
{
    reveal(submissions_sound);
}

/// Sound submissions are sound one by one.
pub proof fn lemma_sound_at(
    ledger: Ledger,
    queue: Option<i32>,
    capacity: u32,
    subs: Seq<Submission>,
    i: int,
)
    requires
        submissions_sound(ledger, queue, capacity, subs),
        0 <= i < subs.len(),
    ensures
        subs[i].sound(after_submissions(ledger, subs.take(i)), queue, capacity),
{
    reveal(submissions_sound);
}

/// Sound submissions stay sound with one more that is sound in the state
/// they leave.
pub proof fn lemma_one_more_submission(
    ledger: Ledger,
    queue: Option<i32>,
    capacity: u32,
    subs: Seq<Submission>,
    sub: Submission,
)
    requires
        submissions_sound(ledger, queue, capacity, subs),
        sub.sound(after_submissions(ledger, subs), queue, capacity),
    ensures
        submissions_sound(ledger, queue, capacity, subs.push(sub)),
        after_submissions(ledger, subs.push(sub)) == sub.applied(after_submissions(ledger, subs)),
{
    reveal(submissions_sound);
    let longer = subs.push(sub);
    assert(longer.drop_last() == subs);
    assert forall|i: int| 0 <= i < longer.len() implies (#[trigger] longer[i]).sound(
        after_submissions(ledger, longer.take(i)),
        queue,
        capacity,
    ) by {
        if i < subs.len() {
            assert(longer.take(i) == subs.take(i));
            assert(longer[i] == subs[i]);
        } else {
            assert(longer.take(i) == subs);
        }
    }
}

/// Of sound submissions, those before the last are sound, and the last is
/// sound in the state that they leave.
pub proof fn lemma_sound_prefix(
    ledger: Ledger,
    queue: Option<i32>,
    capacity: u32,
    subs: Seq<Submission>,
)
    requires
        submissions_sound(ledger, queue, capacity, subs),
        subs.len() > 0,
    ensures
        submissions_sound(ledger, queue, capacity, subs.drop_last()),
        subs.last().sound(after_submissions(ledger, subs.drop_last()), queue, capacity),
{
    reveal(submissions_sound);
    let earlier = subs.drop_last();
    assert forall|i: int| 0 <= i < earlier.len() implies (#[trigger] earlier[i]).sound(
        after_submissions(ledger, earlier.take(i)),
        queue,
        capacity,
    ) by {
        assert(earlier.take(i) == subs.take(i));
        assert(earlier[i] == subs[i]);
    }
    assert(subs.take(subs.len() - 1) == earlier);
    assert(subs[subs.len() - 1].sound(after_submissions(ledger, earlier), queue, capacity));
}

/// Two runs of submissions, the second sound in the state that the first
/// leaves, are one sound run.
pub proof fn lemma_submissions_concat(
    ledger: Ledger,
    queue: Option<i32>,
    capacity: u32,
    first: Seq<Submission>,
    second: Seq<Submission>,
)
    requires
        submissions_sound(ledger, queue, capacity, first),
        submissions_sound(after_submissions(ledger, first), queue, capacity, second),
    ensures
        submissions_sound(ledger, queue, capacity, first + second),
        after_submissions(ledger, first + second) == after_submissions(
            after_submissions(ledger, first),
            second,
        ),
    decreases second.len(),
{
    if second.len() == 0 {
        assert(first + second == first);
    } else {
        let middle = after_submissions(ledger, first);
        lemma_sound_prefix(middle, queue, capacity, second);
        lemma_submissions_concat(ledger, queue, capacity, first, second.drop_last());
        lemma_one_more_submission(
            ledger,
            queue,
            capacity,
            first + second.drop_last(),
            second.last(),
        );
        assert((first + second.drop_last()).push(second.last()) == first + second);
    }
}

/// A token is submitted by the last submission or by one before it.
proof fn lemma_submits_last(subs: Seq<Submission>, token: PendingToken)
    requires
        subs.len() > 0,
    ensures
        submits(subs, token) <==> (submits(subs.drop_last(), token) || (subs.last().outcome is Ok
            && subs.last().outcome->Ok_0.token == token)),
{
    let earlier = subs.drop_last();
    let last = subs.last();
    if submits(earlier, token) {
        let i = choose|i: int|
            0 <= i < earlier.len() && (#[trigger] earlier[i]).outcome is Ok
                && earlier[i].outcome->Ok_0.token == token;
        assert(subs[i] == earlier[i]);
    }
    if last.outcome is Ok && last.outcome->Ok_0.token == token {
        assert(subs[subs.len() - 1] == last);
    }
    if submits(subs, token) {
        let i = choose|i: int|
            0 <= i < subs.len() && (#[trigger] subs[i]).outcome is Ok && subs[i].outcome->Ok_0.token
                == token;
        if i < earlier.len() {
            assert(earlier[i] == subs[i]);
        }
    }
}

/// Submissions only add. The books stay in order, what was pending stays
/// pending with its operation, and the tokens that become issued or pending
/// are those of the submissions that led to a registration, one for each.
pub proof fn lemma_submissions_only_add(
    ledger: Ledger,
    queue: Option<i32>,
    capacity: u32,
    subs: Seq<Submission>,
)
    requires
        ledger.wf(),
        submissions_sound(ledger, queue, capacity, subs),
    ensures
        after_submissions(ledger, subs).wf(),
        after_submissions(ledger, subs).outstanding() == ledger.outstanding() + registered_by(subs),
        after_submissions(ledger, subs).submitted() == ledger.submitted() + registered_by(subs),
        registered_by(subs) <= subs.len(),
        forall|token: PendingToken|
            #[trigger] after_submissions(ledger, subs).issued.contains(token) <==> (
            ledger.issued.contains(token) || submits(subs, token)),
        forall|token: PendingToken|
            #[trigger] after_submissions(ledger, subs).pending.contains_key(token) <==> (
            ledger.pending.contains_key(token) || submits(subs, token)),
        forall|token: PendingToken|
            ledger.pending.contains_key(token) ==> #[trigger] after_submissions(
                ledger,
                subs,
            ).pending[token] == ledger.pending[token],
    decreases subs.len(),
{
    if subs.len() > 0 {
        let earlier = subs.drop_last();
        let last = subs.last();
        lemma_sound_prefix(ledger, queue, capacity, subs);
        lemma_submissions_only_add(ledger, queue, capacity, earlier);
        let before = after_submissions(ledger, earlier);
        let after = after_submissions(ledger, subs);
        assert(after == last.applied(before));
        assert forall|token: PendingToken|
            #[trigger] after.issued.contains(token) <==> (ledger.issued.contains(token) || submits(
                subs,
                token,
            )) by {
            lemma_submits_last(subs, token);
        }
        assert forall|token: PendingToken|
            #[trigger] after.pending.contains_key(token) <==> (ledger.pending.contains_key(token)
                || submits(subs, token)) by {
            lemma_submits_last(subs, token);
        }
        if last.outcome is Ok {
            before.lemma_bind(last.outcome->Ok_0.token, last.op);
        }
    } else {
        assert(forall|token: PendingToken| !submits(subs, token));
    }
}

/// Every submission that led to a registration has its operation pending
/// under its own token, which was never issued before and which no other
/// submission shares.
pub proof fn lemma_submissions_take_place(
    ledger: Ledger,
    queue: Option<i32>,
    capacity: u32,
    subs: Seq<Submission>,
)
    requires
        ledger.wf(),
        submissions_sound(ledger, queue, capacity, subs),
    ensures
        forall|i: int|
            0 <= i < subs.len() && (#[trigger] subs[i]).outcome is Ok ==> {
                &&& ledger.fresh(subs[i].outcome->Ok_0.token)
                &&& after_submissions(ledger, subs).pending.contains_key(
                    subs[i].outcome->Ok_0.token,
                )
                &&& after_submissions(ledger, subs).pending[subs[i].outcome->Ok_0.token]
                    == subs[i].op
            },
        forall|i: int, j: int|
            0 <= i < j < subs.len() && (#[trigger] subs[i]).outcome is Ok && (
            #[trigger] subs[j]).outcome is Ok ==> subs[i].outcome->Ok_0.token
                != subs[j].outcome->Ok_0.token,
    decreases subs.len(),
{
    if subs.len() > 0 {
        let earlier = subs.drop_last();
        let last = subs.last();
        lemma_sound_prefix(ledger, queue, capacity, subs);
        lemma_submissions_take_place(ledger, queue, capacity, earlier);
        lemma_submissions_only_add(ledger, queue, capacity, earlier);
        let before = after_submissions(ledger, earlier);
        let after = after_submissions(ledger, subs);
        assert(after == last.applied(before));
        assert forall|i: int| 0 <= i < subs.len() && (#[trigger] subs[i]).outcome is Ok implies {
            &&& ledger.fresh(subs[i].outcome->Ok_0.token)
            &&& after.pending.contains_key(subs[i].outcome->Ok_0.token)
            &&& after.pending[subs[i].outcome->Ok_0.token] == subs[i].op
        } by {
            let token = subs[i].outcome->Ok_0.token;
            if i < earlier.len() {
                assert(earlier[i] == subs[i]);
                assert(before.issued.contains(token));
            } else {
                assert(subs[i] == last);
                assert(before.fresh(token));
            }
        }
        assert forall|i: int, j: int|
            0 <= i < j < subs.len() && (#[trigger] subs[i]).outcome is Ok && (
            #[trigger] subs[j]).outcome is Ok implies subs[i].outcome->Ok_0.token
            != subs[j].outcome->Ok_0.token by {
            assert(earlier[i] == subs[i]);
            if j < earlier.len() {
                assert(earlier[j] == subs[j]);
            } else {
                assert(subs[j] == last);
                assert(before.issued.contains(subs[i].outcome->Ok_0.token));
            }
        }
    }
}

/// Where there is room for all of them, all are registered: on a live
/// queue, in a store that can hold them beside what it holds, and as long
/// as no slot can have worn out, no submission is refused.
pub proof fn lemma_room_for_all(
    ledger: Ledger,
    queue: Option<i32>,
    capacity: u32,
    subs: Seq<Submission>,
)
    requires
        ledger.wf(),
        submissions_sound(ledger, queue, capacity, subs),
        queue is Some,
        ledger.outstanding() + subs.len() <= capacity,
        ledger.submitted() + subs.len() <= MAX_SLOTS,
    ensures
        forall|i: int| 0 <= i < subs.len() ==> (#[trigger] subs[i]).outcome is Ok,
        registered_by(subs) == subs.len(),
    decreases subs.len(),
{
    if subs.len() > 0 {
        let earlier = subs.drop_last();
        lemma_sound_prefix(ledger, queue, capacity, subs);
        lemma_room_for_all(ledger, queue, capacity, earlier);
        lemma_submissions_only_add(ledger, queue, capacity, earlier);
        assert forall|i: int| 0 <= i < subs.len() implies (#[trigger] subs[i]).outcome is Ok by {
            if i < earlier.len() {
                assert(earlier[i] == subs[i]);
            } else {
                assert(subs[i] == subs.last());
            }
        }
    }
}

/// On a queue that is torn down every submission is refused for that
/// reason, and the books do not change.
pub proof fn lemma_closed_queue_refuses_all(ledger: Ledger, capacity: u32, subs: Seq<Submission>)
    requires
        submissions_sound(ledger, None, capacity, subs),
    ensures
        forall|i: int|
            0 <= i < subs.len() ==> (#[trigger] subs[i]).outcome == Err::<
                Registration,
                RegisterError,
            >(RegisterError::QueueClosed),
        after_submissions(ledger, subs) == ledger,
    decreases subs.len(),
{
    if subs.len() > 0 {
        let earlier = subs.drop_last();
        lemma_sound_prefix(ledger, None, capacity, subs);
        lemma_closed_queue_refuses_all(ledger, capacity, earlier);
        assert forall|i: int| 0 <= i < subs.len() implies (#[trigger] subs[i]).outcome == Err::<
            Registration,
            RegisterError,
        >(RegisterError::QueueClosed) by {
            if i < earlier.len() {
                assert(earlier[i] == subs[i]);
            } else {
                assert(subs[i] == subs.last());
            }
        }
    }
}

/// After a listening operation has fired and a connection was accepted,
/// registering what the state machine asks for puts exactly two operations
/// into the kernel's custody: the listener again, on its own socket, and
/// one reading operation on the new connection.
pub proof fn lemma_accept_registers_two(
    ledger: Ledger,
    queue: Option<i32>,
    capacity: u32,
    listener: i32,
    connection: i32,
    subs: Seq<Submission>,
)
    requires
        ledger.wf(),
        submissions_sound(ledger, queue, capacity, subs),
        subs.len() == 2,
        forall|i: int|
            0 <= i < 2 ==> (#[trigger] subs[i]).outcome is Ok && subs[i].op == transition(
                Operation::listening_on(listener),
                IoOutcomeView::Accepted(connection),
            ).submissions()[i],
    ensures
        ({
            let after = after_submissions(ledger, subs);
            let rearmed = subs[0].outcome->Ok_0;
            let reading = subs[1].outcome->Ok_0;
            &&& rearmed == Registration::read_once(queue->0, listener, rearmed.token)
            &&& reading == Registration::read_once(queue->0, connection, reading.token)
            &&& rearmed.token != reading.token
            &&& after.pending[rearmed.token] == Operation::listening_on(listener)
            &&& after.pending[reading.token] == Operation::reading_on(connection)
            &&& after.outstanding() == ledger.outstanding() + 2
            &&& forall|token: PendingToken|
                #[trigger] after.pending.contains_key(token) <==> (ledger.pending.contains_key(
                    token,
                ) || token == rearmed.token || token == reading.token)
        }),
{
    lemma_submissions_only_add(ledger, queue, capacity, subs);
    lemma_submissions_take_place(ledger, queue, capacity, subs);
    lemma_sound_at(ledger, queue, capacity, subs, 0);
    lemma_sound_at(ledger, queue, capacity, subs, 1);
    let after = after_submissions(ledger, subs);
    assert(registered_by(subs) == 2) by {
        let one = subs.drop_last();
        assert(one.last() == subs[0]);
        assert(one.drop_last().len() == 0);
        assert(registered_by(one.drop_last()) == 0);
        assert(registered_by(one) == 1);
    }
    assert forall|token: PendingToken| #[trigger] after.pending.contains_key(token) implies (
    ledger.pending.contains_key(token) || token == subs[0].outcome->Ok_0.token || token
        == subs[1].outcome->Ok_0.token) by {
        if submits(subs, token) {
            let i = choose|i: int|
                0 <= i < subs.len() && (#[trigger] subs[i]).outcome is Ok
                    && subs[i].outcome->Ok_0.token == token;
            assert(i == 0 || i == 1);
        }
    }
}

/// A listener is never lost. Whatever accepting came to, once what the
/// state machine asks for is registered, a listening operation on the same
/// socket is in the kernel's custody again: a further connection is
/// accepted on a later turn, whether or not earlier ones are still open.
pub proof fn lemma_listener_stays_registered(
    ledger: Ledger,
    queue: Option<i32>,
    capacity: u32,
    op: Operation,
    outcome: IoOutcomeView,
    subs: Seq<Submission>,
)
    requires
        ledger.wf(),
        op.state == OpState::Listening,
        submissions_sound(ledger, queue, capacity, subs),
        subs.len() == transition(op, outcome).submissions().len(),
        forall|i: int|
            0 <= i < subs.len() ==> (#[trigger] subs[i]).outcome is Ok && subs[i].op == transition(
                op,
                outcome,
            ).submissions()[i],
    ensures
        exists|token: PendingToken|
            ledger.fresh(token) && #[trigger] after_submissions(ledger, subs).pending.contains_key(
                token,
            ) && after_submissions(ledger, subs).pending[token] == op,
{
    lemma_submissions_take_place(ledger, queue, capacity, subs);
    let wanted = transition(op, outcome).submissions();
    assert(wanted.len() > 0 && wanted[0] == op);
    let token = subs[0].outcome->Ok_0.token;
    assert(after_submissions(ledger, subs).pending.contains_key(token));
}

} // verus!
