//! The connection state machine: listening, then reading, then done.
//!
//! A handler built on this module asks [`want`] which system call a fired
//! operation needs, performs it, and gives the answer to [`advance`], which
//! decides what is registered next, what is closed and what was received.

use vstd::prelude::*;
use vstd::utf8::*;

use crate::handler::{wanted, Resubmit};
use crate::operation::{OpState, Operation};

verus! {

/// Most bytes taken from a connection in one dispatch.
pub const READ_CHUNK: usize = 32;

/// The one system call a fired operation needs.
#[derive(Clone, Copy, Debug, PartialEq, Eq, Structural)]
pub enum IoRequest {
    /// Accept one pending connection and make it non-blocking.
    Accept { listener: i32 },
    /// Read once, without blocking, at most `limit` bytes.
    Read { descriptor: i32, limit: usize },
    /// No system call.
    Nothing,
}

/// What the system call answered.
#[derive(Clone, Debug, PartialEq, Eq)]
pub enum IoOutcome {
    /// A new, non-blocking connection.
    Accepted(i32),
    /// The bytes of one read, no more than were asked for. None at all
    /// means that the peer has closed.
    Received(Vec<u8>),
    /// Nothing was available and the call would have blocked.
    WouldBlock,
    /// The call failed with this OS error code.
    Failed(i32),
    /// No call was made.
    Nothing,
}

/// [`IoOutcome`] as a mathematical value.
pub enum IoOutcomeView {
    Accepted(i32),
    Received(Seq<u8>),
    WouldBlock,
    Failed(i32),
    Nothing,
}

impl View for IoOutcome {
    type V = IoOutcomeView;

    open spec fn view(&self) -> IoOutcomeView {
        match *self {
            IoOutcome::Accepted(descriptor) => IoOutcomeView::Accepted(descriptor),
            IoOutcome::Received(bytes) => IoOutcomeView::Received(bytes@),
            IoOutcome::WouldBlock => IoOutcomeView::WouldBlock,
            IoOutcome::Failed(code) => IoOutcomeView::Failed(code),
            IoOutcome::Nothing => IoOutcomeView::Nothing,
        }
    }
}

/// Why a dispatch did not go the ordinary way. A fault concerns one
/// operation only and never ends the reactor.
#[derive(Clone, Copy, Debug, PartialEq, Eq, Structural)]
pub enum Fault {
    /// Accepting failed with this OS error code.
    Accept(i32),
    /// Reading failed with this OS error code.
    Read(i32),
    /// The bytes received are not UTF-8 text.
    Decode,
    /// The outcome answers another request than the operation made.
    Unexpected,
}

/// What one dispatch of the state machine decided.
#[derive(Clone, Debug, PartialEq, Eq)]
pub struct Step {
    /// The operation that continues this flow, if it goes on.
    pub next: Option<Operation>,
    /// A second operation to register beside `next`.
    pub rearm: Option<Operation>,
    /// A descriptor whose flow has ended and that is to be closed.
    pub release: Option<i32>,
    /// The text received in this dispatch.
    pub text: Option<String>,
    /// What went wrong, if anything did.
    pub fault: Option<Fault>,
}

/// [`Step`] as a mathematical value.
pub struct StepView {
    pub next: Option<Operation>,
    pub rearm: Option<Operation>,
    pub release: Option<i32>,
    pub text: Option<Seq<char>>,
    pub fault: Option<Fault>,
}

impl View for Step {
    type V = StepView;

    open spec fn view(&self) -> StepView {
        StepView {
            next: self.next,
            rearm: self.rearm,
            release: self.release,
            text: match self.text {
                Some(text) => Some(text@),
                None => None,
            },
            fault: self.fault,
        }
    }
}

impl Step {
    /// Gives the step's answer as a handler gives it: pushes the operation
    /// to register beside the flow's own, if there is one, and returns the
    /// one that continues the flow. Registered in this order they are the
    /// step's submissions.
    pub fn answer(&self, resubmit: &mut Resubmit) -> (next: Option<Operation>)
        ensures
            next == self.next,
            final(resubmit)@ == old(resubmit)@ + match self.rearm {
                Some(op) => seq![op],
                None => seq![],
            },
            wanted(final(resubmit)@, next) == old(resubmit)@ + self@.submissions(),
    {
        match self.rearm {
            Some(op) => {
                resubmit.push(op);
            },
            None => {},
        }
        self.next
    }
}

impl StepView {
    /// The flow goes on with `op` and nothing else happens.
    pub open spec fn proceed(op: Operation) -> StepView {
        StepView { next: Some(op), rearm: None, release: None, text: None, fault: None }
    }

    /// The flow goes on with `op` after a fault.
    pub open spec fn proceed_after(op: Operation, fault: Fault) -> StepView {
        StepView { next: Some(op), rearm: None, release: None, text: None, fault: Some(fault) }
    }

    /// The flow ends and its descriptor is closed.
    pub open spec fn finish(descriptor: i32, fault: Option<Fault>) -> StepView {
        StepView { next: None, rearm: None, release: Some(descriptor), text: None, fault }
    }

    /// The operations to register after this step, in the order in which
    /// they are registered: the re-armed one first.
    pub open spec fn submissions(self) -> Seq<Operation> {
        let rearmed = match self.rearm {
            Some(op) => seq![op],
            None => seq![],
        };
        match self.next {
            Some(op) => rearmed.push(op),
            None => rearmed,
        }
    }
}

/// The system call that `op` needs once it has fired.
pub open spec fn request_for(op: Operation) -> IoRequest {
    match op.state {
        OpState::Listening => IoRequest::Accept { listener: op.descriptor },
        OpState::Reading => IoRequest::Read { descriptor: op.descriptor, limit: READ_CHUNK },
        OpState::Writing => IoRequest::Nothing,
    }
}

/// Whether `outcome` is a possible answer to `request`. A read returns no
/// more bytes than it was asked for.
pub open spec fn answers(outcome: IoOutcomeView, request: IoRequest) -> bool {
    match request {
        IoRequest::Accept { .. } => outcome is Accepted || outcome is WouldBlock
            || outcome is Failed,
        IoRequest::Read { limit, .. } => match outcome {
            IoOutcomeView::Received(bytes) => bytes.len() <= limit,
            IoOutcomeView::WouldBlock => true,
            IoOutcomeView::Failed(_) => true,
            _ => false,
        },
        IoRequest::Nothing => outcome is Nothing,
    }
}

/// The state machine.
///
/// A listening operation that accepted a connection starts a reading
/// operation on it and is itself registered again, so that further
/// connections are accepted while earlier ones are still open. When
/// accepting fails or finds nothing, the listener is registered again.
///
/// A reading operation takes what one read returned. Text is handed out and
/// the operation is registered again for what follows. An empty read means
/// that the peer has closed: the flow ends. A failed read, or bytes that are
/// not UTF-8, end that flow with a fault. More bytes than one read can
/// return are no answer to it: nothing is handed out and the operation is
/// registered again.
///
/// A writing operation has nothing to do yet: its flow ends.
pub open spec fn transition(op: Operation, outcome: IoOutcomeView) -> StepView {
    match op.state {
        OpState::Listening => match outcome {
            IoOutcomeView::Accepted(connection) => StepView {
                next: Some(Operation { descriptor: connection, state: OpState::Reading }),
                rearm: Some(op),
                release: None,
                text: None,
                fault: None,
            },
            IoOutcomeView::WouldBlock => StepView::proceed(op),
            IoOutcomeView::Failed(code) => StepView::proceed_after(op, Fault::Accept(code)),
            _ => StepView::proceed_after(op, Fault::Unexpected),
        },
        OpState::Reading => match outcome {
            IoOutcomeView::Received(bytes) => if bytes.len() > READ_CHUNK {
                StepView::proceed_after(op, Fault::Unexpected)
            } else if bytes.len() == 0 {
                StepView::finish(op.descriptor, None)
            } else if valid_utf8(bytes) {
                StepView {
                    next: Some(op),
                    rearm: None,
                    release: None,
                    text: Some(decode_utf8(bytes)),
                    fault: None,
                }
            } else {
                StepView::finish(op.descriptor, Some(Fault::Decode))
            },
            IoOutcomeView::WouldBlock => StepView::proceed(op),
            IoOutcomeView::Failed(code) => StepView::finish(
                op.descriptor,
                Some(Fault::Read(code)),
            ),
            _ => StepView::proceed_after(op, Fault::Unexpected),
        },
        OpState::Writing => StepView::finish(op.descriptor, None),
    }
}

/// `String::from_utf8` of std, with its error dropped. The contract says
/// what std documents: the call succeeds exactly on valid UTF-8, and the
/// string then holds the characters that the bytes encode.
#[verifier::external_body]
fn text_from_utf8(bytes: Vec<u8>) -> (text: Option<String>)
    ensures
        text is Some <==> valid_utf8(bytes@),
        text matches Some(s) ==> s@ == decode_utf8(bytes@),
{
    match String::from_utf8(bytes) {
        Ok(text) => Some(text),
        Err(_) => None,
    }
}

/// The system call that `op` needs once it has fired.
pub fn want(op: &Operation) -> (request: IoRequest)
    ensures
        request == request_for(*op),
{
    match op.state {
        OpState::Listening => IoRequest::Accept { listener: op.descriptor },
        OpState::Reading => IoRequest::Read { descriptor: op.descriptor, limit: READ_CHUNK },
        OpState::Writing => IoRequest::Nothing,
    }
}

fn proceed(op: Operation, fault: Option<Fault>) -> (step: Step)
    ensures
        step@ == (StepView { next: Some(op), rearm: None, release: None, text: None, fault }),
{
    Step { next: Some(op), rearm: None, release: None, text: None, fault }
}

fn finish(descriptor: i32, fault: Option<Fault>) -> (step: Step)
    ensures
        step@ == StepView::finish(descriptor, fault),
{
    Step { next: None, rearm: None, release: Some(descriptor), text: None, fault }
}

/// Decides what follows from `outcome`, the answer to the system call that
/// the fired operation `op` asked for.
pub fn advance(op: Operation, outcome: IoOutcome) -> (step: Step)
    ensures
        step@ == transition(op, outcome@),
{
    match op.state {
        OpState::Listening => match outcome {
            IoOutcome::Accepted(connection) => Step {
                next: Some(Operation::reading(connection)),
                rearm: Some(op),
                release: None,
                text: None,
                fault: None,
            },
            IoOutcome::WouldBlock => proceed(op, None),
            IoOutcome::Failed(code) => proceed(op, Some(Fault::Accept(code))),
            _ => proceed(op, Some(Fault::Unexpected)),
        },
        OpState::Reading => match outcome {
            IoOutcome::Received(bytes) => {
                if bytes.len() > READ_CHUNK {
                    proceed(op, Some(Fault::Unexpected))
                } else if bytes.len() == 0 {
                    finish(op.descriptor, None)
                } else {
                    match text_from_utf8(bytes) {
                        Some(text) => Step {
                            next: Some(op),
                            rearm: None,
                            release: None,
                            text: Some(text),
                            fault: None,
                        },
                        None => finish(op.descriptor, Some(Fault::Decode)),
                    }
                }
            },
            IoOutcome::WouldBlock => proceed(op, None),
            IoOutcome::Failed(code) => finish(op.descriptor, Some(Fault::Read(code))),
            _ => proceed(op, Some(Fault::Unexpected)),
        },
        OpState::Writing => finish(op.descriptor, None),
    }
}

/// After a successful accept exactly two operations are registered: the
/// listener again, on its own socket, and one reading operation on the new
/// connection. Nothing is closed.
pub proof fn lemma_accept_rearms_and_reads(listener: i32, connection: i32)
    ensures
        ({
            let op = Operation { descriptor: listener, state: OpState::Listening };
            let step = transition(op, IoOutcomeView::Accepted(connection));
            &&& step.submissions() == seq![
                op,
                Operation { descriptor: connection, state: OpState::Reading },
            ]
            &&& step.release is None
            &&& step.fault is None
        }),
{
}

/// A listener is never lost: whatever the answer, a listening operation on
/// the same socket is among those registered next.
pub proof fn lemma_listener_stays(op: Operation, outcome: IoOutcomeView)
    requires
        op.state == OpState::Listening,
    ensures
        transition(op, outcome).submissions().contains(op),
        transition(op, outcome).release is None,
{
    assert(transition(op, outcome).submissions()[0] == op);
}

/// A flow either goes on or gives its descriptor back, never both, and a
/// descriptor that is closed is the one of the operation that fired.
pub proof fn lemma_descriptor_kept_or_released(op: Operation, outcome: IoOutcomeView)
    ensures
        ({
            let step = transition(op, outcome);
            &&& step.next is Some <==> step.release is None
            &&& step.release matches Some(descriptor) ==> descriptor == op.descriptor
            &&& step.rearm is Some ==> step.next is Some
        }),
{
}

/// The states follow one another in one direction: a listener leads to
/// itself or to reading, reading leads to reading on the same descriptor,
/// nothing leads to writing, and writing leads nowhere.
pub proof fn lemma_states_in_order(op: Operation, outcome: IoOutcomeView, i: int)
    requires
        0 <= i < transition(op, outcome).submissions().len(),
    ensures
        ({
            let next = transition(op, outcome).submissions()[i];
            match op.state {
                OpState::Listening => next == op || next.state == OpState::Reading,
                OpState::Reading => next == op,
                OpState::Writing => false,
            }
        }),
{
}

/// A listener asks for one accept, on its own socket, and an accepted
/// connection leads to one reading operation, on the new connection.
pub proof fn lemma_listener_accepts_once(listener: i32, connection: i32)
    ensures
        request_for(Operation::listening_on(listener)) == (IoRequest::Accept { listener }),
        transition(Operation::listening_on(listener), IoOutcomeView::Accepted(connection)).next
            == Some(Operation::reading_on(connection)),
{
}

/// A reader asks for one read of at most a chunk, on its own connection,
/// and takes no more than that: whatever is handed out as text was at most
/// a chunk of bytes.
pub proof fn lemma_reader_takes_one_chunk(descriptor: i32, outcome: IoOutcomeView)
    ensures
        request_for(Operation::reading_on(descriptor)) == (IoRequest::Read {
            descriptor,
            limit: READ_CHUNK,
        }),
        READ_CHUNK == 32,
        transition(Operation::reading_on(descriptor), outcome).text is Some ==> outcome is Received
            && 0 < outcome->Received_0.len() <= READ_CHUNK && transition(
            Operation::reading_on(descriptor),
            outcome,
        ).text == Some(decode_utf8(outcome->Received_0)),
{
}

/// An outcome that answers the request made for `op` is never reported as
/// unexpected, and one that does not answer it always is.
pub proof fn lemma_answer_is_expected(op: Operation, outcome: IoOutcomeView)
    ensures
        op.state != OpState::Writing ==> (answers(outcome, request_for(op)) <==> transition(
            op,
            outcome,
        ).fault != Some(Fault::Unexpected)),
        op.state == OpState::Writing ==> transition(op, outcome).fault is None,
{
}

/// A chunk of text is handed out at once and the connection stays
/// registered for what follows: the dispatch does not go on reading.
pub proof fn lemma_read_registers_again(op: Operation, bytes: Seq<u8>)
    requires
        op.state == OpState::Reading,
        0 < bytes.len() <= READ_CHUNK,
        valid_utf8(bytes),
    ensures
        ({
            let step = transition(op, IoOutcomeView::Received(bytes));
            &&& step.text == Some(decode_utf8(bytes))
            &&& step.submissions() == seq![op]
            &&& step.release is None
            &&& step.fault is None
        }),
{
}

/// One dispatch asks for one system call and registers little: at most
/// two operations follow a listener, at most one follows a connection, and
/// text comes out of a reading operation only.
pub proof fn lemma_one_step_is_bounded(op: Operation, outcome: IoOutcomeView)
    ensures
        transition(op, outcome).submissions().len() <= 2,
        op.state != OpState::Listening ==> transition(op, outcome).submissions().len() <= 1,
        transition(op, outcome).text is Some ==> op.state == OpState::Reading
            && outcome is Received,
{
}

} // verus!
