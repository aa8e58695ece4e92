//! A single-threaded, one-shot readiness reactor without the system calls.
//!
//! The crate holds the bookkeeping and the decisions of a reactor: which
//! operation a kernel event belongs to, what is registered next, when the
//! loop ends. It never talks to the operating system itself. The caller
//! performs each kernel request the reactor hands out and reports back what
//! the kernel answered, as plain values.
//!
//! A server on it creates a kernel queue and gives the result to
//! [`Reactor::create`], registers a listener with [`Reactor::listen_async`],
//! and then turns the loop: it waits as [`Reactor::wait_request`] says,
//! hands what the wait returned to [`Reactor::turn`], and carries out the
//! submissions that come back, telling [`Reactor::settle`] what the kernel
//! answered to each. The handler it passes to `turn`, in a [`Traced`], makes
//! the system call that [`want`] names, lets [`advance`] decide what
//! follows and gives that as its answer with [`Step::answer`].
//!
//! The modules, from the leaves up: [`operation`], [`token`] and [`kernel`]
//! hold the plain values; [`queue`] the handle of the kernel queue;
//! [`ledger`] the mathematical model of what is pending, with its laws;
//! [`store`] the slots and tokens that implement it; [`submission`] the
//! reports of registrations; [`handler`] the handler and the record of its
//! calls; [`reactor`] the dispatch; and [`connection`] the state machine of
//! a TCP connection.

pub mod connection;
pub mod handler;
pub mod kernel;
pub mod ledger;
pub mod operation;
pub mod queue;
pub mod reactor;
pub mod store;
pub mod submission;
pub mod token;

pub use connection::{advance, want, Fault, IoOutcome, IoRequest, Step, READ_CHUNK};
pub use kernel::{Filter, Firing, ReadySignal, Registration, WaitRequest, DEFAULT_BATCH};
pub use ledger::{Entry, Ledger};
pub use operation::{OpState, Operation};
pub use queue::{QueueError, QueueHandle};
pub use handler::{Handler, Resubmit, Traced};
pub use reactor::{Reactor, Turn};
pub use store::{OperationStore, RegisterError, Rejection, MAX_SLOTS};
pub use submission::Submission;
pub use token::PendingToken;
