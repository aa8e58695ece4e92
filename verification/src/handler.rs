//! Handlers: who decides what follows an operation that has fired.
//!
//! A [`Handler`] is supplied by the user of the reactor. The reactor never
//! calls it directly but through a [`Traced`], which makes the call and
//! writes down, for proofs only, what the handler was called with and what
//! it asked for.

use vstd::prelude::*;

use crate::operation::Operation;

verus! {

/// The operations that a handler wants registered beside the one it
/// returns. A handler gets this and nothing else of the reactor.
pub struct Resubmit {
    ops: Vec<Operation>,
}

impl View for Resubmit {
    type V = Seq<Operation>;

    closed spec fn view(&self) -> Seq<Operation> {
        self.ops@
    }
}

/// What a handler's answer asks to have registered: the operations it
/// pushed, then the one it returned.
pub open spec fn wanted(pushed: Seq<Operation>, next: Option<Operation>) -> Seq<Operation> {
    match next {
        Some(op) => pushed.push(op),
        None => pushed,
    }
}

impl Resubmit {
    /// Nothing asked for yet.
    pub fn new() -> (resubmit: Resubmit)
        ensures
            resubmit@ == Seq::<Operation>::empty(),
    {
        Resubmit { ops: Vec::new() }
    }

    /// Asks for `op` to be registered.
    pub fn push(&mut self, op: Operation)
        ensures
            final(self)@ == old(self)@.push(op),
    {
        self.ops.push(op);
    }

    /// The operations asked for so far, in order.
    pub fn into_ops(self) -> (ops: Vec<Operation>)
        ensures
            ops@ == self@,
    {
        self.ops
    }

    /// Everything a handler's answer asks to have registered, in the order
    /// in which it is registered: what was pushed, then `next`, the
    /// operation that the handler returned.
    pub fn into_wanted(self, next: Option<Operation>) -> (ops: Vec<Operation>)
        ensures
            ops@ == wanted(self@, next),
    {
        let mut ops = self.ops;
        match next {
            Some(op) => {
                ops.push(op);
            },
            None => {},
        }
        ops
    }
}

/// Decides what follows an operation that has fired.
///
/// The operation returned, if any, continues the flow and is registered.
/// Operations pushed to `resubmit` are registered too, before it. A handler
/// that ends a flow closes the descriptor before it returns.
pub trait Handler {
    fn handle(&mut self, op: Operation, resubmit: &mut Resubmit) -> Option<Operation>;
}

/// A handler together with the record of its calls.
///
/// The record exists in proofs only. It grows by one call of
/// [`Traced::handle`] and in no other way, so that a contract which says
/// how the record has grown says which calls were made.
pub struct Traced<H: Handler> {
    inner: H,
    handled: Ghost<Seq<Operation>>,
    asked: Ghost<Seq<Operation>>,
}

impl<H: Handler> Traced<H> {
    /// Every operation the handler was called with, oldest first.
    pub closed spec fn handled(&self) -> Seq<Operation> {
        self.handled@
    }

    /// Every operation the handler asked to have registered, oldest first.
    pub closed spec fn asked(&self) -> Seq<Operation> {
        self.asked@
    }

    /// The handler itself.
    pub closed spec fn handler(&self) -> H {
        self.inner
    }

    /// `handler`, not called yet.
    pub fn new(handler: H) -> (traced: Traced<H>)
        ensures
            traced.handler() == handler,
            traced.handled() == Seq::<Operation>::empty(),
            traced.asked() == Seq::<Operation>::empty(),
    {
        Traced { inner: handler, handled: Ghost(Seq::empty()), asked: Ghost(Seq::empty()) }
    }

    /// The handler.
    pub fn inner(&self) -> (inner: &H)
        ensures
            *inner == self.handler(),
    {
        &self.inner
    }

    /// The handler, to change its own state. Calls made through this are
    /// not the reactor's and leave the record as it is.
    pub fn inner_mut(&mut self) -> (inner: &mut H)
        ensures
            *inner == old(self).handler(),
            final(self).handler() == *final(inner),
            final(self).handled() == old(self).handled(),
            final(self).asked() == old(self).asked(),
    {
        &mut self.inner
    }

    /// The handler, given back.
    pub fn into_inner(self) -> (inner: H)
        ensures
            inner == self.handler(),
    {
        self.inner
    }

    /// Calls the handler once, with `op` and with nothing pushed yet, and
    /// returns what it asks to have registered: what it pushed, then the
    /// operation it returned.
    pub fn handle(&mut self, op: Operation) -> (asked: Vec<Operation>)
        ensures
            final(self).handled() == old(self).handled().push(op),
            final(self).asked() == old(self).asked() + asked@,
    {
        let mut resubmit = Resubmit::new();
        let next = self.inner.handle(op, &mut resubmit);
        let asked = resubmit.into_wanted(next);
        proof {
            self.handled@ = self.handled@.push(op);
            self.asked@ = self.asked@ + asked@;
        }
        asked
    }
}

} // verus!
