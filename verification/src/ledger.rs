//! The books of the store, as mathematics.
//!
//! A [`Ledger`] says which tokens are pending, with which operation, and
//! which tokens were ever issued. Every contract of the store and of the
//! reactor is stated over it, and the laws at the end of this module are
//! what those contracts add up to.

use vstd::prelude::*;

use crate::kernel::{Firing, ReadySignal};
use crate::operation::Operation;
use crate::token::PendingToken;

verus! {

/// One line of a store's history.
pub enum Entry {
    /// An operation was registered under a token.
    Bound(PendingToken, Operation),
    /// A token was resolved: by its event, or by cancelling.
    Resolved(PendingToken),
}

/// Whether one of `events` names `token`.
pub open spec fn named(events: Seq<Firing>, token: PendingToken) -> bool {
    exists|i: int| 0 <= i < events.len() && (#[trigger] events[i]).names() == token
}

/// Number of registrations in `history`.
pub open spec fn bound_in(history: Seq<Entry>) -> nat
    decreases history.len(),
{
    if history.len() == 0 {
        0
    } else {
        bound_in(history.drop_last()) + if history.last() is Bound {
            1nat
        } else {
            0nat
        }
    }
}

/// The history that registers each of `ops` under the token of the same
/// place in `tokens`, in order.
pub open spec fn bindings(tokens: Seq<PendingToken>, ops: Seq<Operation>) -> Seq<Entry> {
    Seq::new(tokens.len(), |i: int| Entry::Bound(tokens[i], ops[i]))
}

/// The books of a store: what is pending, and what was ever issued.
pub struct Ledger {
    /// The registrations in the kernel's custody: token and operation.
    pub pending: Map<PendingToken, Operation>,
    /// Every token ever handed out, pending or not.
    pub issued: Set<PendingToken>,
}

impl Ledger {
    /// The ledger of a store that has registered nothing yet.
    pub open spec fn empty() -> Ledger {
        Ledger { pending: Map::empty(), issued: Set::empty() }
    }

    /// Only finitely many tokens were issued, and every pending token is
    /// one of them.
    pub open spec fn wf(self) -> bool {
        &&& self.issued.finite()
        &&& self.pending.dom().subset_of(self.issued)
    }

    /// Whether `token` was never issued.
    pub open spec fn fresh(self, token: PendingToken) -> bool {
        !self.issued.contains(token)
    }

    /// The ledger after `op` was registered under `token`.
    pub open spec fn bind(self, token: PendingToken, op: Operation) -> Ledger {
        Ledger { pending: self.pending.insert(token, op), issued: self.issued.insert(token) }
    }

    /// The ledger after `token` was resolved: it is pending no longer, and
    /// it stays issued.
    pub open spec fn resolve(self, token: PendingToken) -> Ledger {
        Ledger { pending: self.pending.remove(token), issued: self.issued }
    }

    /// Number of registrations in the kernel's custody.
    pub open spec fn outstanding(self) -> nat {
        self.pending.dom().len()
    }

    /// Number of operations ever registered.
    pub open spec fn submitted(self) -> nat {
        self.issued.len()
    }

    /// Number of operations handed back, by firing or by cancelling.
    pub open spec fn reclaimed(self) -> nat {
        self.issued.difference(self.pending.dom()).len()
    }

    /// The ledger after the kernel's events `events`, in order.
    pub open spec fn after_firings(self, events: Seq<Firing>) -> Ledger
        decreases events.len(),
    {
        if events.len() == 0 {
            self
        } else {
            self.after_firings(events.drop_last()).resolve(events.last().names())
        }
    }

    /// What the events `events` hand back: for each event whose token is
    /// pending when its turn comes, the operation registered under it, with
    /// the event's signal. An event whose token is not pending hands back
    /// nothing.
    pub open spec fn harvest(self, events: Seq<Firing>) -> Seq<(Operation, ReadySignal)>
        decreases events.len(),
    {
        if events.len() == 0 {
            seq![]
        } else {
            let before = self.after_firings(events.drop_last());
            let earlier = self.harvest(events.drop_last());
            let token = events.last().names();
            if before.pending.contains_key(token) {
                earlier.push((before.pending[token], events.last().signal))
            } else {
                earlier
            }
        }
    }

    /// The ledger after one line of history.
    pub open spec fn apply(self, entry: Entry) -> Ledger {
        match entry {
            Entry::Bound(token, op) => self.bind(token, op),
            Entry::Resolved(token) => self.resolve(token),
        }
    }

    /// Whether `entry` can follow this state: a token that is bound must
    /// be fresh. Resolving is always possible, and does nothing to a token
    /// that is not pending.
    pub open spec fn permits(self, entry: Entry) -> bool {
        match entry {
            Entry::Bound(token, _) => self.fresh(token),
            Entry::Resolved(_) => true,
        }
    }

    /// The ledger after `history`, line by line.
    pub open spec fn replay(self, history: Seq<Entry>) -> Ledger
        decreases history.len(),
    {
        if history.len() == 0 {
            self
        } else {
            self.replay(history.drop_last()).apply(history.last())
        }
    }

    /// Whether each line of `history` can follow those before it.
    pub open spec fn permits_all(self, history: Seq<Entry>) -> bool {
        forall|i: int|
            0 <= i < history.len() ==> self.replay(history.take(i)).permits(#[trigger] history[i])
    }

    /// Number of lines of `history` that hand an operation back: those
    /// that resolve a token which is pending when their turn comes.
    pub open spec fn reclaimed_in(self, history: Seq<Entry>) -> nat
        decreases history.len(),
    {
        if history.len() == 0 {
            0
        } else {
            let before = self.replay(history.drop_last());
            self.reclaimed_in(history.drop_last()) + match history.last() {
                Entry::Resolved(token) if before.pending.contains_key(token) => 1nat,
                _ => 0nat,
            }
        }
    }

    /// Binding a fresh token keeps the books in order and adds one
    /// outstanding registration.
    pub proof fn lemma_bind(self, token: PendingToken, op: Operation)
        requires
            self.wf(),
            self.fresh(token),
        ensures
            self.bind(token, op).wf(),
            self.bind(token, op).outstanding() == self.outstanding() + 1,
            self.bind(token, op).submitted() == self.submitted() + 1,
            self.pending.dom().finite(),
    {
        vstd::set_lib::lemma_set_subset_finite(self.issued, self.pending.dom());
        assert(!self.pending.dom().contains(token));
    }

    /// Resolving keeps the books in order, and takes one outstanding
    /// registration away when the token was pending.
    pub proof fn lemma_resolve(self, token: PendingToken)
        requires
            self.wf(),
        ensures
            self.resolve(token).wf(),
            self.resolve(token).submitted() == self.submitted(),
            self.pending.dom().finite(),
            self.pending.contains_key(token) ==> self.outstanding() >= 1
                && self.resolve(token).outstanding() == self.outstanding() - 1,
            !self.pending.contains_key(token) ==> self.resolve(token) == self,
    {
        vstd::set_lib::lemma_set_subset_finite(self.issued, self.pending.dom());
        if !self.pending.contains_key(token) {
            assert(self.pending.remove(token) =~= self.pending);
        } else {
            if self.pending.dom().len() == 0 {
                assert(self.pending.dom() =~= Set::empty());
            }
        }
    }

    /// Of the operations ever registered, each is either still in the
    /// kernel's custody or was handed back: the number outstanding is the
    /// number submitted less the number reclaimed.
    pub proof fn lemma_accounting(self)
        requires
            self.wf(),
        ensures
            self.outstanding() + self.reclaimed() == self.submitted(),
            self.outstanding() <= self.submitted(),
    {
        vstd::set_lib::lemma_set_subset_finite(self.issued, self.pending.dom());
        vstd::set_lib::lemma_set_difference_len(self.issued, self.pending.dom());
        assert(self.issued.intersect(self.pending.dom()) =~= self.pending.dom());
    }

    /// A shorter history is permitted when a longer one is.
    pub proof fn lemma_permits_prefix(self, history: Seq<Entry>)
        requires
            self.permits_all(history),
            history.len() > 0,
        ensures
            self.permits_all(history.drop_last()),
            self.replay(history.drop_last()).permits(history.last()),
    {
        let prefix = history.drop_last();
        assert forall|i: int| 0 <= i < prefix.len() implies self.replay(prefix.take(i)).permits(
            #[trigger] prefix[i],
        ) by {
            assert(prefix.take(i) == history.take(i));
            assert(prefix[i] == history[i]);
        }
        assert(history.take(history.len() - 1) == prefix);
        assert(history[history.len() - 1] == history.last());
    }

    /// The books stay in order through every permitted history, and no
    /// operation is lost or counted twice: at every point the number
    /// outstanding is the number that was outstanding at the start, plus
    /// the number registered since, less the number handed back since.
    pub proof fn lemma_history_accounting(self, history: Seq<Entry>)
        requires
            self.wf(),
            self.permits_all(history),
        ensures
            self.replay(history).wf(),
            self.replay(history).submitted() == self.submitted() + bound_in(history),
            self.replay(history).outstanding() + self.reclaimed_in(history) == self.outstanding()
                + bound_in(history),
        decreases history.len(),
    {
        if history.len() > 0 {
            let prefix = history.drop_last();
            let before = self.replay(prefix);
            self.lemma_permits_prefix(history);
            self.lemma_history_accounting(prefix);
            match history.last() {
                Entry::Bound(token, op) => {
                    before.lemma_bind(token, op);
                },
                Entry::Resolved(token) => {
                    before.lemma_resolve(token);
                },
            }
        }
    }

    /// A token that was issued and is pending no longer is spent for good:
    /// whatever is registered and resolved afterwards, it never names an
    /// operation again.
    pub proof fn lemma_spent_stays_spent(self, token: PendingToken, history: Seq<Entry>)
        requires
            !self.fresh(token),
            !self.pending.contains_key(token),
            self.permits_all(history),
        ensures
            !self.replay(history).fresh(token),
            !self.replay(history).pending.contains_key(token),
        decreases history.len(),
    {
        if history.len() > 0 {
            self.lemma_permits_prefix(history);
            self.lemma_spent_stays_spent(token, history.drop_last());
        }
    }

    /// Resolving spends a token: once resolved, it is pending no longer
    /// and is not fresh, so that a second event with the same token hands
    /// back nothing.
    pub proof fn lemma_resolved_once(self, token: PendingToken, signal: ReadySignal)
        requires
            self.wf(),
            self.pending.contains_key(token),
        ensures
            !self.resolve(token).fresh(token),
            !self.resolve(token).pending.contains_key(token),
            self.resolve(token).harvest(seq![Firing { token: token.encode(), signal }])
                == Seq::<(Operation, ReadySignal)>::empty(),
    {
        PendingToken::lemma_decode_encode(token);
        let events = seq![Firing { token: token.encode(), signal }];
        assert(events.drop_last() == Seq::<Firing>::empty());
        assert(events.last().names() == token);
        let after = self.resolve(token);
        assert(after.harvest(events.drop_last()) == Seq::<(Operation, ReadySignal)>::empty());
        assert(after.after_firings(events.drop_last()) == after);
    }

    /// What a run of events leaves behind: the tokens that were pending
    /// and that no event named, each with its operation. Nothing is issued
    /// by it.
    pub proof fn lemma_after_firings(self, events: Seq<Firing>)
        ensures
            self.after_firings(events).issued == self.issued,
            forall|token: PendingToken|
                #[trigger] self.after_firings(events).pending.contains_key(token) <==> (
                self.pending.contains_key(token) && !named(events, token)),
            forall|token: PendingToken|
                self.after_firings(events).pending.contains_key(token) ==> #[trigger] self.after_firings(
                    events,
                ).pending[token] == self.pending[token],
            self.wf() ==> self.after_firings(events).wf(),
        decreases events.len(),
    {
        if events.len() > 0 {
            let prefix = events.drop_last();
            let last = events.last().names();
            self.lemma_after_firings(prefix);
            let before = self.after_firings(prefix);
            assert forall|token: PendingToken| named(events, token) <==> (named(prefix, token)
                || token == last) by {
                if named(prefix, token) {
                    let i = choose|i: int|
                        0 <= i < prefix.len() && (#[trigger] prefix[i]).names() == token;
                    assert(events[i].names() == token);
                }
                if token == last {
                    assert(events[events.len() - 1].names() == token);
                }
                if named(events, token) {
                    let i = choose|i: int|
                        0 <= i < events.len() && (#[trigger] events[i]).names() == token;
                    if i < prefix.len() {
                        assert(prefix[i].names() == token);
                    }
                }
            }
            assert forall|token: PendingToken|
                #[trigger] self.after_firings(events).pending.contains_key(token) <==> (
                self.pending.contains_key(token) && !named(events, token)) by {
                assert(before.pending.contains_key(token) <==> (self.pending.contains_key(token)
                    && !named(prefix, token)));
            }
        }
    }

    /// Whatever the events are, stale, repeated or unknown, an operation
    /// is handed back exactly when it leaves the store: as many operations
    /// come out of a run of events as registrations go out of the kernel's
    /// custody by it, and never more than there are events.
    pub proof fn lemma_harvest_accounts(self, events: Seq<Firing>)
        requires
            self.wf(),
        ensures
            self.after_firings(events).wf(),
            self.harvest(events).len() + self.after_firings(events).outstanding()
                == self.outstanding(),
            self.harvest(events).len() <= events.len(),
        decreases events.len(),
    {
        if events.len() > 0 {
            self.lemma_harvest_accounts(events.drop_last());
            self.after_firings(events.drop_last()).lemma_resolve(events.last().names());
        }
    }

    /// Events that name pending tokens, each token once, hand back exactly
    /// the operations registered under those tokens: one for each event, in
    /// the order of the events, none twice and none dropped. Afterwards
    /// none of those tokens is pending.
    pub proof fn lemma_firings_reclaim_each_once(self, events: Seq<Firing>)
        requires
            self.wf(),
            forall|i: int|
                0 <= i < events.len() ==> self.pending.contains_key((#[trigger] events[i]).names()),
            forall|i: int, j: int|
                0 <= i < j < events.len() ==> (#[trigger] events[i]).names() != (
                #[trigger] events[j]).names(),
        ensures
            self.harvest(events).len() == events.len(),
            forall|i: int|
                0 <= i < events.len() ==> #[trigger] self.harvest(events)[i] == (
                    self.pending[events[i].names()],
                    events[i].signal,
                ),
            self.after_firings(events).outstanding() + events.len() == self.outstanding(),
            forall|i: int|
                0 <= i < events.len() ==> !self.after_firings(events).pending.contains_key(
                    (#[trigger] events[i]).names(),
                ),
        decreases events.len(),
    {
        self.lemma_after_firings(events);
        if events.len() > 0 {
            let prefix = events.drop_last();
            let last = events.last();
            let before = self.after_firings(prefix);
            assert forall|i: int| 0 <= i < prefix.len() implies self.pending.contains_key(
                (#[trigger] prefix[i]).names(),
            ) by {
                assert(prefix[i] == events[i]);
            }
            assert forall|i: int, j: int| 0 <= i < j < prefix.len() implies (
            #[trigger] prefix[i]).names() != (#[trigger] prefix[j]).names() by {
                assert(prefix[i] == events[i]);
                assert(prefix[j] == events[j]);
            }
            self.lemma_firings_reclaim_each_once(prefix);
            self.lemma_after_firings(prefix);
            assert(!named(prefix, last.names())) by {
                if named(prefix, last.names()) {
                    let i = choose|i: int|
                        0 <= i < prefix.len() && (#[trigger] prefix[i]).names() == last.names();
                    assert(prefix[i] == events[i]);
                    assert(events[events.len() - 1] == last);
                }
            }
            assert(before.pending.contains_key(last.names()));
            before.lemma_resolve(last.names());
            assert forall|i: int| 0 <= i < events.len() implies #[trigger] self.harvest(events)[i]
                == (self.pending[events[i].names()], events[i].signal) by {
                if i < prefix.len() {
                    assert(self.harvest(events)[i] == self.harvest(prefix)[i]);
                    assert(prefix[i] == events[i]);
                }
            }
            assert forall|i: int| 0 <= i < events.len() implies !self.after_firings(
                events,
            ).pending.contains_key((#[trigger] events[i]).names()) by {
                assert(named(events, events[i].names()));
            }
        }
    }

    /// A run of events is a history of resolutions.
    pub proof fn lemma_firings_are_resolutions(self, events: Seq<Firing>)
        ensures
            self.after_firings(events) == self.replay(
                events.map_values(|event: Firing| Entry::Resolved(event.names())),
            ),
            self.permits_all(events.map_values(|event: Firing| Entry::Resolved(event.names()))),
        decreases events.len(),
    {
        let history = events.map_values(|event: Firing| Entry::Resolved(event.names()));
        if events.len() > 0 {
            self.lemma_firings_are_resolutions(events.drop_last());
            assert(history.drop_last() == events.drop_last().map_values(
                |event: Firing| Entry::Resolved(event.names()),
            ));
        }
    }

    /// What a run of registrations leaves behind: what was pending before,
    /// and each of the operations under its own token. The tokens differ
    /// from one another and from every token issued before.
    pub proof fn lemma_after_bindings(self, tokens: Seq<PendingToken>, ops: Seq<Operation>)
        requires
            self.wf(),
            tokens.len() == ops.len(),
            self.permits_all(bindings(tokens, ops)),
        ensures
            self.replay(bindings(tokens, ops)).wf(),
            forall|i: int, j: int|
                0 <= i < j < tokens.len() ==> #[trigger] tokens[i] != #[trigger] tokens[j],
            forall|i: int| 0 <= i < tokens.len() ==> self.fresh(#[trigger] tokens[i]),
            forall|i: int|
                0 <= i < tokens.len() ==> {
                    &&& self.replay(bindings(tokens, ops)).pending.contains_key(
                        #[trigger] tokens[i],
                    )
                    &&& self.replay(bindings(tokens, ops)).pending[tokens[i]] == ops[i]
                },
            forall|token: PendingToken|
                #[trigger] self.replay(bindings(tokens, ops)).pending.contains_key(token) <==> (
                self.pending.contains_key(token) || tokens.contains(token)),
            forall|token: PendingToken|
                self.pending.contains_key(token) ==> #[trigger] self.replay(
                    bindings(tokens, ops),
                ).pending[token] == self.pending[token],
            forall|token: PendingToken|
                #[trigger] self.replay(bindings(tokens, ops)).issued.contains(token) <==> (
                self.issued.contains(token) || tokens.contains(token)),
        decreases tokens.len(),
    {
        let history = bindings(tokens, ops);
        if tokens.len() > 0 {
            let earlier = tokens.drop_last();
            let prefix = bindings(earlier, ops.drop_last());
            assert(history.drop_last() == prefix);
            assert(history.last() == Entry::Bound(tokens.last(), ops.last()));
            self.lemma_permits_prefix(history);
            self.lemma_after_bindings(earlier, ops.drop_last());
            let before = self.replay(prefix);
            let after = self.replay(history);
            before.lemma_bind(tokens.last(), ops.last());
            assert(after == before.bind(tokens.last(), ops.last()));
            assert forall|token: PendingToken| tokens.contains(token) <==> (earlier.contains(token)
                || token == tokens.last()) by {
                if earlier.contains(token) {
                    let i = choose|i: int| 0 <= i < earlier.len() && earlier[i] == token;
                    assert(tokens[i] == token);
                }
                if token == tokens.last() {
                    assert(tokens[tokens.len() - 1] == token);
                }
                if tokens.contains(token) {
                    let i = choose|i: int| 0 <= i < tokens.len() && tokens[i] == token;
                    if i < earlier.len() {
                        assert(earlier[i] == token);
                    }
                }
            }
            assert forall|i: int| 0 <= i < tokens.len() implies self.fresh(
                #[trigger] tokens[i],
            ) by {
                if i < earlier.len() {
                    assert(earlier[i] == tokens[i]);
                }
            }
            assert forall|i: int, j: int| 0 <= i < j < tokens.len() implies #[trigger] tokens[i]
                != #[trigger] tokens[j] by {
                assert(earlier[i] == tokens[i]);
                if j < earlier.len() {
                    assert(earlier[j] == tokens[j]);
                } else {
                    assert(earlier.contains(tokens[i]));
                }
            }
            assert forall|i: int| 0 <= i < tokens.len() implies {
                &&& after.pending.contains_key(#[trigger] tokens[i])
                &&& after.pending[tokens[i]] == ops[i]
            } by {
                if i < earlier.len() {
                    assert(earlier[i] == tokens[i]);
                    assert(ops.drop_last()[i] == ops[i]);
                    assert(earlier.contains(tokens[i]));
                }
            }
            assert forall|token: PendingToken| self.pending.contains_key(token) implies (
            #[trigger] after.pending[token]) == self.pending[token] by {
                assert(before.pending[token] == self.pending[token]);
            }
        } else {
            assert(forall|token: PendingToken| !tokens.contains(token));
        }
    }

    /// Operations that are registered and then fire come back to the
    /// handler one for one. However many of them fire and in whatever
    /// order, each event hands back the operation that was registered
    /// under its token, no operation comes back twice, and once all have
    /// fired the store holds what it held before.
    ///
    /// `order[k]` says which registration the event `events[k]` belongs to.
    pub proof fn lemma_registered_then_fired(
        self,
        tokens: Seq<PendingToken>,
        ops: Seq<Operation>,
        events: Seq<Firing>,
        order: Seq<int>,
    )
        requires
            self.wf(),
            tokens.len() == ops.len(),
            self.permits_all(bindings(tokens, ops)),
            events.len() == order.len(),
            forall|k: int|
                0 <= k < order.len() ==> 0 <= #[trigger] order[k] < tokens.len() && events[k].names()
                    == tokens[order[k]],
            forall|j: int, k: int|
                0 <= j < k < order.len() ==> #[trigger] order[j] != #[trigger] order[k],
        ensures
            self.replay(bindings(tokens, ops)).harvest(events).len() == events.len(),
            forall|k: int|
                0 <= k < events.len() ==> #[trigger] self.replay(bindings(tokens, ops)).harvest(
                    events,
                )[k] == (ops[order[k]], events[k].signal),
            (forall|i: int| 0 <= i < tokens.len() ==> order.contains(i)) ==> self.replay(
                bindings(tokens, ops),
            ).after_firings(events).pending == self.pending,
    {
        let registered = self.replay(bindings(tokens, ops));
        self.lemma_after_bindings(tokens, ops);
        assert forall|k: int| 0 <= k < events.len() implies registered.pending.contains_key(
            (#[trigger] events[k]).names(),
        ) by {
            assert(events[k].names() == tokens[order[k]]);
        }
        assert forall|j: int, k: int| 0 <= j < k < events.len() implies (
        #[trigger] events[j]).names() != (#[trigger] events[k]).names() by {
            assert(order[j] != order[k]);
            assert(events[j].names() == tokens[order[j]]);
            assert(events[k].names() == tokens[order[k]]);
            if order[j] < order[k] {
                assert(tokens[order[j]] != tokens[order[k]]);
            } else {
                assert(tokens[order[k]] != tokens[order[j]]);
            }
        }
        registered.lemma_firings_reclaim_each_once(events);
        registered.lemma_after_firings(events);
        if forall|i: int| 0 <= i < tokens.len() ==> order.contains(i) {
            let after = registered.after_firings(events);
            assert forall|token: PendingToken| after.pending.contains_key(token)
                <==> self.pending.contains_key(token) by {
                if self.pending.contains_key(token) {
                    assert(registered.pending.contains_key(token));
                    if named(events, token) {
                        let k = choose|k: int|
                            0 <= k < events.len() && (#[trigger] events[k]).names() == token;
                        assert(self.fresh(tokens[order[k]]));
                    }
                }
                if after.pending.contains_key(token) && !self.pending.contains_key(token) {
                    assert(tokens.contains(token));
                    let i = choose|i: int| 0 <= i < tokens.len() && tokens[i] == token;
                    assert(order.contains(i));
                    let k = choose|k: int| 0 <= k < order.len() && order[k] == i;
                    assert(events[k].names() == token);
                }
            }
            assert(after.pending =~= self.pending);
        }
    }
}

} // verus!
