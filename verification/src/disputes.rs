//! Which transactions of an account are disputed, resolved or charged
//! back. Membership decides, not the order of events: a resolve or a
//! chargeback excludes a transaction from open dispute for good.

use crate::positions::{Transaction, TxKind};
use std::collections::HashSet;
use vstd::prelude::*;

verus! {

broadcast use vstd::std_specs::hash::group_hash_axioms;

/// Some event of `kind` in `txns` carries `tx_id`.
pub open spec fn has_event(txns: Seq<Transaction>, kind: TxKind, tx_id: u32) -> bool {
    exists|i: int|
        0 <= i < txns.len() && (#[trigger] txns[i]).kind == kind && txns[i].tx_id == tx_id
}

/// `tx_id` is that of a deposit or withdrawal of the account. A dispute,
/// resolve or chargeback that refers to any other identifier has no effect.
pub open spec fn is_known(txns: Seq<Transaction>, tx_id: u32) -> bool {
    has_event(txns, TxKind::Deposit, tx_id) || has_event(txns, TxKind::Withdrawal, tx_id)
}

/// At least one resolve refers to the known `tx_id`, whether or not a
/// dispute came first.
pub open spec fn is_resolved(txns: Seq<Transaction>, tx_id: u32) -> bool {
    is_known(txns, tx_id) && has_event(txns, TxKind::Resolve, tx_id)
}

/// At least one chargeback refers to the known `tx_id`, whether or not a
/// dispute came first.
pub open spec fn is_charged_back(txns: Seq<Transaction>, tx_id: u32) -> bool {
    is_known(txns, tx_id) && has_event(txns, TxKind::Chargeback, tx_id)
}

/// A dispute refers to the known `tx_id`, and no resolve or chargeback does,
/// wherever in the account's history they stand.
pub open spec fn is_open_disputed(txns: Seq<Transaction>, tx_id: u32) -> bool {
    &&& is_known(txns, tx_id)
    &&& has_event(txns, TxKind::Dispute, tx_id)
    &&& !has_event(txns, TxKind::Resolve, tx_id)
    &&& !has_event(txns, TxKind::Chargeback, tx_id)
}

/// No dispute, resolve or chargeback refers to the known `tx_id`.
pub open spec fn is_normal(txns: Seq<Transaction>, tx_id: u32) -> bool {
    &&& is_known(txns, tx_id)
    &&& !has_event(txns, TxKind::Dispute, tx_id)
    &&& !has_event(txns, TxKind::Resolve, tx_id)
    &&& !has_event(txns, TxKind::Chargeback, tx_id)
}

/// An account is locked once one of its transactions was charged back.
pub open spec fn is_locked(txns: Seq<Transaction>) -> bool {
    exists|tx_id: u32| is_charged_back(txns, tx_id)
}

/// Appending one transaction adds exactly its own identifier to the events
/// of its own kind.
pub proof fn has_event_push(txns: Seq<Transaction>, t: Transaction, kind: TxKind, tx_id: u32)
    ensures
        has_event(txns.push(t), kind, tx_id) <==> has_event(txns, kind, tx_id) || (t.kind == kind
            && t.tx_id == tx_id),
{
    let longer = txns.push(t);
    if has_event(txns, kind, tx_id) {
        let i = choose|i: int|
            0 <= i < txns.len() && (#[trigger] txns[i]).kind == kind && txns[i].tx_id == tx_id;
        assert(longer[i] == txns[i]);
    }
    if t.kind == kind && t.tx_id == tx_id {
        assert(longer[txns.len() as int] == t);
    }
    if has_event(longer, kind, tx_id) {
        let i = choose|i: int|
            0 <= i < longer.len() && (#[trigger] longer[i]).kind == kind && longer[i].tx_id
                == tx_id;
        if i < txns.len() {
            assert(txns[i] == longer[i]);
        }
    }
}

/// What the events of one account refer to: for each kind, the identifiers
/// that its events carry, gathered in one pass over the account's
/// transactions.
pub struct References {
    deposits: HashSet<u32>,
    withdrawals: HashSet<u32>,
    disputes: HashSet<u32>,
    resolves: HashSet<u32>,
    chargebacks: HashSet<u32>,
    source: Ghost<Seq<Transaction>>,
}

impl References {
    /// The transactions that the references were gathered from.
    pub closed spec fn source(&self) -> Seq<Transaction> {
        self.source@
    }

    spec fn ids(&self, kind: TxKind) -> Set<u32> {
        match kind {
            TxKind::Deposit => self.deposits@,
            TxKind::Withdrawal => self.withdrawals@,
            TxKind::Dispute => self.disputes@,
            TxKind::Resolve => self.resolves@,
            TxKind::Chargeback => self.chargebacks@,
        }
    }

    #[verifier::type_invariant]
    spec fn holds_events_of_source(&self) -> bool {
        forall|kind: TxKind, tx_id: u32| #[trigger]
            self.ids(kind).contains(tx_id) <==> has_event(self.source@, kind, tx_id)
    }

    /// Gathers what the events of `txns` refer to.
    pub fn collect(txns: &Vec<Transaction>) -> (refs: References)
        ensures
            refs.source() == txns@,
    {
        let mut deposits: HashSet<u32> = HashSet::new();
        let mut withdrawals: HashSet<u32> = HashSet::new();
        let mut disputes: HashSet<u32> = HashSet::new();
        let mut resolves: HashSet<u32> = HashSet::new();
        let mut chargebacks: HashSet<u32> = HashSet::new();
        let mut i: usize = 0;
        while i < txns.len()
            invariant
                0 <= i <= txns.len(),
                forall|id: u32|
                    deposits@.contains(id) <==> has_event(
                        txns@.take(i as int),
                        TxKind::Deposit,
                        id,
                    ),
                forall|id: u32|
                    withdrawals@.contains(id) <==> has_event(
                        txns@.take(i as int),
                        TxKind::Withdrawal,
                        id,
                    ),
                forall|id: u32|
                    disputes@.contains(id) <==> has_event(
                        txns@.take(i as int),
                        TxKind::Dispute,
                        id,
                    ),
                forall|id: u32|
                    resolves@.contains(id) <==> has_event(
                        txns@.take(i as int),
                        TxKind::Resolve,
                        id,
                    ),
                forall|id: u32|
                    chargebacks@.contains(id) <==> has_event(
                        txns@.take(i as int),
                        TxKind::Chargeback,
                        id,
                    ),
            decreases txns.len() - i,
        {
            let t = txns[i];
            proof {
                assert(txns@.take(i + 1) == txns@.take(i as int).push(t));
                assert forall|kind: TxKind, id: u32|
                    has_event(txns@.take(i + 1), kind, id) <==> #[trigger] has_event(
                        txns@.take(i as int),
                        kind,
                        id,
                    ) || (t.kind == kind && t.tx_id == id) by {
                    has_event_push(txns@.take(i as int), t, kind, id);
                }
            }
            match t.kind {
                TxKind::Deposit => {
                    deposits.insert(t.tx_id);
                },
                TxKind::Withdrawal => {
                    withdrawals.insert(t.tx_id);
                },
                TxKind::Dispute => {
                    disputes.insert(t.tx_id);
                },
                TxKind::Resolve => {
                    resolves.insert(t.tx_id);
                },
                TxKind::Chargeback => {
                    chargebacks.insert(t.tx_id);
                },
            }
            i += 1;
        }
        assert(txns@.take(txns.len() as int) == txns@);
        References {
            deposits,
            withdrawals,
            disputes,
            resolves,
            chargebacks,
            source: Ghost(txns@),
        }
    }

    /// Whether some event of `kind` carries `tx_id`.
    pub fn has(&self, kind: TxKind, tx_id: u32) -> (b: bool)
        ensures
            b == has_event(self.source(), kind, tx_id),
    {
        proof {
            use_type_invariant(self);
            assert(self.ids(kind).contains(tx_id) <==> has_event(self.source@, kind, tx_id));
        }
        match kind {
            TxKind::Deposit => self.deposits.contains(&tx_id),
            TxKind::Withdrawal => self.withdrawals.contains(&tx_id),
            TxKind::Dispute => self.disputes.contains(&tx_id),
            TxKind::Resolve => self.resolves.contains(&tx_id),
            TxKind::Chargeback => self.chargebacks.contains(&tx_id),
        }
    }

    /// Whether `tx_id` is that of a deposit or withdrawal of the account.
    pub fn is_known(&self, tx_id: u32) -> (b: bool)
        ensures
            b == is_known(self.source(), tx_id),
    {
        self.has(TxKind::Deposit, tx_id) || self.has(TxKind::Withdrawal, tx_id)
    }

    /// Whether a resolve refers to the known `tx_id`.
    pub fn is_resolved(&self, tx_id: u32) -> (b: bool)
        ensures
            b == is_resolved(self.source(), tx_id),
    {
        self.is_known(tx_id) && self.has(TxKind::Resolve, tx_id)
    }

    /// Whether a chargeback refers to the known `tx_id`.
    pub fn is_charged_back(&self, tx_id: u32) -> (b: bool)
        ensures
            b == is_charged_back(self.source(), tx_id),
    {
        self.is_known(tx_id) && self.has(TxKind::Chargeback, tx_id)
    }

    /// Whether the known `tx_id` is disputed and neither resolved nor
    /// charged back.
    pub fn is_open_disputed(&self, tx_id: u32) -> (b: bool)
        ensures
            b == is_open_disputed(self.source(), tx_id),
    {
        self.is_known(tx_id) && self.has(TxKind::Dispute, tx_id) && !self.has(
            TxKind::Resolve,
            tx_id,
        ) && !self.has(TxKind::Chargeback, tx_id)
    }
}

} // verus!
