//! What holds of every batch: proofs over the definitions that the
//! contracts of the library use.

use crate::disputes::{
    has_event, is_charged_back, is_known, is_locked, is_normal, is_open_disputed, is_resolved,
};
use crate::inout::Balance;
use crate::positions::{
    are_positions_of, client_txns, is_position_of, locked_by_own_event, selected_balance,
    undisputed_balance, Position, Transaction, TxKind,
};
use crate::sheet::{has_row, is_balance_sheet};
use vstd::prelude::*;

verus! {

/// Where every chargeback of an account refers to one of its deposits or
/// withdrawals, the account is locked exactly when it has a chargeback.
pub proof fn locked_iff_chargeback(txns: Seq<Transaction>)
    requires
        forall|i: int|
            0 <= i < txns.len() && (#[trigger] txns[i]).kind is Chargeback ==> is_known(
                txns,
                txns[i].tx_id,
            ),
    ensures
        is_locked(txns) <==> exists|i: int|
            0 <= i < txns.len() && (#[trigger] txns[i]).kind is Chargeback,
{
    locked_by_own_event(txns);
    if is_locked(txns) {
        let tx_id = choose|tx_id: u32| is_charged_back(txns, tx_id);
        let i = choose|i: int|
            0 <= i < txns.len() && (#[trigger] txns[i]).kind == TxKind::Chargeback && txns[i].tx_id
                == tx_id;
        assert(txns[i].kind is Chargeback);
    }
    if exists|i: int| 0 <= i < txns.len() && (#[trigger] txns[i]).kind is Chargeback {
        let i = choose|i: int| 0 <= i < txns.len() && (#[trigger] txns[i]).kind is Chargeback;
        assert(has_event(txns, TxKind::Chargeback, txns[i].tx_id));
        assert(is_charged_back(txns, txns[i].tx_id));
    }
}

/// A chargeback that refers to no deposit or withdrawal of the account
/// locks nothing: an account is locked only through a chargeback that
/// refers to one of them.
pub proof fn unknown_chargeback_locks_nothing(txns: Seq<Transaction>)
    requires
        forall|i: int|
            0 <= i < txns.len() && (#[trigger] txns[i]).kind is Chargeback ==> !is_known(
                txns,
                txns[i].tx_id,
            ),
    ensures
        !is_locked(txns),
{
    if is_locked(txns) {
        let tx_id = choose|tx_id: u32| is_charged_back(txns, tx_id);
        let i = choose|i: int|
            0 <= i < txns.len() && (#[trigger] txns[i]).kind == TxKind::Chargeback && txns[i].tx_id
                == tx_id;
        assert(txns[i].kind is Chargeback);
    }
}

/// Every known identifier is normal, under open dispute, or decided by a
/// resolve or a chargeback; and what is normal or under open dispute is
/// nothing else.
pub proof fn dispute_states_cover(txns: Seq<Transaction>, tx_id: u32)
    requires
        is_known(txns, tx_id),
    ensures
        is_normal(txns, tx_id) || is_open_disputed(txns, tx_id) || is_resolved(txns, tx_id)
            || is_charged_back(txns, tx_id),
        is_normal(txns, tx_id) ==> !is_open_disputed(txns, tx_id) && !is_resolved(txns, tx_id)
            && !is_charged_back(txns, tx_id),
        is_open_disputed(txns, tx_id) ==> !is_resolved(txns, tx_id) && !is_charged_back(
            txns,
            tx_id,
        ),
{
}

/// Events that come later take no event away.
pub proof fn events_stay(txns: Seq<Transaction>, later: Seq<Transaction>, kind: TxKind, tx_id: u32)
    requires
        has_event(txns, kind, tx_id),
    ensures
        has_event(txns + later, kind, tx_id),
{
    let i = choose|i: int|
        0 <= i < txns.len() && (#[trigger] txns[i]).kind == kind && txns[i].tx_id == tx_id;
    assert((txns + later)[i] == txns[i]);
}

/// A transaction that was resolved or charged back is never under open
/// dispute again, whatever disputes follow.
pub proof fn decided_is_not_reopened(txns: Seq<Transaction>, later: Seq<Transaction>, tx_id: u32)
    requires
        is_resolved(txns, tx_id) || is_charged_back(txns, tx_id),
    ensures
        !is_open_disputed(txns + later, tx_id),
{
    if has_event(txns, TxKind::Resolve, tx_id) {
        events_stay(txns, later, TxKind::Resolve, tx_id);
    }
    if has_event(txns, TxKind::Chargeback, tx_id) {
        events_stay(txns, later, TxKind::Chargeback, tx_id);
    }
}

/// A locked account stays locked, whatever follows.
pub proof fn locked_stays_locked(txns: Seq<Transaction>, later: Seq<Transaction>)
    requires
        is_locked(txns),
    ensures
        is_locked(txns + later),
{
    let tx_id = choose|tx_id: u32| is_charged_back(txns, tx_id);
    if has_event(txns, TxKind::Deposit, tx_id) {
        events_stay(txns, later, TxKind::Deposit, tx_id);
    }
    if has_event(txns, TxKind::Withdrawal, tx_id) {
        events_stay(txns, later, TxKind::Withdrawal, tx_id);
    }
    events_stay(txns, later, TxKind::Chargeback, tx_id);
    assert(is_charged_back(txns + later, tx_id));
}

/// The balance that deposits and withdrawals leave is never negative.
pub proof fn undisputed_balance_not_negative(txns: Seq<Transaction>)
    ensures
        0 <= undisputed_balance(txns),
    decreases txns.len(),
{
    if txns.len() > 0 {
        undisputed_balance_not_negative(txns.drop_last());
    }
}

/// A sum of selected magnitudes is never negative.
pub proof fn selected_balance_not_negative(txns: Seq<Transaction>, selected: Set<u32>)
    ensures
        0 <= selected_balance(txns, selected),
    decreases txns.len(),
{
    if txns.len() > 0 {
        selected_balance_not_negative(txns.drop_last(), selected);
    }
}

/// Under the overdraft rule a well-formed magnitude is always added: what
/// is resolved or held is the plain sum of the selected magnitudes.
pub proof fn selected_amount_is_added(txns: Seq<Transaction>, t: Transaction, selected: Set<u32>)
    requires
        t.wf(),
    ensures
        selected_balance(txns.push(t), selected) == selected_balance(txns, selected) + (
        if selected.contains(t.tx_id) {
            t.raw_amount as int
        } else {
            0
        }),
{
    assert(txns.push(t).drop_last() == txns);
    selected_balance_not_negative(txns, selected);
}

/// A withdrawal of more than the balance that stands before it leaves that
/// balance as it was.
pub proof fn overdraft_is_dropped(txns: Seq<Transaction>, withdrawal: Transaction)
    requires
        withdrawal.kind is Withdrawal,
        withdrawal.wf(),
        withdrawal.raw_amount > undisputed_balance(txns),
    ensures
        undisputed_balance(txns.push(withdrawal)) == undisputed_balance(txns),
{
    assert(txns.push(withdrawal).drop_last() == txns);
}

/// A deposit always counts, and a withdrawal of no more than the balance
/// that stands before it is taken from that balance.
pub proof fn covered_change_is_applied(txns: Seq<Transaction>, t: Transaction)
    requires
        t.is_monetary(),
        t.wf(),
        t.kind is Withdrawal ==> t.raw_amount <= undisputed_balance(txns),
    ensures
        undisputed_balance(txns.push(t)) == undisputed_balance(txns) + t.directed_amount,
{
    assert(txns.push(t).drop_last() == txns);
    undisputed_balance_not_negative(txns);
}

/// An account has one position only: two positions of the same account and
/// transactions are equal.
pub proof fn position_is_unique(a: Position, b: Position, client_id: u16, txns: Seq<Transaction>)
    requires
        is_position_of(a, client_id, txns),
        is_position_of(b, client_id, txns),
    ensures
        a == b,
{
}

/// Computing the positions of the same transactions again gives the same
/// positions in the same order.
pub proof fn positions_are_unique(a: Seq<Position>, b: Seq<Position>, txns: Seq<Transaction>)
    requires
        are_positions_of(a, txns),
        are_positions_of(b, txns),
    ensures
        a == b,
{
    assert forall|k: int| 0 <= k < a.len() implies a[k] == b[k] by {
        assert(is_position_of(a[k], a[k].client_id, client_txns(txns, a[k].client_id)));
        assert(is_position_of(b[k], b[k].client_id, client_txns(txns, b[k].client_id)));
    }
    assert(a =~= b);
}

/// Two tables of the same transactions agree on the account of every row
/// up to `n`.
proof fn sheets_agree_on_clients(a: Seq<Balance>, b: Seq<Balance>, txns: Seq<Transaction>, n: int)
    requires
        is_balance_sheet(a, txns),
        is_balance_sheet(b, txns),
        0 <= n <= a.len(),
    ensures
        n <= b.len(),
        forall|k: int| 0 <= k < n ==> a[k].client == b[k].client,
    decreases n,
{
    if n > 0 {
        sheets_agree_on_clients(a, b, txns, n - 1);
        let i = n - 1;
        // the account of a[i] has a row in b, and that row cannot stand before i
        assert(has_row(a, a[i].client));
        assert(has_row(b, a[i].client));
        let j = choose|j: int| 0 <= j < b.len() && (#[trigger] b[j]).client == a[i].client;
        if j < i {
            assert(a[j].client == b[j].client);
        }
        assert(i < b.len());
        // the account of b[i] has a row in a, and that row cannot stand before i
        assert(has_row(b, b[i].client));
        assert(has_row(a, b[i].client));
        let l = choose|l: int| 0 <= l < a.len() && (#[trigger] a[l]).client == b[i].client;
        if l < i {
            assert(a[l].client == b[l].client);
        }
    }
}

/// Computing the table of the same transactions again gives the same table,
/// row for row.
pub proof fn balance_sheet_is_unique(a: Seq<Balance>, b: Seq<Balance>, txns: Seq<Transaction>)
    requires
        is_balance_sheet(a, txns),
        is_balance_sheet(b, txns),
    ensures
        a == b,
{
    sheets_agree_on_clients(a, b, txns, a.len() as int);
    sheets_agree_on_clients(b, a, txns, b.len() as int);
    assert forall|k: int| 0 <= k < a.len() implies a[k] == b[k] by {
        assert(a[k].client == b[k].client);
        let own = client_txns(txns, a[k].client);
        assert(is_position_of(a[k].position(), a[k].client, own));
        assert(is_position_of(b[k].position(), b[k].client, own));
    }
    assert(a =~= b);
}

} // verus!
