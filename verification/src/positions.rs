//! Transactions, their classification from rows, and the position of each
//! account: its transactions in input order, folded under the overdraft
//! rule.

use crate::disputes::{is_charged_back, is_locked, is_open_disputed, is_resolved, References};
use crate::error::DataError;
use crate::inout::Record;
use itertools::Itertools;
use std::collections::{HashMap, HashSet};
use vstd::prelude::*;

verus! {

broadcast use vstd::std_specs::hash::group_hash_axioms;

/// The five kinds of event that an input row can describe.
#[derive(Debug, Clone, Copy, PartialEq, Eq, Structural)]
pub enum TxKind {
    Deposit,
    Withdrawal,
    Dispute,
    Resolve,
    Chargeback,
}

/// A classified event. Amounts count ten-thousandths of a currency unit.
#[derive(Debug, Clone, Copy, PartialEq, Eq, Structural)]
pub struct Transaction {
    pub kind: TxKind,
    pub client_id: u16,
    /// For a deposit or withdrawal, the event's own identifier; for a
    /// dispute, resolve or chargeback, the identifier it refers to.
    pub tx_id: u32,
    pub raw_amount: i64,
    pub directed_amount: i64,
}

impl Transaction {
    /// Deposits and withdrawals move money; the other kinds only refer to them.
    pub open spec fn is_monetary(self) -> bool {
        self.kind is Deposit || self.kind is Withdrawal
    }

    /// The signed effect that a transaction of `kind` with magnitude `raw`
    /// has on the available balance when it is applied unconditionally.
    pub open spec fn directed(kind: TxKind, raw: int) -> int {
        match kind {
            TxKind::Deposit => raw,
            TxKind::Withdrawal => -raw,
            _ => 0,
        }
    }

    /// The magnitude is not negative, it is zero for events that move no
    /// money, and the directed amount follows from kind and magnitude.
    pub open spec fn wf(self) -> bool {
        &&& 0 <= self.raw_amount
        &&& !self.is_monetary() ==> self.raw_amount == 0
        &&& self.directed_amount == Self::directed(self.kind, self.raw_amount as int)
    }

    pub fn deposit(client_id: u16, tx_id: u32, amount: i64) -> (t: Transaction)
        requires
            0 <= amount,
        ensures
            t == (Transaction {
                kind: TxKind::Deposit,
                client_id,
                tx_id,
                raw_amount: amount,
                directed_amount: amount,
            }),
            t.wf(),
    {
        Transaction {
            kind: TxKind::Deposit,
            client_id,
            tx_id,
            raw_amount: amount,
            directed_amount: amount,
        }
    }

    pub fn withdrawal(client_id: u16, tx_id: u32, amount: i64) -> (t: Transaction)
        requires
            0 <= amount,
        ensures
            t == (Transaction {
                kind: TxKind::Withdrawal,
                client_id,
                tx_id,
                raw_amount: amount,
                directed_amount: (-amount) as i64,
            }),
            t.wf(),
    {
        Transaction {
            kind: TxKind::Withdrawal,
            client_id,
            tx_id,
            raw_amount: amount,
            directed_amount: -amount,
        }
    }

    pub fn dispute(client_id: u16, tx_id: u32) -> (t: Transaction)
        ensures
            t == Self::lifecycle(TxKind::Dispute, client_id, tx_id),
            t.wf(),
    {
        Transaction { kind: TxKind::Dispute, client_id, tx_id, raw_amount: 0, directed_amount: 0 }
    }

    pub fn resolve(client_id: u16, tx_id: u32) -> (t: Transaction)
        ensures
            t == Self::lifecycle(TxKind::Resolve, client_id, tx_id),
            t.wf(),
    {
        Transaction { kind: TxKind::Resolve, client_id, tx_id, raw_amount: 0, directed_amount: 0 }
    }

    pub fn chargeback(client_id: u16, tx_id: u32) -> (t: Transaction)
        ensures
            t == Self::lifecycle(TxKind::Chargeback, client_id, tx_id),
            t.wf(),
    {
        Transaction {
            kind: TxKind::Chargeback,
            client_id,
            tx_id,
            raw_amount: 0,
            directed_amount: 0,
        }
    }

    /// An event of `kind` that moves no money itself and refers to `tx_id`.
    pub open spec fn lifecycle(kind: TxKind, client_id: u16, tx_id: u32) -> Transaction {
        Transaction { kind, client_id, tx_id, raw_amount: 0, directed_amount: 0 }
    }
}

/// The kind that a row's type names, if it names one.
pub open spec fn kind_of(name: Seq<char>) -> Option<TxKind> {
    if name == "deposit"@ {
        Some(TxKind::Deposit)
    } else if name == "withdrawal"@ {
        Some(TxKind::Withdrawal)
    } else if name == "dispute"@ {
        Some(TxKind::Dispute)
    } else if name == "resolve"@ {
        Some(TxKind::Resolve)
    } else if name == "chargeback"@ {
        Some(TxKind::Chargeback)
    } else {
        None
    }
}

/// The transaction that a row stands for, or the reason why it stands for
/// none. An unknown type is refused before anything is asked of the amount;
/// a deposit or withdrawal needs an amount, and that amount may not be
/// negative; for the other kinds an amount in the row is ignored.
pub open spec fn classify(r: Record) -> Result<Transaction, DataError> {
    match kind_of(r.tx_type@) {
        None => Err(DataError::UnknownType),
        Some(kind) => if kind is Deposit || kind is Withdrawal {
            match r.amount {
                None => Err(DataError::MissingAmount),
                Some(amount) => if amount < 0 {
                    Err(DataError::NegativeAmount)
                } else {
                    Ok(
                        Transaction {
                            kind,
                            client_id: r.client_id,
                            tx_id: r.tx_id,
                            raw_amount: amount,
                            directed_amount: Transaction::directed(kind, amount as int) as i64,
                        },
                    )
                },
            }
        } else {
            Ok(Transaction::lifecycle(kind, r.client_id, r.tx_id))
        },
    }
}

/// Every transaction that `classify` accepts is well-formed.
pub proof fn classify_gives_well_formed(r: Record)
    ensures
        classify(r) matches Ok(t) ==> t.wf(),
{
}

/// Reads a row's type name.
pub fn parse_kind(name: &str) -> (kind: Option<TxKind>)
    ensures
        kind == kind_of(name@),
{
    let name = name.to_owned();
    if name == "deposit".to_owned() {
        Some(TxKind::Deposit)
    } else if name == "withdrawal".to_owned() {
        Some(TxKind::Withdrawal)
    } else if name == "dispute".to_owned() {
        Some(TxKind::Dispute)
    } else if name == "resolve".to_owned() {
        Some(TxKind::Resolve)
    } else if name == "chargeback".to_owned() {
        Some(TxKind::Chargeback)
    } else {
        None
    }
}

impl TryFrom<Record> for Transaction {
    type Error = DataError;

    fn try_from(r: Record) -> (res: Result<Transaction, DataError>) {
        match parse_kind(r.tx_type.as_str()) {
            None => Err(DataError::UnknownType),
            Some(TxKind::Deposit) => match r.amount {
                None => Err(DataError::MissingAmount),
                Some(amount) => if amount < 0 {
                    Err(DataError::NegativeAmount)
                } else {
                    Ok(Transaction::deposit(r.client_id, r.tx_id, amount))
                },
            },
            Some(TxKind::Withdrawal) => match r.amount {
                None => Err(DataError::MissingAmount),
                Some(amount) => if amount < 0 {
                    Err(DataError::NegativeAmount)
                } else {
                    Ok(Transaction::withdrawal(r.client_id, r.tx_id, amount))
                },
            },
            Some(TxKind::Dispute) => Ok(Transaction::dispute(r.client_id, r.tx_id)),
            Some(TxKind::Resolve) => Ok(Transaction::resolve(r.client_id, r.tx_id)),
            Some(TxKind::Chargeback) => Ok(Transaction::chargeback(r.client_id, r.tx_id)),
        }
    }
}

impl vstd::std_specs::convert::TryFromSpecImpl<Record> for Transaction {
    open spec fn obeys_try_from_spec() -> bool {
        true
    }

    open spec fn try_from_spec(r: Record) -> Result<Transaction, DataError> {
        classify(r)
    }
}

/// The final state of one account. Amounts count ten-thousandths of a
/// currency unit; none of them is ever negative.
#[derive(Debug, Clone, Copy, PartialEq, Eq, Structural)]
pub struct Position {
    pub client_id: u16,
    pub available: u128,
    pub held: u128,
    pub total: u128,
    pub locked: bool,
}

/// The overdraft rule: a change that would take the balance below zero is
/// dropped, any other change is applied.
pub open spec fn apply(balance: int, delta: int) -> int {
    if balance + delta < 0 {
        balance
    } else {
        balance + delta
    }
}

/// The balance that the deposits and withdrawals of `txns` leave when they
/// are applied in order, each under the overdraft rule, starting from zero.
pub open spec fn undisputed_balance(txns: Seq<Transaction>) -> int
    decreases txns.len(),
{
    if txns.len() == 0 {
        0
    } else {
        let before = undisputed_balance(txns.drop_last());
        let t = txns.last();
        if t.is_monetary() {
            apply(before, t.directed_amount as int)
        } else {
            before
        }
    }
}

/// The sum that the magnitudes of the transactions of `txns` whose
/// identifier is in `selected` leave when they are applied in order, each
/// under the overdraft rule, starting from zero.
pub open spec fn selected_balance(txns: Seq<Transaction>, selected: Set<u32>) -> int
    decreases txns.len(),
{
    if txns.len() == 0 {
        0
    } else {
        let before = selected_balance(txns.drop_last(), selected);
        let t = txns.last();
        if selected.contains(t.tx_id) {
            apply(before, t.raw_amount as int)
        } else {
            before
        }
    }
}

/// The identifiers of the account's resolved transactions.
pub open spec fn resolved_ids(txns: Seq<Transaction>) -> Set<u32> {
    Set::new(|tx_id: u32| is_resolved(txns, tx_id))
}

/// The identifiers of the account's transactions under open dispute.
pub open spec fn open_disputed_ids(txns: Seq<Transaction>) -> Set<u32> {
    Set::new(|tx_id: u32| is_open_disputed(txns, tx_id))
}

/// What the resolved transactions of the account give back to it.
pub open spec fn resolved_balance(txns: Seq<Transaction>) -> int {
    selected_balance(txns, resolved_ids(txns))
}

/// What the open disputes of the account hold.
pub open spec fn held_balance(txns: Seq<Transaction>) -> int {
    selected_balance(txns, open_disputed_ids(txns))
}

/// `p` is the position of account `client_id` whose transactions, in input
/// order, are `txns`.
pub open spec fn is_position_of(p: Position, client_id: u16, txns: Seq<Transaction>) -> bool {
    &&& p.client_id == client_id
    &&& p.available == undisputed_balance(txns) + resolved_balance(txns)
    &&& p.held == held_balance(txns)
    &&& p.total == p.available + p.held
    &&& p.locked == is_locked(txns)
}

/// Every transaction of `txns` is well-formed.
pub open spec fn all_well_formed(txns: Seq<Transaction>) -> bool {
    forall|i: int| 0 <= i < txns.len() ==> (#[trigger] txns[i]).wf()
}

/// Applies `amount` to `balance` under the overdraft rule.
pub fn apply_amount(balance: i128, amount: i64) -> (r: i128)
    requires
        i128::MIN <= balance + amount <= i128::MAX,
    ensures
        r == apply(balance as int, amount as int),
{
    let candidate = balance + amount as i128;
    if candidate < 0 {
        balance
    } else {
        candidate
    }
}

/// Computes the position of one account from its transactions in input
/// order.
pub fn to_position(client_id: u16, txns: &Vec<Transaction>) -> (p: Position)
    ensures
        is_position_of(p, client_id, txns@),
        p.total == p.available + p.held,
{
    let refs = References::collect(txns);
    let mut undisputed: i128 = 0;
    let mut resolved: i128 = 0;
    let mut held: i128 = 0;
    let mut locked = false;
    let mut i: usize = 0;
    while i < txns.len()
        invariant
            0 <= i <= txns.len(),
            refs.source() == txns@,
            undisputed == undisputed_balance(txns@.take(i as int)),
            resolved == selected_balance(txns@.take(i as int), resolved_ids(txns@)),
            held == selected_balance(txns@.take(i as int), open_disputed_ids(txns@)),
            0 <= undisputed <= i * i64::MAX,
            0 <= resolved,
            0 <= held,
            resolved + held <= i * i64::MAX,
            locked <==> exists|j: int|
                0 <= j < i && is_charged_back(txns@, (#[trigger] txns@[j]).tx_id),
        decreases txns.len() - i,
    {
        let t = txns[i];
        proof {
            assert(txns@.take(i + 1).drop_last() == txns@.take(i as int));
            assert(txns@.take(i + 1).last() == t);
        }
        if t.kind == TxKind::Deposit || t.kind == TxKind::Withdrawal {
            undisputed = apply_amount(undisputed, t.directed_amount);
        }
        if refs.is_resolved(t.tx_id) {
            resolved = apply_amount(resolved, t.raw_amount);
        }
        if refs.is_open_disputed(t.tx_id) {
            held = apply_amount(held, t.raw_amount);
        }
        if refs.is_charged_back(t.tx_id) {
            locked = true;
        }
        proof {
            let ghost n = i + 1;
            assert(locked <==> exists|j: int|
                0 <= j < n && is_charged_back(txns@, (#[trigger] txns@[j]).tx_id)) by {
                if is_charged_back(txns@, t.tx_id) {
                    assert(is_charged_back(txns@, txns@[i as int].tx_id));
                }
            }
        }
        i += 1;
    }
    proof {
        assert(txns@.take(txns.len() as int) == txns@);
        locked_by_own_event(txns@);
    }
    let available = undisputed as u128 + resolved as u128;
    let held = held as u128;
    Position { client_id, available, held, total: available + held, locked }
}

/// An account is locked exactly when one of its own events carries the
/// identifier of a charged-back transaction.
pub proof fn locked_by_own_event(txns: Seq<Transaction>)
    ensures
        is_locked(txns) <==> exists|j: int|
            0 <= j < txns.len() && is_charged_back(txns, (#[trigger] txns[j]).tx_id),
{
    if is_locked(txns) {
        let tx_id = choose|tx_id: u32| is_charged_back(txns, tx_id);
        let j = choose|j: int|
            0 <= j < txns.len() && (#[trigger] txns[j]).kind == TxKind::Chargeback && txns[j].tx_id
                == tx_id;
        assert(is_charged_back(txns, txns[j].tx_id));
    }
}

/// Some transaction of `txns` belongs to account `client_id`.
pub open spec fn has_client(txns: Seq<Transaction>, client_id: u16) -> bool {
    exists|i: int| 0 <= i < txns.len() && (#[trigger] txns[i]).client_id == client_id
}

/// The transactions of account `client_id`, in the order in which they
/// stand in `txns`.
pub open spec fn client_txns(txns: Seq<Transaction>, client_id: u16) -> Seq<Transaction> {
    txns.filter(|t: Transaction| t.client_id == client_id)
}

/// The accounts of `txns`, each once, in the order in which each is first
/// seen.
pub open spec fn clients_seen(txns: Seq<Transaction>) -> Seq<u16>
    decreases txns.len(),
{
    if txns.len() == 0 {
        Seq::empty()
    } else {
        let before = clients_seen(txns.drop_last());
        let client_id = txns.last().client_id;
        if before.contains(client_id) {
            before
        } else {
            before.push(client_id)
        }
    }
}

/// `positions` holds one position for each account of `txns`, in the order
/// in which the accounts are first seen, each computed from the account's
/// own transactions in input order.
pub open spec fn are_positions_of(positions: Seq<Position>, txns: Seq<Transaction>) -> bool {
    let clients = clients_seen(txns);
    &&& positions.len() == clients.len()
    &&& forall|k: int|
        0 <= k < positions.len() ==> is_position_of(
            #[trigger] positions[k],
            clients[k],
            client_txns(txns, clients[k]),
        )
}

/// Calls `itertools::Itertools::into_group_map_by` on copies of the
/// transactions, keyed by account. Trusted: the map has a key for each
/// account that occurs, and no other; under each key stand that account's
/// transactions, all of them, in input order.
#[verifier::external_body]
fn group_by_client(transactions: &Vec<Transaction>) -> (groups: HashMap<u16, Vec<Transaction>>)
    ensures
        forall|client_id: u16|
            groups@.contains_key(client_id) <==> has_client(transactions@, client_id),
        forall|client_id: u16|
            groups@.contains_key(client_id) ==> (#[trigger] groups@[client_id])@ == client_txns(
                transactions@,
                client_id,
            ),
{
    transactions.iter().copied().into_group_map_by(|t| t.client_id)
}

/// Computes the position of every account that occurs in `transactions`.
/// The positions come in the order in which the accounts are first seen.
pub fn to_positions(transactions: &Vec<Transaction>) -> (r: Result<Vec<Position>, DataError>)
    ensures
        r matches Ok(positions) && are_positions_of(positions@, transactions@),
        r matches Ok(positions) && forall|k: int|
            0 <= k < positions.len() ==> (#[trigger] positions[k]).total == positions[k].available
                + positions[k].held,
{
    let groups = group_by_client(transactions);
    let mut seen: HashSet<u16> = HashSet::new();
    let mut positions: Vec<Position> = Vec::new();
    let mut i: usize = 0;
    while i < transactions.len()
        invariant
            0 <= i <= transactions.len(),
            forall|client_id: u16|
                groups@.contains_key(client_id) <==> has_client(transactions@, client_id),
            forall|client_id: u16|
                groups@.contains_key(client_id) ==> (#[trigger] groups@[client_id])@
                    == client_txns(transactions@, client_id),
            forall|client_id: u16|
                seen@.contains(client_id) <==> clients_seen(
                    transactions@.take(i as int),
                ).contains(client_id),
            positions.len() == clients_seen(transactions@.take(i as int)).len(),
            forall|k: int|
                0 <= k < positions.len() ==> is_position_of(
                    #[trigger] positions[k],
                    clients_seen(transactions@.take(i as int))[k],
                    client_txns(transactions@, clients_seen(transactions@.take(i as int))[k]),
                ),
        decreases transactions.len() - i,
    {
        let client_id = transactions[i].client_id;
        let ghost before = clients_seen(transactions@.take(i as int));
        proof {
            assert(transactions@.take(i + 1).drop_last() == transactions@.take(i as int));
            assert(transactions@.take(i + 1).last() == transactions@[i as int]);
        }
        if seen.insert(client_id) {
            assert(has_client(transactions@, transactions@[i as int].client_id));
            match groups.get(&client_id) {
                Some(own) => {
                    let position = to_position(client_id, own);
                    positions.push(position);
                },
                None => {
                    assert(false);
                },
            }
        }
        proof {
            let after = clients_seen(transactions@.take(i + 1));
            assert forall|c: u16| seen@.contains(c) <==> after.contains(c) by {
                if before.contains(client_id) {
                } else {
                    if before.contains(c) {
                        let k = choose|k: int| 0 <= k < before.len() && before[k] == c;
                        assert(after[k] == c);
                    }
                    assert(after[before.len() as int] == client_id);
                    if after.contains(c) {
                        let k = choose|k: int| 0 <= k < after.len() && after[k] == c;
                        if k < before.len() {
                            assert(before[k] == c);
                        }
                    }
                }
            }
        }
        i += 1;
    }
    proof {
        assert(transactions@.take(transactions.len() as int) == transactions@);
    }
    Ok(positions)
}

/// An account is among those first seen exactly when it occurs.
pub proof fn clients_seen_are_clients(txns: Seq<Transaction>, client_id: u16)
    ensures
        clients_seen(txns).contains(client_id) <==> has_client(txns, client_id),
    decreases txns.len(),
{
    if txns.len() > 0 {
        let shorter = txns.drop_last();
        let before = clients_seen(shorter);
        let after = clients_seen(txns);
        clients_seen_are_clients(shorter, client_id);
        if has_client(shorter, client_id) {
            let i = choose|i: int|
                0 <= i < shorter.len() && (#[trigger] shorter[i]).client_id == client_id;
            assert(txns[i].client_id == client_id);
        }
        if before.contains(client_id) {
            let k = choose|k: int| 0 <= k < before.len() && before[k] == client_id;
            assert(after[k] == client_id);
        }
        if txns.last().client_id == client_id {
            assert(txns[txns.len() - 1].client_id == client_id);
            if !before.contains(client_id) {
                assert(after[before.len() as int] == client_id);
            }
        }
        if after.contains(client_id) && !before.contains(client_id) {
            let k = choose|k: int| 0 <= k < after.len() && after[k] == client_id;
            if k < before.len() {
                assert(before[k] == client_id);
            }
        }
        if has_client(txns, client_id) && !has_client(shorter, client_id) {
            let i = choose|i: int|
                0 <= i < txns.len() && (#[trigger] txns[i]).client_id == client_id;
            if i < shorter.len() {
                assert(shorter[i].client_id == client_id);
            }
        }
    }
}

/// No account is first seen twice.
pub proof fn clients_seen_once(txns: Seq<Transaction>)
    ensures
        forall|i: int, j: int|
            0 <= i < j < clients_seen(txns).len() ==> clients_seen(txns)[i] != clients_seen(
                txns,
            )[j],
    decreases txns.len(),
{
    if txns.len() > 0 {
        let before = clients_seen(txns.drop_last());
        let after = clients_seen(txns);
        clients_seen_once(txns.drop_last());
        assert forall|i: int, j: int| 0 <= i < j < after.len() implies after[i] != after[j] by {
            if j < before.len() {
                assert(after[i] == before[i] && after[j] == before[j]);
            } else {
                assert(before[i] == after[i]);
                assert(before.contains(before[i]));
            }
        }
    }
}

} // verus!
