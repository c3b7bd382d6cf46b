//! Per-account positions computed from an ordered batch of payment events.
//!
//! A batch is a sequence of rows: deposits and withdrawals, which move
//! money, and disputes, resolves and chargebacks, which refer to them.
//! [`balances`] classifies the rows, groups the transactions by account,
//! works out which of an account's transactions are disputed, resolved or
//! charged back, folds the amounts into one position per account, and
//! orders the positions by account.
//!
//! Amounts are exact decimals with four fractional digits, held as integers
//! that count ten-thousandths of a currency unit. A single amount fits in
//! `i64`; the sums of a position are `u128`, which no batch can overflow.

pub mod amount;
pub mod disputes;
pub mod error;
pub mod inout;
pub mod laws;
pub mod positions;
pub mod sheet;

pub use error::DataError;
pub use inout::{Balance, Record};
pub use positions::{Position, Transaction, TxKind};

use positions::{
    all_well_formed, classify, client_txns, clients_seen, clients_seen_are_clients,
    clients_seen_once, has_client, is_position_of, to_positions,
};
use sheet::{has_row, is_balance_sheet, sort_by_client};
use vstd::prelude::*;

verus! {

/// `e` is the reason why the first row that stands for no transaction
/// stands for none.
pub open spec fn is_first_error(records: Seq<Record>, e: DataError) -> bool {
    exists|i: int|
        0 <= i < records.len() && classify(#[trigger] records[i]) == Err::<Transaction, DataError>(
            e,
        ) && all_classified(records.take(i))
}

/// Every row stands for a transaction.
pub open spec fn all_classified(records: Seq<Record>) -> bool {
    forall|i: int| 0 <= i < records.len() ==> classify(#[trigger] records[i]) is Ok
}

/// The transactions that the rows stand for, in the order of the rows.
pub open spec fn classified(records: Seq<Record>) -> Seq<Transaction> {
    Seq::new(records.len(), |i: int| classify(records[i])->Ok_0)
}

/// Classifies every row, in order, and stops at the first that stands for
/// no transaction.
pub fn classify_all(records: Vec<Record>) -> (r: Result<Vec<Transaction>, DataError>)
    ensures
        r is Ok <==> all_classified(records@),
        match r {
            Ok(txns) => txns@ == classified(records@) && all_well_formed(txns@),
            Err(e) => is_first_error(records@, e),
        },
{
    let ghost all = records@;
    let mut txns: Vec<Transaction> = Vec::new();
    for r in it: records
        invariant
            it.seq() == all,
            all_classified(all.take(it.index() as int)),
            txns@ == classified(all.take(it.index() as int)),
            all_well_formed(txns@),
    {
        let ghost i = it.index() as int;
        assert(all[i] == r);
        match Transaction::try_from(r) {
            Ok(t) => {
                txns.push(t);
                proof {
                    let shorter = all.take(i);
                    let longer = all.take(i + 1);
                    assert forall|k: int| 0 <= k < longer.len() implies classify(
                        #[trigger] longer[k],
                    ) is Ok by {
                        if k < i {
                            assert(longer[k] == shorter[k]);
                        }
                    }
                    assert(txns@ =~= classified(longer));
                }
            },
            Err(e) => {
                return Err(e);
            },
        }
    }
    proof {
        assert(all.take(all.len() as int) == all);
    }
    Ok(txns)
}

/// Computes the table of balances for a batch of rows: one row for each
/// account, in ascending order of account. A row that stands for no
/// transaction fails the whole batch.
pub fn balances(records: Vec<Record>) -> (r: Result<Vec<Balance>, DataError>)
    ensures
        r is Ok <==> all_classified(records@),
        match r {
            Ok(rows) => is_balance_sheet(rows@, classified(records@)),
            Err(e) => is_first_error(records@, e),
        },
        r matches Ok(rows) ==> forall|i: int|
            0 <= i < rows.len() ==> (#[trigger] rows[i]).total == rows[i].available
                + rows[i].held,
{
    let transactions = match classify_all(records) {
        Ok(transactions) => transactions,
        Err(e) => {
            return Err(e);
        },
    };
    let positions = match to_positions(&transactions) {
        Ok(positions) => positions,
        Err(e) => {
            return Err(e);
        },
    };
    let ghost clients = clients_seen(transactions@);
    let mut rows: Vec<Balance> = Vec::new();
    let mut i: usize = 0;
    while i < positions.len()
        invariant
            0 <= i <= positions.len(),
            rows@.len() == i,
            forall|k: int| 0 <= k < i ==> (#[trigger] rows@[k]).position() == positions@[k],
        decreases positions.len() - i,
    {
        rows.push(Balance::from(positions[i]));
        i += 1;
    }
    proof {
        clients_seen_once(transactions@);
        assert forall|k: int, l: int| 0 <= k < l < rows@.len() implies rows@[k].client
            != rows@[l].client by {
            assert(rows@[k].position() == positions@[k]);
            assert(rows@[l].position() == positions@[l]);
        }
    }
    let sorted = sort_by_client(rows);
    proof {
        assert forall|client: u16| has_row(sorted@, client) <==> has_client(
            transactions@,
            client,
        ) by {
            clients_seen_are_clients(transactions@, client);
            if has_row(sorted@, client) {
                let j = choose|j: int|
                    0 <= j < sorted@.len() && (#[trigger] sorted@[j]).client == client;
                assert(sorted@.contains(sorted@[j]));
                let k = choose|k: int| 0 <= k < rows@.len() && rows@[k] == sorted@[j];
                assert(rows@[k].position() == positions@[k]);
                assert(clients[k] == client);
            }
            if clients.contains(client) {
                let k = choose|k: int| 0 <= k < clients.len() && clients[k] == client;
                assert(rows@[k].position() == positions@[k]);
                assert(rows@.contains(rows@[k]));
                let j = choose|j: int| 0 <= j < sorted@.len() && sorted@[j] == rows@[k];
                assert(sorted@[j].client == client);
            }
        }
        assert forall|j: int| 0 <= j < sorted@.len() implies is_position_of(
            (#[trigger] sorted@[j]).position(),
            sorted@[j].client,
            client_txns(transactions@, sorted@[j].client),
        ) by {
            assert(sorted@.contains(sorted@[j]));
            let k = choose|k: int| 0 <= k < rows@.len() && rows@[k] == sorted@[j];
            assert(rows@[k].position() == positions@[k]);
        }
    }
    Ok(sorted)
}

} // verus!
