//! The table of balances: one row per account, ordered by account.

use crate::inout::Balance;
use crate::positions::{client_txns, has_client, is_position_of, Transaction};
use vstd::prelude::*;

verus! {

/// The rows stand in strictly ascending order of account.
pub open spec fn ascending_by_client(rows: Seq<Balance>) -> bool {
    forall|i: int, j: int| 0 <= i < j < rows.len() ==> rows[i].client < rows[j].client
}

/// Some row of `rows` is that of account `client`.
pub open spec fn has_row(rows: Seq<Balance>, client: u16) -> bool {
    exists|i: int| 0 <= i < rows.len() && (#[trigger] rows[i]).client == client
}

/// `rows` is the table of `txns`: one row for each account that occurs, in
/// ascending order of account, each row showing the position computed from
/// the account's own transactions in input order.
pub open spec fn is_balance_sheet(rows: Seq<Balance>, txns: Seq<Transaction>) -> bool {
    &&& ascending_by_client(rows)
    &&& forall|client: u16| has_row(rows, client) <==> has_client(txns, client)
    &&& forall|i: int|
        0 <= i < rows.len() ==> is_position_of(
            (#[trigger] rows[i]).position(),
            rows[i].client,
            client_txns(txns, rows[i].client),
        )
}

/// Puts `row` into `rows` at its place in the order of accounts.
pub fn insert_by_client(rows: &mut Vec<Balance>, row: Balance)
    requires
        ascending_by_client(old(rows)@),
        !has_row(old(rows)@, row.client),
    ensures
        ascending_by_client(final(rows)@),
        final(rows)@.len() == old(rows)@.len() + 1,
        exists|at: int|
            0 <= at <= old(rows)@.len() && final(rows)@ == old(rows)@.insert(at, row),
{
    let mut at: usize = 0;
    while at < rows.len() && rows[at].client < row.client
        invariant
            0 <= at <= rows.len(),
            rows@ == old(rows)@,
            forall|k: int| 0 <= k < at ==> rows@[k].client < row.client,
        decreases rows.len() - at,
    {
        at += 1;
    }
    proof {
        if at < rows.len() {
            assert(rows@[at as int].client != row.client);
        }
    }
    rows.insert(at, row);
    proof {
        let before = old(rows)@;
        let after = rows@;
        assert forall|i: int, j: int| 0 <= i < j < after.len() implies after[i].client
            < after[j].client by {
            if j < at {
                assert(after[i] == before[i] && after[j] == before[j]);
            } else if j == at {
                assert(after[i] == before[i]);
            } else if i < at {
                assert(after[i] == before[i] && after[j] == before[j - 1]);
            } else if i == at {
                assert(after[j] == before[j - 1]);
                assert(before[at as int].client <= before[j - 1].client);
            } else {
                assert(after[i] == before[i - 1] && after[j] == before[j - 1]);
            }
        }
    }
}

/// No two rows are those of one account.
pub open spec fn distinct_clients(rows: Seq<Balance>) -> bool {
    forall|i: int, j: int| 0 <= i < j < rows.len() ==> rows[i].client != rows[j].client
}

/// Orders rows of distinct accounts by account.
pub fn sort_by_client(rows: Vec<Balance>) -> (sorted: Vec<Balance>)
    requires
        distinct_clients(rows@),
    ensures
        ascending_by_client(sorted@),
        sorted@.len() == rows@.len(),
        forall|row: Balance| sorted@.contains(row) <==> rows@.contains(row),
{
    let mut sorted: Vec<Balance> = Vec::new();
    let mut i: usize = 0;
    while i < rows.len()
        invariant
            0 <= i <= rows.len(),
            distinct_clients(rows@),
            ascending_by_client(sorted@),
            sorted@.len() == i,
            forall|row: Balance| sorted@.contains(row) <==> rows@.take(i as int).contains(row),
        decreases rows.len() - i,
    {
        let row = rows[i];
        let ghost before = sorted@;
        proof {
            if has_row(before, row.client) {
                let k = choose|k: int| 0 <= k < before.len() && (#[trigger] before[k]).client
                    == row.client;
                assert(before.contains(before[k]));
                let j = choose|j: int| 0 <= j < i && rows@.take(i as int)[j] == before[k];
                assert(rows@[j].client == rows@[i as int].client);
            }
        }
        insert_by_client(&mut sorted, row);
        proof {
            let at = choose|at: int| 0 <= at <= before.len() && sorted@ == before.insert(at, row);
            let shorter = rows@.take(i as int);
            let longer = rows@.take(i + 1);
            assert forall|other: Balance| sorted@.contains(other) <==> longer.contains(other) by {
                if sorted@.contains(other) {
                    let k = choose|k: int| 0 <= k < sorted@.len() && sorted@[k] == other;
                    if k < at {
                        assert(before[k] == other);
                    } else if k > at {
                        assert(before[k - 1] == other);
                    }
                    if before.contains(other) {
                        let j = choose|j: int| 0 <= j < shorter.len() && shorter[j] == other;
                        assert(longer[j] == other);
                    } else {
                        assert(longer[i as int] == other);
                    }
                }
                if longer.contains(other) {
                    let j = choose|j: int| 0 <= j < longer.len() && longer[j] == other;
                    if j < i {
                        assert(shorter[j] == other);
                        assert(shorter.contains(other));
                        assert(before.contains(other));
                        let k = choose|k: int| 0 <= k < before.len() && before[k] == other;
                        if k < at {
                            assert(sorted@[k] == other);
                        } else {
                            assert(sorted@[k + 1] == other);
                        }
                    } else {
                        assert(sorted@[at] == other);
                    }
                }
            }
        }
        i += 1;
    }
    proof {
        assert(rows@.take(rows.len() as int) == rows@);
    }
    sorted
}

} // verus!
