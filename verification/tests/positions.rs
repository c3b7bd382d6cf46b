use reckoning::positions::to_positions;
use reckoning::{Record, Transaction};

const DEPOSIT: &str = "deposit";
const WITHDRAWAL: &str = "withdrawal";

/// An amount of currency units as the count of ten-thousandths that the
/// library works with.
fn units(amount: f64) -> i64 {
    (amount * 10_000.0).round() as i64
}

/// The same, as wide as the fields of a position.
fn sum(amount: f64) -> u128 {
    units(amount) as u128
}

#[test]
fn from_record_to_transaction_deposit() {
    let r = Record {
        tx_type: String::from(DEPOSIT),
        client_id: 1,
        tx_id: 1,
        amount: Some(units(1.0)),
    };
    let t = Transaction::try_from(r.clone()).unwrap();
    assert_eq!(t.client_id, r.client_id);
    assert_eq!(t.raw_amount, r.amount.unwrap());
    assert_eq!(t.directed_amount, r.amount.unwrap());
}

#[test]
fn from_record_to_transaction_withdrawal() {
    let r = Record {
        tx_type: String::from(WITHDRAWAL),
        client_id: 1,
        tx_id: 1,
        amount: Some(units(1.0)),
    };
    let t = Transaction::try_from(r.clone()).unwrap();
    assert_eq!(t.client_id, r.client_id);
    assert_eq!(t.raw_amount, r.amount.unwrap());
    assert_eq!(t.directed_amount, -r.amount.unwrap());
}

#[test]
fn new_deposit() {
    let t = Transaction::deposit(1, 1, units(1.0));
    assert_eq!(t.client_id, 1);
    assert_eq!(t.raw_amount, units(1.0));
    assert_eq!(t.directed_amount, units(1.0));
}

#[test]
fn new_withdrawal() {
    let t = Transaction::withdrawal(1, 1, units(1.0));
    assert_eq!(t.client_id, 1);
    assert_eq!(t.raw_amount, units(1.0));
    assert_eq!(t.directed_amount, units(-1.0));
}

fn one_good_transaction() -> Transaction {
    Transaction::deposit(1, 1, units(1.0))
}

fn one_clients_transactions() -> Vec<Transaction> {
    [
        one_good_transaction(),
        Transaction::deposit(1, 2, units(2.0)),
        Transaction::withdrawal(1, 4, units(1.5)),
    ]
    .to_vec()
}

fn multiple_clients_transactions() -> Vec<Transaction> {
    let mut txns = one_clients_transactions();
    txns.extend([
        Transaction::deposit(2, 3, units(2.0)),
        Transaction::withdrawal(2, 5, units(3.0)),
    ]);
    txns
}

#[test]
fn to_positions_happy_path_is_ok() {
    let subj = to_positions(&multiple_clients_transactions());
    assert!(!subj.is_err());
}

#[test]
fn to_positions_given_one_good_txn_it_aggregates_to_one_position() {
    let rec = one_good_transaction();
    let subj = to_positions(&[rec.clone()].to_vec()).unwrap();
    assert_eq!(subj.len(), 1);
    assert_eq!(subj[0].client_id, rec.client_id);
    assert_eq!(subj[0].total, rec.raw_amount as u128);
    assert_eq!(subj[0].available, rec.raw_amount as u128);
}

#[test]
fn to_positions_given_multiple_good_txns_it_aggregates_to_one_position() {
    let txns = one_clients_transactions();
    let subj = to_positions(&txns).unwrap();
    assert_eq!(subj.len(), 1);
    assert_eq!(subj[0].client_id, one_good_transaction().client_id);
    assert_eq!(subj[0].total, sum(1.5));
    assert_eq!(subj[0].available, sum(1.5));
}

#[test]
fn to_positions_given_multiple_clients_txns_it_aggregates_to_multiple_positions() {
    let txns = multiple_clients_transactions();
    let mut subj = to_positions(&txns).unwrap();
    let first_clients_id = one_good_transaction().client_id;

    assert_eq!(subj.len(), 2);

    subj.sort_by(|l, r| l.client_id.cmp(&r.client_id));

    assert_eq!(subj[0].client_id, first_clients_id);
    assert_eq!(subj[0].total, sum(1.5));
    assert_eq!(subj[0].available, sum(1.5));
    assert_ne!(subj[1].client_id, first_clients_id);
    assert_eq!(subj[1].total, sum(2.0));
    assert_eq!(subj[1].available, sum(2.0));
}

fn one_clients_transactions_with_dispute() -> Vec<Transaction> {
    let mut txns = one_clients_transactions();
    txns.extend([Transaction::dispute(1, 4)]);
    txns
}

fn one_clients_transactions_with_dispute_and_resolution() -> Vec<Transaction> {
    let mut txns = one_clients_transactions();
    txns.extend([Transaction::dispute(1, 4), Transaction::resolve(1, 4)]);
    txns
}

fn one_clients_transactions_with_dispute_and_chargeback() -> Vec<Transaction> {
    let mut txns = one_clients_transactions();
    txns.extend([Transaction::dispute(1, 4), Transaction::chargeback(1, 4)]);
    txns
}

#[test]
fn to_positions_given_dispute() {
    let txns = one_clients_transactions_with_dispute();
    let subj = to_positions(&txns).unwrap();
    assert_eq!(subj.len(), 1);
    assert_eq!(subj[0].client_id, one_good_transaction().client_id);
    assert_eq!(subj[0].total, sum(3.0));
    assert_eq!(subj[0].available, sum(1.5));
    assert_eq!(subj[0].held, sum(1.5));
}

#[test]
fn to_positions_given_dispute_and_resolution() {
    let txns = one_clients_transactions_with_dispute_and_resolution();
    let subj = to_positions(&txns).unwrap();
    assert_eq!(subj.len(), 1);
    assert_eq!(subj[0].client_id, one_good_transaction().client_id);
    assert_eq!(subj[0].total, sum(3.0));
    assert_eq!(subj[0].available, sum(3.0));
    assert_eq!(subj[0].held, sum(0.0));
}

#[test]
fn to_positions_given_dispute_and_chargeback() {
    let txns = one_clients_transactions_with_dispute_and_chargeback();
    let subj = to_positions(&txns).unwrap();
    assert_eq!(subj.len(), 1);
    assert_eq!(subj[0].client_id, one_good_transaction().client_id);
    assert_eq!(subj[0].total, sum(1.5));
    assert_eq!(subj[0].available, sum(1.5));
    assert_eq!(subj[0].held, sum(0.0));
    assert_eq!(subj[0].locked, true);
}
