use reckoning::disputes::References;
use reckoning::positions::{apply_amount, to_position, to_positions};
use reckoning::{Position, Transaction, TxKind};

fn position(txns: &[Transaction]) -> Position {
    to_position(1, &txns.to_vec())
}

#[test]
fn apply_amount_adds_what_keeps_the_balance_at_or_above_zero() {
    assert_eq!(apply_amount(0, 10_000), 10_000);
    assert_eq!(apply_amount(30_000, -15_000), 15_000);
    assert_eq!(apply_amount(15_000, -15_000), 0);
    assert_eq!(apply_amount(7, 0), 7);
}

#[test]
fn apply_amount_drops_what_would_overdraw() {
    assert_eq!(apply_amount(0, -50_000), 0);
    assert_eq!(apply_amount(15_000, -15_001), 15_000);
    assert_eq!(apply_amount(1, i64::MIN), 1);
}

#[test]
fn fresh_account_with_one_deposit() {
    let p = position(&[Transaction::deposit(1, 1, 10_000)]);
    assert_eq!(
        p,
        Position { client_id: 1, available: 10_000, held: 0, total: 10_000, locked: false }
    );
}

#[test]
fn account_without_transactions_is_empty() {
    let p = to_position(9, &Vec::new());
    assert_eq!(p, Position { client_id: 9, available: 0, held: 0, total: 0, locked: false });
}

#[test]
fn withdrawal_beyond_the_balance_is_skipped() {
    let p = position(&[Transaction::withdrawal(1, 1, 50_000)]);
    assert_eq!(p, Position { client_id: 1, available: 0, held: 0, total: 0, locked: false });
}

#[test]
fn skipped_withdrawal_is_not_tried_again() {
    let p = position(&[
        Transaction::withdrawal(1, 1, 50_000),
        Transaction::deposit(1, 2, 60_000),
    ]);
    assert_eq!(p.available, 60_000);
    assert_eq!(p.total, 60_000);
}

#[test]
fn order_of_deposit_and_withdrawal_matters() {
    let p = position(&[
        Transaction::deposit(1, 2, 60_000),
        Transaction::withdrawal(1, 1, 50_000),
    ]);
    assert_eq!(p.available, 10_000);
}

#[test]
fn withdrawal_of_the_whole_balance_is_applied() {
    let p = position(&[
        Transaction::deposit(1, 1, 25_000),
        Transaction::withdrawal(1, 2, 25_000),
    ]);
    assert_eq!(p, Position { client_id: 1, available: 0, held: 0, total: 0, locked: false });
}

#[test]
fn dispute_of_a_deposit_holds_its_amount() {
    let p = position(&[
        Transaction::deposit(1, 1, 10_000),
        Transaction::deposit(1, 2, 20_000),
        Transaction::dispute(1, 2),
    ]);
    assert_eq!(
        p,
        Position { client_id: 1, available: 30_000, held: 20_000, total: 50_000, locked: false }
    );
}

#[test]
fn dispute_of_an_unknown_transaction_is_ignored() {
    let p = position(&[Transaction::deposit(1, 1, 10_000), Transaction::dispute(1, 99)]);
    assert_eq!(
        p,
        Position { client_id: 1, available: 10_000, held: 0, total: 10_000, locked: false }
    );
}

#[test]
fn resolve_of_an_unknown_transaction_is_ignored() {
    let p = position(&[Transaction::deposit(1, 1, 10_000), Transaction::resolve(1, 99)]);
    assert_eq!(
        p,
        Position { client_id: 1, available: 10_000, held: 0, total: 10_000, locked: false }
    );
}

#[test]
fn chargeback_of_an_unknown_transaction_is_ignored() {
    let p = position(&[Transaction::deposit(1, 1, 10_000), Transaction::chargeback(1, 99)]);
    assert_eq!(
        p,
        Position { client_id: 1, available: 10_000, held: 0, total: 10_000, locked: false }
    );
}

#[test]
fn lifecycle_events_alone_change_nothing() {
    let p = position(&[
        Transaction::dispute(1, 1),
        Transaction::resolve(1, 1),
        Transaction::chargeback(1, 1),
    ]);
    assert_eq!(p, Position { client_id: 1, available: 0, held: 0, total: 0, locked: false });
}

#[test]
fn reference_into_another_account_is_ignored() {
    let txns = vec![
        Transaction::deposit(1, 1, 10_000),
        Transaction::deposit(2, 2, 20_000),
        Transaction::dispute(2, 1),
        Transaction::chargeback(2, 1),
    ];
    let positions = to_positions(&txns).unwrap();
    assert_eq!(
        positions,
        vec![
            Position { client_id: 1, available: 10_000, held: 0, total: 10_000, locked: false },
            Position { client_id: 2, available: 20_000, held: 0, total: 20_000, locked: false },
        ]
    );
}

#[test]
fn dispute_counts_wherever_it_stands() {
    let p = position(&[Transaction::dispute(1, 1), Transaction::deposit(1, 1, 10_000)]);
    assert_eq!(
        p,
        Position { client_id: 1, available: 10_000, held: 10_000, total: 20_000, locked: false }
    );
}

#[test]
fn resolve_excludes_from_open_dispute_for_good() {
    let p = position(&[
        Transaction::deposit(1, 1, 10_000),
        Transaction::dispute(1, 1),
        Transaction::resolve(1, 1),
        Transaction::dispute(1, 1),
    ]);
    assert_eq!(
        p,
        Position { client_id: 1, available: 20_000, held: 0, total: 20_000, locked: false }
    );
}

#[test]
fn repeated_disputes_hold_once() {
    let p = position(&[
        Transaction::deposit(1, 1, 10_000),
        Transaction::dispute(1, 1),
        Transaction::dispute(1, 1),
    ]);
    assert_eq!(p.held, 10_000);
    assert_eq!(p.total, 20_000);
}

#[test]
fn resolve_without_dispute_is_honoured() {
    let p = position(&[Transaction::deposit(1, 1, 10_000), Transaction::resolve(1, 1)]);
    assert_eq!(
        p,
        Position { client_id: 1, available: 20_000, held: 0, total: 20_000, locked: false }
    );
}

#[test]
fn chargeback_without_dispute_locks() {
    let p = position(&[Transaction::deposit(1, 1, 10_000), Transaction::chargeback(1, 1)]);
    assert_eq!(
        p,
        Position { client_id: 1, available: 10_000, held: 0, total: 10_000, locked: true }
    );
}

#[test]
fn resolve_and_chargeback_of_one_transaction_both_count() {
    let p = position(&[
        Transaction::deposit(1, 1, 10_000),
        Transaction::dispute(1, 1),
        Transaction::resolve(1, 1),
        Transaction::chargeback(1, 1),
    ]);
    assert_eq!(
        p,
        Position { client_id: 1, available: 20_000, held: 0, total: 20_000, locked: true }
    );
}

#[test]
fn every_transaction_of_a_disputed_identifier_is_held() {
    let p = position(&[
        Transaction::deposit(1, 1, 10_000),
        Transaction::deposit(1, 1, 5_000),
        Transaction::dispute(1, 1),
    ]);
    assert_eq!(p.available, 15_000);
    assert_eq!(p.held, 15_000);
    assert_eq!(p.total, 30_000);
}

#[test]
fn skipped_withdrawal_can_still_be_disputed() {
    let p = position(&[Transaction::withdrawal(1, 1, 50_000), Transaction::dispute(1, 1)]);
    assert_eq!(
        p,
        Position { client_id: 1, available: 0, held: 50_000, total: 50_000, locked: false }
    );
}

#[test]
fn total_is_available_plus_held() {
    let txns = vec![
        Transaction::deposit(1, 1, 10_000),
        Transaction::deposit(1, 2, 20_000),
        Transaction::withdrawal(1, 3, 5_000),
        Transaction::dispute(1, 2),
        Transaction::deposit(2, 4, 7),
        Transaction::resolve(2, 4),
        Transaction::deposit(3, 5, 1),
        Transaction::chargeback(3, 5),
    ];
    for p in to_positions(&txns).unwrap() {
        assert_eq!(p.total, p.available + p.held);
    }
}

#[test]
fn locked_exactly_with_a_chargeback() {
    let txns = vec![
        Transaction::deposit(1, 1, 10_000),
        Transaction::dispute(1, 1),
        Transaction::deposit(2, 2, 10_000),
        Transaction::dispute(2, 2),
        Transaction::chargeback(2, 2),
        Transaction::deposit(3, 3, 10_000),
        Transaction::resolve(3, 3),
    ];
    let locked: Vec<(u16, bool)> =
        to_positions(&txns).unwrap().iter().map(|p| (p.client_id, p.locked)).collect();
    assert_eq!(locked, vec![(1, false), (2, true), (3, false)]);
}

#[test]
fn sums_beyond_sixty_four_bits_are_exact() {
    let p = position(&[
        Transaction::deposit(1, 1, i64::MAX),
        Transaction::deposit(1, 2, i64::MAX),
        Transaction::deposit(1, 3, i64::MAX),
        Transaction::dispute(1, 1),
        Transaction::resolve(1, 2),
    ]);
    let max = i64::MAX as u128;
    assert_eq!(p.available, 4 * max);
    assert_eq!(p.held, max);
    assert_eq!(p.total, 5 * max);
}

#[test]
fn references_tell_kinds_apart() {
    let txns = vec![
        Transaction::deposit(1, 1, 10),
        Transaction::withdrawal(1, 2, 5),
        Transaction::dispute(1, 1),
        Transaction::resolve(1, 2),
        Transaction::chargeback(1, 3),
    ];
    let refs = References::collect(&txns);
    assert!(refs.has(TxKind::Deposit, 1));
    assert!(!refs.has(TxKind::Deposit, 2));
    assert!(refs.has(TxKind::Withdrawal, 2));
    assert!(refs.has(TxKind::Dispute, 1));
    assert!(refs.has(TxKind::Resolve, 2));
    assert!(refs.has(TxKind::Chargeback, 3));
    assert!(!refs.has(TxKind::Chargeback, 1));
}

#[test]
fn references_classify_each_identifier() {
    let txns = vec![
        Transaction::deposit(1, 1, 10),
        Transaction::deposit(1, 2, 10),
        Transaction::deposit(1, 3, 10),
        Transaction::deposit(1, 4, 10),
        Transaction::dispute(1, 1),
        Transaction::dispute(1, 2),
        Transaction::resolve(1, 2),
        Transaction::dispute(1, 3),
        Transaction::chargeback(1, 3),
        Transaction::dispute(1, 5),
        Transaction::chargeback(1, 6),
    ];
    let refs = References::collect(&txns);
    assert!(refs.is_known(1) && refs.is_known(4));
    assert!(!refs.is_known(5) && !refs.is_known(6));

    assert!(refs.is_open_disputed(1));
    assert!(!refs.is_resolved(1) && !refs.is_charged_back(1));

    assert!(refs.is_resolved(2));
    assert!(!refs.is_open_disputed(2) && !refs.is_charged_back(2));

    assert!(refs.is_charged_back(3));
    assert!(!refs.is_open_disputed(3) && !refs.is_resolved(3));

    assert!(!refs.is_open_disputed(4) && !refs.is_resolved(4) && !refs.is_charged_back(4));
    assert!(!refs.is_open_disputed(5));
    assert!(!refs.is_charged_back(6));
}

#[test]
fn references_of_nothing_know_nothing() {
    let refs = References::collect(&Vec::new());
    assert!(!refs.is_known(0));
    assert!(!refs.has(TxKind::Dispute, 0));
}
