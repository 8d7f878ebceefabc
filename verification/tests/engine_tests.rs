use paytoy_engine::{
    account_records, process_record, process_transactions, Amount, ClientAccount, DisputeAction, Ledger, Movement,
    RecordError, TransactionCommand, TransactionError, TransactionRecord, TransactionType,
};

fn deposit(tx_id: u32, client_id: u16, amount: Amount) -> TransactionCommand {
    TransactionCommand::ProcessMovement { tx_id, client_id, movement: Movement::Deposit(amount) }
}

fn withdrawal(tx_id: u32, client_id: u16, amount: Amount) -> TransactionCommand {
    TransactionCommand::ProcessMovement { tx_id, client_id, movement: Movement::Withdrawal(amount) }
}

fn dispute(tx_id: u32, client_id: u16, action: DisputeAction) -> TransactionCommand {
    TransactionCommand::ProcessDispute { target_tx_id: tx_id, client_id, action }
}

fn account_of(ledger: &Ledger, client_id: u16) -> ClientAccount {
    let accounts = ledger.get_accounts();
    let found: Vec<_> = accounts.iter().filter(|(id, _)| *id == client_id).collect();
    assert_eq!(found.len(), 1);
    found[0].1
}

fn record(tx_type: TransactionType, tx_id: u32, client_id: u16, amount: Option<Amount>) -> TransactionRecord {
    TransactionRecord { tx_type, tx_id, client_id, amount }
}

#[test]
fn amounts_of_different_scales_add_exactly() {
    let mut ledger = Ledger::default();
    assert!(ledger.process_transaction(deposit(1, 7, Amount::new(15, 1))).is_ok());
    assert!(ledger.process_transaction(deposit(2, 7, Amount::new(225, 2))).is_ok());
    let account = account_of(&ledger, 7);
    assert_eq!(account.available, Amount::new(375, 2));
    assert_eq!(account.available, Amount::new(3750, 3));
    assert_eq!(account.available.scale(), 2);
    assert_eq!(account.available.magnitude(), 375);
    assert!(!account.available.is_sign_negative());
}

#[test]
fn withdrawal_compares_values_across_scales() {
    let mut ledger = Ledger::default();
    assert!(ledger.process_transaction(deposit(1, 1, Amount::new(100, 2))).is_ok());
    assert!(matches!(
        ledger.process_transaction(withdrawal(2, 1, Amount::new(1001, 3))),
        Err(TransactionError::InsufficientFunds)
    ));
    assert!(ledger.process_transaction(withdrawal(3, 1, Amount::new(10, 1))).is_ok());
    assert_eq!(account_of(&ledger, 1).available, Amount::zero());
}

#[test]
fn refused_command_registers_client() {
    let mut ledger = Ledger::default();
    assert!(matches!(
        ledger.process_transaction(withdrawal(1, 3, 10.into())),
        Err(TransactionError::InsufficientFunds)
    ));
    let account = account_of(&ledger, 3);
    assert_eq!(account.available, Amount::zero());
    assert_eq!(account.held, Amount::zero());
    assert!(!account.locked);
    assert!(matches!(
        ledger.process_transaction(dispute(5, 4, DisputeAction::Open)),
        Err(TransactionError::TransactionNotFound(5))
    ));
    assert_eq!(ledger.get_accounts().len(), 2);
}

#[test]
fn resolve_and_chargeback_need_an_open_dispute() {
    let mut ledger = Ledger::default();
    assert!(ledger.process_transaction(deposit(1, 1, 20.into())).is_ok());
    assert!(matches!(
        ledger.process_transaction(dispute(1, 1, DisputeAction::Resolve)),
        Err(TransactionError::TransactionNotDisputed(1))
    ));
    assert!(matches!(
        ledger.process_transaction(dispute(1, 1, DisputeAction::Chargeback)),
        Err(TransactionError::TransactionNotDisputed(1))
    ));
    assert_eq!(account_of(&ledger, 1).available, Amount::from(20));
}

#[test]
fn resolving_right_after_opening_restores_the_account() {
    let mut ledger = Ledger::default();
    assert!(ledger.process_transaction(deposit(1, 2, Amount::new(1234, 2))).is_ok());
    assert!(ledger.process_transaction(deposit(2, 2, 5.into())).is_ok());
    let before = account_of(&ledger, 2);
    assert!(ledger.process_transaction(dispute(1, 2, DisputeAction::Open)).is_ok());
    assert_eq!(account_of(&ledger, 2).available, Amount::new(500, 2));
    assert_eq!(account_of(&ledger, 2).held, Amount::new(1234, 2));
    assert!(ledger.process_transaction(dispute(1, 2, DisputeAction::Resolve)).is_ok());
    let after = account_of(&ledger, 2);
    assert_eq!(after.available, before.available);
    assert_eq!(after.held, before.held);
    assert_eq!(after.locked, before.locked);
    // the dispute can be opened again
    assert!(ledger.process_transaction(dispute(1, 2, DisputeAction::Open)).is_ok());
}

#[test]
fn total_funds_change_by_what_moves() {
    let mut ledger = Ledger::default();
    assert!(ledger.process_transaction(deposit(1, 1, 100.into())).is_ok());
    assert!(ledger.process_transaction(deposit(2, 1, 40.into())).is_ok());
    assert!(ledger.process_transaction(withdrawal(3, 1, 30.into())).is_ok());
    assert!(ledger.process_transaction(dispute(2, 1, DisputeAction::Open)).is_ok());
    let account = account_of(&ledger, 1);
    assert_eq!(account.available, Amount::from(70));
    assert_eq!(account.held, Amount::from(40));
    assert!(ledger.process_transaction(dispute(2, 1, DisputeAction::Chargeback)).is_ok());
    let account = account_of(&ledger, 1);
    assert_eq!(account.available, Amount::from(70));
    assert_eq!(account.held, Amount::zero());
    assert!(account.locked);
}

#[test]
fn disputing_a_withdrawal_moves_a_negative_amount() {
    let mut ledger = Ledger::default();
    assert!(ledger.process_transaction(deposit(1, 1, 100.into())).is_ok());
    assert!(ledger.process_transaction(withdrawal(2, 1, 30.into())).is_ok());
    assert!(ledger.process_transaction(dispute(2, 1, DisputeAction::Open)).is_ok());
    let account = account_of(&ledger, 1);
    assert_eq!(account.available, Amount::from(100));
    assert_eq!(account.held, Amount::from(-30));
    assert!(account.held.is_sign_negative());
}

#[test]
fn disputes_may_make_balances_negative() {
    let mut ledger = Ledger::default();
    assert!(ledger.process_transaction(deposit(1, 1, 100.into())).is_ok());
    assert!(ledger.process_transaction(withdrawal(2, 1, 80.into())).is_ok());
    assert!(ledger.process_transaction(dispute(1, 1, DisputeAction::Open)).is_ok());
    let account = account_of(&ledger, 1);
    assert_eq!(account.available, Amount::from(-80));
    assert_eq!(account.held, Amount::from(100));
}

#[test]
fn locked_account_stays_locked() {
    let mut ledger = Ledger::default();
    assert!(ledger.process_transaction(deposit(1, 9, 10.into())).is_ok());
    assert!(ledger.process_transaction(deposit(2, 9, 10.into())).is_ok());
    assert!(ledger.process_transaction(dispute(1, 9, DisputeAction::Open)).is_ok());
    assert!(ledger.process_transaction(dispute(1, 9, DisputeAction::Chargeback)).is_ok());
    assert!(ledger.process_transaction(deposit(3, 9, 10.into())).is_ok());
    assert!(ledger.process_transaction(dispute(2, 9, DisputeAction::Open)).is_ok());
    assert!(ledger.process_transaction(dispute(2, 9, DisputeAction::Resolve)).is_ok());
    assert!(account_of(&ledger, 9).locked);
}

#[test]
fn other_clients_are_untouched() {
    let mut ledger = Ledger::default();
    assert!(ledger.process_transaction(deposit(1, 1, 10.into())).is_ok());
    assert!(ledger.process_transaction(deposit(2, 2, 20.into())).is_ok());
    assert!(ledger.process_transaction(dispute(2, 2, DisputeAction::Open)).is_ok());
    assert!(matches!(
        ledger.process_transaction(dispute(2, 1, DisputeAction::Open)),
        Err(TransactionError::TransactionNotFound(2))
    ));
    assert_eq!(account_of(&ledger, 1).available, Amount::from(10));
    assert_eq!(account_of(&ledger, 2).held, Amount::from(20));
}

#[test]
fn reused_transaction_id_overwrites_history() {
    let mut ledger = Ledger::default();
    assert!(ledger.process_transaction(deposit(1, 1, 100.into())).is_ok());
    assert!(ledger.process_transaction(deposit(1, 1, 50.into())).is_ok());
    assert!(ledger.process_transaction(dispute(1, 1, DisputeAction::Open)).is_ok());
    let account = account_of(&ledger, 1);
    assert_eq!(account.available, Amount::from(100));
    assert_eq!(account.held, Amount::from(50));
}

#[test]
fn held_funds_match_open_disputes() {
    let mut ledger = Ledger::default();
    assert!(ledger.process_transaction(deposit(1, 1, 5.into())).is_ok());
    assert!(ledger.process_transaction(deposit(2, 1, 7.into())).is_ok());
    assert!(ledger.process_transaction(deposit(3, 1, 11.into())).is_ok());
    assert!(ledger.process_transaction(dispute(1, 1, DisputeAction::Open)).is_ok());
    assert!(ledger.process_transaction(dispute(3, 1, DisputeAction::Open)).is_ok());
    assert!(ledger.process_transaction(dispute(1, 1, DisputeAction::Resolve)).is_ok());
    assert_eq!(account_of(&ledger, 1).held, Amount::from(11));
}

#[test]
fn overflow_is_reported_and_changes_nothing() {
    let mut ledger = Ledger::default();
    let max = Amount::from_parts(false, (1u128 << 96) - 1, 0).unwrap();
    assert!(matches!(ledger.checked_process_transaction(deposit(1, 1, max)), Some(Ok(()))));
    assert!(ledger.checked_process_transaction(deposit(2, 1, 1.into())).is_none());
    assert_eq!(account_of(&ledger, 1).available, max);
    assert!(matches!(
        ledger.checked_process_transaction(withdrawal(3, 1, 1.into())),
        Some(Ok(()))
    ));
}

#[test]
fn amount_parts_are_checked() {
    assert!(Amount::from_parts(false, 1u128 << 96, 0).is_none());
    assert!(Amount::from_parts(false, 5, 29).is_none());
    let a = Amount::from_parts(true, 5, 28).unwrap();
    assert!(a.is_sign_negative());
    assert_eq!(a.magnitude(), 5);
    assert_eq!(a.scale(), 28);
    assert_eq!(Amount::from(-3), Amount::new(-3, 0));
    assert_ne!(Amount::from(3), Amount::new(-3, 0));
    assert_eq!(Amount::from_parts(true, 0, 2).unwrap(), Amount::zero());
}

#[test]
fn records_without_amount_make_no_command() {
    let missing = TransactionCommand::try_from(record(TransactionType::Deposit, 1, 1, None));
    assert_eq!(missing.unwrap_err(), "Amount is required for deposit");
    let missing = TransactionCommand::try_from(record(TransactionType::Withdrawal, 1, 1, None));
    assert_eq!(missing.unwrap_err(), "Amount is required for withdrawal");
    let command = TransactionCommand::try_from(record(TransactionType::Chargeback, 4, 2, None)).unwrap();
    assert!(matches!(
        command,
        TransactionCommand::ProcessDispute { target_tx_id: 4, client_id: 2, action: DisputeAction::Chargeback }
    ));
    let command =
        TransactionCommand::try_from(record(TransactionType::Withdrawal, 4, 2, Some(3.into()))).unwrap();
    assert!(matches!(
        command,
        TransactionCommand::ProcessMovement { tx_id: 4, client_id: 2, movement: Movement::Withdrawal(_) }
    ));
}

#[test]
fn batch_processing_lists_accounts_by_client_id() {
    let mut ledger = Ledger::default();
    let records = vec![
        record(TransactionType::Deposit, 1, 3, Some(Amount::new(15, 1))),
        record(TransactionType::Deposit, 2, 1, Some(2.into())),
        record(TransactionType::Deposit, 3, 2, None),
        record(TransactionType::Withdrawal, 4, 1, Some(5.into())),
        record(TransactionType::Dispute, 1, 3, None),
        record(TransactionType::Resolve, 9, 2, None),
    ];
    let (accounts, errors) = process_transactions(&mut ledger, records).unwrap();
    let ids: Vec<u16> = accounts.iter().map(|a| a.id).collect();
    assert_eq!(ids, vec![1, 2, 3]);
    assert_eq!(accounts[0].available, Amount::from(2));
    assert_eq!(accounts[0].total, Amount::from(2));
    assert_eq!(accounts[1].total, Amount::zero());
    assert_eq!(accounts[2].available, Amount::zero());
    assert_eq!(accounts[2].held, Amount::new(15, 1));
    assert_eq!(accounts[2].total, Amount::new(15, 1));
    assert_eq!(errors.len(), 3);
    assert!(matches!(&errors[0], RecordError::InvalidRecord(m) if m == "Amount is required for deposit"));
    assert!(matches!(errors[1], RecordError::Rejected(TransactionError::InsufficientFunds)));
    assert!(matches!(errors[2], RecordError::Rejected(TransactionError::TransactionNotFound(9))));
}

#[test]
fn batch_processing_stops_on_overflow() {
    let mut ledger = Ledger::default();
    let max = Amount::from_parts(false, (1u128 << 96) - 1, 0).unwrap();
    let records = vec![
        record(TransactionType::Deposit, 1, 1, Some(max)),
        record(TransactionType::Deposit, 2, 1, Some(max)),
    ];
    assert!(process_transactions(&mut ledger, records).is_none());
}

#[test]
fn account_totals_overflow_is_reported() {
    let mut ledger = Ledger::default();
    let max = Amount::from_parts(false, (1u128 << 96) - 1, 0).unwrap();
    assert!(ledger.process_transaction(deposit(1, 1, max)).is_ok());
    assert!(account_records(&ledger).is_some());
    assert!(ledger.process_transaction(dispute(1, 1, DisputeAction::Open)).is_ok());
    assert!(ledger.process_transaction(deposit(2, 1, max)).is_ok());
    assert!(account_records(&ledger).is_none());
}

#[test]
fn sums_keep_the_larger_scale() {
    let mut ledger = Ledger::default();
    assert!(ledger.process_transaction(deposit(1, 1, Amount::new(15, 1))).is_ok());
    assert!(ledger.process_transaction(dispute(1, 1, DisputeAction::Open)).is_ok());
    let account = account_of(&ledger, 1);
    assert_eq!(account.available, Amount::zero());
    assert!(account.available.scale() <= 1);
    assert!(account.held.scale() <= 1);
    assert!(ledger.process_transaction(dispute(1, 1, DisputeAction::Resolve)).is_ok());
    assert_eq!(account_of(&ledger, 1).available, Amount::new(15, 1));
    assert!(account_of(&ledger, 1).available.scale() <= 1);
}

#[test]
fn one_record_at_a_time() {
    let mut ledger = Ledger::default();
    assert!(matches!(
        process_record(&mut ledger, record(TransactionType::Deposit, 1, 4, Some(8.into()))),
        Some(Ok(()))
    ));
    assert!(matches!(
        process_record(&mut ledger, record(TransactionType::Withdrawal, 2, 4, None)),
        Some(Err(RecordError::InvalidRecord(_)))
    ));
    assert!(matches!(
        process_record(&mut ledger, record(TransactionType::Withdrawal, 3, 4, Some(9.into()))),
        Some(Err(RecordError::Rejected(TransactionError::InsufficientFunds)))
    ));
    let max = Amount::from_parts(false, (1u128 << 96) - 1, 0).unwrap();
    assert!(matches!(
        process_record(&mut ledger, record(TransactionType::Deposit, 5, 4, Some(max))),
        None
    ));
    assert_eq!(account_of(&ledger, 4).available, Amount::from(8));
}

#[test]
fn dispute_can_be_reopened_after_chargeback() {
    let mut ledger = Ledger::default();
    assert!(ledger.process_transaction(deposit(1, 1, 10.into())).is_ok());
    assert!(ledger.process_transaction(dispute(1, 1, DisputeAction::Open)).is_ok());
    assert!(ledger.process_transaction(dispute(1, 1, DisputeAction::Chargeback)).is_ok());
    assert!(ledger.process_transaction(dispute(1, 1, DisputeAction::Open)).is_ok());
    let account = account_of(&ledger, 1);
    assert_eq!(account.available, Amount::from(-10));
    assert_eq!(account.held, Amount::from(10));
    assert!(account.locked);
}

#[test]
fn clients_after_a_sequence_are_those_named() {
    let mut ledger = Ledger::default();
    assert!(ledger.process_transaction(deposit(1, 4, 1.into())).is_ok());
    assert!(ledger.process_transaction(withdrawal(2, 9, 1.into())).is_err());
    assert!(ledger.process_transaction(dispute(3, 6, DisputeAction::Resolve)).is_err());
    assert!(ledger.process_transaction(deposit(4, 4, 1.into())).is_ok());
    let mut ids: Vec<u16> = ledger.get_accounts().iter().map(|(id, _)| *id).collect();
    ids.sort();
    assert_eq!(ids, vec![4, 6, 9]);
}

#[test]
fn rounding_free_resolve_after_open_at_large_balances() {
    let mut ledger = Ledger::default();
    assert!(ledger.process_transaction(deposit(1, 1, Amount::new(5, 1))).is_ok());
    let big = Amount::from_parts(false, 7922816251426433759354395033, 0).unwrap();
    assert!(ledger.process_transaction(deposit(2, 1, big)).is_ok());
    let before = account_of(&ledger, 1);
    assert!(ledger.process_transaction(dispute(1, 1, DisputeAction::Open)).is_ok());
    assert!(ledger.process_transaction(dispute(1, 1, DisputeAction::Resolve)).is_ok());
    let after = account_of(&ledger, 1);
    assert_eq!(after.available, before.available);
    assert_eq!(after.held, Amount::zero());
}
