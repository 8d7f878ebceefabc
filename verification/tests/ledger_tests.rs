use paytoy_engine::{
    Amount, ClientId, DisputeAction, Ledger, Movement, TransactionCommand, TransactionError,
};

fn assert_account_state(
    ledger: &Ledger,
    client_id: ClientId,
    expected_accessible: Amount,
    expected_held: Amount,
    expected_locked: bool,
) {
    let accounts = ledger.get_accounts();
    assert_eq!(accounts.len(), 1);
    let (id, account) = accounts[0];
    assert_eq!(id, client_id);
    assert_eq!(account.available, expected_accessible);
    assert_eq!(account.held, expected_held);
    assert_eq!(account.locked, expected_locked);
}

#[test]
fn test_successful_deposit_and_withdrawal() {
    let mut ledger = Ledger::default();
    let deposit_command = TransactionCommand::ProcessMovement {
        tx_id: 1,
        client_id: 1,
        movement: Movement::Deposit(100.into()),
    };
    assert!(matches!(
        ledger.process_transaction(deposit_command),
        Ok(())
    ));

    let withdrawal_command = TransactionCommand::ProcessMovement {
        tx_id: 2,
        client_id: 1,
        movement: Movement::Withdrawal(50.into()),
    };
    assert!(matches!(
        ledger.process_transaction(withdrawal_command),
        Ok(())
    ));

    assert_account_state(&ledger, 1, 50.into(), 0.into(), false);
}

#[test]
fn test_withdrawal_insufficient_funds() {
    let mut ledger = Ledger::default();
    let deposit_command = TransactionCommand::ProcessMovement {
        tx_id: 1,
        client_id: 1,
        movement: Movement::Deposit(100.into()),
    };
    assert!(matches!(
        ledger.process_transaction(deposit_command),
        Ok(())
    ));
    let withdrawal_command = TransactionCommand::ProcessMovement {
        tx_id: 2,
        client_id: 1,
        movement: Movement::Withdrawal(150.into()),
    };
    assert!(matches!(
        ledger.process_transaction(withdrawal_command),
        Err(TransactionError::InsufficientFunds)
    ));

    assert_account_state(&ledger, 1, 100.into(), 0.into(), false);
}

#[test]
fn test_dispute_and_resolution_flow() {
    let mut ledger = Ledger::default();
    let deposit_command = TransactionCommand::ProcessMovement {
        tx_id: 1,
        client_id: 1,
        movement: Movement::Deposit(100.into()),
    };
    assert!(matches!(
        ledger.process_transaction(deposit_command),
        Ok(())
    ));
    let dispute_command = TransactionCommand::ProcessDispute {
        target_tx_id: 1,
        client_id: 1,
        action: DisputeAction::Open,
    };
    assert!(matches!(
        ledger.process_transaction(dispute_command),
        Ok(())
    ));

    assert_account_state(&ledger, 1, 0.into(), 100.into(), false);

    let resolve_command = TransactionCommand::ProcessDispute {
        target_tx_id: 1,
        client_id: 1,
        action: DisputeAction::Resolve,
    };
    assert!(matches!(
        ledger.process_transaction(resolve_command),
        Ok(())
    ));

    assert_account_state(&ledger, 1, 100.into(), 0.into(), false);
}

#[test]
fn test_dispute_and_chargeback_flow() {
    let mut ledger = Ledger::default();
    let deposit_command = TransactionCommand::ProcessMovement {
        tx_id: 1,
        client_id: 1,
        movement: Movement::Deposit(100.into()),
    };
    assert!(matches!(
        ledger.process_transaction(deposit_command),
        Ok(())
    ));
    let dispute_command = TransactionCommand::ProcessDispute {
        target_tx_id: 1,
        client_id: 1,
        action: DisputeAction::Open,
    };
    assert!(matches!(
        ledger.process_transaction(dispute_command),
        Ok(())
    ));

    assert_account_state(&ledger, 1, 0.into(), 100.into(), false);

    let chargeback_command = TransactionCommand::ProcessDispute {
        target_tx_id: 1,
        client_id: 1,
        action: DisputeAction::Chargeback,
    };
    assert!(matches!(
        ledger.process_transaction(chargeback_command),
        Ok(())
    ));

    assert_account_state(&ledger, 1, 0.into(), 0.into(), true);
}

#[test]
fn test_lock_account() {
    let mut ledger = Ledger::default();
    let deposit_command = TransactionCommand::ProcessMovement {
        tx_id: 1,
        client_id: 1,
        movement: Movement::Deposit(100.into()),
    };
    assert!(matches!(
        ledger.process_transaction(deposit_command),
        Ok(())
    ));

    let dispute_command = TransactionCommand::ProcessDispute {
        target_tx_id: 1,
        client_id: 1,
        action: DisputeAction::Open,
    };
    assert!(matches!(
        ledger.process_transaction(dispute_command),
        Ok(())
    ));

    let chargeback_command = TransactionCommand::ProcessDispute {
        target_tx_id: 1,
        client_id: 1,
        action: DisputeAction::Chargeback,
    };
    assert!(matches!(
        ledger.process_transaction(chargeback_command),
        Ok(())
    ));

    assert_account_state(&ledger, 1, 0.into(), 0.into(), true);

    // Deposits should be accepted when account is locked
    let deposit_command = TransactionCommand::ProcessMovement {
        tx_id: 2,
        client_id: 1,
        movement: Movement::Deposit(50.into()),
    };
    assert!(matches!(
        ledger.process_transaction(deposit_command),
        Ok(())
    ));

    assert_account_state(&ledger, 1, 50.into(), 0.into(), true);

    // Withdrawals should be rejected when account is locked
    let withdrawal_command = TransactionCommand::ProcessMovement {
        tx_id: 3,
        client_id: 1,
        movement: Movement::Withdrawal(10.into()),
    };
    assert!(matches!(
        ledger.process_transaction(withdrawal_command),
        Err(TransactionError::AccountLocked(1))
    ));

    assert_account_state(&ledger, 1, 50.into(), 0.into(), true);

    // Disputes should be accepted when account is locked
    let dispute_command = TransactionCommand::ProcessDispute {
        target_tx_id: 2,
        client_id: 1,
        action: DisputeAction::Open,
    };
    assert!(matches!(
        ledger.process_transaction(dispute_command),
        Ok(())
    ));

    assert_account_state(&ledger, 1, 0.into(), 50.into(), true);
}

#[test]
fn test_invalid_dispute() {
    let mut ledger = Ledger::default();
    let deposit_command = TransactionCommand::ProcessMovement {
        tx_id: 1,
        client_id: 1,
        movement: Movement::Deposit(100.into()),
    };
    assert!(matches!(
        ledger.process_transaction(deposit_command),
        Ok(())
    ));

    assert_account_state(&ledger, 1, 100.into(), 0.into(), false);

    let dispute_command_1 = TransactionCommand::ProcessDispute {
        target_tx_id: 999,
        client_id: 1,
        action: DisputeAction::Open,
    };
    assert!(matches!(
        ledger.process_transaction(dispute_command_1),
        Err(TransactionError::TransactionNotFound(999))
    ));

    assert_account_state(&ledger, 1, 100.into(), 0.into(), false);

    let dispute_command_2 = TransactionCommand::ProcessDispute {
        target_tx_id: 1,
        client_id: 1,
        action: DisputeAction::Open,
    };
    assert!(matches!(
        ledger.process_transaction(dispute_command_2),
        Ok(())
    ));

    assert_account_state(&ledger, 1, 0.into(), 100.into(), false);

    let dispute_command_3 = TransactionCommand::ProcessDispute {
        target_tx_id: 1,
        client_id: 1,
        action: DisputeAction::Open,
    };
    assert!(matches!(
        ledger.process_transaction(dispute_command_3),
        Err(TransactionError::TransactionAlreadyDisputed(1))
    ));

    assert_account_state(&ledger, 1, 0.into(), 100.into(), false);
}
