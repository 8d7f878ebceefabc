//! What each kind of command does, stated over its inputs and outcome: when it is
//! accepted, when it is refused and with which error, and how the client's funds,
//! lock and history change. Each law speaks of both models of `process_transaction`
//! (`step` on the stored decimals, `value_step` on exact values).
use vstd::prelude::*;

use crate::amount::{decimal_difference, decimal_sum, Amount};
use crate::ledger::{ClientId, DisputeAction, Movement, Transaction, TransactionCommand, TransactionError, TransactionId};
use crate::model::{
    account_value_or_default, entry_or_default, step, value_step, LedgerState, LedgerValues,
    TransactionValue,
};

verus! {

/// A deposit is always accepted, on a locked account too: the available funds
/// gain the amount, held funds and lock stay, and the history records the deposit,
/// undisputed, under its id.
pub proof fn lemma_deposit(
    state: LedgerState,
    values: LedgerValues,
    tx_id: TransactionId,
    client_id: ClientId,
    amount: Amount,
)
    ensures
        ({
            let command = TransactionCommand::ProcessMovement { tx_id, client_id, movement: Movement::Deposit(amount) };
            let (account, history) = entry_or_default(state, client_id);
            let (after, result) = step(state, command);
            &&& result is Ok
            &&& after[client_id].0.available == decimal_sum(account.available, amount).unwrap()
            &&& after[client_id].0.held == account.held
            &&& after[client_id].0.locked == account.locked
            &&& after[client_id].1 == history.insert(tx_id, Transaction { amount, disputed: false })
        }),
        ({
            let command = TransactionCommand::ProcessMovement { tx_id, client_id, movement: Movement::Deposit(amount) };
            let account = account_value_or_default(values, client_id);
            let (after, result) = value_step(values, command);
            &&& result is Ok
            &&& after[client_id].available == account.available + amount.units()
            &&& after[client_id].held == account.held
            &&& after[client_id].locked == account.locked
            &&& after[client_id].history == account.history.insert(
                tx_id,
                TransactionValue { amount: amount.units(), disputed: false },
            )
        }),
{
}

/// A withdrawal is refused with `AccountLocked` on a locked account, else with
/// `InsufficientFunds` where the available funds are less than the amount, and
/// then changes nothing but registering the client. Otherwise it is accepted,
/// whatever the held funds: the available funds lose the amount, held funds and
/// lock stay, and the history records the withdrawal, negated and undisputed.
pub proof fn lemma_withdrawal(
    state: LedgerState,
    values: LedgerValues,
    tx_id: TransactionId,
    client_id: ClientId,
    amount: Amount,
)
    ensures
        ({
            let command = TransactionCommand::ProcessMovement { tx_id, client_id, movement: Movement::Withdrawal(amount) };
            let (account, history) = entry_or_default(state, client_id);
            let (after, result) = step(state, command);
            &&& account.locked ==> result == Err::<(), TransactionError>(TransactionError::AccountLocked(client_id))
            &&& !account.locked && account.available.units() < amount.units() ==> result == Err::<(), TransactionError>(
                TransactionError::InsufficientFunds,
            )
            &&& result is Err ==> after == state.insert(client_id, (account, history))
            &&& !account.locked && amount.units() <= account.available.units() ==> {
                &&& result is Ok
                &&& after[client_id].0.available == decimal_difference(account.available, amount).unwrap()
                &&& after[client_id].0.held == account.held
                &&& after[client_id].0.locked == account.locked
                &&& after[client_id].1 == history.insert(
                    tx_id,
                    Transaction { amount: amount.negated(), disputed: false },
                )
            }
        }),
        ({
            let command = TransactionCommand::ProcessMovement { tx_id, client_id, movement: Movement::Withdrawal(amount) };
            let account = account_value_or_default(values, client_id);
            let (after, result) = value_step(values, command);
            &&& account.locked ==> result == Err::<(), TransactionError>(TransactionError::AccountLocked(client_id))
            &&& !account.locked && account.available < amount.units() ==> result == Err::<(), TransactionError>(
                TransactionError::InsufficientFunds,
            )
            &&& result is Err ==> after == values.insert(client_id, account)
            &&& !account.locked && amount.units() <= account.available ==> {
                &&& result is Ok
                &&& after[client_id].available == account.available - amount.units()
                &&& after[client_id].available >= 0
                &&& after[client_id].held == account.held
                &&& after[client_id].locked == account.locked
            }
        }),
{
}

/// A dispute action on a transaction id that the client's history does not hold
/// is refused with `TransactionNotFound`, and changes nothing but registering the
/// client.
pub proof fn lemma_dispute_unknown_transaction(
    state: LedgerState,
    values: LedgerValues,
    target_tx_id: TransactionId,
    client_id: ClientId,
    action: DisputeAction,
)
    ensures
        ({
            let command = TransactionCommand::ProcessDispute { target_tx_id, client_id, action };
            let (account, history) = entry_or_default(state, client_id);
            !history.contains_key(target_tx_id) ==> step(state, command) == (
                state.insert(client_id, (account, history)),
                Err::<(), TransactionError>(TransactionError::TransactionNotFound(target_tx_id)),
            )
        }),
        ({
            let command = TransactionCommand::ProcessDispute { target_tx_id, client_id, action };
            let account = account_value_or_default(values, client_id);
            !account.history.contains_key(target_tx_id) ==> value_step(values, command) == (
                values.insert(client_id, account),
                Err::<(), TransactionError>(TransactionError::TransactionNotFound(target_tx_id)),
            )
        }),
{
}

/// Opening a dispute on a recorded transaction that is not under dispute is always
/// accepted, whatever the balances (they may go negative) and whether the account
/// is locked or not: its amount moves from the available funds to the held ones,
/// the lock stays, and the transaction is marked disputed. On a transaction under
/// dispute it is refused with `TransactionAlreadyDisputed`, changing nothing.
pub proof fn lemma_open(
    state: LedgerState,
    values: LedgerValues,
    target_tx_id: TransactionId,
    client_id: ClientId,
)
    ensures
        ({
            let command = TransactionCommand::ProcessDispute { target_tx_id, client_id, action: DisputeAction::Open };
            let (account, history) = entry_or_default(state, client_id);
            let tx = history[target_tx_id];
            let (after, result) = step(state, command);
            history.contains_key(target_tx_id) ==> {
                &&& tx.disputed ==> (after, result) == (
                    state.insert(client_id, (account, history)),
                    Err::<(), TransactionError>(TransactionError::TransactionAlreadyDisputed(target_tx_id)),
                )
                &&& !tx.disputed ==> {
                    &&& result is Ok
                    &&& after[client_id].0.available == decimal_difference(account.available, tx.amount).unwrap()
                    &&& after[client_id].0.held == decimal_sum(account.held, tx.amount).unwrap()
                    &&& after[client_id].0.locked == account.locked
                    &&& after[client_id].1 == history.insert(
                        target_tx_id,
                        Transaction { amount: tx.amount, disputed: true },
                    )
                }
            }
        }),
        ({
            let command = TransactionCommand::ProcessDispute { target_tx_id, client_id, action: DisputeAction::Open };
            let account = account_value_or_default(values, client_id);
            let tx = account.history[target_tx_id];
            let (after, result) = value_step(values, command);
            account.history.contains_key(target_tx_id) ==> {
                &&& tx.disputed ==> result == Err::<(), TransactionError>(
                    TransactionError::TransactionAlreadyDisputed(target_tx_id),
                )
                &&& !tx.disputed ==> {
                    &&& result is Ok
                    &&& after[client_id].available == account.available - tx.amount
                    &&& after[client_id].held == account.held + tx.amount
                    &&& after[client_id].locked == account.locked
                }
            }
        }),
{
}

/// Resolving a dispute on a transaction under dispute is always accepted, locked
/// account or not: its amount moves back from the held funds to the available
/// ones, the lock stays, and the transaction is no longer disputed. On a
/// transaction not under dispute it is refused with `TransactionNotDisputed`,
/// changing nothing.
pub proof fn lemma_resolve(
    state: LedgerState,
    values: LedgerValues,
    target_tx_id: TransactionId,
    client_id: ClientId,
)
    ensures
        ({
            let command = TransactionCommand::ProcessDispute { target_tx_id, client_id, action: DisputeAction::Resolve };
            let (account, history) = entry_or_default(state, client_id);
            let tx = history[target_tx_id];
            let (after, result) = step(state, command);
            history.contains_key(target_tx_id) ==> {
                &&& !tx.disputed ==> (after, result) == (
                    state.insert(client_id, (account, history)),
                    Err::<(), TransactionError>(TransactionError::TransactionNotDisputed(target_tx_id)),
                )
                &&& tx.disputed ==> {
                    &&& result is Ok
                    &&& after[client_id].0.available == decimal_sum(account.available, tx.amount).unwrap()
                    &&& after[client_id].0.held == decimal_difference(account.held, tx.amount).unwrap()
                    &&& after[client_id].0.locked == account.locked
                    &&& after[client_id].1 == history.insert(
                        target_tx_id,
                        Transaction { amount: tx.amount, disputed: false },
                    )
                }
            }
        }),
        ({
            let command = TransactionCommand::ProcessDispute { target_tx_id, client_id, action: DisputeAction::Resolve };
            let account = account_value_or_default(values, client_id);
            let tx = account.history[target_tx_id];
            let (after, result) = value_step(values, command);
            account.history.contains_key(target_tx_id) ==> {
                &&& !tx.disputed ==> result == Err::<(), TransactionError>(
                    TransactionError::TransactionNotDisputed(target_tx_id),
                )
                &&& tx.disputed ==> {
                    &&& result is Ok
                    &&& after[client_id].available == account.available + tx.amount
                    &&& after[client_id].held == account.held - tx.amount
                    &&& after[client_id].locked == account.locked
                }
            }
        }),
{
}

/// Charging back a transaction under dispute is always accepted, also on an
/// account that an earlier chargeback locked: its amount leaves the held funds,
/// the available funds stay, the account is locked, and the transaction is no
/// longer disputed. On a transaction not under dispute it is refused with
/// `TransactionNotDisputed`, changing nothing.
pub proof fn lemma_chargeback(
    state: LedgerState,
    values: LedgerValues,
    target_tx_id: TransactionId,
    client_id: ClientId,
)
    ensures
        ({
            let command = TransactionCommand::ProcessDispute { target_tx_id, client_id, action: DisputeAction::Chargeback };
            let (account, history) = entry_or_default(state, client_id);
            let tx = history[target_tx_id];
            let (after, result) = step(state, command);
            history.contains_key(target_tx_id) ==> {
                &&& !tx.disputed ==> (after, result) == (
                    state.insert(client_id, (account, history)),
                    Err::<(), TransactionError>(TransactionError::TransactionNotDisputed(target_tx_id)),
                )
                &&& tx.disputed ==> {
                    &&& result is Ok
                    &&& after[client_id].0.available == account.available
                    &&& after[client_id].0.held == decimal_difference(account.held, tx.amount).unwrap()
                    &&& after[client_id].0.locked
                    &&& after[client_id].1 == history.insert(
                        target_tx_id,
                        Transaction { amount: tx.amount, disputed: false },
                    )
                }
            }
        }),
        ({
            let command = TransactionCommand::ProcessDispute { target_tx_id, client_id, action: DisputeAction::Chargeback };
            let account = account_value_or_default(values, client_id);
            let tx = account.history[target_tx_id];
            let (after, result) = value_step(values, command);
            account.history.contains_key(target_tx_id) ==> {
                &&& !tx.disputed ==> result == Err::<(), TransactionError>(
                    TransactionError::TransactionNotDisputed(target_tx_id),
                )
                &&& tx.disputed ==> {
                    &&& result is Ok
                    &&& after[client_id].available == account.available
                    &&& after[client_id].held == account.held - tx.amount
                    &&& after[client_id].locked
                }
            }
        }),
{
}

} // verus!
