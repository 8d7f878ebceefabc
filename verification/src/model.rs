//! The meaning of a ledger operation, in two models.
//!
//! * [`step`] works on the exact decimal parts that the ledger stores: what a
//!   sum or a difference of two amounts is, is what `rust_decimal` computes
//!   ([`decimal_sum`], [`decimal_difference`]).
//! * [`value_step`] works on the values of the amounts (integers counting units
//!   of 10^-28) with exact arithmetic. The two agree wherever every sum and
//!   difference that an operation makes is exactly representable
//!   ([`arithmetic_exact`]).
use vstd::prelude::*;

use crate::amount::{
    common_scale, decimal_difference, decimal_sum, fits_at_scale, representable_within, Amount,
};
use crate::ledger::{
    ClientAccount, ClientId, DisputeAction, Movement, Transaction, TransactionCommand,
    TransactionError, TransactionId,
};

verus! {

/// The history of one client: each transaction id with the last transaction recorded under it.
pub type History = Map<TransactionId, Transaction>;

/// What the ledger stores for one client.
pub type ClientEntry = (ClientAccount, History);

/// The abstract state of a ledger: the entry of each client it knows.
pub type LedgerState = Map<ClientId, ClientEntry>;

/// A fresh account: nothing available, nothing held, not locked.
pub open spec fn default_account() -> ClientAccount {
    ClientAccount { available: Amount::zero_spec(), held: Amount::zero_spec(), locked: false }
}

/// The entry of a client, or a fresh one with an empty history if the ledger has none.
pub open spec fn entry_or_default(state: LedgerState, client: ClientId) -> ClientEntry {
    if state.contains_key(client) {
        state[client]
    } else {
        (default_account(), Map::empty())
    }
}

/// The client a command is about.
pub open spec fn command_client(command: TransactionCommand) -> ClientId {
    match command {
        TransactionCommand::ProcessMovement { client_id, .. } => client_id,
        TransactionCommand::ProcessDispute { client_id, .. } => client_id,
    }
}

/// The outcome of a dispute action on a client's entry, given the disputed transaction.
pub open spec fn dispute_outcome(
    account: ClientAccount,
    history: History,
    target: TransactionId,
    tx: Transaction,
    action: DisputeAction,
) -> Result<ClientEntry, TransactionError> {
    match action {
        DisputeAction::Open => {
            if tx.disputed {
                Err(TransactionError::TransactionAlreadyDisputed(target))
            } else {
                Ok(
                    (
                        ClientAccount {
                            available: decimal_difference(account.available, tx.amount).unwrap(),
                            held: decimal_sum(account.held, tx.amount).unwrap(),
                            locked: account.locked,
                        },
                        history.insert(target, Transaction { amount: tx.amount, disputed: true }),
                    ),
                )
            }
        },
        DisputeAction::Resolve => {
            if !tx.disputed {
                Err(TransactionError::TransactionNotDisputed(target))
            } else {
                Ok(
                    (
                        ClientAccount {
                            available: decimal_sum(account.available, tx.amount).unwrap(),
                            held: decimal_difference(account.held, tx.amount).unwrap(),
                            locked: account.locked,
                        },
                        history.insert(target, Transaction { amount: tx.amount, disputed: false }),
                    ),
                )
            }
        },
        DisputeAction::Chargeback => {
            if !tx.disputed {
                Err(TransactionError::TransactionNotDisputed(target))
            } else {
                Ok(
                    (
                        ClientAccount {
                            available: account.available,
                            held: decimal_difference(account.held, tx.amount).unwrap(),
                            locked: true,
                        },
                        history.insert(target, Transaction { amount: tx.amount, disputed: false }),
                    ),
                )
            }
        },
    }
}

/// The outcome of a command on the entry of its client: the new entry, or the error.
pub open spec fn entry_outcome(entry: ClientEntry, command: TransactionCommand) -> Result<
    ClientEntry,
    TransactionError,
> {
    let (account, history) = entry;
    match command {
        TransactionCommand::ProcessMovement { tx_id, client_id, movement } => match movement {
            Movement::Deposit(amount) => Ok(
                (
                    ClientAccount {
                        available: decimal_sum(account.available, amount).unwrap(),
                        held: account.held,
                        locked: account.locked,
                    },
                    history.insert(tx_id, Transaction { amount, disputed: false }),
                ),
            ),
            Movement::Withdrawal(amount) => {
                if account.locked {
                    Err(TransactionError::AccountLocked(client_id))
                } else if account.available.units() < amount.units() {
                    Err(TransactionError::InsufficientFunds)
                } else {
                    Ok(
                        (
                            ClientAccount {
                                available: decimal_difference(account.available, amount).unwrap(),
                                held: account.held,
                                locked: account.locked,
                            },
                            history.insert(tx_id, Transaction { amount: amount.negated(), disputed: false }),
                        ),
                    )
                }
            },
        },
        TransactionCommand::ProcessDispute { target_tx_id, action, .. } => {
            if !history.contains_key(target_tx_id) {
                Err(TransactionError::TransactionNotFound(target_tx_id))
            } else {
                dispute_outcome(account, history, target_tx_id, history[target_tx_id], action)
            }
        },
    }
}

/// What processing a command does to a ledger: the client's entry is created if it
/// is missing (whatever the outcome), and replaced by the new entry on success.
pub open spec fn step(state: LedgerState, command: TransactionCommand) -> (
    LedgerState,
    Result<(), TransactionError>,
) {
    let client = command_client(command);
    let entry = entry_or_default(state, client);
    match entry_outcome(entry, command) {
        Ok(new_entry) => (state.insert(client, new_entry), Ok(())),
        Err(e) => (state.insert(client, entry), Err(e)),
    }
}

/// Every sum and difference that `step` takes of the command's client entry is
/// defined: `rust_decimal` does not overflow on it.
pub open spec fn arithmetic_defined(state: LedgerState, command: TransactionCommand) -> bool {
    let (account, history) = entry_or_default(state, command_client(command));
    match command {
        TransactionCommand::ProcessMovement { movement, .. } => match movement {
            Movement::Deposit(amount) => decimal_sum(account.available, amount) is Some,
            Movement::Withdrawal(amount) => (!account.locked && amount.units()
                <= account.available.units()) ==> decimal_difference(account.available, amount) is Some,
        },
        TransactionCommand::ProcessDispute { target_tx_id, action, .. } => history.contains_key(
            target_tx_id,
        ) ==> {
            let amount = history[target_tx_id].amount;
            let disputed = history[target_tx_id].disputed;
            match action {
                DisputeAction::Open => !disputed ==> {
                    &&& decimal_difference(account.available, amount) is Some
                    &&& decimal_sum(account.held, amount) is Some
                },
                DisputeAction::Resolve => disputed ==> {
                    &&& decimal_sum(account.available, amount) is Some
                    &&& decimal_difference(account.held, amount) is Some
                },
                DisputeAction::Chargeback => disputed ==> decimal_difference(account.held, amount) is Some,
            }
        },
    }
}

/// The exact sum of two amounts fits at their common scale.
pub open spec fn sum_fits(a: Amount, b: Amount) -> bool {
    fits_at_scale(a.units() + b.units(), common_scale(a, b))
}

/// The exact difference of two amounts fits at their common scale.
pub open spec fn difference_fits(a: Amount, b: Amount) -> bool {
    fits_at_scale(a.units() - b.units(), common_scale(a, b))
}

/// The exact sum of two amounts is a decimal: it fits at their common scale, or it
/// is a decimal at that scale or a smaller one. `rust_decimal` computes it exactly.
pub open spec fn sum_exact(a: Amount, b: Amount) -> bool {
    sum_fits(a, b) || representable_within(a.units() + b.units(), common_scale(a, b))
}

/// The exact difference of two amounts is a decimal, as for `sum_exact`.
pub open spec fn difference_exact(a: Amount, b: Amount) -> bool {
    difference_fits(a, b) || representable_within(a.units() - b.units(), common_scale(a, b))
}

/// Every sum and difference that `step` takes of the command's client entry fits
/// at the common scale of its operands.
pub open spec fn arithmetic_fits(state: LedgerState, command: TransactionCommand) -> bool {
    let (account, history) = entry_or_default(state, command_client(command));
    match command {
        TransactionCommand::ProcessMovement { movement, .. } => match movement {
            Movement::Deposit(amount) => sum_fits(account.available, amount),
            Movement::Withdrawal(amount) => (!account.locked && amount.units()
                <= account.available.units()) ==> difference_fits(account.available, amount),
        },
        TransactionCommand::ProcessDispute { target_tx_id, action, .. } => history.contains_key(
            target_tx_id,
        ) ==> {
            let amount = history[target_tx_id].amount;
            let disputed = history[target_tx_id].disputed;
            match action {
                DisputeAction::Open => !disputed ==> {
                    &&& difference_fits(account.available, amount)
                    &&& sum_fits(account.held, amount)
                },
                DisputeAction::Resolve => disputed ==> {
                    &&& sum_fits(account.available, amount)
                    &&& difference_fits(account.held, amount)
                },
                DisputeAction::Chargeback => disputed ==> difference_fits(account.held, amount),
            }
        },
    }
}

/// A balance that became `new` by moving `moved` keeps its digits after the point:
/// together with those of `moved`, `new` has at least as many as `old` had (or
/// `old` was zero).
pub open spec fn keeps_scale(old: Amount, moved: Amount, new: Amount) -> bool {
    common_scale(new, moved) >= old.exponent() || old.digits() == 0
}

/// After the command, the available and held funds of its client keep their
/// digits after the point, in the sense of `keeps_scale`.
pub open spec fn scales_kept(before: LedgerState, command: TransactionCommand, after: LedgerState) -> bool {
    let client = command_client(command);
    let entry = entry_or_default(before, client);
    match command_amount(entry, command) {
        Some(amount) => {
            &&& keeps_scale(entry.0.available, amount, after[client].0.available)
            &&& keeps_scale(entry.0.held, amount, after[client].0.held)
        },
        None => true,
    }
}

/// Every sum and difference that `step` takes of the command's client entry is
/// exact: `rust_decimal` neither rounds nor overflows on it.
pub open spec fn arithmetic_exact(state: LedgerState, command: TransactionCommand) -> bool {
    let (account, history) = entry_or_default(state, command_client(command));
    match command {
        TransactionCommand::ProcessMovement { movement, .. } => match movement {
            Movement::Deposit(amount) => sum_exact(account.available, amount),
            Movement::Withdrawal(amount) => (!account.locked && amount.units()
                <= account.available.units()) ==> difference_exact(account.available, amount),
        },
        TransactionCommand::ProcessDispute { target_tx_id, action, .. } => history.contains_key(
            target_tx_id,
        ) ==> {
            let amount = history[target_tx_id].amount;
            let disputed = history[target_tx_id].disputed;
            match action {
                DisputeAction::Open => !disputed ==> {
                    &&& difference_exact(account.available, amount)
                    &&& sum_exact(account.held, amount)
                },
                DisputeAction::Resolve => disputed ==> {
                    &&& sum_exact(account.available, amount)
                    &&& difference_exact(account.held, amount)
                },
                DisputeAction::Chargeback => disputed ==> difference_exact(account.held, amount),
            }
        },
    }
}

/// Every amount of a client's entry is a valid decimal.
pub open spec fn entry_valid(entry: ClientEntry) -> bool {
    &&& entry.0.available.valid_decimal()
    &&& entry.0.held.valid_decimal()
    &&& forall|t: TransactionId| #[trigger] entry.1.contains_key(t) ==> entry.1[t].amount.valid_decimal()
}

/// Every amount that a ledger state holds is a valid decimal.
pub open spec fn ledger_valid(state: LedgerState) -> bool {
    forall|c: ClientId| #[trigger] state.contains_key(c) ==> entry_valid(state[c])
}

/// The amount that a command adds to or takes from its client's funds: that of the
/// movement, or that of the disputed transaction if the client has it.
pub open spec fn command_amount(entry: ClientEntry, command: TransactionCommand) -> Option<Amount> {
    match command {
        TransactionCommand::ProcessMovement { movement, .. } => match movement {
            Movement::Deposit(amount) => Some(amount),
            Movement::Withdrawal(amount) => Some(amount),
        },
        TransactionCommand::ProcessDispute { target_tx_id, .. } => {
            if entry.1.contains_key(target_tx_id) {
                Some(entry.1[target_tx_id].amount)
            } else {
                None
            }
        },
    }
}

/// After the command, the available and held funds of its client have no more
/// digits after the point than they had or the moved amount has; where nothing is
/// moved they stay as they were.
pub open spec fn scales_within(before: LedgerState, command: TransactionCommand, after: LedgerState) -> bool {
    let client = command_client(command);
    let entry = entry_or_default(before, client);
    let old_account = entry.0;
    let new_account = after[client].0;
    match command_amount(entry, command) {
        Some(amount) => {
            &&& new_account.available.exponent() <= common_scale(old_account.available, amount)
            &&& new_account.held.exponent() <= common_scale(old_account.held, amount)
        },
        None => {
            &&& new_account.available == old_account.available
            &&& new_account.held == old_account.held
        },
    }
}

// ---------------------------------------------------------------------------
// The model over values
// ---------------------------------------------------------------------------

/// A recorded transaction by value: its signed amount and whether it is disputed.
pub struct TransactionValue {
    pub amount: int,
    pub disputed: bool,
}

/// An account by value, with the client's history.
pub struct AccountValue {
    pub available: int,
    pub held: int,
    pub locked: bool,
    pub history: Map<TransactionId, TransactionValue>,
}

/// The ledger by value.
pub type LedgerValues = Map<ClientId, AccountValue>;

/// The value of a recorded transaction.
pub open spec fn transaction_value(tx: Transaction) -> TransactionValue {
    TransactionValue { amount: tx.amount.units(), disputed: tx.disputed }
}

/// The value of a client's entry.
pub open spec fn entry_value(entry: ClientEntry) -> AccountValue {
    AccountValue {
        available: entry.0.available.units(),
        held: entry.0.held.units(),
        locked: entry.0.locked,
        history: entry.1.map_values(|tx: Transaction| transaction_value(tx)),
    }
}

/// The value of a ledger state.
pub open spec fn value_of(state: LedgerState) -> LedgerValues {
    state.map_values(|entry: ClientEntry| entry_value(entry))
}

/// The value of a fresh account.
pub open spec fn default_account_value() -> AccountValue {
    AccountValue { available: 0, held: 0, locked: false, history: Map::empty() }
}

/// The account of a client by value, or a fresh one.
pub open spec fn account_value_or_default(values: LedgerValues, client: ClientId) -> AccountValue {
    if values.contains_key(client) {
        values[client]
    } else {
        default_account_value()
    }
}

/// The outcome of a command on a client's account, by value.
pub open spec fn value_outcome(account: AccountValue, command: TransactionCommand) -> Result<
    AccountValue,
    TransactionError,
> {
    match command {
        TransactionCommand::ProcessMovement { tx_id, client_id, movement } => match movement {
            Movement::Deposit(amount) => Ok(
                AccountValue {
                    available: account.available + amount.units(),
                    history: account.history.insert(
                        tx_id,
                        TransactionValue { amount: amount.units(), disputed: false },
                    ),
                    ..account
                },
            ),
            Movement::Withdrawal(amount) => {
                if account.locked {
                    Err(TransactionError::AccountLocked(client_id))
                } else if account.available < amount.units() {
                    Err(TransactionError::InsufficientFunds)
                } else {
                    Ok(
                        AccountValue {
                            available: account.available - amount.units(),
                            history: account.history.insert(
                                tx_id,
                                TransactionValue { amount: -amount.units(), disputed: false },
                            ),
                            ..account
                        },
                    )
                }
            },
        },
        TransactionCommand::ProcessDispute { target_tx_id, action, .. } => {
            if !account.history.contains_key(target_tx_id) {
                Err(TransactionError::TransactionNotFound(target_tx_id))
            } else {
                let tx = account.history[target_tx_id];
                match action {
                    DisputeAction::Open => {
                        if tx.disputed {
                            Err(TransactionError::TransactionAlreadyDisputed(target_tx_id))
                        } else {
                            Ok(
                                AccountValue {
                                    available: account.available - tx.amount,
                                    held: account.held + tx.amount,
                                    locked: account.locked,
                                    history: account.history.insert(
                                        target_tx_id,
                                        TransactionValue { amount: tx.amount, disputed: true },
                                    ),
                                },
                            )
                        }
                    },
                    DisputeAction::Resolve => {
                        if !tx.disputed {
                            Err(TransactionError::TransactionNotDisputed(target_tx_id))
                        } else {
                            Ok(
                                AccountValue {
                                    available: account.available + tx.amount,
                                    held: account.held - tx.amount,
                                    locked: account.locked,
                                    history: account.history.insert(
                                        target_tx_id,
                                        TransactionValue { amount: tx.amount, disputed: false },
                                    ),
                                },
                            )
                        }
                    },
                    DisputeAction::Chargeback => {
                        if !tx.disputed {
                            Err(TransactionError::TransactionNotDisputed(target_tx_id))
                        } else {
                            Ok(
                                AccountValue {
                                    available: account.available,
                                    held: account.held - tx.amount,
                                    locked: true,
                                    history: account.history.insert(
                                        target_tx_id,
                                        TransactionValue { amount: tx.amount, disputed: false },
                                    ),
                                },
                            )
                        }
                    },
                }
            }
        },
    }
}

/// What processing a command does to a ledger, by value and with exact arithmetic.
pub open spec fn value_step(values: LedgerValues, command: TransactionCommand) -> (
    LedgerValues,
    Result<(), TransactionError>,
) {
    let client = command_client(command);
    let account = account_value_or_default(values, client);
    match value_outcome(account, command) {
        Ok(new_account) => (values.insert(client, new_account), Ok(())),
        Err(e) => (values.insert(client, account), Err(e)),
    }
}

} // verus!

verus! {

/// Recording a transaction in a history records its value in the history's value.
pub proof fn lemma_history_value_insert(history: History, tx_id: TransactionId, tx: Transaction)
    ensures
        history.insert(tx_id, tx).map_values(|t: Transaction| transaction_value(t))
            == history.map_values(|t: Transaction| transaction_value(t)).insert(
            tx_id,
            transaction_value(tx),
        ),
{
    assert(history.insert(tx_id, tx).map_values(|t: Transaction| transaction_value(t))
        =~= history.map_values(|t: Transaction| transaction_value(t)).insert(
        tx_id,
        transaction_value(tx),
    ));
}

/// The value of a client's entry, fresh or not, is the client's account by value.
pub proof fn lemma_entry_value_or_default(state: LedgerState, client: ClientId)
    ensures
        entry_value(entry_or_default(state, client)) == account_value_or_default(
            value_of(state),
            client,
        ),
{
    if !state.contains_key(client) {
        crate::amount::lemma_zero_units();
        assert(Map::<TransactionId, Transaction>::empty().map_values(
            |t: Transaction| transaction_value(t),
        ) =~= Map::<TransactionId, TransactionValue>::empty());
    }
}

/// Where the new entry of a successful command has the value that the value model
/// gives, the two models agree on the whole ledger.
pub proof fn lemma_value_of_step(state: LedgerState, command: TransactionCommand)
    requires
        (match entry_outcome(entry_or_default(state, command_client(command)), command) {
            Ok(new_entry) => value_outcome(
                account_value_or_default(value_of(state), command_client(command)),
                command,
            ) == Ok::<AccountValue, TransactionError>(entry_value(new_entry)),
            Err(_) => true,
        }),
    ensures
        value_of(step(state, command).0) == value_step(value_of(state), command).0,
{
    let client = command_client(command);
    let entry = entry_or_default(state, client);
    lemma_entry_value_or_default(state, client);
    match entry_outcome(entry, command) {
        Ok(new_entry) => {
            assert(value_of(state.insert(client, new_entry)) =~= value_of(state).insert(
                client,
                entry_value(new_entry),
            ));
        },
        Err(e) => {
            assert(value_of(state.insert(client, entry)) =~= value_of(state).insert(
                client,
                entry_value(entry),
            ));
        },
    }
}

} // verus!
