//! What holds of every command that a ledger processes.
use vstd::prelude::*;

use crate::ledger::{ClientId, DisputeAction, Movement, TransactionCommand, TransactionId};
use crate::records::{record_command, TransactionRecord};
use crate::amount::{
    common_scale, lemma_representable_at_own_scale, lemma_zero_digits_units, lemma_zero_representable, representable_at,
    representable_within,
};
use crate::model::{
    account_value_or_default, arithmetic_exact, arithmetic_fits, command_client, entry_or_default,
    ledger_valid, scales_kept, step, value_of, value_step, AccountValue, LedgerState, LedgerValues,
    TransactionValue,
};

verus! {

/// A chargeback locks an account for good: no command unlocks it.
pub proof fn lemma_locked_stays_locked(state: LedgerState, command: TransactionCommand, client: ClientId)
    requires
        state.contains_key(client),
        state[client].0.locked,
    ensures
        step(state, command).0.contains_key(client),
        step(state, command).0[client].0.locked,
{
}

/// A command only ever touches the entry of its own client, and registers that
/// client if the ledger did not know it.
pub proof fn lemma_other_clients_untouched(state: LedgerState, command: TransactionCommand, other: ClientId)
    requires
        other != command_client(command),
    ensures
        step(state, command).0.dom() == state.dom().insert(command_client(command)),
        step(state, command).0.contains_key(other) == state.contains_key(other),
        state.contains_key(other) ==> step(state, command).0[other] == state[other],
{
}

/// A refused command changes nothing, but for registering its client with a fresh
/// account if the ledger did not know it.
pub proof fn lemma_refusal_changes_nothing(state: LedgerState, command: TransactionCommand)
    requires
        step(state, command).1 is Err,
    ensures
        step(state, command).0 == state.insert(
            command_client(command),
            entry_or_default(state, command_client(command)),
        ),
        state.contains_key(command_client(command)) ==> step(state, command).0 == state,
{
    if state.contains_key(command_client(command)) {
        assert(state.insert(command_client(command), state[command_client(command)]) =~= state);
    }
}

/// The available plus held funds of an account.
pub open spec fn total_funds(account: AccountValue) -> int {
    account.available + account.held
}

/// How a successful command changes the total funds of its client: deposits add
/// their amount, withdrawals take theirs away, opening and resolving a dispute only
/// move funds between available and held, and a chargeback takes the disputed
/// amount away.
pub open spec fn total_funds_change(account: AccountValue, command: TransactionCommand) -> int {
    match command {
        TransactionCommand::ProcessMovement { movement, .. } => match movement {
            Movement::Deposit(amount) => amount.units(),
            Movement::Withdrawal(amount) => -amount.units(),
        },
        TransactionCommand::ProcessDispute { target_tx_id, action, .. } => match action {
            DisputeAction::Chargeback => -account.history[target_tx_id].amount,
            _ => 0,
        },
    }
}

/// The total funds of an account change by exactly what the command moves in or out.
pub proof fn lemma_total_funds(values: LedgerValues, command: TransactionCommand)
    requires
        value_step(values, command).1 is Ok,
    ensures
        ({
            let client = command_client(command);
            let before = account_value_or_default(values, client);
            total_funds(value_step(values, command).0[client]) == total_funds(before)
                + total_funds_change(before, command)
        }),
{
}

/// A successful withdrawal never takes the available funds below zero.
pub proof fn lemma_withdrawal_leaves_funds(
    values: LedgerValues,
    tx_id: TransactionId,
    client_id: ClientId,
    amount: crate::amount::Amount,
)
    requires
        value_step(
            values,
            TransactionCommand::ProcessMovement {
                tx_id,
                client_id,
                movement: Movement::Withdrawal(amount),
            },
        ).1 is Ok,
    ensures
        value_step(
            values,
            TransactionCommand::ProcessMovement {
                tx_id,
                client_id,
                movement: Movement::Withdrawal(amount),
            },
        ).0[client_id].available >= 0,
{
}

/// Resolving a dispute right after opening it gives back the ledger as it was.
pub proof fn lemma_resolve_undoes_open(values: LedgerValues, client_id: ClientId, tx_id: TransactionId)
    requires
        value_step(
            values,
            TransactionCommand::ProcessDispute {
                target_tx_id: tx_id,
                client_id,
                action: DisputeAction::Open,
            },
        ).1 is Ok,
    ensures
        ({
            let opened = value_step(
                values,
                TransactionCommand::ProcessDispute {
                    target_tx_id: tx_id,
                    client_id,
                    action: DisputeAction::Open,
                },
            ).0;
            value_step(
                opened,
                TransactionCommand::ProcessDispute {
                    target_tx_id: tx_id,
                    client_id,
                    action: DisputeAction::Resolve,
                },
            ) == (values, Ok::<(), crate::ledger::TransactionError>(()))
        }),
{
    let account = values[client_id];
    let tx = account.history[tx_id];
    assert(account.history.insert(tx_id, TransactionValue { amount: tx.amount, disputed: true }).insert(
        tx_id,
        TransactionValue { amount: tx.amount, disputed: false },
    ) =~= account.history);
    let opened = value_step(
        values,
        TransactionCommand::ProcessDispute {
            target_tx_id: tx_id,
            client_id,
            action: DisputeAction::Open,
        },
    ).0;
    let resolved = value_step(
        opened,
        TransactionCommand::ProcessDispute {
            target_tx_id: tx_id,
            client_id,
            action: DisputeAction::Resolve,
        },
    ).0;
    assert(resolved[client_id] == account);
    assert(resolved =~= values);
}

/// The amount that a history holds in dispute under the transaction id `tx_id`
/// (zero where there is no such transaction or it is not disputed).
pub open spec fn disputed_amount(history: Map<TransactionId, TransactionValue>, tx_id: int) -> int {
    if 0 <= tx_id <= u32::MAX && history.contains_key(tx_id as u32) && history[tx_id as u32].disputed {
        history[tx_id as u32].amount
    } else {
        0
    }
}

/// The amounts in dispute under the transaction ids below `n`.
pub open spec fn disputed_below(history: Map<TransactionId, TransactionValue>, n: nat) -> int
    decreases n,
{
    if n == 0 {
        0
    } else {
        disputed_below(history, (n - 1) as nat) + disputed_amount(history, n - 1)
    }
}

/// All the amounts that a history holds in dispute.
pub open spec fn disputed_total(history: Map<TransactionId, TransactionValue>) -> int {
    disputed_below(history, 0x1_0000_0000)
}

/// Every account holds exactly the amounts of its disputed transactions.
pub open spec fn held_matches_disputes(values: LedgerValues) -> bool {
    forall|c: ClientId|
        #[trigger] values.contains_key(c) ==> values[c].held == disputed_total(values[c].history)
}

/// A deposit or withdrawal records its transaction under an id that its client
/// has in dispute, which drops that dispute from the history.
pub open spec fn overwrites_disputed(values: LedgerValues, command: TransactionCommand) -> bool {
    match command {
        TransactionCommand::ProcessMovement { tx_id, client_id, .. } => {
            let history = account_value_or_default(values, client_id).history;
            history.contains_key(tx_id) && history[tx_id].disputed
        },
        TransactionCommand::ProcessDispute { .. } => false,
    }
}

/// An empty history has nothing in dispute.
proof fn lemma_disputed_below_empty(n: nat)
    ensures
        disputed_below(Map::<TransactionId, TransactionValue>::empty(), n) == 0,
    decreases n,
{
    if n > 0 {
        lemma_disputed_below_empty((n - 1) as nat);
    }
}

/// Recording a transaction changes the disputed total by the change at its id.
proof fn lemma_disputed_below_insert(
    history: Map<TransactionId, TransactionValue>,
    tx_id: TransactionId,
    tx: TransactionValue,
    n: nat,
)
    ensures
        disputed_below(history.insert(tx_id, tx), n) == disputed_below(history, n) + if tx_id < n {
            disputed_amount(history.insert(tx_id, tx), tx_id as int) - disputed_amount(
                history,
                tx_id as int,
            )
        } else {
            0
        },
    decreases n,
{
    if n > 0 {
        lemma_disputed_below_insert(history, tx_id, tx, (n - 1) as nat);
        if n - 1 != tx_id {
            assert(disputed_amount(history.insert(tx_id, tx), n - 1) == disputed_amount(history, n - 1));
        }
    }
}

/// Every command keeps each account's held funds equal to the amounts of its
/// disputed transactions, unless a deposit or withdrawal reuses the id of a
/// disputed transaction.
pub proof fn lemma_held_matches_disputes(values: LedgerValues, command: TransactionCommand)
    requires
        held_matches_disputes(values),
        !overwrites_disputed(values, command),
    ensures
        held_matches_disputes(value_step(values, command).0),
{
    let client = command_client(command);
    let account = account_value_or_default(values, client);
    if !values.contains_key(client) {
        lemma_disputed_below_empty(0x1_0000_0000);
    }
    assert(account.held == disputed_total(account.history));
    let after = value_step(values, command).0;
    match command {
        TransactionCommand::ProcessMovement { tx_id, movement, .. } => {
            let recorded = match movement {
                Movement::Deposit(amount) => TransactionValue { amount: amount.units(), disputed: false },
                Movement::Withdrawal(amount) => TransactionValue { amount: -amount.units(), disputed: false },
            };
            lemma_disputed_below_insert(account.history, tx_id, recorded, 0x1_0000_0000);
        },
        TransactionCommand::ProcessDispute { target_tx_id, action, .. } => {
            if account.history.contains_key(target_tx_id) {
                let tx = account.history[target_tx_id];
                lemma_disputed_below_insert(
                    account.history,
                    target_tx_id,
                    TransactionValue { amount: tx.amount, disputed: true },
                    0x1_0000_0000,
                );
                lemma_disputed_below_insert(
                    account.history,
                    target_tx_id,
                    TransactionValue { amount: tx.amount, disputed: false },
                    0x1_0000_0000,
                );
            }
        },
    }
    assert forall|c: ClientId| #[trigger] after.contains_key(c) implies after[c].held == disputed_total(
        after[c].history,
    ) by {
        if c != client {
            assert(values.contains_key(c));
        }
    }
}

/// Opening a dispute whose sums fit at the common scale of their operands, then
/// resolving it: the resolution is exact (so `process_transaction` accepts it and
/// its values follow `value_step`), it succeeds, and it gives back the ledger's
/// values as they were before the dispute. `after` is what `process_transaction`
/// leaves after the opening, as its `ensures` describe it.
pub proof fn lemma_resolve_after_open_is_exact(
    before: LedgerState,
    after: LedgerState,
    client_id: ClientId,
    tx_id: TransactionId,
)
    requires
        ledger_valid(before),
        step(
            before,
            TransactionCommand::ProcessDispute { target_tx_id: tx_id, client_id, action: DisputeAction::Open },
        ) == (after, Ok::<(), crate::ledger::TransactionError>(())),
        arithmetic_fits(
            before,
            TransactionCommand::ProcessDispute { target_tx_id: tx_id, client_id, action: DisputeAction::Open },
        ),
        value_of(after) == value_step(
            value_of(before),
            TransactionCommand::ProcessDispute { target_tx_id: tx_id, client_id, action: DisputeAction::Open },
        ).0,
        scales_kept(
            before,
            TransactionCommand::ProcessDispute { target_tx_id: tx_id, client_id, action: DisputeAction::Open },
            after,
        ),
    ensures
        arithmetic_exact(
            after,
            TransactionCommand::ProcessDispute {
                target_tx_id: tx_id,
                client_id,
                action: DisputeAction::Resolve,
            },
        ),
        value_step(
            value_of(after),
            TransactionCommand::ProcessDispute {
                target_tx_id: tx_id,
                client_id,
                action: DisputeAction::Resolve,
            },
        ) == (value_of(before), Ok::<(), crate::ledger::TransactionError>(())),
{
    let (account, history) = entry_or_default(before, client_id);
    let amount = history[tx_id].amount;
    let new_account = after[client_id].0;
    assert(value_of(before).contains_key(client_id));
    assert(value_of(after).contains_key(client_id));
    assert(value_of(after)[client_id].available == new_account.available.units());
    assert(value_of(before)[client_id].available == account.available.units());
    assert(value_of(after)[client_id].held == new_account.held.units());
    assert(value_of(before)[client_id].held == account.held.units());
    assert(history.contains_key(tx_id));
    assert(account.available.valid_decimal() && account.held.valid_decimal());
    assert(amount.valid_decimal());
    assert(after[client_id].1[tx_id].amount == amount);
    // the available funds come back to a decimal at their own scale, or to zero
    if account.available.digits() == 0 {
        lemma_zero_representable(0);
        lemma_zero_digits_units(account.available);
        assert(representable_at(new_account.available.units() + amount.units(), 0));
    } else {
        lemma_representable_at_own_scale(account.available);
        assert(representable_at(new_account.available.units() + amount.units(), account.available.exponent()));
    }
    assert(representable_within(
        new_account.available.units() + amount.units(),
        common_scale(new_account.available, amount),
    ));
    // so do the held funds
    if account.held.digits() == 0 {
        lemma_zero_representable(0);
        lemma_zero_digits_units(account.held);
        assert(representable_at(new_account.held.units() - amount.units(), 0));
    } else {
        lemma_representable_at_own_scale(account.held);
        assert(representable_at(new_account.held.units() - amount.units(), account.held.exponent()));
    }
    assert(representable_within(
        new_account.held.units() - amount.units(),
        common_scale(new_account.held, amount),
    ));
    lemma_resolve_undoes_open(value_of(before), client_id, tx_id);
}

/// The account report lists every client of the ledger exactly once, in strictly
/// increasing order of client id, and each record carries that client's available
/// funds, held funds and lock as the ledger holds them, with their total as
/// `rust_decimal` adds them.
pub proof fn lemma_report_lists_accounts(state: LedgerState, records: Seq<crate::records::AccountRecord>)
    requires
        crate::records::lists_accounts(state, records),
    ensures
        records.len() == state.len(),
        forall|i: int|
            0 <= i < records.len() ==> {
                let account = #[trigger] state[records[i].id].0;
                &&& state.contains_key(records[i].id)
                &&& records[i].available == account.available
                &&& records[i].held == account.held
                &&& records[i].locked == account.locked
                &&& records[i].total == crate::amount::decimal_sum(account.available, account.held).unwrap()
            },
        forall|i: int, j: int| 0 <= i < j < records.len() ==> records[i].id < records[j].id,
        forall|i: int, j: int| 0 <= i < records.len() && 0 <= j < records.len() && i != j ==> records[i].id != records[j].id,
        forall|c: ClientId| state.contains_key(c) ==> exists|i: int| 0 <= i < records.len() && #[trigger] records[i].id == c,
{
    assert forall|i: int, j: int| 0 <= i < records.len() && 0 <= j < records.len() && i != j implies records[i].id
        != records[j].id by {
        if i < j {
            assert(records[i].id < records[j].id);
        } else {
            assert(records[j].id < records[i].id);
        }
    }
}

/// Every record makes the command of its own kind, for its own client and
/// transaction id: a deposit or withdrawal record with an amount makes that
/// movement of that amount, and without one makes no command; a dispute record
/// opens a dispute, a resolve record resolves one, a chargeback record charges back.
pub proof fn lemma_record_makes_command_of_its_kind(record: TransactionRecord)
    ensures
        (record_command(record) is Err) == (record.amount is None && (record.tx_type is Deposit
            || record.tx_type is Withdrawal)),
        (record_command(record) matches Ok(command) ==> command_client(command) == record.client_id),
        (record.tx_type is Deposit && record.amount is Some ==> (record_command(record) matches Ok(
            TransactionCommand::ProcessMovement { tx_id, movement: Movement::Deposit(amount), .. },
        ) && tx_id == record.tx_id && record.amount == Some(amount))),
        (record.tx_type is Withdrawal && record.amount is Some ==> (record_command(record) matches Ok(
            TransactionCommand::ProcessMovement { tx_id, movement: Movement::Withdrawal(amount), .. },
        ) && tx_id == record.tx_id && record.amount == Some(amount))),
        (record.tx_type is Dispute ==> (record_command(record) matches Ok(
            TransactionCommand::ProcessDispute { target_tx_id, action: DisputeAction::Open, .. },
        ) && target_tx_id == record.tx_id)),
        (record.tx_type is Resolve ==> (record_command(record) matches Ok(
            TransactionCommand::ProcessDispute { target_tx_id, action: DisputeAction::Resolve, .. },
        ) && target_tx_id == record.tx_id)),
        (record.tx_type is Chargeback ==> (record_command(record) matches Ok(
            TransactionCommand::ProcessDispute { target_tx_id, action: DisputeAction::Chargeback, .. },
        ) && target_tx_id == record.tx_id)),
{
}

} // verus!
