//! What a ledger holds after a whole sequence of commands.
use vstd::prelude::*;

use crate::ledger::{ClientId, DisputeAction, Movement, Transaction, TransactionCommand, TransactionId};
use crate::model::{command_client, entry_or_default, step, LedgerState};
use crate::records::{record_command, run, TransactionRecord};

verus! {

/// The ledger after processing the commands in order, from `state`.
pub open spec fn run_commands(state: LedgerState, commands: Seq<TransactionCommand>) -> LedgerState
    decreases commands.len(),
{
    if commands.len() == 0 {
        state
    } else {
        step(run_commands(state, commands.drop_last()), commands.last()).0
    }
}

/// The command at index `i` succeeds when processed after the ones before it.
#[verifier::opaque]
pub open spec fn succeeds(state: LedgerState, commands: Seq<TransactionCommand>, i: int) -> bool {
    step(run_commands(state, commands.take(i)), commands[i]).1 is Ok
}

/// The command is a deposit or withdrawal of the client under the transaction id.
pub open spec fn moves(command: TransactionCommand, client: ClientId, tx: TransactionId) -> bool {
    command matches TransactionCommand::ProcessMovement { tx_id, client_id, .. } && tx_id == tx
        && client_id == client
}

/// The command is the given dispute action of the client on the transaction id.
pub open spec fn disputes(
    command: TransactionCommand,
    client: ClientId,
    tx: TransactionId,
    action: DisputeAction,
) -> bool {
    command matches TransactionCommand::ProcessDispute { target_tx_id, client_id, action: a }
        && target_tx_id == tx && client_id == client && a == action
}

/// The transaction that a movement records: its amount, negated for a withdrawal,
/// not disputed.
pub open spec fn recorded_transaction(command: TransactionCommand) -> Transaction {
    match command {
        TransactionCommand::ProcessMovement { movement, .. } => match movement {
            Movement::Deposit(amount) => Transaction { amount, disputed: false },
            Movement::Withdrawal(amount) => Transaction { amount: amount.negated(), disputed: false },
        },
        TransactionCommand::ProcessDispute { .. } => Transaction {
            amount: crate::amount::Amount::zero_spec(),
            disputed: false,
        },
    }
}

/// Some command moved funds of the client under the transaction id, successfully.
pub open spec fn recorded(
    state: LedgerState,
    commands: Seq<TransactionCommand>,
    client: ClientId,
    tx: TransactionId,
) -> bool {
    exists|i: int|
        0 <= i < commands.len() && #[trigger] moves(commands[i], client, tx) && succeeds(state, commands, i)
}

/// The command at index `i` is the last successful movement of the client under
/// the transaction id.
pub open spec fn last_movement(
    state: LedgerState,
    commands: Seq<TransactionCommand>,
    client: ClientId,
    tx: TransactionId,
    i: int,
) -> bool {
    &&& 0 <= i < commands.len()
    &&& moves(commands[i], client, tx)
    &&& succeeds(state, commands, i)
    &&& forall|k: int|
        i < k < commands.len() && #[trigger] moves(commands[k], client, tx) ==> !succeeds(state, commands, k)
}

/// After index `i`, a dispute of the client on the transaction id was opened
/// successfully and not resolved or charged back since.
pub open spec fn left_open(
    state: LedgerState,
    commands: Seq<TransactionCommand>,
    client: ClientId,
    tx: TransactionId,
    i: int,
) -> bool {
    exists|j: int|
        #![trigger commands[j]]
        i < j < commands.len() && disputes(commands[j], client, tx, DisputeAction::Open) && succeeds(
            state,
            commands,
            j,
        ) && forall|k: int|
            #![trigger commands[k]]
            j < k < commands.len() && succeeds(state, commands, k) ==> !disputes(
                commands[k],
                client,
                tx,
                DisputeAction::Resolve,
            ) && !disputes(commands[k], client, tx, DisputeAction::Chargeback)
}

/// Success of an earlier command does not depend on the commands after it.
proof fn lemma_succeeds_prefix(state: LedgerState, commands: Seq<TransactionCommand>, i: int)
    requires
        0 <= i < commands.len() - 1,
    ensures
        succeeds(state, commands.drop_last(), i) == succeeds(state, commands, i),
        commands.drop_last()[i] == commands[i],
{
    reveal(succeeds);
    assert(commands.drop_last().take(i) =~= commands.take(i));
}

/// The ledger before the last command is the ledger after the ones before it.
proof fn lemma_run_last(state: LedgerState, commands: Seq<TransactionCommand>)
    requires
        commands.len() > 0,
    ensures
        run_commands(state, commands.take(commands.len() - 1)) == run_commands(state, commands.drop_last()),
{
    assert(commands.take(commands.len() - 1) =~= commands.drop_last());
}

/// `history` holds, under the transaction id, what the commands recorded for the
/// client: an entry exactly when a movement under that id succeeded; the last such
/// movement; disputed exactly when a dispute on it was opened after that movement
/// and not resolved or charged back since.
pub open spec fn history_matches(
    state: LedgerState,
    commands: Seq<TransactionCommand>,
    client: ClientId,
    tx: TransactionId,
    history: Map<TransactionId, Transaction>,
) -> bool {
    &&& history.contains_key(tx) <==> recorded(state, commands, client, tx)
    &&& forall|i: int|
        #[trigger] last_movement(state, commands, client, tx, i) ==> {
            &&& history[tx].amount == recorded_transaction(commands[i]).amount
            &&& history[tx].disputed <==> left_open(state, commands, client, tx, i)
        }
}

/// What one command does to the history of a client under a transaction id.
proof fn lemma_step_history(state: LedgerState, command: TransactionCommand, client: ClientId, tx: TransactionId)
    ensures
        ({
            let h0 = entry_or_default(state, client).1;
            let h = entry_or_default(step(state, command).0, client).1;
            let ok = step(state, command).1 is Ok;
            let disputing = disputes(command, client, tx, DisputeAction::Open) || disputes(
                command,
                client,
                tx,
                DisputeAction::Resolve,
            ) || disputes(command, client, tx, DisputeAction::Chargeback);
            &&& moves(command, client, tx) && ok ==> h.contains_key(tx) && h[tx] == recorded_transaction(command)
            &&& disputing && ok ==> h0.contains_key(tx) && h.contains_key(tx) && h[tx].amount == h0[tx].amount
                && h[tx].disputed == disputes(command, client, tx, DisputeAction::Open)
            &&& !((moves(command, client, tx) || disputing) && ok) ==> (h.contains_key(tx) == h0.contains_key(tx))
                && (h0.contains_key(tx) ==> h[tx] == h0[tx])
        }),
{
}

/// The last command of the sequence is a successful movement under the id.
#[verifier::rlimit(40)]
proof fn lemma_history_case_movement(
    state: LedgerState,
    commands: Seq<TransactionCommand>,
    client: ClientId,
    tx: TransactionId,
    history: Map<TransactionId, Transaction>,
)
    requires
        commands.len() > 0,
        moves(commands.last(), client, tx),
        succeeds(state, commands, commands.len() - 1),
        history.contains_key(tx),
        history[tx] == recorded_transaction(commands.last()),
    ensures
        history_matches(state, commands, client, tx, history),
{
    let n = commands.len() - 1;
    assert(moves(commands[n], client, tx));
    assert forall|i: int| #[trigger] last_movement(state, commands, client, tx, i) implies {
        &&& history[tx].amount == recorded_transaction(commands[i]).amount
        &&& history[tx].disputed <==> left_open(state, commands, client, tx, i)
    } by {
        if i < n {
            assert(moves(commands[n], client, tx));
        }
    }
}

/// Facts about the commands before the last one.
proof fn lemma_prefix_facts(state: LedgerState, commands: Seq<TransactionCommand>)
    requires
        commands.len() > 0,
    ensures
        forall|i: int|
            0 <= i < commands.len() - 1 ==> #[trigger] succeeds(state, commands.drop_last(), i) == succeeds(
                state,
                commands,
                i,
            ) && commands.drop_last()[i] == commands[i],
{
    assert forall|i: int| 0 <= i < commands.len() - 1 implies #[trigger] succeeds(state, commands.drop_last(), i)
        == succeeds(state, commands, i) && commands.drop_last()[i] == commands[i] by {
        lemma_succeeds_prefix(state, commands, i);
    }
}

/// A last movement in the whole sequence that is not its last command is the last
/// movement of the commands before the last one.
proof fn lemma_last_movement_prefix(
    state: LedgerState,
    commands: Seq<TransactionCommand>,
    client: ClientId,
    tx: TransactionId,
    i: int,
)
    requires
        commands.len() > 0,
        last_movement(state, commands, client, tx, i),
        i < commands.len() - 1,
    ensures
        last_movement(state, commands.drop_last(), client, tx, i),
{
    let prefix = commands.drop_last();
    lemma_prefix_facts(state, commands);
    assert forall|k: int| i < k < prefix.len() && #[trigger] moves(prefix[k], client, tx) implies !succeeds(
        state,
        prefix,
        k,
    ) by {
        assert(moves(commands[k], client, tx));
    }
}

/// The last command of the sequence is a successful dispute action under the id.
#[verifier::rlimit(40)]
proof fn lemma_history_case_dispute(
    state: LedgerState,
    commands: Seq<TransactionCommand>,
    client: ClientId,
    tx: TransactionId,
    h0: Map<TransactionId, Transaction>,
    history: Map<TransactionId, Transaction>,
)
    requires
        commands.len() > 0,
        history_matches(state, commands.drop_last(), client, tx, h0),
        disputes(commands.last(), client, tx, DisputeAction::Open) || disputes(
            commands.last(),
            client,
            tx,
            DisputeAction::Resolve,
        ) || disputes(commands.last(), client, tx, DisputeAction::Chargeback),
        succeeds(state, commands, commands.len() - 1),
        h0.contains_key(tx),
        history.contains_key(tx),
        history[tx].amount == h0[tx].amount,
        history[tx].disputed == disputes(commands.last(), client, tx, DisputeAction::Open),
    ensures
        history_matches(state, commands, client, tx, history),
{
    let n = commands.len() - 1;
    let prefix = commands.drop_last();
    lemma_prefix_facts(state, commands);
    assert(!moves(commands[n], client, tx));
    let w = choose|w: int| 0 <= w < prefix.len() && #[trigger] moves(prefix[w], client, tx) && succeeds(state, prefix, w);
    assert(moves(commands[w], client, tx));
    assert forall|i: int| #[trigger] last_movement(state, commands, client, tx, i) implies {
        &&& history[tx].amount == recorded_transaction(commands[i]).amount
        &&& history[tx].disputed <==> left_open(state, commands, client, tx, i)
    } by {
        lemma_last_movement_prefix(state, commands, client, tx, i);
        if disputes(commands[n], client, tx, DisputeAction::Open) {
            assert(left_open(state, commands, client, tx, i)) by {
                assert(disputes(commands[n], client, tx, DisputeAction::Open));
            }
        } else if left_open(state, commands, client, tx, i) {
            let j = choose|j: int|
                #![trigger commands[j]]
                i < j < commands.len() && disputes(commands[j], client, tx, DisputeAction::Open) && succeeds(
                    state,
                    commands,
                    j,
                ) && forall|k: int|
                    #![trigger commands[k]]
                    j < k < commands.len() && succeeds(state, commands, k) ==> !disputes(
                        commands[k],
                        client,
                        tx,
                        DisputeAction::Resolve,
                    ) && !disputes(commands[k], client, tx, DisputeAction::Chargeback);
            assert(j != n);
            assert(commands[n] == commands.last());
        }
    }
}

/// Where the last command is no successful dispute on the id, whether a dispute on
/// it is left open after an earlier index is decided by the commands before it.
#[verifier::rlimit(40)]
proof fn lemma_left_open_prefix(
    state: LedgerState,
    commands: Seq<TransactionCommand>,
    client: ClientId,
    tx: TransactionId,
    i: int,
)
    requires
        commands.len() > 0,
        0 <= i < commands.len() - 1,
        !((disputes(commands.last(), client, tx, DisputeAction::Open) || disputes(
            commands.last(),
            client,
            tx,
            DisputeAction::Resolve,
        ) || disputes(commands.last(), client, tx, DisputeAction::Chargeback)) && succeeds(
            state,
            commands,
            commands.len() - 1,
        )),
    ensures
        left_open(state, commands, client, tx, i) == left_open(state, commands.drop_last(), client, tx, i),
{
    let n = commands.len() - 1;
    let prefix = commands.drop_last();
    lemma_prefix_facts(state, commands);
    assert(commands[n] == commands.last());
    if left_open(state, commands, client, tx, i) {
        let j = choose|j: int|
            #![trigger commands[j]]
            i < j < commands.len() && disputes(commands[j], client, tx, DisputeAction::Open) && succeeds(
                state,
                commands,
                j,
            ) && forall|k: int|
                #![trigger commands[k]]
                j < k < commands.len() && succeeds(state, commands, k) ==> !disputes(
                    commands[k],
                    client,
                    tx,
                    DisputeAction::Resolve,
                ) && !disputes(commands[k], client, tx, DisputeAction::Chargeback);
        assert(j < n);
        assert(prefix[j] == commands[j]);
        assert forall|k: int|
            #![trigger prefix[k]]
            j < k < prefix.len() && succeeds(state, prefix, k) implies !disputes(
                prefix[k],
                client,
                tx,
                DisputeAction::Resolve,
            ) && !disputes(prefix[k], client, tx, DisputeAction::Chargeback) by {
            assert(commands[k] == prefix[k]);
        }
        assert(left_open(state, prefix, client, tx, i));
    }
    if left_open(state, prefix, client, tx, i) {
        let j = choose|j: int|
            #![trigger prefix[j]]
            i < j < prefix.len() && disputes(prefix[j], client, tx, DisputeAction::Open) && succeeds(
                state,
                prefix,
                j,
            ) && forall|k: int|
                #![trigger prefix[k]]
                j < k < prefix.len() && succeeds(state, prefix, k) ==> !disputes(
                    prefix[k],
                    client,
                    tx,
                    DisputeAction::Resolve,
                ) && !disputes(prefix[k], client, tx, DisputeAction::Chargeback);
        assert(commands[j] == prefix[j]);
        assert forall|k: int|
            #![trigger commands[k]]
            j < k < commands.len() && succeeds(state, commands, k) implies !disputes(
                commands[k],
                client,
                tx,
                DisputeAction::Resolve,
            ) && !disputes(commands[k], client, tx, DisputeAction::Chargeback) by {
            if k < n {
                assert(commands[k] == prefix[k]);
            }
        }
        assert(left_open(state, commands, client, tx, i));
    }
}

/// Where the last command is no successful movement under the id, a movement under
/// it is recorded exactly when one before the last command is.
#[verifier::rlimit(40)]
proof fn lemma_recorded_prefix(
    state: LedgerState,
    commands: Seq<TransactionCommand>,
    client: ClientId,
    tx: TransactionId,
)
    requires
        commands.len() > 0,
        !(moves(commands.last(), client, tx) && succeeds(state, commands, commands.len() - 1)),
    ensures
        recorded(state, commands, client, tx) == recorded(state, commands.drop_last(), client, tx),
{
    let n = commands.len() - 1;
    let prefix = commands.drop_last();
    lemma_prefix_facts(state, commands);
    assert(commands[n] == commands.last());
    if recorded(state, commands, client, tx) {
        let w = choose|w: int| 0 <= w < commands.len() && #[trigger] moves(commands[w], client, tx) && succeeds(state, commands, w);
        assert(w < n);
        assert(moves(prefix[w], client, tx));
    }
    if recorded(state, prefix, client, tx) {
        let w = choose|w: int| 0 <= w < prefix.len() && #[trigger] moves(prefix[w], client, tx) && succeeds(state, prefix, w);
        assert(moves(commands[w], client, tx));
    }
}

/// The last command of the sequence leaves the history under the id alone.
#[verifier::rlimit(40)]
proof fn lemma_history_case_other(
    state: LedgerState,
    commands: Seq<TransactionCommand>,
    client: ClientId,
    tx: TransactionId,
    h0: Map<TransactionId, Transaction>,
    history: Map<TransactionId, Transaction>,
)
    requires
        commands.len() > 0,
        history_matches(state, commands.drop_last(), client, tx, h0),
        !((moves(commands.last(), client, tx) || disputes(commands.last(), client, tx, DisputeAction::Open)
            || disputes(commands.last(), client, tx, DisputeAction::Resolve) || disputes(
            commands.last(),
            client,
            tx,
            DisputeAction::Chargeback,
        )) && succeeds(state, commands, commands.len() - 1)),
        history.contains_key(tx) == h0.contains_key(tx),
        h0.contains_key(tx) ==> history[tx] == h0[tx],
    ensures
        history_matches(state, commands, client, tx, history),
{
    let n = commands.len() - 1;
    let prefix = commands.drop_last();
    lemma_recorded_prefix(state, commands, client, tx);
    assert forall|i: int| #[trigger] last_movement(state, commands, client, tx, i) implies {
        &&& history[tx].amount == recorded_transaction(commands[i]).amount
        &&& history[tx].disputed <==> left_open(state, commands, client, tx, i)
    } by {
        assert(commands[n] == commands.last());
        assert(i < n);
        lemma_last_movement_prefix(state, commands, client, tx, i);
        lemma_prefix_facts(state, commands);
        assert(moves(prefix[i], client, tx));
        lemma_left_open_prefix(state, commands, client, tx, i);
    }
}

/// The history that a ledger holds for a client after a sequence of commands from
/// the empty ledger: a transaction id is recorded exactly when a movement of the
/// client under that id succeeded; it holds the last such movement (its amount,
/// negated for a withdrawal), and it is disputed exactly when, after that
/// movement, a dispute on it was opened and not resolved or charged back since.
pub proof fn lemma_history_after_commands(
    commands: Seq<TransactionCommand>,
    client: ClientId,
    tx: TransactionId,
)
    ensures
        history_matches(
            Map::empty(),
            commands,
            client,
            tx,
            entry_or_default(run_commands(Map::empty(), commands), client).1,
        ),
    decreases commands.len(),
{
    let empty = Map::<ClientId, (crate::ledger::ClientAccount, Map<TransactionId, Transaction>)>::empty();
    if commands.len() == 0 {
        assert(entry_or_default(empty, client).1 =~= Map::<TransactionId, Transaction>::empty());
        return;
    }
    let n = commands.len() - 1;
    let prefix = commands.drop_last();
    lemma_history_after_commands(prefix, client, tx);
    lemma_run_last(empty, commands);
    let before = run_commands(empty, prefix);
    let h0 = entry_or_default(before, client).1;
    let h = entry_or_default(run_commands(empty, commands), client).1;
    assert(commands[n] == commands.last());
    assert(succeeds(empty, commands, n) == (step(before, commands.last()).1 is Ok)) by {
        reveal(succeeds);
    }
    lemma_step_history(before, commands.last(), client, tx);
    if moves(commands.last(), client, tx) && succeeds(empty, commands, n) {
        lemma_history_case_movement(empty, commands, client, tx, h);
    } else if (disputes(commands.last(), client, tx, DisputeAction::Open) || disputes(
        commands.last(),
        client,
        tx,
        DisputeAction::Resolve,
    ) || disputes(commands.last(), client, tx, DisputeAction::Chargeback)) && succeeds(empty, commands, n) {
        lemma_history_case_dispute(empty, commands, client, tx, h0, h);
    } else {
        lemma_history_case_other(empty, commands, client, tx, h0, h);
    }
}

/// The clients a ledger knows after a sequence of commands: those it knew and
/// every client that a command names, whether the command succeeded or not.
pub proof fn lemma_clients_after_commands(state: LedgerState, commands: Seq<TransactionCommand>)
    ensures
        run_commands(state, commands).dom() == state.dom().union(
            Set::new(|c: ClientId| exists|i: int| 0 <= i < commands.len() && #[trigger] command_client(commands[i]) == c),
        ),
    decreases commands.len(),
{
    let named = Set::new(|c: ClientId| exists|i: int| 0 <= i < commands.len() && #[trigger] command_client(commands[i]) == c);
    if commands.len() == 0 {
        assert(run_commands(state, commands).dom() =~= state.dom().union(named));
        return;
    }
    let prefix = commands.drop_last();
    let n = commands.len() - 1;
    lemma_clients_after_commands(state, prefix);
    let named_before = Set::new(|c: ClientId| exists|i: int| 0 <= i < prefix.len() && #[trigger] command_client(prefix[i]) == c);
    assert forall|c: ClientId| named.contains(c) <==> named_before.insert(command_client(commands[n])).contains(c) by {
        if named.contains(c) && c != command_client(commands[n]) {
            let i = choose|i: int| 0 <= i < commands.len() && #[trigger] command_client(commands[i]) == c;
            assert(i < n);
            assert(command_client(prefix[i]) == c);
        }
        if named_before.contains(c) {
            let i = choose|i: int| 0 <= i < prefix.len() && #[trigger] command_client(prefix[i]) == c;
            assert(command_client(commands[i]) == c);
        }
    }
    assert(run_commands(state, commands).dom() =~= state.dom().union(named));
}

/// After a sequence of commands from the empty ledger, a successful dispute action
/// on a transaction moves the signed amount `m` of the last successful movement
/// under its id: opening takes `m` from the available funds into the held ones,
/// resolving moves it back, a chargeback takes it from the held funds and locks the
/// account; nothing else of the account changes. The sums are those `rust_decimal`
/// computes; by value they are the exact ones.
pub proof fn lemma_dispute_moves_last_movement(
    commands: Seq<TransactionCommand>,
    client: ClientId,
    tx: TransactionId,
    action: DisputeAction,
    i: int,
)
    requires
        last_movement(Map::empty(), commands, client, tx, i),
        step(
            run_commands(Map::empty(), commands),
            TransactionCommand::ProcessDispute { target_tx_id: tx, client_id: client, action },
        ).1 is Ok,
    ensures
        ({
            let state = run_commands(Map::empty(), commands);
            let command = TransactionCommand::ProcessDispute { target_tx_id: tx, client_id: client, action };
            let before = entry_or_default(state, client).0;
            let after = step(state, command).0[client].0;
            let m = recorded_transaction(commands[i]).amount;
            let values_before = crate::model::account_value_or_default(crate::model::value_of(state), client);
            let values_after = crate::model::value_step(crate::model::value_of(state), command).0[client];
            match action {
                DisputeAction::Open => {
                    &&& after.available == crate::amount::decimal_difference(before.available, m).unwrap()
                    &&& after.held == crate::amount::decimal_sum(before.held, m).unwrap()
                    &&& after.locked == before.locked
                    &&& values_after.available == values_before.available - m.units()
                    &&& values_after.held == values_before.held + m.units()
                    &&& values_after.locked == values_before.locked
                },
                DisputeAction::Resolve => {
                    &&& after.available == crate::amount::decimal_sum(before.available, m).unwrap()
                    &&& after.held == crate::amount::decimal_difference(before.held, m).unwrap()
                    &&& after.locked == before.locked
                    &&& values_after.available == values_before.available + m.units()
                    &&& values_after.held == values_before.held - m.units()
                    &&& values_after.locked == values_before.locked
                },
                DisputeAction::Chargeback => {
                    &&& after.available == before.available
                    &&& after.held == crate::amount::decimal_difference(before.held, m).unwrap()
                    &&& after.locked
                    &&& values_after.available == values_before.available
                    &&& values_after.held == values_before.held - m.units()
                    &&& values_after.locked
                },
            }
        }),
{
    let state = run_commands(Map::empty(), commands);
    lemma_history_after_commands(commands, client, tx);
    crate::model::lemma_entry_value_or_default(state, client);
    let entry = entry_or_default(state, client);
    assert(entry.1.contains_key(tx));
    assert(crate::model::entry_value(entry).history[tx] == crate::model::transaction_value(entry.1[tx]));
}

/// The commands that a sequence of records makes, in order (records without a
/// command left out).
pub open spec fn commands_of(records: Seq<TransactionRecord>) -> Seq<TransactionCommand>
    decreases records.len(),
{
    if records.len() == 0 {
        Seq::empty()
    } else {
        match record_command(records.last()) {
            Ok(command) => commands_of(records.drop_last()).push(command),
            Err(_) => commands_of(records.drop_last()),
        }
    }
}

/// How many of the records make no command.
pub open spec fn invalid_count(records: Seq<TransactionRecord>) -> nat
    decreases records.len(),
{
    if records.len() == 0 {
        0
    } else {
        invalid_count(records.drop_last()) + if record_command(records.last()) is Err {
            1nat
        } else {
            0nat
        }
    }
}

/// How many of the commands the ledger refuses, processing them in order from `state`.
pub open spec fn refused_count(state: LedgerState, commands: Seq<TransactionCommand>) -> nat
    decreases commands.len(),
{
    if commands.len() == 0 {
        0
    } else {
        refused_count(state, commands.drop_last()) + if step(
            run_commands(state, commands.drop_last()),
            commands.last(),
        ).1 is Err {
            1nat
        } else {
            0nat
        }
    }
}

/// Processing a batch of records leaves the ledger as processing, one after the
/// other, the commands that the records make (a record without a command, or a
/// refused command, does not stop the batch), and reports one error for each
/// record without a command and each refused command.
pub proof fn lemma_batch_is_its_commands(state: LedgerState, records: Seq<TransactionRecord>)
    ensures
        run(state, records) matches Some((after, errors)) ==> {
            &&& after == run_commands(state, commands_of(records))
            &&& errors.len() == invalid_count(records) + refused_count(state, commands_of(records))
        },
    decreases records.len(),
{
    if records.len() > 0 {
        let prefix = records.drop_last();
        lemma_batch_is_its_commands(state, prefix);
        let commands = commands_of(prefix);
        if let Ok(command) = record_command(records.last()) {
            assert(commands.push(command).drop_last() =~= commands);
            assert(commands.push(command).last() == command);
        }
    }
}

} // verus!
