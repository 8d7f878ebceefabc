//! Transaction records as they come in, account records as they go out, and the
//! processing of a whole batch of records by a ledger.
use vstd::prelude::*;

use crate::amount::{checked_add, decimal_sum, Amount};
use crate::ledger::{
    ClientAccount, ClientId, DisputeAction, Ledger, Movement, TransactionCommand, TransactionError,
    TransactionId,
};
use crate::model::{arithmetic_defined, step, sum_exact, LedgerState};

verus! {

/// The kind of an incoming transaction record.
#[derive(Clone, Copy, Debug)]
pub enum TransactionType {
    Deposit,
    Withdrawal,
    Dispute,
    Resolve,
    Chargeback,
}

/// An incoming transaction record. Deposits and withdrawals carry an amount;
/// dispute records name the disputed transaction by `tx_id`.
#[derive(Clone, Copy, Debug)]
pub struct TransactionRecord {
    pub tx_type: TransactionType,
    pub tx_id: TransactionId,
    pub client_id: ClientId,
    pub amount: Option<Amount>,
}

/// An outgoing account record: the funds of a client and their total.
#[derive(Clone, Copy, Debug)]
pub struct AccountRecord {
    pub id: ClientId,
    pub available: Amount,
    pub held: Amount,
    pub total: Amount,
    pub locked: bool,
}

/// Why a record was not applied to the ledger.
#[derive(Debug)]
pub enum RecordError {
    /// The record does not make a command.
    InvalidRecord(String),
    /// The ledger refused the command.
    Rejected(TransactionError),
}

/// A record error by value.
pub enum RecordErrorView {
    InvalidRecord(Seq<char>),
    Rejected(TransactionError),
}

impl View for RecordError {
    type V = RecordErrorView;

    open spec fn view(&self) -> RecordErrorView {
        match self {
            RecordError::InvalidRecord(message) => RecordErrorView::InvalidRecord(message@),
            RecordError::Rejected(e) => RecordErrorView::Rejected(*e),
        }
    }
}

/// The command that a record makes, or the reason why it makes none.
pub open spec fn record_command(record: TransactionRecord) -> Result<TransactionCommand, Seq<char>> {
    let tx_id = record.tx_id;
    let client_id = record.client_id;
    match record.tx_type {
        TransactionType::Deposit => match record.amount {
            Some(amount) => Ok(
                TransactionCommand::ProcessMovement {
                    tx_id,
                    client_id,
                    movement: Movement::Deposit(amount),
                },
            ),
            None => Err("Amount is required for deposit"@),
        },
        TransactionType::Withdrawal => match record.amount {
            Some(amount) => Ok(
                TransactionCommand::ProcessMovement {
                    tx_id,
                    client_id,
                    movement: Movement::Withdrawal(amount),
                },
            ),
            None => Err("Amount is required for withdrawal"@),
        },
        TransactionType::Dispute => Ok(
            TransactionCommand::ProcessDispute {
                target_tx_id: tx_id,
                client_id,
                action: DisputeAction::Open,
            },
        ),
        TransactionType::Resolve => Ok(
            TransactionCommand::ProcessDispute {
                target_tx_id: tx_id,
                client_id,
                action: DisputeAction::Resolve,
            },
        ),
        TransactionType::Chargeback => Ok(
            TransactionCommand::ProcessDispute {
                target_tx_id: tx_id,
                client_id,
                action: DisputeAction::Chargeback,
            },
        ),
    }
}

impl TransactionCommand {
    /// The command that a record makes; a deposit or withdrawal record without an
    /// amount makes none.
    pub fn try_from(record: TransactionRecord) -> (r: Result<TransactionCommand, String>)
        ensures
            match r {
                Ok(command) => record_command(record) == Ok::<TransactionCommand, Seq<char>>(command),
                Err(message) => record_command(record) == Err::<TransactionCommand, Seq<char>>(message@),
            },
    {
        match record.tx_type {
            TransactionType::Deposit => match record.amount {
                Some(amount) => Ok(
                    TransactionCommand::ProcessMovement {
                        tx_id: record.tx_id,
                        client_id: record.client_id,
                        movement: Movement::Deposit(amount),
                    },
                ),
                None => Err("Amount is required for deposit".to_owned()),
            },
            TransactionType::Withdrawal => match record.amount {
                Some(amount) => Ok(
                    TransactionCommand::ProcessMovement {
                        tx_id: record.tx_id,
                        client_id: record.client_id,
                        movement: Movement::Withdrawal(amount),
                    },
                ),
                None => Err("Amount is required for withdrawal".to_owned()),
            },
            TransactionType::Dispute => Ok(
                TransactionCommand::ProcessDispute {
                    target_tx_id: record.tx_id,
                    client_id: record.client_id,
                    action: DisputeAction::Open,
                },
            ),
            TransactionType::Resolve => Ok(
                TransactionCommand::ProcessDispute {
                    target_tx_id: record.tx_id,
                    client_id: record.client_id,
                    action: DisputeAction::Resolve,
                },
            ),
            TransactionType::Chargeback => Ok(
                TransactionCommand::ProcessDispute {
                    target_tx_id: record.tx_id,
                    client_id: record.client_id,
                    action: DisputeAction::Chargeback,
                },
            ),
        }
    }
}

/// What applying one record to a ledger state gives: the new state and the
/// record's error, if any; `None` where the record makes a command on which
/// `rust_decimal` overflows.
pub open spec fn record_step(state: LedgerState, record: TransactionRecord) -> Option<
    (LedgerState, Option<RecordErrorView>),
> {
    match record_command(record) {
        Err(message) => Some((state, Some(RecordErrorView::InvalidRecord(message)))),
        Ok(command) => {
            if !arithmetic_defined(state, command) {
                None
            } else {
                let (after, result) = step(state, command);
                match result {
                    Ok(_) => Some((after, None)),
                    Err(e) => Some((after, Some(RecordErrorView::Rejected(e)))),
                }
            }
        },
    }
}

/// Applies records in order, from a ledger state: the final state and the errors of
/// the records that were not applied, in order; `None` where some record makes a
/// command on which `rust_decimal` overflows.
pub open spec fn run(state: LedgerState, records: Seq<TransactionRecord>) -> Option<
    (LedgerState, Seq<RecordErrorView>),
>
    decreases records.len(),
{
    if records.len() == 0 {
        Some((state, Seq::empty()))
    } else {
        match run(state, records.drop_last()) {
            None => None,
            Some((before, errors)) => match record_step(before, records.last()) {
                None => None,
                Some((after, None)) => Some((after, errors)),
                Some((after, Some(error))) => Some((after, errors.push(error))),
            },
        }
    }
}

/// Applies one record to the ledger: turns it into a command and processes it.
/// Returns the record's error, if any, or `None` (leaving the ledger as it was)
/// where `rust_decimal` overflows on the command.
pub fn process_record(ledger: &mut Ledger, record: TransactionRecord) -> (r: Option<
    Result<(), RecordError>,
>)
    ensures
        match record_step(old(ledger)@, record) {
            None => r is None && final(ledger)@ == old(ledger)@,
            Some((state, error)) => {
                &&& final(ledger)@ == state
                &&& match r {
                    Some(Ok(())) => error is None,
                    Some(Err(e)) => error == Some(e@),
                    None => false,
                }
            },
        },
{
    match TransactionCommand::try_from(record) {
        Err(message) => Some(Err(RecordError::InvalidRecord(message))),
        Ok(command) => match ledger.checked_process_transaction(command) {
            None => None,
            Some(Ok(())) => Some(Ok(())),
            Some(Err(e)) => Some(Err(RecordError::Rejected(e))),
        },
    }
}

/// The outgoing record of an account.
pub open spec fn account_record_of(id: ClientId, account: ClientAccount) -> AccountRecord {
    AccountRecord {
        id,
        available: account.available,
        held: account.held,
        total: decimal_sum(account.available, account.held).unwrap(),
        locked: account.locked,
    }
}

/// `rust_decimal` can total the funds of every account.
pub open spec fn totals_defined(state: LedgerState) -> bool {
    forall|c: ClientId|
        state.contains_key(c) ==> #[trigger] decimal_sum(state[c].0.available, state[c].0.held) is Some
}

/// `records` lists the accounts of `state`, one record per client, in increasing
/// order of client id.
pub open spec fn lists_accounts(state: LedgerState, records: Seq<AccountRecord>) -> bool {
    &&& records.len() == state.len()
    &&& forall|i: int|
        0 <= i < records.len() ==> #[trigger] state.contains_key(records[i].id) && records[i]
            == account_record_of(records[i].id, state[records[i].id].0)
    &&& sorted_by_id(records)
    &&& forall|c: ClientId|
        state.contains_key(c) ==> exists|i: int| 0 <= i < records.len() && #[trigger] records[i].id == c
}

/// The total of every record is its available plus held funds, wherever that sum
/// is exact.
pub open spec fn totals_add_up(records: Seq<AccountRecord>) -> bool {
    forall|i: int|
        0 <= i < records.len() && #[trigger] sum_exact(records[i].available, records[i].held)
            ==> records[i].total.units() == records[i].available.units() + records[i].held.units()
}

/// Records sorted by strictly increasing client id.
pub open spec fn sorted_by_id(records: Seq<AccountRecord>) -> bool {
    forall|a: int, b: int| 0 <= a < b < records.len() ==> records[a].id < records[b].id
}

/// Inserts a record into records sorted by client id, at its place.
fn insert_sorted(out: &mut Vec<AccountRecord>, record: AccountRecord)
    requires
        sorted_by_id(old(out)@),
        forall|j: int| 0 <= j < old(out).len() ==> old(out)[j].id != record.id,
    ensures
        sorted_by_id(final(out)@),
        final(out).len() == old(out).len() + 1,
        final(out)@.contains(record),
        forall|j: int| 0 <= j < old(out).len() ==> final(out)@.contains(#[trigger] old(out)[j]),
        forall|j: int| 0 <= j < final(out).len() ==> #[trigger] final(out)[j] == record || old(out)@.contains(final(out)[j]),
{
    let mut pos: usize = 0;
    while pos < out.len() && out[pos].id < record.id
        invariant
            pos <= out.len(),
            forall|j: int| 0 <= j < pos ==> out[j].id < record.id,
        decreases out.len() - pos,
    {
        pos += 1;
    }
    let ghost before = out@;
    out.insert(pos, record);
    proof {
        assert(out@ == before.insert(pos as int, record));
        assert(out[pos as int] == record);
        assert forall|j: int| 0 <= j < before.len() implies out@.contains(#[trigger] before[j]) by {
            if j < pos {
                assert(out[j] == before[j]);
            } else {
                assert(out[j + 1] == before[j]);
            }
        }
        assert forall|j: int| 0 <= j < out.len() implies #[trigger] out[j] == record || before.contains(out[j]) by {
            if j < pos {
                assert(out[j] == before[j]);
            } else if j > pos {
                assert(out[j] == before[j - 1]);
            }
        }
        assert forall|a: int, b: int| 0 <= a < b < out.len() implies out[a].id < out[b].id by {
            if pos < before.len() {
                assert(before[pos as int].id > record.id);
            }
            if b < pos {
                assert(out[a] == before[a] && out[b] == before[b]);
            } else if b == pos {
                assert(out[a] == before[a]);
            } else if a < pos {
                assert(out[a] == before[a] && out[b] == before[b - 1]);
            } else if a == pos {
                assert(out[b] == before[b - 1]);
            } else {
                assert(out[a] == before[a - 1] && out[b] == before[b - 1]);
            }
        }
    }
}

/// The record of every account of the ledger, with its total funds, in increasing
/// order of client id; `None` where `rust_decimal` cannot total some account.
pub fn account_records(ledger: &Ledger) -> (r: Option<Vec<AccountRecord>>)
    ensures
        r is Some <==> totals_defined(ledger@),
        r matches Some(records) ==> lists_accounts(ledger@, records@),
        r matches Some(records) ==> totals_add_up(records@),
{
    let accounts = ledger.get_accounts();
    let ghost state = ledger@;
    let mut out: Vec<AccountRecord> = Vec::new();
    let mut i: usize = 0;
    while i < accounts.len()
        invariant
            state == ledger@,
            accounts.len() == state.len(),
            forall|k: int|
                0 <= k < accounts.len() ==> #[trigger] state.contains_key(accounts[k].0)
                    && state[accounts[k].0].0 == accounts[k].1,
            forall|c: ClientId|
                state.contains_key(c) ==> exists|k: int| 0 <= k < accounts.len() && #[trigger] accounts[k].0 == c,
            forall|k: int, l: int| 0 <= k < l < accounts.len() ==> accounts[k].0 != accounts[l].0,
            i <= accounts.len(),
            out.len() == i,
            forall|k: int|
                0 <= k < i ==> #[trigger] decimal_sum(accounts[k].1.available, accounts[k].1.held) is Some,
            forall|j: int|
                0 <= j < out.len() ==> exists|k: int|
                    0 <= k < i && #[trigger] out[j] == account_record_of(accounts[k].0, accounts[k].1),
            forall|k: int|
                0 <= k < i ==> out@.contains(#[trigger] account_record_of(accounts[k].0, accounts[k].1)),
            sorted_by_id(out@),
            totals_add_up(out@),
        decreases accounts.len() - i,
    {
        let (id, account) = accounts[i];
        proof {
            use_type_invariant(&account.available);
            use_type_invariant(&account.held);
        }
        let total = match checked_add(account.available, account.held) {
            Some(t) => t,
            None => {
                proof {
                    assert(state.contains_key(id));
                    assert(decimal_sum(state[id].0.available, state[id].0.held) is None);
                }
                return None;
            },
        };
        let record = AccountRecord {
            id,
            available: account.available,
            held: account.held,
            total,
            locked: account.locked,
        };
        proof {
            assert forall|j: int| 0 <= j < out.len() implies out[j].id != id by {
                let k = choose|k: int|
                    0 <= k < i && #[trigger] out[j] == account_record_of(accounts[k].0, accounts[k].1);
                assert(accounts[k].0 != accounts[i as int].0);
            }
        }
        let ghost before = out@;
        insert_sorted(&mut out, record);
        proof {
            assert(record == account_record_of(accounts[i as int].0, accounts[i as int].1));
            assert forall|j: int| 0 <= j < out.len() implies exists|k: int|
                0 <= k < i + 1 && #[trigger] out[j] == account_record_of(accounts[k].0, accounts[k].1) by {
                if out[j] != record {
                    let j0 = choose|j0: int| 0 <= j0 < before.len() && before[j0] == out[j];
                    assert(before[j0] == out[j]);
                }
            }
            assert forall|k: int| 0 <= k < i + 1 implies out@.contains(
                #[trigger] account_record_of(accounts[k].0, accounts[k].1),
            ) by {
                if k < i {
                    let j0 = choose|j0: int|
                        0 <= j0 < before.len() && before[j0] == account_record_of(accounts[k].0, accounts[k].1);
                    assert(out@.contains(before[j0]));
                }
            }
        }
        i += 1;
    }
    proof {
        assert forall|c: ClientId| state.contains_key(c) implies #[trigger] decimal_sum(
            state[c].0.available,
            state[c].0.held,
        ) is Some by {
            let k = choose|k: int| 0 <= k < accounts.len() && #[trigger] accounts[k].0 == c;
            assert(decimal_sum(accounts[k].1.available, accounts[k].1.held) is Some);
        }
        assert forall|j: int| 0 <= j < out.len() implies #[trigger] state.contains_key(out[j].id) && out[j]
            == account_record_of(out[j].id, state[out[j].id].0) by {
            let k = choose|k: int|
                0 <= k < i && #[trigger] out[j] == account_record_of(accounts[k].0, accounts[k].1);
            assert(state.contains_key(accounts[k].0));
        }
        assert forall|c: ClientId| state.contains_key(c) implies exists|j: int|
            0 <= j < out.len() && #[trigger] out[j].id == c by {
            let k = choose|k: int| 0 <= k < accounts.len() && #[trigger] accounts[k].0 == c;
            assert(out@.contains(account_record_of(accounts[k].0, accounts[k].1)));
            let j = choose|j: int| 0 <= j < out.len() && out[j] == account_record_of(accounts[k].0, accounts[k].1);
            assert(out[j].id == c);
        }
    }
    Some(out)
}

/// Once a prefix of the records overflows, so do all the records.
proof fn lemma_run_overflow_persists(state: LedgerState, records: Seq<TransactionRecord>, n: int)
    requires
        0 <= n <= records.len(),
        run(state, records.take(n)) is None,
    ensures
        run(state, records) is None,
    decreases records.len(),
{
    if n == records.len() {
        assert(records.take(n) =~= records);
    } else {
        assert(records.drop_last().take(n) =~= records.take(n));
        lemma_run_overflow_persists(state, records.drop_last(), n);
    }
}

/// Applies the records to the ledger in order, then lists the accounts. Records
/// that make no command, and commands that the ledger refuses, are skipped; their
/// errors come back, in order, beside the account records. `None` where
/// `rust_decimal` overflows on some command or on some account's total.
pub fn process_transactions(ledger: &mut Ledger, transactions: Vec<TransactionRecord>) -> (r: Option<
    (Vec<AccountRecord>, Vec<RecordError>),
>)
    ensures
        match run(old(ledger)@, transactions@) {
            None => r is None,
            Some((state, errors)) => {
                &&& final(ledger)@ == state
                &&& (r is Some <==> totals_defined(state))
                &&& (r matches Some((accounts, errs)) ==> {
                    &&& lists_accounts(state, accounts@)
                    &&& totals_add_up(accounts@)
                    &&& errs@.map_values(|e: RecordError| e@) == errors
                })
            },
        },
{
    let mut errors: Vec<RecordError> = Vec::new();
    let mut i: usize = 0;
    proof {
        assert(transactions@.take(0) =~= Seq::<TransactionRecord>::empty());
        assert(errors@.map_values(|e: RecordError| e@) =~= Seq::<RecordErrorView>::empty());
    }
    while i < transactions.len()
        invariant
            i <= transactions.len(),
            run(old(ledger)@, transactions@.take(i as int)) == Some(
                (ledger@, errors@.map_values(|e: RecordError| e@)),
            ),
        decreases transactions.len() - i,
    {
        let record = transactions[i];
        let ghost before = ledger@;
        let ghost errors_before = errors@;
        proof {
            assert(transactions@.take(i + 1).drop_last() =~= transactions@.take(i as int));
            assert(transactions@.take(i + 1).last() == record);
        }
        match process_record(ledger, record) {
            None => {
                proof {
                    lemma_run_overflow_persists(old(ledger)@, transactions@, i + 1);
                }
                return None;
            },
            Some(Ok(())) => {},
            Some(Err(error)) => {
                let ghost view = error@;
                errors.push(error);
                proof {
                    assert(errors@.map_values(|e: RecordError| e@) =~= errors_before.map_values(
                        |e: RecordError| e@,
                    ).push(view));
                }
            },
        }
        i += 1;
    }
    proof {
        assert(transactions@.take(i as int) =~= transactions@);
    }
    match account_records(ledger) {
        Some(accounts) => Some((accounts, errors)),
        None => None,
    }
}

} // verus!
