//! A ledger of client accounts that processes deposits, withdrawals and
//! disputes over earlier transactions.
//!
//! Amounts are decimals of `rust_decimal`, held as their parts ([`Amount`]).
//! [`Ledger::process_transaction`] is specified twice over: by [`model::step`], on the
//! exact decimal parts that `rust_decimal` computes, and by [`model::value_step`], on the
//! values of the amounts, wherever no sum or difference is rounded. The module
//! [`laws`] proves what holds of every command.
use vstd::prelude::*;

pub mod amount;
pub mod command_laws;
pub mod history;
pub mod laws;
pub mod ledger;
pub mod model;
pub mod records;

pub use amount::Amount;
pub use ledger::{
    ClientAccount, ClientId, DisputeAction, Ledger, Movement, Transaction, TransactionCommand,
    TransactionError, TransactionId,
};
pub use records::{
    account_records, process_record, process_transactions, AccountRecord, RecordError, TransactionRecord,
    TransactionType,
};

verus! {

} // verus!
