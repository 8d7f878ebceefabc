# paytoy_engine

A payments engine: a ledger of client accounts that processes deposits,
withdrawals, disputes, resolutions and chargebacks, verified with Verus.

* `src/amount.rs` - decimal amounts, held as the parts of a `rust_decimal::Decimal`;
  all arithmetic is done by `rust_decimal` behind the trusted wrappers of this file.
* `src/ledger.rs` - commands, errors, accounts and the `Ledger` with
  `process_transaction`, `checked_process_transaction` and `get_accounts`.
* `src/model.rs` - what a command does, on the stored decimals (`step`) and on
  their values with exact arithmetic (`value_step`).
* `src/records.rs` - incoming and outgoing records, the processing of one record
  and of a batch, and the sorted account listing.
* `src/history.rs` - what the ledger holds after a whole sequence of commands: the
  clients it knows, and for each transaction id the last successful movement and
  whether a dispute on it is open.
* `src/laws.rs` - properties of every command (locked accounts stay locked, refused
  commands change nothing, held funds equal the disputed amounts, a dispute that is
  opened with exact arithmetic can be resolved with exact arithmetic, ...).
* `app/main.rs` - the command line program: reads a CSV file of transactions and
  prints the accounts as CSV.
