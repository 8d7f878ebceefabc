//! Client accounts and the ledger that processes transaction commands on them.
use std::collections::HashMap;
use vstd::std_specs::hash::spec_hash_map_iter;
use vstd::std_specs::iter::IteratorSpec;
use vstd::prelude::*;

use crate::amount::{checked_add, checked_sub, less_than, negate, Amount};
use crate::amount::lemma_negated_units;
use crate::model::{
    arithmetic_defined, arithmetic_exact, command_client, default_account, entry_or_default,
    arithmetic_fits, entry_valid, ledger_valid, scales_kept, scales_within,
    lemma_entry_value_or_default, lemma_history_value_insert, lemma_value_of_step, step, value_of,
    value_step, LedgerState,
};

verus! {

broadcast use vstd::std_specs::hash::group_hash_axioms;

/// Identifies a client.
pub type ClientId = u16;

/// Identifies a transaction.
pub type TransactionId = u32;

/// A movement of funds into or out of an account.
#[derive(Clone, Copy, Debug)]
pub enum Movement {
    Deposit(Amount),
    Withdrawal(Amount),
}

/// What a dispute command does to the disputed transaction.
#[derive(Clone, Copy, Debug)]
pub enum DisputeAction {
    Open,
    Resolve,
    Chargeback,
}

/// A command for the ledger.
#[derive(Clone, Copy, Debug)]
pub enum TransactionCommand {
    ProcessMovement { tx_id: TransactionId, client_id: ClientId, movement: Movement },
    ProcessDispute { target_tx_id: TransactionId, client_id: ClientId, action: DisputeAction },
}

/// Why the ledger refused a command.
#[derive(Clone, Copy, Debug)]
pub enum TransactionError {
    AccountLocked(ClientId),
    InsufficientFunds,
    TransactionAlreadyDisputed(TransactionId),
    TransactionNotDisputed(TransactionId),
    TransactionNotFound(TransactionId),
}

/// A recorded movement: its signed amount (withdrawals are negative) and whether it
/// is under dispute.
#[derive(Clone, Copy, Debug)]
pub struct Transaction {
    pub amount: Amount,
    pub disputed: bool,
}

/// The funds of a client.
#[derive(Clone, Copy, Debug)]
pub struct ClientAccount {
    pub available: Amount,
    pub held: Amount,
    pub locked: bool,
}

impl Default for ClientAccount {
    fn default() -> (r: ClientAccount)
        ensures
            r == default_account(),
    {
        ClientAccount { available: Amount::zero(), held: Amount::zero(), locked: false }
    }
}

/// The accounts of all clients, each with the history of its movements.
pub struct Ledger {
    data: HashMap<ClientId, (ClientAccount, HashMap<TransactionId, Transaction>)>,
}

/// The ledger state that a map of client entries holds.
spec fn state_of(data: HashMap<ClientId, (ClientAccount, HashMap<TransactionId, Transaction>)>) -> LedgerState {
    data@.map_values(
        |entry: (ClientAccount, HashMap<TransactionId, Transaction>)| (entry.0, entry.1@),
    )
}

impl Ledger {
    /// Every amount that the ledger holds is a valid decimal.
    #[verifier::type_invariant]
    closed spec fn amounts_valid(self) -> bool {
        ledger_valid(self@)
    }
}

impl View for Ledger {
    type V = LedgerState;

    closed spec fn view(&self) -> LedgerState {
        state_of(self.data)
    }
}

impl Default for Ledger {
    fn default() -> (r: Ledger)
        ensures
            r@ == Map::<ClientId, (ClientAccount, Map<TransactionId, Transaction>)>::empty(),
            ledger_valid(r@),
    {
        let data = HashMap::new();
        assert(state_of(data) =~= Map::<ClientId, (ClientAccount, Map<TransactionId, Transaction>)>::empty());
        Ledger { data }
    }
}

impl Ledger {
    /// Takes the entry of a client out of the ledger, or a fresh one.
    fn take_entry(&mut self, client_id: ClientId) -> (r: (
        ClientAccount,
        HashMap<TransactionId, Transaction>,
    ))
        ensures
            (r.0, r.1@) == entry_or_default(old(self)@, client_id),
            final(self)@ == old(self)@.remove(client_id),
            entry_valid((r.0, r.1@)),
    {
        proof {
            use_type_invariant(&*self);
            crate::amount::lemma_zero_valid();
        }
        let ghost before = self@;
        let mut data = HashMap::new();
        std::mem::swap(&mut data, &mut self.data);
        let taken = data.remove(&client_id);
        assert(state_of(data) =~= before.remove(client_id));
        self.data = data;
        match taken {
            Some(entry) => entry,
            None => {
                let account = ClientAccount::default();
                let history = HashMap::new();
                assert(history@ =~= Map::<TransactionId, Transaction>::empty());
                (account, history)
            },
        }
    }

    /// Puts the entry of a client back into the ledger.
    fn put_entry(
        &mut self,
        client_id: ClientId,
        account: ClientAccount,
        history: HashMap<TransactionId, Transaction>,
    )
        requires
            entry_valid((account, history@)),
        ensures
            final(self)@ == old(self)@.insert(client_id, (account, history@)),
            ledger_valid(final(self)@),
    {
        proof {
            use_type_invariant(&*self);
        }
        let ghost before = self@;
        let ghost h = history@;
        let mut data = HashMap::new();
        std::mem::swap(&mut data, &mut self.data);
        data.insert(client_id, (account, history));
        assert(state_of(data) =~= before.insert(client_id, (account, h)));
        self.data = data;
        proof {
            use_type_invariant(&*self);
        }
    }

    /// Processes a transaction command and updates the ledger state accordingly.
    ///
    /// The client's account is created if the ledger has none, whatever the outcome.
    /// A deposit adds to the available funds; a withdrawal takes from them unless the
    /// account is locked or has less available than asked. A dispute moves the amount
    /// of an earlier transaction from available to held funds; resolving it moves the
    /// amount back; a chargeback removes it from the held funds and locks the account.
    ///
    /// # Errors
    /// Returns a `TransactionError` if the transaction cannot be processed; then only
    /// the creation of the client's account has taken place.
    pub fn process_transaction(&mut self, command: TransactionCommand) -> (result: Result<
        (),
        TransactionError,
    >)
        requires
            arithmetic_defined(old(self)@, command) || arithmetic_exact(old(self)@, command),
        ensures
            (final(self)@, result) == step(old(self)@, command),
            ledger_valid(final(self)@),
            scales_within(old(self)@, command, final(self)@),
            arithmetic_fits(old(self)@, command) ==> scales_kept(old(self)@, command, final(self)@),
            result == value_step(value_of(old(self)@), command).1,
            arithmetic_exact(old(self)@, command) ==> value_of(final(self)@) == value_step(
                value_of(old(self)@),
                command,
            ).0,
    {
        match command {
            TransactionCommand::ProcessMovement { tx_id, client_id, movement } => {
                let (mut account, mut history) = self.take_entry(client_id);
                proof {
                    use_type_invariant(&account.available);
                }
                match movement {
                    Movement::Deposit(amount) => {
                        proof {
                            use_type_invariant(&amount);
                        }
                        account.available = checked_add(account.available, amount).unwrap();
                        proof {
                            lemma_history_value_insert(history@, tx_id, Transaction { amount, disputed: false });
                        }
                        history.insert(tx_id, Transaction { amount, disputed: false });
                    },
                    Movement::Withdrawal(amount) => {
                        proof {
                            use_type_invariant(&amount);
                        }
                        if account.locked {
                            proof {
                                lemma_value_of_step(old(self)@, command);
                            }
                            self.put_entry(client_id, account, history);
                            return Err(TransactionError::AccountLocked(client_id));
                        }
                        if less_than(account.available, amount) {
                            proof {
                                lemma_value_of_step(old(self)@, command);
                            }
                            self.put_entry(client_id, account, history);
                            return Err(TransactionError::InsufficientFunds);
                        }
                        account.available = checked_sub(account.available, amount).unwrap();
                        let recorded = Transaction { amount: negate(amount), disputed: false };
                        proof {
                            lemma_negated_units(amount);
                            lemma_history_value_insert(history@, tx_id, recorded);
                        }
                        history.insert(tx_id, recorded);
                    },
                }
                self.put_entry(client_id, account, history);
            },
            TransactionCommand::ProcessDispute { target_tx_id, client_id, action } => {
                let (mut account, mut history) = self.take_entry(client_id);
                proof {
                    use_type_invariant(&account.available);
                    use_type_invariant(&account.held);
                }
                let transaction = match history.get(&target_tx_id) {
                    Some(t) => *t,
                    None => {
                        proof {
                            lemma_value_of_step(old(self)@, command);
                        }
                        self.put_entry(client_id, account, history);
                        return Err(TransactionError::TransactionNotFound(target_tx_id));
                    },
                };
                proof {
                    use_type_invariant(&transaction.amount);
                }
                match action {
                    DisputeAction::Open => {
                        if transaction.disputed {
                            proof {
                                lemma_value_of_step(old(self)@, command);
                            }
                            self.put_entry(client_id, account, history);
                            return Err(TransactionError::TransactionAlreadyDisputed(target_tx_id));
                        }
                        account.available = checked_sub(account.available, transaction.amount).unwrap();
                        account.held = checked_add(account.held, transaction.amount).unwrap();
                        let recorded = Transaction { amount: transaction.amount, disputed: true };
                        proof {
                            lemma_history_value_insert(history@, target_tx_id, recorded);
                        }
                        history.insert(target_tx_id, recorded);
                    },
                    DisputeAction::Resolve => {
                        if !transaction.disputed {
                            proof {
                                lemma_value_of_step(old(self)@, command);
                            }
                            self.put_entry(client_id, account, history);
                            return Err(TransactionError::TransactionNotDisputed(target_tx_id));
                        }
                        account.available = checked_add(account.available, transaction.amount).unwrap();
                        account.held = checked_sub(account.held, transaction.amount).unwrap();
                        let recorded = Transaction { amount: transaction.amount, disputed: false };
                        proof {
                            lemma_history_value_insert(history@, target_tx_id, recorded);
                        }
                        history.insert(target_tx_id, recorded);
                    },
                    DisputeAction::Chargeback => {
                        if !transaction.disputed {
                            proof {
                                lemma_value_of_step(old(self)@, command);
                            }
                            self.put_entry(client_id, account, history);
                            return Err(TransactionError::TransactionNotDisputed(target_tx_id));
                        }
                        account.held = checked_sub(account.held, transaction.amount).unwrap();
                        account.locked = true;
                        let recorded = Transaction { amount: transaction.amount, disputed: false };
                        proof {
                            lemma_history_value_insert(history@, target_tx_id, recorded);
                        }
                        history.insert(target_tx_id, recorded);
                    },
                }
                self.put_entry(client_id, account, history);
            },
        }
        proof {
            lemma_entry_value_or_default(old(self)@, command_client(command));
            if arithmetic_exact(old(self)@, command) {
                lemma_value_of_step(old(self)@, command);
            }
        }
        Ok(())
    }
}


impl Ledger {
    /// Whether every sum and difference that processing `command` takes is defined,
    /// that is, `rust_decimal` does not overflow on it.
    fn arithmetic_fits(&self, command: TransactionCommand) -> (r: bool)
        ensures
            r == arithmetic_defined(self@, command),
            arithmetic_exact(self@, command) ==> r,
    {
        match command {
            TransactionCommand::ProcessMovement { client_id, movement, .. } => {
                let account = match self.data.get(&client_id) {
                    Some(entry) => entry.0,
                    None => ClientAccount::default(),
                };
                proof {
                    use_type_invariant(&account.available);
                }
                match movement {
                    Movement::Deposit(amount) => {
                        proof {
                            use_type_invariant(&amount);
                        }
                        checked_add(account.available, amount).is_some()
                    },
                    Movement::Withdrawal(amount) => {
                        proof {
                            use_type_invariant(&amount);
                        }
                        if account.locked || less_than(account.available, amount) {
                            true
                        } else {
                            checked_sub(account.available, amount).is_some()
                        }
                    },
                }
            },
            TransactionCommand::ProcessDispute { target_tx_id, client_id, action } => {
                let entry = match self.data.get(&client_id) {
                    Some(entry) => entry,
                    None => {
                        return true;
                    },
                };
                let account = entry.0;
                let transaction = match entry.1.get(&target_tx_id) {
                    Some(t) => *t,
                    None => {
                        return true;
                    },
                };
                proof {
                    use_type_invariant(&account.available);
                    use_type_invariant(&account.held);
                    use_type_invariant(&transaction.amount);
                }
                match action {
                    DisputeAction::Open => transaction.disputed || (checked_sub(
                        account.available,
                        transaction.amount,
                    ).is_some() && checked_add(account.held, transaction.amount).is_some()),
                    DisputeAction::Resolve => !transaction.disputed || (checked_add(
                        account.available,
                        transaction.amount,
                    ).is_some() && checked_sub(account.held, transaction.amount).is_some()),
                    DisputeAction::Chargeback => !transaction.disputed || checked_sub(
                        account.held,
                        transaction.amount,
                    ).is_some(),
                }
            },
        }
    }

    /// Processes a command where `rust_decimal` computes every sum and difference it
    /// needs, as `process_transaction` does; returns `None`, and leaves the ledger as
    /// it was, where one of them would overflow.
    pub fn checked_process_transaction(&mut self, command: TransactionCommand) -> (r: Option<
        Result<(), TransactionError>,
    >)
        ensures
            r is None <==> !arithmetic_defined(old(self)@, command),
            r is None ==> final(self)@ == old(self)@,
            r matches Some(result) ==> (final(self)@, result) == step(old(self)@, command),
            r is Some ==> scales_within(old(self)@, command, final(self)@),
            arithmetic_fits(old(self)@, command) ==> scales_kept(old(self)@, command, final(self)@),
            ledger_valid(final(self)@),
            arithmetic_exact(old(self)@, command) ==> r == Some(
                value_step(value_of(old(self)@), command).1,
            ),
            arithmetic_exact(old(self)@, command) ==> value_of(final(self)@) == value_step(
                value_of(old(self)@),
                command,
            ).0,
    {
        proof {
            use_type_invariant(&*self);
        }
        if self.arithmetic_fits(command) {
            Some(self.process_transaction(command))
        } else {
            None
        }
    }
}


impl Ledger {
    /// Every client account in the ledger, each with its client id, in the order in
    /// which the ledger's hash map lists them.
    pub fn get_accounts(&self) -> (r: Vec<(ClientId, ClientAccount)>)
        ensures
            r.len() == self@.len(),
            forall|i: int| 0 <= i < r.len() ==> #[trigger] self@.contains_key(r[i].0) && self@[r[i].0].0 == r[i].1,
            forall|c: ClientId| self@.contains_key(c) ==> exists|i: int| 0 <= i < r.len() && #[trigger] r[i].0 == c,
            forall|i: int, j: int| 0 <= i < j < r.len() ==> r[i].0 != r[j].0,
            ledger_valid(self@),
    {
        proof {
            use_type_invariant(self);
        }
        let mut out: Vec<(ClientId, ClientAccount)> = Vec::new();
        for pair in it: self.data.iter()
            invariant
                out.len() == it.index(),
                forall|j: int| 0 <= j < out.len() ==> #[trigger] out[j] == (*it.seq()[j].0, (it.seq()[j].1).0),
        {
            out.push((*pair.0, (pair.1).0));
        }
        proof {
            let listed = IteratorSpec::remaining(&spec_hash_map_iter(&self.data));
            assert(self@.dom() =~= self.data@.dom());
            assert forall|c: ClientId| self@.contains_key(c) implies exists|i: int|
                0 <= i < out.len() && #[trigger] out[i].0 == c by {
                assert(listed.contains((&c, &self.data@[c])));
                let i = choose|i: int| 0 <= i < listed.len() && listed[i] == (&c, &self.data@[c]);
                assert(out[i].0 == c);
            }
            assert forall|i: int, j: int| 0 <= i < j < out.len() implies out[i].0 != out[j].0 by {
                if out[i].0 == out[j].0 {
                    assert(self.data@[*listed[i].0] == *listed[i].1);
                    assert(self.data@[*listed[j].0] == *listed[j].1);
                    assert(listed[i] == listed[j]);
                    assert(listed.no_duplicates());
                }
            }
        }
        out
    }
}

} // verus!
