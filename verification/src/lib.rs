//! A verified engine for applying financial transactions — deposits,
//! withdrawals, disputes, resolutions and chargebacks — to a set of
//! per-client accounts, together with a verified parser for the tabular
//! record format the transactions arrive in.
//!
//! The engine's behaviour is pinned down by the transition function
//! [`model::step`]: [`TransactionEngine::handle`] is proved to implement it
//! exactly, and the laws in [`laws`] are proved of it.

pub mod client;
pub mod error;
pub mod laws;
pub mod model;
pub mod parser;
pub mod transaction;

pub use client::ClientAccount;
pub use error::EngineError;
pub use transaction::Transaction;
pub use transaction::AMOUNT_SCALE;

use std::collections::HashMap;
use vstd::prelude::*;

use crate::model::{empty_state, step, EngineState};

verus! {

broadcast use vstd::std_specs::hash::group_hash_axioms;

/// Every recorded deposit and withdrawal, keyed by its `transaction_id`, kept
/// for later dispute lookups.
pub type Ledger = HashMap<u64, Transaction>;

/// Every known client's account, keyed by its `client_id`.
pub type AccountStore = HashMap<u16, ClientAccount>;

/// The transaction engine: it owns the account store and the ledger, and
/// applies one transaction at a time through [`TransactionEngine::handle`].
#[derive(Debug)]
pub struct TransactionEngine {
    pub client_accounts: AccountStore,
    pub ledger: Ledger,
}

impl View for TransactionEngine {
    type V = EngineState;

    open spec fn view(&self) -> EngineState {
        EngineState { accounts: self.client_accounts@, ledger: self.ledger@ }
    }
}

impl Default for TransactionEngine {
    /// An engine with no accounts and an empty ledger.
    fn default() -> (engine: TransactionEngine)
        ensures
            engine@ == empty_state(),
    {
        TransactionEngine { client_accounts: HashMap::new(), ledger: HashMap::new() }
    }
}

impl TransactionEngine {
    /// Makes sure the client has an account, creating a blank one if absent.
    fn get_or_create_client(&mut self, client_id: u16)
        ensures
            final(self)@ == model::with_account(old(self)@, client_id),
    {
        if !self.client_accounts.contains_key(&client_id) {
            self.client_accounts.insert(client_id, ClientAccount::new(client_id));
        }
    }

    /// Applies one transaction, in two stages. First, a deposit or withdrawal
    /// is recorded in the ledger — rejected as a duplicate if its id is
    /// already taken, and recorded even when the second stage then rejects
    /// it. Second, the balance rules of the variant are applied to the
    /// owning account, which is created on first sight for deposits and
    /// withdrawals. The whole behaviour, error by error, is given by
    /// [`model::step`].
    pub fn handle(&mut self, transaction: Transaction) -> (result: Result<(), EngineError>)
        ensures
            final(self)@ == step(old(self)@, transaction).state,
            result == step(old(self)@, transaction).result,
    {
        match transaction {
            Transaction::Deposit { transaction_id, .. }
            | Transaction::Withdraw { transaction_id, .. } => {
                if self.ledger.contains_key(&transaction_id) {
                    return Err(EngineError::DuplicateTransactionId);
                }
                self.ledger.insert(transaction_id, transaction);
            },
            _ => {},
        }

        match transaction {
            Transaction::Deposit { client_id, amount, .. } => {
                self.get_or_create_client(client_id);
                let account = *self.client_accounts.get(&client_id).unwrap();
                if amount < 0 {
                    return Err(EngineError::NegativeAmount);
                }
                let credited: i128 = account.available as i128 + amount as i128;
                if credited > i64::MAX as i128 {
                    return Err(EngineError::BalanceOverflow);
                }
                self.client_accounts.insert(
                    client_id,
                    ClientAccount { available: credited as i64, ..account },
                );
                Ok(())
            },
            Transaction::Withdraw { client_id, amount, .. } => {
                self.get_or_create_client(client_id);
                let account = *self.client_accounts.get(&client_id).unwrap();
                if amount < 0 {
                    return Err(EngineError::NegativeAmount);
                }
                if account.locked {
                    return Err(EngineError::AccountLocked);
                }
                if account.available < amount {
                    return Err(EngineError::InsufficientFunds);
                }
                self.client_accounts.insert(
                    client_id,
                    ClientAccount { available: account.available - amount, ..account },
                );
                Ok(())
            },
            Transaction::Dispute { transaction_id, client_id } => {
                let stored = match self.ledger.get(&transaction_id) {
                    Some(entry) => *entry,
                    None => {
                        return Err(EngineError::TransactionNotFound);
                    },
                };
                match stored {
                    Transaction::Deposit {
                        transaction_id: stored_id,
                        client_id: owner,
                        amount,
                        disputed: _,
                    } => {
                        if client_id != owner {
                            return Err(EngineError::ClientMismatch);
                        }
                        if !self.client_accounts.contains_key(&owner) {
                            // The account cannot be missing once its deposit
                            // was recorded, but if it is, create it so later
                            // commands for this client do not keep failing.
                            self.client_accounts.insert(owner, ClientAccount::new(owner));
                            return Err(EngineError::UnknownClientForDispute);
                        }
                        let account = *self.client_accounts.get(&owner).unwrap();
                        if account.available < amount {
                            return Err(EngineError::InsufficientAvailableFunds);
                        }
                        let new_held: i128 = account.held as i128 + amount as i128;
                        let new_available: i128 = account.available as i128 - amount as i128;
                        if new_held > i64::MAX as i128 || new_held < i64::MIN as i128
                            || new_available > i64::MAX as i128 {
                            return Err(EngineError::BalanceOverflow);
                        }
                        self.client_accounts.insert(
                            owner,
                            ClientAccount {
                                available: new_available as i64,
                                held: new_held as i64,
                                ..account
                            },
                        );
                        self.ledger.insert(
                            transaction_id,
                            Transaction::Deposit {
                                transaction_id: stored_id,
                                client_id: owner,
                                amount,
                                disputed: true,
                            },
                        );
                        Ok(())
                    },
                    _ => Err(EngineError::TransactionNotFound),
                }
            },
            Transaction::Resolve { transaction_id, client_id } => {
                let stored = match self.ledger.get(&transaction_id) {
                    Some(entry) => *entry,
                    None => {
                        return Err(EngineError::TransactionNotFound);
                    },
                };
                match stored {
                    Transaction::Deposit {
                        transaction_id: stored_id,
                        client_id: owner,
                        amount,
                        disputed,
                    } => {
                        if client_id != owner {
                            return Err(EngineError::ClientMismatch);
                        }
                        if !self.client_accounts.contains_key(&owner) {
                            self.client_accounts.insert(owner, ClientAccount::new(owner));
                            return Err(EngineError::UnknownClientForDispute);
                        }
                        if !disputed {
                            return Err(EngineError::NotDisputed);
                        }
                        let account = *self.client_accounts.get(&owner).unwrap();
                        if account.held < amount {
                            return Err(EngineError::InsufficientHeldFunds);
                        }
                        let new_available: i128 = account.available as i128 + amount as i128;
                        let new_held: i128 = account.held as i128 - amount as i128;
                        if new_available > i64::MAX as i128 || new_available < i64::MIN as i128
                            || new_held > i64::MAX as i128 {
                            return Err(EngineError::BalanceOverflow);
                        }
                        self.client_accounts.insert(
                            owner,
                            ClientAccount {
                                available: new_available as i64,
                                held: new_held as i64,
                                ..account
                            },
                        );
                        self.ledger.insert(
                            transaction_id,
                            Transaction::Deposit {
                                transaction_id: stored_id,
                                client_id: owner,
                                amount,
                                disputed: false,
                            },
                        );
                        Ok(())
                    },
                    _ => Err(EngineError::TransactionNotFound),
                }
            },
            Transaction::Chargeback { transaction_id, client_id } => {
                let stored = match self.ledger.get(&transaction_id) {
                    Some(entry) => *entry,
                    None => {
                        return Err(EngineError::TransactionNotFound);
                    },
                };
                match stored {
                    Transaction::Deposit {
                        transaction_id: stored_id,
                        client_id: owner,
                        amount,
                        disputed,
                    } => {
                        if client_id != owner {
                            return Err(EngineError::ClientMismatch);
                        }
                        if !self.client_accounts.contains_key(&owner) {
                            self.client_accounts.insert(owner, ClientAccount::new(owner));
                            return Err(EngineError::UnknownClientForDispute);
                        }
                        if !disputed {
                            return Err(EngineError::NotDisputed);
                        }
                        let account = *self.client_accounts.get(&owner).unwrap();
                        // The deposit's amount is charged back from the held
                        // funds with no sufficiency check — a deliberate
                        // asymmetry with resolve.
                        let new_held: i128 = account.held as i128 - amount as i128;
                        if new_held > i64::MAX as i128 || new_held < i64::MIN as i128 {
                            return Err(EngineError::BalanceOverflow);
                        }
                        self.client_accounts.insert(
                            owner,
                            ClientAccount { held: new_held as i64, locked: true, ..account },
                        );
                        self.ledger.insert(
                            transaction_id,
                            Transaction::Deposit {
                                transaction_id: stored_id,
                                client_id: owner,
                                amount,
                                disputed: false,
                            },
                        );
                        Ok(())
                    },
                    _ => Err(EngineError::TransactionNotFound),
                }
            },
        }
    }
}

} // verus!
