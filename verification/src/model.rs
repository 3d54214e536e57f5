use vstd::prelude::*;

use crate::client::ClientAccount;
use crate::error::EngineError;
use crate::transaction::Transaction;

verus! {

/// The mathematical state of a `TransactionEngine`: every known account, and
/// the ledger of every deposit and withdrawal recorded so far, each keyed by
/// its `transaction_id`.
#[verifier::ext_equal]
pub ghost struct EngineState {
    pub accounts: Map<u16, ClientAccount>,
    pub ledger: Map<u64, Transaction>,
}

/// What one transaction does: the engine state afterwards and the outcome
/// reported to the caller.
#[verifier::ext_equal]
pub ghost struct StepOutcome {
    pub state: EngineState,
    pub result: Result<(), EngineError>,
}

/// The state of a freshly constructed engine.
pub open spec fn empty_state() -> EngineState {
    EngineState { accounts: Map::empty(), ledger: Map::empty() }
}

/// A client account as first created: both balances zero, not locked.
pub open spec fn blank_account(client_id: u16) -> ClientAccount {
    ClientAccount { client_id, available: 0, held: 0, locked: false }
}

/// `s` after making sure the client has an account, creating a blank one if
/// none exists yet.
pub open spec fn with_account(s: EngineState, client_id: u16) -> EngineState {
    if s.accounts.dom().contains(client_id) {
        s
    } else {
        EngineState { accounts: s.accounts.insert(client_id, blank_account(client_id)), ..s }
    }
}

/// The client's account, or the blank account a first transaction would
/// create for it.
pub open spec fn account_of(s: EngineState, client_id: u16) -> ClientAccount {
    if s.accounts.dom().contains(client_id) {
        s.accounts[client_id]
    } else {
        blank_account(client_id)
    }
}

/// Whether a mathematical balance fits the signed 64-bit fixed-point
/// representation.
pub open spec fn fits_i64(value: int) -> bool {
    i64::MIN <= value <= i64::MAX
}

/// A deposit after its ledger recording: the account is created if absent,
/// then the amount is validated and credited to the available funds.
pub open spec fn step_deposit(s: EngineState, client_id: u16, amount: i64) -> StepOutcome {
    let s1 = with_account(s, client_id);
    let account = s1.accounts[client_id];
    if amount < 0 {
        StepOutcome { state: s1, result: Err(EngineError::NegativeAmount) }
    } else if !fits_i64(account.available + amount) {
        StepOutcome { state: s1, result: Err(EngineError::BalanceOverflow) }
    } else {
        StepOutcome {
            state: EngineState {
                accounts: s1.accounts.insert(
                    client_id,
                    ClientAccount { available: (account.available + amount) as i64, ..account },
                ),
                ..s1
            },
            result: Ok(()),
        }
    }
}

/// A withdrawal after its ledger recording: the account is created if absent,
/// and the amount is debited from the available funds unless the amount is
/// negative, the account is locked, or the available funds do not cover it.
pub open spec fn step_withdraw(s: EngineState, client_id: u16, amount: i64) -> StepOutcome {
    let s1 = with_account(s, client_id);
    let account = s1.accounts[client_id];
    if amount < 0 {
        StepOutcome { state: s1, result: Err(EngineError::NegativeAmount) }
    } else if account.locked {
        StepOutcome { state: s1, result: Err(EngineError::AccountLocked) }
    } else if account.available < amount {
        StepOutcome { state: s1, result: Err(EngineError::InsufficientFunds) }
    } else {
        StepOutcome {
            state: EngineState {
                accounts: s1.accounts.insert(
                    client_id,
                    ClientAccount { available: (account.available - amount) as i64, ..account },
                ),
                ..s1
            },
            result: Ok(()),
        }
    }
}

/// A dispute: the referenced ledger entry must be a deposit of the same
/// client, whose account must exist and have the deposit's amount available;
/// then that amount moves from available to held and the stored deposit is
/// flagged disputed.
pub open spec fn step_dispute(s: EngineState, transaction_id: u64, client_id: u16) -> StepOutcome {
    if !s.ledger.dom().contains(transaction_id) {
        StepOutcome { state: s, result: Err(EngineError::TransactionNotFound) }
    } else {
        match s.ledger[transaction_id] {
            Transaction::Deposit { transaction_id: stored_id, client_id: owner, amount, disputed: _ } => {
                if client_id != owner {
                    StepOutcome { state: s, result: Err(EngineError::ClientMismatch) }
                } else if !s.accounts.dom().contains(owner) {
                    StepOutcome {
                        state: with_account(s, owner),
                        result: Err(EngineError::UnknownClientForDispute),
                    }
                } else {
                    let account = s.accounts[owner];
                    if account.available < amount {
                        StepOutcome { state: s, result: Err(EngineError::InsufficientAvailableFunds) }
                    } else if !fits_i64(account.held + amount) || !fits_i64(
                        account.available - amount,
                    ) {
                        StepOutcome { state: s, result: Err(EngineError::BalanceOverflow) }
                    } else {
                        StepOutcome {
                            state: EngineState {
                                accounts: s.accounts.insert(
                                    owner,
                                    ClientAccount {
                                        available: (account.available - amount) as i64,
                                        held: (account.held + amount) as i64,
                                        ..account
                                    },
                                ),
                                ledger: s.ledger.insert(
                                    transaction_id,
                                    Transaction::Deposit {
                                        transaction_id: stored_id,
                                        client_id: owner,
                                        amount,
                                        disputed: true,
                                    },
                                ),
                            },
                            result: Ok(()),
                        }
                    }
                }
            },
            _ => StepOutcome { state: s, result: Err(EngineError::TransactionNotFound) },
        }
    }
}

/// A resolve: the referenced ledger entry must be a deposit of the same
/// client, with an existing account and an open dispute, and the held funds
/// must cover its amount; then that amount moves from held back to available
/// and the dispute flag is cleared.
pub open spec fn step_resolve(s: EngineState, transaction_id: u64, client_id: u16) -> StepOutcome {
    if !s.ledger.dom().contains(transaction_id) {
        StepOutcome { state: s, result: Err(EngineError::TransactionNotFound) }
    } else {
        match s.ledger[transaction_id] {
            Transaction::Deposit { transaction_id: stored_id, client_id: owner, amount, disputed } => {
                if client_id != owner {
                    StepOutcome { state: s, result: Err(EngineError::ClientMismatch) }
                } else if !s.accounts.dom().contains(owner) {
                    StepOutcome {
                        state: with_account(s, owner),
                        result: Err(EngineError::UnknownClientForDispute),
                    }
                } else if !disputed {
                    StepOutcome { state: s, result: Err(EngineError::NotDisputed) }
                } else {
                    let account = s.accounts[owner];
                    if account.held < amount {
                        StepOutcome { state: s, result: Err(EngineError::InsufficientHeldFunds) }
                    } else if !fits_i64(account.available + amount) || !fits_i64(
                        account.held - amount,
                    ) {
                        StepOutcome { state: s, result: Err(EngineError::BalanceOverflow) }
                    } else {
                        StepOutcome {
                            state: EngineState {
                                accounts: s.accounts.insert(
                                    owner,
                                    ClientAccount {
                                        available: (account.available + amount) as i64,
                                        held: (account.held - amount) as i64,
                                        ..account
                                    },
                                ),
                                ledger: s.ledger.insert(
                                    transaction_id,
                                    Transaction::Deposit {
                                        transaction_id: stored_id,
                                        client_id: owner,
                                        amount,
                                        disputed: false,
                                    },
                                ),
                            },
                            result: Ok(()),
                        }
                    }
                }
            },
            _ => StepOutcome { state: s, result: Err(EngineError::TransactionNotFound) },
        }
    }
}

/// A chargeback: the same lookup path as a resolve, but without a held-funds
/// sufficiency check; the deposit's amount is removed from held, the account
/// is locked for good, and the dispute flag is cleared.
pub open spec fn step_chargeback(
    s: EngineState,
    transaction_id: u64,
    client_id: u16,
) -> StepOutcome {
    if !s.ledger.dom().contains(transaction_id) {
        StepOutcome { state: s, result: Err(EngineError::TransactionNotFound) }
    } else {
        match s.ledger[transaction_id] {
            Transaction::Deposit { transaction_id: stored_id, client_id: owner, amount, disputed } => {
                if client_id != owner {
                    StepOutcome { state: s, result: Err(EngineError::ClientMismatch) }
                } else if !s.accounts.dom().contains(owner) {
                    StepOutcome {
                        state: with_account(s, owner),
                        result: Err(EngineError::UnknownClientForDispute),
                    }
                } else if !disputed {
                    StepOutcome { state: s, result: Err(EngineError::NotDisputed) }
                } else {
                    let account = s.accounts[owner];
                    if !fits_i64(account.held - amount) {
                        StepOutcome { state: s, result: Err(EngineError::BalanceOverflow) }
                    } else {
                        StepOutcome {
                            state: EngineState {
                                accounts: s.accounts.insert(
                                    owner,
                                    ClientAccount {
                                        held: (account.held - amount) as i64,
                                        locked: true,
                                        ..account
                                    },
                                ),
                                ledger: s.ledger.insert(
                                    transaction_id,
                                    Transaction::Deposit {
                                        transaction_id: stored_id,
                                        client_id: owner,
                                        amount,
                                        disputed: false,
                                    },
                                ),
                            },
                            result: Ok(()),
                        }
                    }
                }
            },
            _ => StepOutcome { state: s, result: Err(EngineError::TransactionNotFound) },
        }
    }
}

/// The whole transition: deposits and withdrawals are first recorded in the
/// ledger (rejected outright when the id is taken, and recorded even when the
/// balance rules then reject them), and every variant's balance rules are
/// applied afterwards.
pub open spec fn step(s: EngineState, t: Transaction) -> StepOutcome {
    match t {
        Transaction::Deposit { transaction_id, client_id, amount, disputed: _ } => {
            if s.ledger.dom().contains(transaction_id) {
                StepOutcome { state: s, result: Err(EngineError::DuplicateTransactionId) }
            } else {
                step_deposit(
                    EngineState { ledger: s.ledger.insert(transaction_id, t), ..s },
                    client_id,
                    amount,
                )
            }
        },
        Transaction::Withdraw { transaction_id, client_id, amount } => {
            if s.ledger.dom().contains(transaction_id) {
                StepOutcome { state: s, result: Err(EngineError::DuplicateTransactionId) }
            } else {
                step_withdraw(
                    EngineState { ledger: s.ledger.insert(transaction_id, t), ..s },
                    client_id,
                    amount,
                )
            }
        },
        Transaction::Dispute { transaction_id, client_id } => step_dispute(
            s,
            transaction_id,
            client_id,
        ),
        Transaction::Resolve { transaction_id, client_id } => step_resolve(
            s,
            transaction_id,
            client_id,
        ),
        Transaction::Chargeback { transaction_id, client_id } => step_chargeback(
            s,
            transaction_id,
            client_id,
        ),
    }
}

/// The state after applying a whole sequence of transactions in order,
/// starting from `s`. Rejected transactions contribute whatever partial
/// effects `step` gives them (ledger recording, account creation) and
/// nothing more.
pub open spec fn run(s: EngineState, transactions: Seq<Transaction>) -> EngineState
    decreases transactions.len(),
{
    if transactions.len() == 0 {
        s
    } else {
        run(step(s, transactions[0]).state, transactions.drop_first())
    }
}

/// The engine's data-model invariant: the ledger holds only deposit and
/// withdrawal records, each stored under its own `transaction_id`, and every
/// account sits under its own `client_id`.
pub open spec fn state_well_formed(s: EngineState) -> bool {
    &&& forall|t: u64| #[trigger] s.ledger.dom().contains(t) ==> {
        &&& (s.ledger[t] is Deposit || s.ledger[t] is Withdraw)
        &&& s.ledger[t].spec_transaction_id() == t
    }
    &&& forall|c: u16| #[trigger] s.accounts.dom().contains(c) ==> s.accounts[c].client_id == c
}

/// A fresh engine is well formed.
pub proof fn lemma_empty_state_well_formed()
    ensures
        state_well_formed(empty_state()),
{
}

/// Every transaction, accepted or rejected, leaves the engine well formed.
pub proof fn lemma_step_preserves_well_formed(s: EngineState, t: Transaction)
    requires
        state_well_formed(s),
    ensures
        state_well_formed(step(s, t).state),
{
}

/// A whole sequence of transactions leaves the engine well formed.
pub proof fn lemma_run_preserves_well_formed(s: EngineState, transactions: Seq<Transaction>)
    requires
        state_well_formed(s),
    ensures
        state_well_formed(run(s, transactions)),
    decreases transactions.len(),
{
    if transactions.len() > 0 {
        lemma_step_preserves_well_formed(s, transactions[0]);
        lemma_run_preserves_well_formed(step(s, transactions[0]).state, transactions.drop_first());
    }
}

} // verus!
