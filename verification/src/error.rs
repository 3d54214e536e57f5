use vstd::prelude::*;

verus! {

/// Why the engine rejected one transaction. Every failure is local to the
/// `handle` call that produced it; processing of later transactions can
/// always continue.
#[derive(Clone, Copy, Debug, PartialEq, Eq, Structural)]
pub enum EngineError {
    /// A deposit or withdrawal reused a `transaction_id` already in the ledger.
    DuplicateTransactionId,
    /// A deposit or withdrawal carried a negative amount.
    NegativeAmount,
    /// A withdrawal was attempted on a locked account.
    AccountLocked,
    /// A withdrawal asked for more than the available balance.
    InsufficientFunds,
    /// A dispute, resolve or chargeback referenced an id absent from the
    /// ledger, or one recorded for a withdrawal rather than a deposit.
    TransactionNotFound,
    /// The command's client id disagrees with the referenced deposit's.
    ClientMismatch,
    /// The referenced deposit's client has no account. The engine creates the
    /// missing account as a side effect and still reports the error.
    UnknownClientForDispute,
    /// A dispute would drive the available balance below zero.
    InsufficientAvailableFunds,
    /// A resolve or chargeback was raised on a deposit not currently disputed.
    NotDisputed,
    /// A resolve would drive the held balance below zero.
    InsufficientHeldFunds,
    /// The mutation's result would not fit in the signed 64-bit fixed-point
    /// representation; the balances are left untouched.
    BalanceOverflow,
}

impl EngineError {
    /// A short description, for callers that log rejected transactions.
    pub fn describe(&self) -> (message: &'static str)
        ensures
            self is DuplicateTransactionId ==> message@ == "transaction id is not unique"@,
            self is NegativeAmount ==> message@ == "amount is negative"@,
            self is AccountLocked ==> message@ == "client account is locked"@,
            self is InsufficientFunds ==> message@ == "client account does not have enough funds"@,
            self is TransactionNotFound ==> message@ == "disputed transaction does not exist"@,
            self is ClientMismatch ==> message@ == "client does not have this transaction id"@,
            self is UnknownClientForDispute ==> message@
                == "could not find the client for the dispute"@,
            self is InsufficientAvailableFunds ==> message@
                == "client does not have enough funds to dispute"@,
            self is InsufficientHeldFunds ==> message@
                == "client does not have enough held funds to resolve"@,
            self is NotDisputed ==> message@ == "transaction has not been disputed"@,
            self is BalanceOverflow ==> message@
                == "balance does not fit in the fixed-point range"@,
    {
        match self {
            EngineError::DuplicateTransactionId => "transaction id is not unique",
            EngineError::NegativeAmount => "amount is negative",
            EngineError::AccountLocked => "client account is locked",
            EngineError::InsufficientFunds => "client account does not have enough funds",
            EngineError::TransactionNotFound => "disputed transaction does not exist",
            EngineError::ClientMismatch => "client does not have this transaction id",
            EngineError::UnknownClientForDispute => "could not find the client for the dispute",
            EngineError::InsufficientAvailableFunds => "client does not have enough funds to dispute",
            EngineError::InsufficientHeldFunds => "client does not have enough held funds to resolve",
            EngineError::NotDisputed => "transaction has not been disputed",
            EngineError::BalanceOverflow => "balance does not fit in the fixed-point range",
        }
    }
}

} // verus!
