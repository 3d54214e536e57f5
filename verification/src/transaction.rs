use vstd::prelude::*;

verus! {

/// Fixed-point units per whole currency unit: amounts carry four decimal
/// places, so a balance of one half is stored as `5000`.
pub const AMOUNT_SCALE: i64 = 10000;

/// One submitted transaction record.
///
/// Every variant carries the `tx` column as `transaction_id` and the `client`
/// column as `client_id`. Amounts are fixed-point (see [`AMOUNT_SCALE`]);
/// they are signed so that a negative submission can be represented and then
/// rejected by the engine.
#[derive(Clone, Copy, Debug, PartialEq, Eq, Structural)]
pub enum Transaction {
    /// Credit `amount` to the client's available funds.
    Deposit {
        transaction_id: u64,
        client_id: u16,
        amount: i64,
        /// Internal bookkeeping: true while a dispute on this deposit is
        /// open. Never populated from input; submitters pass `false`.
        disputed: bool,
    },
    /// Debit `amount` from the client's available funds.
    Withdraw {
        transaction_id: u64,
        client_id: u16,
        amount: i64,
    },
    /// Claim that the deposit recorded under `transaction_id` was erroneous,
    /// freezing its amount.
    Dispute {
        transaction_id: u64,
        client_id: u16,
    },
    /// Settle an open dispute in the client's favour, releasing the frozen
    /// amount back to available funds.
    Resolve {
        transaction_id: u64,
        client_id: u16,
    },
    /// Settle an open dispute against the client: the frozen amount is
    /// withdrawn and the account is locked.
    Chargeback {
        transaction_id: u64,
        client_id: u16,
    },
}

impl Transaction {
    /// The `tx` column: the id every variant carries.
    pub open spec fn spec_transaction_id(self) -> u64 {
        match self {
            Transaction::Deposit { transaction_id, .. } => transaction_id,
            Transaction::Withdraw { transaction_id, .. } => transaction_id,
            Transaction::Dispute { transaction_id, .. } => transaction_id,
            Transaction::Resolve { transaction_id, .. } => transaction_id,
            Transaction::Chargeback { transaction_id, .. } => transaction_id,
        }
    }

    /// The `client` column: the id every variant carries.
    pub open spec fn spec_client_id(self) -> u16 {
        match self {
            Transaction::Deposit { client_id, .. } => client_id,
            Transaction::Withdraw { client_id, .. } => client_id,
            Transaction::Dispute { client_id, .. } => client_id,
            Transaction::Resolve { client_id, .. } => client_id,
            Transaction::Chargeback { client_id, .. } => client_id,
        }
    }

    /// The amount carried by a deposit or withdrawal; the command variants
    /// carry none, and count as zero.
    pub open spec fn spec_amount(self) -> i64 {
        match self {
            Transaction::Deposit { amount, .. } => amount,
            Transaction::Withdraw { amount, .. } => amount,
            _ => 0,
        }
    }

    /// The dispute flag of a stored deposit; false for every other variant.
    pub open spec fn spec_disputed(self) -> bool {
        match self {
            Transaction::Deposit { disputed, .. } => disputed,
            _ => false,
        }
    }

    /// `self` with its dispute flag set as given; the identity on every
    /// variant but a deposit.
    pub open spec fn with_disputed(self, disputed: bool) -> Transaction {
        match self {
            Transaction::Deposit { transaction_id, client_id, amount, disputed: _ } => {
                Transaction::Deposit { transaction_id, client_id, amount, disputed }
            },
            _ => self,
        }
    }

    /// The variant's name, for callers that report rejected transactions.
    pub fn variant_name(&self) -> (name: &'static str)
        ensures
            self is Deposit ==> name@ == "Deposit"@,
            self is Withdraw ==> name@ == "Withdraw"@,
            self is Dispute ==> name@ == "Dispute"@,
            self is Resolve ==> name@ == "Resolve"@,
            self is Chargeback ==> name@ == "Chargeback"@,
    {
        match self {
            Transaction::Deposit { .. } => "Deposit",
            Transaction::Withdraw { .. } => "Withdraw",
            Transaction::Dispute { .. } => "Dispute",
            Transaction::Resolve { .. } => "Resolve",
            Transaction::Chargeback { .. } => "Chargeback",
        }
    }
}

} // verus!
