use vstd::prelude::*;

verus! {

/// One client's balance sheet.
///
/// Monetary quantities are fixed-point numbers of `crate::transaction::AMOUNT_SCALE`
/// units per whole currency unit, stored in a signed 64-bit integer.
#[derive(Clone, Copy, Debug, PartialEq, Eq, Structural)]
pub struct ClientAccount {
    /// The "client" column of the input: the account's unique key.
    pub client_id: u16,
    /// Funds the client may withdraw or have disputed.
    pub available: i64,
    /// Funds frozen by open disputes.
    pub held: i64,
    /// True once a chargeback has occurred; never cleared afterwards.
    pub locked: bool,
}

impl ClientAccount {
    /// A fresh account: both balances zero, not locked.
    pub fn new(client_id: u16) -> (account: ClientAccount)
        ensures
            account == (ClientAccount { client_id, available: 0, held: 0, locked: false }),
    {
        ClientAccount { client_id, available: 0, held: 0, locked: false }
    }

    /// The derived total balance. It is computed, never stored, and is widened
    /// to 128 bits so that the sum cannot overflow.
    pub fn total(&self) -> (total: i128)
        ensures
            total == self.available + self.held,
    {
        self.available as i128 + self.held as i128
    }
}

} // verus!
