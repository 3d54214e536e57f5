//! Engine-wide laws, each proved against the transition function
//! [`crate::model::step`] that [`crate::TransactionEngine::handle`]
//! implements.

use vstd::prelude::*;

use crate::error::EngineError;
use crate::model::{account_of, empty_state, run, step, EngineState};
use crate::transaction::Transaction;

verus! {

/// Whether the transaction is one of the two record-bearing variants.
pub open spec fn is_deposit_or_withdraw(t: Transaction) -> bool {
    t is Deposit || t is Withdraw
}

/// Whether every transaction in the sequence is a deposit or a withdrawal.
pub open spec fn all_deposits_or_withdraws(transactions: Seq<Transaction>) -> bool {
    forall|i: int|
        0 <= i < transactions.len() ==> is_deposit_or_withdraw(#[trigger] transactions[i])
}

/// Whether no two transactions in the sequence share a `transaction_id`.
pub open spec fn unique_transaction_ids(transactions: Seq<Transaction>) -> bool {
    forall|i: int, j: int|
        0 <= i < j < transactions.len() ==> (#[trigger] transactions[i]).spec_transaction_id() != (
        #[trigger] transactions[j]).spec_transaction_id()
}

/// Whether every amount in the sequence is non-negative.
pub open spec fn non_negative_amounts(transactions: Seq<Transaction>) -> bool {
    forall|i: int| 0 <= i < transactions.len() ==> (#[trigger] transactions[i]).spec_amount() >= 0
}

/// The signed change a transaction makes to client `c`'s available funds
/// when it succeeds: its amount for a deposit of `c`, the negated amount for
/// a withdrawal of `c`, nothing otherwise.
pub open spec fn signed_amount_for(t: Transaction, c: u16) -> int {
    match t {
        Transaction::Deposit { client_id, amount, .. } => if client_id == c {
            amount as int
        } else {
            0
        },
        Transaction::Withdraw { client_id, amount, .. } => if client_id == c {
            -(amount as int)
        } else {
            0
        },
        _ => 0,
    }
}

/// The sum of the successful deposit amounts minus the successful withdrawal
/// amounts for client `c` when `transactions` is applied in order from `s`;
/// a transaction counts as successful exactly when `step` reports `Ok` at
/// its turn.
pub open spec fn net_successful_flow(s: EngineState, transactions: Seq<Transaction>, c: u16) -> int
    decreases transactions.len(),
{
    if transactions.len() == 0 {
        0
    } else {
        let outcome = step(s, transactions[0]);
        (if outcome.result is Ok {
            signed_amount_for(transactions[0], c)
        } else {
            0
        }) + net_successful_flow(outcome.state, transactions.drop_first(), c)
    }
}

/// Deposits and withdrawals move available funds by exactly their amount
/// when they succeed and otherwise leave every balance alone; held funds and
/// the lock flag are never touched by them.
proof fn lemma_net_flow(s: EngineState, transactions: Seq<Transaction>, c: u16)
    requires
        all_deposits_or_withdraws(transactions),
    ensures
        account_of(run(s, transactions), c).available == account_of(s, c).available
            + net_successful_flow(s, transactions, c),
        account_of(run(s, transactions), c).held == account_of(s, c).held,
        account_of(run(s, transactions), c).locked == account_of(s, c).locked,
    decreases transactions.len(),
{
    if transactions.len() > 0 {
        let outcome = step(s, transactions[0]);
        assert(all_deposits_or_withdraws(transactions.drop_first())) by {
            assert forall|i: int|
                0 <= i < transactions.drop_first().len() implies is_deposit_or_withdraw(
                #[trigger] transactions.drop_first()[i]) by {
                assert(transactions.drop_first()[i] == transactions[i + 1]);
            }
        }
        lemma_net_flow(outcome.state, transactions.drop_first(), c);
    }
}

/// Law: over any sequence of deposits and withdrawals with unique ids and
/// non-negative amounts, each client's final available funds differ from the
/// starting ones by exactly the sum of that client's successful deposit
/// amounts minus its successful withdrawal amounts, while held funds and the
/// lock flag are untouched — so the derived total moves by the same sum.
pub proof fn lemma_available_is_net_of_successes(
    s: EngineState,
    transactions: Seq<Transaction>,
    c: u16,
)
    requires
        all_deposits_or_withdraws(transactions),
        unique_transaction_ids(transactions),
        non_negative_amounts(transactions),
    ensures
        account_of(run(s, transactions), c).available == account_of(s, c).available
            + net_successful_flow(s, transactions, c),
        account_of(run(s, transactions), c).held == account_of(s, c).held,
        account_of(run(s, transactions), c).locked == account_of(s, c).locked,
{
    lemma_net_flow(s, transactions, c);
}

/// Law: from a fresh engine, after deposits and withdrawals only (unique
/// ids, non-negative amounts), a client's available funds are exactly the
/// net of the successful amounts, its held funds are zero, and its account
/// is not locked.
pub proof fn lemma_fresh_engine_net_flow(transactions: Seq<Transaction>, c: u16)
    requires
        all_deposits_or_withdraws(transactions),
        unique_transaction_ids(transactions),
        non_negative_amounts(transactions),
    ensures
        account_of(run(empty_state(), transactions), c).available == net_successful_flow(
            empty_state(),
            transactions,
            c,
        ),
        account_of(run(empty_state(), transactions), c).held == 0,
        !account_of(run(empty_state(), transactions), c).locked,
{
    lemma_net_flow(empty_state(), transactions, c);
}

/// Law: a deposit or withdrawal whose id is already in the ledger is
/// rejected as a duplicate and leaves the whole engine state exactly as it
/// was.
pub proof fn lemma_duplicate_id_rejected(s: EngineState, t: Transaction)
    requires
        is_deposit_or_withdraw(t),
        s.ledger.dom().contains(t.spec_transaction_id()),
    ensures
        step(s, t).state == s,
        step(s, t).result == Err::<(), EngineError>(EngineError::DuplicateTransactionId),
{
}

/// Law: a withdrawal on a locked account, or one asking for more than the
/// available funds, fails and changes no client's available, held or locked
/// state. When the id is fresh and the amount non-negative, the failure is
/// `AccountLocked` on a locked account and `InsufficientFunds` otherwise.
pub proof fn lemma_failed_withdrawal_changes_no_balance(s: EngineState, t: Transaction)
    requires
        t is Withdraw,
        account_of(s, t.spec_client_id()).locked || account_of(s, t.spec_client_id()).available
            < t.spec_amount(),
    ensures
        step(s, t).result is Err,
        forall|c: u16|
            (#[trigger] account_of(step(s, t).state, c)).available == account_of(s, c).available,
        forall|c: u16| (#[trigger] account_of(step(s, t).state, c)).held == account_of(s, c).held,
        forall|c: u16|
            (#[trigger] account_of(step(s, t).state, c)).locked == account_of(s, c).locked,
        !s.ledger.dom().contains(t.spec_transaction_id()) && t.spec_amount() >= 0 && account_of(
            s,
            t.spec_client_id(),
        ).locked ==> step(s, t).result == Err::<(), EngineError>(EngineError::AccountLocked),
        !s.ledger.dom().contains(t.spec_transaction_id()) && t.spec_amount() >= 0 && !account_of(
            s,
            t.spec_client_id(),
        ).locked ==> step(s, t).result == Err::<(), EngineError>(EngineError::InsufficientFunds),
{
}

/// Law: a successful dispute followed by a successful resolve of the same
/// transaction restores every account — available and held funds included —
/// to its pre-dispute state, and leaves the referenced deposit recorded with
/// its dispute flag cleared.
pub proof fn lemma_dispute_resolve_round_trip(s: EngineState, transaction_id: u64, client_id: u16)
    requires
        step(s, Transaction::Dispute { transaction_id, client_id }).result is Ok,
        step(
            step(s, Transaction::Dispute { transaction_id, client_id }).state,
            Transaction::Resolve { transaction_id, client_id },
        ).result is Ok,
    ensures
        ({
            let s2 = step(
                step(s, Transaction::Dispute { transaction_id, client_id }).state,
                Transaction::Resolve { transaction_id, client_id },
            ).state;
            &&& s2.accounts == s.accounts
            &&& s2.ledger == s.ledger.insert(
                transaction_id,
                s.ledger[transaction_id].with_disputed(false),
            )
        }),
{
    let s2 = step(
        step(s, Transaction::Dispute { transaction_id, client_id }).state,
        Transaction::Resolve { transaction_id, client_id },
    ).state;
    assert(s2.accounts =~= s.accounts);
    assert(s2.ledger =~= s.ledger.insert(
        transaction_id,
        s.ledger[transaction_id].with_disputed(false),
    ));
}

/// Law: a successful chargeback locks the charged client's account.
pub proof fn lemma_chargeback_locks(s: EngineState, transaction_id: u64, client_id: u16)
    requires
        step(s, Transaction::Chargeback { transaction_id, client_id }).result is Ok,
    ensures
        account_of(
            step(s, Transaction::Chargeback { transaction_id, client_id }).state,
            client_id,
        ).locked,
{
}

/// Law: once an account is locked, no single transaction — of any variant,
/// for any client — unlocks it.
pub proof fn lemma_locked_is_permanent(s: EngineState, t: Transaction, client_id: u16)
    requires
        account_of(s, client_id).locked,
    ensures
        account_of(step(s, t).state, client_id).locked,
{
}

/// Law: once an account is locked, it stays locked through any sequence of
/// subsequent transactions.
pub proof fn lemma_locked_is_permanent_run(
    s: EngineState,
    transactions: Seq<Transaction>,
    client_id: u16,
)
    requires
        account_of(s, client_id).locked,
    ensures
        account_of(run(s, transactions), client_id).locked,
    decreases transactions.len(),
{
    if transactions.len() > 0 {
        lemma_locked_is_permanent(s, transactions[0], client_id);
        lemma_locked_is_permanent_run(
            step(s, transactions[0]).state,
            transactions.drop_first(),
            client_id,
        );
    }
}

/// Law: a resolve or chargeback of a recorded deposit that is not currently
/// disputed fails with `NotDisputed` and changes nothing at all.
pub proof fn lemma_undisputed_settlement_changes_nothing(s: EngineState, t: Transaction)
    requires
        t is Resolve || t is Chargeback,
        s.ledger.dom().contains(t.spec_transaction_id()),
        s.ledger[t.spec_transaction_id()] is Deposit,
        s.ledger[t.spec_transaction_id()].spec_client_id() == t.spec_client_id(),
        s.accounts.dom().contains(t.spec_client_id()),
        !s.ledger[t.spec_transaction_id()].spec_disputed(),
    ensures
        step(s, t).state == s,
        step(s, t).result == Err::<(), EngineError>(EngineError::NotDisputed),
{
}

/// Law: a dispute that references a recorded withdrawal rather than a
/// deposit fails — the lookup wants a deposit-shaped record — and changes
/// nothing.
pub proof fn lemma_dispute_of_withdrawal_fails(s: EngineState, transaction_id: u64, client_id: u16)
    requires
        s.ledger.dom().contains(transaction_id),
        s.ledger[transaction_id] is Withdraw,
    ensures
        step(s, Transaction::Dispute { transaction_id, client_id }).state == s,
        step(s, Transaction::Dispute { transaction_id, client_id }).result == Err::<
            (),
            EngineError,
        >(EngineError::TransactionNotFound),
{
}

} // verus!
