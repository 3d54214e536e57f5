use transaction::{EngineError, Transaction, TransactionEngine};

#[test]
fn creates_client_after_deposit() {
    let client_id: u16 = 10;
    let deposit_amount: i64 = 157000; // 15.7 in fixed-point units

    let mut engine = TransactionEngine::default();

    let transaction = Transaction::Deposit {
        transaction_id: 100,
        client_id,
        amount: deposit_amount,
        disputed: false,
    };
    engine.handle(transaction).unwrap();

    let client = engine
        .client_accounts
        .get(&client_id)
        .expect("client does not exist");

    assert_eq!(client.available, deposit_amount);
}

#[test]
fn creates_client_after_withdraw() {
    let client_id: u16 = 10;
    let amount: i64 = 157000; // 15.7

    let mut engine = TransactionEngine::default();

    let transaction = Transaction::Withdraw {
        transaction_id: 100,
        client_id,
        amount,
    };

    // Expected to error
    engine.handle(transaction).unwrap_or_default();

    let client = engine
        .client_accounts
        .get(&client_id)
        .expect("client does not exist");

    assert_eq!(client.available, 0);
}

#[test]
fn withdraws_valid_amount() {
    let client_id: u16 = 10;
    let deposit_amount: i64 = 1005000; // 100.5
    let withdraw_amount: i64 = 502500; // 50.25

    let mut engine = TransactionEngine::default();

    // Deposit then withdraw
    let deposit = Transaction::Deposit {
        transaction_id: 100,
        client_id,
        amount: deposit_amount,
        disputed: false,
    };
    engine.handle(deposit).unwrap();

    let withdraw = Transaction::Withdraw {
        transaction_id: 50,
        client_id,
        amount: withdraw_amount,
    };
    engine.handle(withdraw).unwrap();

    let client = engine
        .client_accounts
        .get(&client_id)
        .expect("client does not exist");

    assert_eq!(client.available, deposit_amount - withdraw_amount);
    assert_eq!(client.held, 0);
    assert!(!client.locked);
}

#[test]
fn withdraws_invalid_amount() {
    let client_id: u16 = 10;
    let deposit_amount: i64 = 1005000; // 100.5
    let withdraw_amount: i64 = 1502500; // 150.25

    let mut engine = TransactionEngine::default();

    let deposit = Transaction::Deposit {
        transaction_id: 100,
        client_id,
        amount: deposit_amount,
        disputed: false,
    };
    engine.handle(deposit).unwrap();

    // Expected to fail
    let withdraw = Transaction::Withdraw {
        transaction_id: 50,
        client_id,
        amount: withdraw_amount,
    };
    engine.handle(withdraw).unwrap_or_default();

    let client = engine
        .client_accounts
        .get(&client_id)
        .expect("client does not exist");

    assert_eq!(client.available, deposit_amount);
    assert_eq!(client.held, 0);
    assert!(!client.locked);
}

#[test]
fn withdraws_ignored_when_locked() {
    let client_id: u16 = 10;
    let deposit_amount: i64 = 1005000; // 100.5
    let withdraw_amount: i64 = 502500; // 50.25

    let mut engine = TransactionEngine::default();

    let deposit = Transaction::Deposit {
        transaction_id: 100,
        client_id,
        amount: deposit_amount,
        disputed: false,
    };
    engine.handle(deposit).unwrap();

    // Mock the account being locked
    {
        let client = engine
            .client_accounts
            .get_mut(&client_id)
            .expect("client does not exist");
        client.locked = true;
    }

    // Try withdraw valid amount - Expected fail
    let withdraw = Transaction::Withdraw {
        transaction_id: 50,
        client_id,
        amount: withdraw_amount,
    };
    engine.handle(withdraw).unwrap_or_default();

    let client = engine
        .client_accounts
        .get(&client_id)
        .expect("client does not exist");

    assert_eq!(client.available, deposit_amount);
    assert_eq!(client.held, 0);
    assert!(client.locked);
}

#[test]
fn disputes_valid_transaction() {
    let client_id: u16 = 10;
    let deposit_amount: i64 = 1005000; // 100.5
    let transaction_id: u64 = 100;

    let mut engine = TransactionEngine::default();

    let deposit = Transaction::Deposit {
        transaction_id,
        client_id,
        amount: deposit_amount,
        disputed: false,
    };
    engine.handle(deposit).unwrap();

    // Now dispute it
    let dispute = Transaction::Dispute {
        transaction_id,
        client_id,
    };
    engine.handle(dispute).unwrap();
}

#[test]
fn disputes_invalid_transaction() {
    let client_id: u16 = 10;
    let deposit_amount: i64 = 1005000; // 100.5
    let transaction_id: u64 = 100;

    let mut engine = TransactionEngine::default();

    let deposit = Transaction::Deposit {
        transaction_id,
        client_id,
        amount: deposit_amount,
        disputed: false,
    };
    engine.handle(deposit).unwrap();

    // Now dispute a different id
    let dispute = Transaction::Dispute {
        transaction_id: transaction_id + 1,
        client_id,
    };

    // Expected to fail
    assert!(engine.handle(dispute).is_err());
}

#[test]
fn disputes_withdrawn_amount() {
    let client_id: u16 = 10;
    let deposit_amount: i64 = 1005000; // 100.5
    let withdraw_amount: i64 = 500000; // 50.0
    let transaction_id: u64 = 100;

    let mut engine = TransactionEngine::default();

    let deposit = Transaction::Deposit {
        transaction_id,
        client_id,
        amount: deposit_amount,
        disputed: false,
    };
    engine.handle(deposit).unwrap();

    let withdraw = Transaction::Withdraw {
        transaction_id: 101,
        client_id,
        amount: withdraw_amount,
    };
    engine.handle(withdraw).unwrap();

    // Now dispute the deposit: the remaining available funds no longer
    // cover it
    let dispute = Transaction::Dispute {
        transaction_id,
        client_id,
    };
    assert!(engine.handle(dispute).is_err());
}

#[test]
fn resolves_valid_transaction() {
    let client_id: u16 = 10;
    let deposit_amount: i64 = 1005000; // 100.5
    let transaction_id: u64 = 100;

    let mut engine = TransactionEngine::default();

    let deposit = Transaction::Deposit {
        transaction_id,
        client_id,
        amount: deposit_amount,
        disputed: false,
    };
    engine.handle(deposit).unwrap();

    let dispute = Transaction::Dispute {
        transaction_id,
        client_id,
    };
    engine.handle(dispute).unwrap();

    let resolve = Transaction::Resolve {
        transaction_id,
        client_id,
    };
    engine.handle(resolve).unwrap();
}

#[test]
fn resolves_undisputed_transaction() {
    let client_id: u16 = 10;
    let deposit_amount: i64 = 1005000; // 100.5
    let transaction_id: u64 = 100;

    let mut engine = TransactionEngine::default();

    let deposit = Transaction::Deposit {
        transaction_id,
        client_id,
        amount: deposit_amount,
        disputed: false,
    };
    engine.handle(deposit).unwrap();

    let resolve = Transaction::Resolve {
        transaction_id,
        client_id,
    };
    assert!(engine.handle(resolve).is_err());
}

#[test]
fn chargeback_valid_transaction() {
    let client_id: u16 = 10;
    let deposit_amount: i64 = 1005000; // 100.5
    let transaction_id: u64 = 100;

    let mut engine = TransactionEngine::default();

    let deposit = Transaction::Deposit {
        transaction_id,
        client_id,
        amount: deposit_amount,
        disputed: false,
    };
    engine.handle(deposit).unwrap();

    let dispute = Transaction::Dispute {
        transaction_id,
        client_id,
    };
    engine.handle(dispute).unwrap();

    // Make sure we're not locked yet
    {
        let client = engine.client_accounts.get(&client_id).unwrap();
        assert!(!client.locked);
    }

    let chargeback = Transaction::Chargeback {
        transaction_id,
        client_id,
    };
    engine.handle(chargeback).unwrap();

    // Make sure we're locked
    {
        let client = engine.client_accounts.get(&client_id).unwrap();
        assert!(client.locked);
    }
}

#[test]
fn chargeback_undisputed_transaction() {
    let client_id: u16 = 10;
    let deposit_amount: i64 = 1005000; // 100.5
    let transaction_id: u64 = 100;

    let mut engine = TransactionEngine::default();

    let deposit = Transaction::Deposit {
        transaction_id,
        client_id,
        amount: deposit_amount,
        disputed: false,
    };
    engine.handle(deposit).unwrap();

    {
        let client = engine.client_accounts.get(&client_id).unwrap();
        assert!(!client.locked);
    }

    let chargeback = Transaction::Chargeback {
        transaction_id,
        client_id,
    };
    assert!(engine.handle(chargeback).is_err());

    {
        let client = engine.client_accounts.get(&client_id).unwrap();
        assert!(!client.locked);
    }
}

#[test]
fn duplicate_transaction_id_rejected_and_ledgered_once() {
    let mut engine = TransactionEngine::default();
    let deposit = Transaction::Deposit {
        transaction_id: 7,
        client_id: 1,
        amount: 10000,
        disputed: false,
    };
    engine.handle(deposit).unwrap();
    // The same id again, even as another variant's record, is a duplicate
    let again = Transaction::Withdraw {
        transaction_id: 7,
        client_id: 1,
        amount: 5000,
    };
    assert_eq!(engine.handle(again), Err(EngineError::DuplicateTransactionId));
    let client = engine.client_accounts.get(&1u16).unwrap();
    assert_eq!(client.available, 10000);
    assert_eq!(client.held, 0);
}

#[test]
fn negative_deposit_rejected_but_still_ledgered() {
    let mut engine = TransactionEngine::default();
    let bad = Transaction::Deposit {
        transaction_id: 9,
        client_id: 3,
        amount: -10000,
        disputed: false,
    };
    assert_eq!(engine.handle(bad), Err(EngineError::NegativeAmount));
    // The account was still created, with nothing in it
    let client = engine.client_accounts.get(&3u16).unwrap();
    assert_eq!(client.available, 0);
    // The record was ledgered before validation: reusing the id fails
    let reuse = Transaction::Deposit {
        transaction_id: 9,
        client_id: 3,
        amount: 10000,
        disputed: false,
    };
    assert_eq!(engine.handle(reuse), Err(EngineError::DuplicateTransactionId));
}

#[test]
fn withdrawal_errors_are_precise() {
    let mut engine = TransactionEngine::default();
    engine
        .handle(Transaction::Deposit {
            transaction_id: 1,
            client_id: 1,
            amount: 100000,
            disputed: false,
        })
        .unwrap();
    assert_eq!(
        engine.handle(Transaction::Withdraw { transaction_id: 2, client_id: 1, amount: -1 }),
        Err(EngineError::NegativeAmount)
    );
    assert_eq!(
        engine.handle(Transaction::Withdraw { transaction_id: 3, client_id: 1, amount: 100001 }),
        Err(EngineError::InsufficientFunds)
    );
    engine.client_accounts.get_mut(&1u16).unwrap().locked = true;
    assert_eq!(
        engine.handle(Transaction::Withdraw { transaction_id: 4, client_id: 1, amount: 1 }),
        Err(EngineError::AccountLocked)
    );
    assert_eq!(engine.client_accounts.get(&1u16).unwrap().available, 100000);
}

#[test]
fn dispute_errors_are_precise() {
    let mut engine = TransactionEngine::default();
    engine
        .handle(Transaction::Deposit {
            transaction_id: 100,
            client_id: 1,
            amount: 100000,
            disputed: false,
        })
        .unwrap();
    assert_eq!(
        engine.handle(Transaction::Dispute { transaction_id: 99, client_id: 1 }),
        Err(EngineError::TransactionNotFound)
    );
    assert_eq!(
        engine.handle(Transaction::Dispute { transaction_id: 100, client_id: 2 }),
        Err(EngineError::ClientMismatch)
    );
    engine
        .handle(Transaction::Withdraw { transaction_id: 101, client_id: 1, amount: 60000 })
        .unwrap();
    assert_eq!(
        engine.handle(Transaction::Dispute { transaction_id: 100, client_id: 1 }),
        Err(EngineError::InsufficientAvailableFunds)
    );
}

#[test]
fn settlement_errors_are_precise() {
    let mut engine = TransactionEngine::default();
    engine
        .handle(Transaction::Deposit {
            transaction_id: 100,
            client_id: 1,
            amount: 100000,
            disputed: false,
        })
        .unwrap();
    engine
        .handle(Transaction::Withdraw { transaction_id: 101, client_id: 1, amount: 10000 })
        .unwrap();
    // Never disputed: both settlement commands say so
    assert_eq!(
        engine.handle(Transaction::Resolve { transaction_id: 100, client_id: 1 }),
        Err(EngineError::NotDisputed)
    );
    assert_eq!(
        engine.handle(Transaction::Chargeback { transaction_id: 100, client_id: 1 }),
        Err(EngineError::NotDisputed)
    );
    // A withdrawal is never a settlement target
    assert_eq!(
        engine.handle(Transaction::Resolve { transaction_id: 101, client_id: 1 }),
        Err(EngineError::TransactionNotFound)
    );
    // The wrong client cannot settle someone else's deposit
    assert_eq!(
        engine.handle(Transaction::Chargeback { transaction_id: 100, client_id: 2 }),
        Err(EngineError::ClientMismatch)
    );
    let client = engine.client_accounts.get(&1u16).unwrap();
    assert_eq!(client.available, 90000);
    assert_eq!(client.held, 0);
    assert!(!client.locked);
}

#[test]
fn dispute_of_unknown_client_creates_account_and_errors() {
    // A ledger entry whose client has no account cannot arise through
    // `handle` alone; build the state directly to pin the defensive path.
    let mut engine = TransactionEngine::default();
    engine.ledger.insert(
        100,
        Transaction::Deposit {
            transaction_id: 100,
            client_id: 5,
            amount: 10000,
            disputed: false,
        },
    );
    assert_eq!(
        engine.handle(Transaction::Dispute { transaction_id: 100, client_id: 5 }),
        Err(EngineError::UnknownClientForDispute)
    );
    // The missing account was created as a side effect
    let client = engine.client_accounts.get(&5u16).unwrap();
    assert_eq!(client.available, 0);
    assert_eq!(client.held, 0);
    assert!(!client.locked);
}

#[test]
fn resolve_with_insufficient_held_funds() {
    let mut engine = TransactionEngine::default();
    engine.ledger.insert(
        100,
        Transaction::Deposit {
            transaction_id: 100,
            client_id: 1,
            amount: 100000,
            disputed: true,
        },
    );
    engine.client_accounts.insert(
        1,
        transaction::ClientAccount {
            client_id: 1,
            available: 0,
            held: 50000,
            locked: false,
        },
    );
    assert_eq!(
        engine.handle(Transaction::Resolve { transaction_id: 100, client_id: 1 }),
        Err(EngineError::InsufficientHeldFunds)
    );
    let client = engine.client_accounts.get(&1u16).unwrap();
    assert_eq!(client.held, 50000);
}

#[test]
fn deposit_overflow_is_rejected_without_effect() {
    let mut engine = TransactionEngine::default();
    engine
        .handle(Transaction::Deposit {
            transaction_id: 1,
            client_id: 1,
            amount: i64::MAX,
            disputed: false,
        })
        .unwrap();
    assert_eq!(
        engine.handle(Transaction::Deposit {
            transaction_id: 2,
            client_id: 1,
            amount: 1,
            disputed: false,
        }),
        Err(EngineError::BalanceOverflow)
    );
    assert_eq!(engine.client_accounts.get(&1u16).unwrap().available, i64::MAX);
}

#[test]
fn second_dispute_applies_again() {
    // A dispute of an already-disputed deposit is not guarded against and
    // moves the amount a second time.
    let mut engine = TransactionEngine::default();
    engine
        .handle(Transaction::Deposit {
            transaction_id: 1,
            client_id: 1,
            amount: 100000,
            disputed: false,
        })
        .unwrap();
    engine
        .handle(Transaction::Deposit {
            transaction_id: 2,
            client_id: 1,
            amount: 100000,
            disputed: false,
        })
        .unwrap();
    engine.handle(Transaction::Dispute { transaction_id: 1, client_id: 1 }).unwrap();
    engine.handle(Transaction::Dispute { transaction_id: 1, client_id: 1 }).unwrap();
    let client = engine.client_accounts.get(&1u16).unwrap();
    assert_eq!(client.available, 0);
    assert_eq!(client.held, 200000);
}

#[test]
fn dispute_resolve_round_trip_restores_balances() {
    let mut engine = TransactionEngine::default();
    engine
        .handle(Transaction::Deposit {
            transaction_id: 1,
            client_id: 1,
            amount: 70000,
            disputed: false,
        })
        .unwrap();
    engine
        .handle(Transaction::Deposit {
            transaction_id: 2,
            client_id: 1,
            amount: 30000,
            disputed: false,
        })
        .unwrap();
    engine.handle(Transaction::Dispute { transaction_id: 1, client_id: 1 }).unwrap();
    {
        let client = engine.client_accounts.get(&1u16).unwrap();
        assert_eq!(client.available, 30000);
        assert_eq!(client.held, 70000);
    }
    engine.handle(Transaction::Resolve { transaction_id: 1, client_id: 1 }).unwrap();
    let client = engine.client_accounts.get(&1u16).unwrap();
    assert_eq!(client.available, 100000);
    assert_eq!(client.held, 0);
    assert!(!client.locked);
}

#[test]
fn account_total_is_available_plus_held() {
    let account = transaction::ClientAccount {
        client_id: 1,
        available: i64::MAX,
        held: i64::MAX,
        locked: false,
    };
    assert_eq!(account.total(), i64::MAX as i128 + i64::MAX as i128);
    let fresh = transaction::ClientAccount::new(9);
    assert_eq!(fresh.total(), 0);
    assert_eq!(fresh.client_id, 9);
}
