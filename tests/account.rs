use payment_processor::account::Account;
use payment_processor::account_activity::{AccountActivity, AccountActivityError, ErrorKind};
use payment_processor::amount::{Amount, UNITS_PER_WHOLE};
use payment_processor::transaction::TransactionID;
use payment_processor::ClientID;

/// An amount of `tenths / 10` currency units.
fn tenths(tenths: u64) -> Amount {
    Amount::from_units(tenths * (UNITS_PER_WHOLE / 10))
}

/// A balance of `tenths / 10` currency units, in ten-thousandths.
fn balance(tenths: i128) -> i128 {
    tenths * (UNITS_PER_WHOLE as i128 / 10)
}

fn negative_one() -> Amount {
    Amount::new(true, UNITS_PER_WHOLE)
}

fn fresh() -> Account {
    Account::new(ClientID::default())
}

#[test]
fn transactions_with_same_id_are_only_processed_once() {
    let transaction_id = TransactionID::default();
    let deposit_a = AccountActivity::deposit(transaction_id, ClientID::default(), tenths(1000));
    let deposit_b = AccountActivity::deposit(transaction_id, ClientID::default(), tenths(2000));

    let mut account = fresh();
    account.transaction(deposit_a).expect("Test setup: deposit transaction failed");

    let result = account.transaction(deposit_b);
    assert!(result.is_err(), "Expected second deposit transaction to fail");

    assert_eq!(account.available(), balance(1000));
    assert_eq!(account.held(), balance(0));
    assert_eq!(account.total(), balance(1000));
}

#[test]
fn dispute_affects_funds() {
    let deposit =
        AccountActivity::deposit(TransactionID::default(), ClientID::default(), tenths(1000));
    let dispute = AccountActivity::dispute(deposit.transaction_id(), deposit.client_id());

    let mut account = fresh();
    account.transaction(deposit).expect("Test setup: deposit transaction failed");

    let result = account.transaction(dispute);
    assert!(result.is_ok(), "Expected dispute to succeed: {:?}: {:?}", dispute, result);
    assert_eq!(account.available(), balance(0));
    assert_eq!(account.held(), balance(1000));
    assert_eq!(account.total(), balance(1000));
}

#[test]
fn dispute_of_non_existing_transaction_is_ignored() {
    let dispute = AccountActivity::dispute(TransactionID::default(), ClientID::default());

    let mut account_manager = fresh();
    let result = account_manager.transaction(dispute);
    assert!(
        result.is_ok(),
        "Expected dispute of non-existing transaction to succeed: {:?}: {:?}",
        dispute,
        result
    );
}

#[test]
fn disputing_multiple_different_transactions_is_possible() {
    let client_id = ClientID::default();
    let deposit_a = AccountActivity::deposit(TransactionID(0), client_id, tenths(500));
    let deposit_b = AccountActivity::deposit(TransactionID(1), client_id, tenths(500));

    let dispute_a = AccountActivity::dispute(deposit_a.transaction_id(), deposit_a.client_id());
    let dispute_b = AccountActivity::dispute(deposit_b.transaction_id(), deposit_b.client_id());

    let mut account = fresh();
    account.transaction(deposit_a).expect("Test setup: deposit transaction failed");
    account.transaction(deposit_b).expect("Test setup: deposit transaction failed");

    let result = account.transaction(dispute_a);
    assert!(result.is_ok(), "Expected dispute to succeed: {:?}: {:?}", dispute_a, result);

    let result = account.transaction(dispute_b);
    assert!(result.is_ok(), "Expected dispute to succeed: {:?}: {:?}", dispute_b, result);

    assert_eq!(account.available(), balance(0));
    assert_eq!(account.held(), balance(1000));
    assert_eq!(account.total(), balance(1000));
}

#[test]
fn disputing_same_transaction_twice_fails() {
    let deposit =
        AccountActivity::deposit(TransactionID::default(), ClientID::default(), tenths(500));
    let dispute = AccountActivity::dispute(deposit.transaction_id(), deposit.client_id());

    let mut account = fresh();
    account.transaction(deposit).expect("Test setup: deposit transaction failed");
    account.transaction(dispute).expect("Test setup: dispute failed");

    let result = account.transaction(dispute);
    assert!(
        result.is_err(),
        "Expected dispute on already disputed transaction to fail: {:?}",
        dispute
    );
}

#[test]
fn resolve_affects_funds() {
    let deposit =
        AccountActivity::deposit(TransactionID::default(), ClientID::default(), tenths(500));
    let dispute = AccountActivity::dispute(deposit.transaction_id(), deposit.client_id());
    let resolve = AccountActivity::resolve(deposit.transaction_id(), deposit.client_id());

    let mut account = fresh();
    account.transaction(deposit).expect("Test setup: deposit transaction failed");
    account.transaction(dispute).expect("Test setup: dispute failed");

    let result = account.transaction(resolve);
    assert!(result.is_ok(), "Expected resolution to succeed: {:?}: {:?}", resolve, result);
    assert_eq!(account.available(), balance(500));
    assert_eq!(account.held(), balance(0));
}

#[test]
fn resolve_for_non_existing_dispute_is_ignored() {
    let resolve = AccountActivity::resolve(TransactionID::default(), ClientID::default());

    let mut account = fresh();
    let result = account.transaction(resolve);
    assert!(
        result.is_ok(),
        "Expected resolution of non-existent dispute case to succeed: {:?}: {:?}",
        resolve,
        result
    );
}

#[test]
fn chargeback_affects_funds() {
    let deposit =
        AccountActivity::deposit(TransactionID::default(), ClientID::default(), tenths(500));
    let dispute = AccountActivity::dispute(deposit.transaction_id(), deposit.client_id());
    let chargeback = AccountActivity::chargeback(deposit.transaction_id(), deposit.client_id());

    let mut account = fresh();
    account.transaction(deposit).expect("Test setup: deposit transaction failed");
    account.transaction(dispute).expect("Test setup: dispute failed");

    let result = account.transaction(chargeback);
    assert!(result.is_ok(), "Expected chargeback to succeed: {:?}: {:?}", chargeback, result);
    assert_eq!(account.held(), balance(0));
    assert_eq!(account.total(), balance(0));
}

#[test]
fn chargeback_for_non_existing_dispute_case_is_ignored() {
    let chargeback = AccountActivity::chargeback(TransactionID::default(), ClientID::default());

    let mut account = fresh();
    let result = account.transaction(chargeback);
    assert!(
        result.is_ok(),
        "Expected chargeback for non-existent dispute case to succeed: {:?}: {:?}",
        chargeback,
        result
    );
}

#[test]
fn chargeback_locks_account() {
    let deposit =
        AccountActivity::deposit(TransactionID::default(), ClientID::default(), tenths(500));
    let dispute = AccountActivity::dispute(deposit.transaction_id(), deposit.client_id());
    let chargeback = AccountActivity::chargeback(deposit.transaction_id(), deposit.client_id());

    let mut account = fresh();
    account.transaction(deposit).expect("Test setup: deposit transaction failed");
    account.transaction(dispute).expect("Test setup: dispute failed");
    account.transaction(chargeback).expect("Test setup: chargeback failed");

    assert!(account.is_locked(), "Expected account to be locked after successful chargeback");
}

#[test]
fn deposit_affects_funds() {
    let amount = tenths(1000);

    let mut account = fresh();

    let result = account.transaction(AccountActivity::deposit(
        TransactionID(1),
        ClientID::default(),
        amount,
    ));
    assert!(result.is_ok(), "Expected deposit to succeed: {:?}", result);
    assert_eq!(account.available(), balance(1000));
    assert_eq!(account.total(), balance(1000));
}

#[test]
fn deposit_with_invalid_value_fails() {
    let mut account = fresh();

    let invalid_values = [negative_one(), Amount::new(true, 0)];

    for invalid_value in invalid_values {
        let result = account.transaction(AccountActivity::deposit(
            TransactionID(1),
            ClientID::default(),
            invalid_value,
        ));
        assert!(result.is_err(), "Expected deposit with invalid value to fail: {:?}", invalid_value);
        assert_eq!(account.available(), balance(0));
        assert_eq!(account.total(), balance(0));
    }
}

#[test]
fn withdrawal_affects_funds() {
    let amount = tenths(1000);

    let mut account = fresh();
    account
        .transaction(AccountActivity::deposit(TransactionID(1), ClientID::default(), amount))
        .expect("Test setup: deposit failed");

    let result = account.transaction(AccountActivity::withdrawal(
        TransactionID(2),
        ClientID::default(),
        amount,
    ));
    assert!(result.is_ok(), "Expected withdrawal to succeed: {:?}", result);
    assert_eq!(account.available(), balance(0));
    assert_eq!(account.total(), balance(0));
}

#[test]
fn withdraw_with_invalid_value_fails() {
    let mut account = fresh();

    let invalid_values = [negative_one()];

    for invalid_value in invalid_values {
        let result = account.transaction(AccountActivity::withdrawal(
            TransactionID(1),
            ClientID::default(),
            invalid_value,
        ));
        assert!(
            result.is_err(),
            "Expected withdrawal with invalid value to fail: {:?}",
            invalid_value
        );
        assert_eq!(account.available(), balance(0));
        assert_eq!(account.total(), balance(0));
    }
}

#[test]
fn withdraw_with_insufficient_funds_fails() {
    let available_funds = tenths(1000);

    let mut account = fresh();
    account
        .transaction(AccountActivity::deposit(TransactionID(1), ClientID::default(), available_funds))
        .expect("Test setup: deposit failed");

    let result = account.transaction(AccountActivity::withdrawal(
        TransactionID(2),
        ClientID::default(),
        tenths(1001),
    ));
    assert!(result.is_err(), "Expected withdrawal exceeding available funds to fail");
    assert_eq!(account.available(), balance(1000));
    assert_eq!(account.total(), balance(1000));
}

#[test]
fn hold_affects_funds() {
    let amount = tenths(1000);

    let mut account = fresh();
    account
        .transaction(AccountActivity::deposit(TransactionID(1), ClientID::default(), amount))
        .expect("Test setup: deposit failed");

    let result = account.transaction(AccountActivity::dispute(TransactionID(1), ClientID::default()));
    assert!(result.is_ok(), "Expected hold to succeed: {:?}", result);
    assert_eq!(account.available(), balance(0));
    assert_eq!(account.held(), balance(1000));
    assert_eq!(account.total(), balance(1000));
}

#[test]
fn release_affects_funds() {
    let amount = tenths(1000);

    let mut account = fresh();
    account
        .transaction(AccountActivity::deposit(TransactionID(1), ClientID::default(), amount))
        .expect("Test setup: deposit failed");
    account
        .transaction(AccountActivity::dispute(TransactionID(1), ClientID::default()))
        .expect("Test setup: hold failed");

    let result = account.transaction(AccountActivity::resolve(TransactionID(1), ClientID::default()));
    assert!(result.is_ok(), "Expected release to succeed: {:?}", result);
    assert_eq!(account.available(), balance(1000));
    assert_eq!(account.held(), balance(0));
    assert_eq!(account.total(), balance(1000));
}

#[test]
fn charge_back_affects_funds() {
    let amount = tenths(1000);

    let mut account = fresh();
    account
        .transaction(AccountActivity::deposit(TransactionID(1), ClientID::default(), amount))
        .expect("Test setup: deposit failed");
    account
        .transaction(AccountActivity::dispute(TransactionID(1), ClientID::default()))
        .expect("Test setup: hold failed");

    let result =
        account.transaction(AccountActivity::chargeback(TransactionID(1), ClientID::default()));
    assert!(result.is_ok(), "Expected charge back to succeed: {:?}", result);
    assert_eq!(account.available(), balance(0));
    assert_eq!(account.held(), balance(0));
    assert_eq!(account.total(), balance(0));
}

fn kind_of(result: Result<(), AccountActivityError>) -> Option<ErrorKind> {
    match result {
        Ok(()) => None,
        Err(e) => Some(e.kind()),
    }
}

#[test]
fn deposit_then_partial_withdrawal() {
    let client = ClientID(1);
    let mut account = Account::new(client);
    account.transaction(AccountActivity::deposit(TransactionID(1), client, tenths(1000))).unwrap();
    account.transaction(AccountActivity::withdrawal(TransactionID(2), client, tenths(500))).unwrap();
    assert_eq!(account.client_id(), client);
    assert_eq!(account.available(), balance(500));
    assert_eq!(account.held(), balance(0));
    assert_eq!(account.total(), balance(500));
    assert!(!account.is_locked());
}

#[test]
fn dispute_holds_deposited_funds() {
    let client = ClientID(1);
    let mut account = Account::new(client);
    account.transaction(AccountActivity::deposit(TransactionID(1), client, tenths(1000))).unwrap();
    account.transaction(AccountActivity::dispute(TransactionID(1), client)).unwrap();
    assert_eq!(account.available(), balance(0));
    assert_eq!(account.held(), balance(1000));
    assert_eq!(account.total(), balance(1000));
}

#[test]
fn chargeback_empties_and_locks_then_rejects_deposits() {
    let client = ClientID(1);
    let mut account = Account::new(client);
    account.transaction(AccountActivity::deposit(TransactionID(1), client, tenths(1000))).unwrap();
    account.transaction(AccountActivity::dispute(TransactionID(1), client)).unwrap();
    account.transaction(AccountActivity::chargeback(TransactionID(1), client)).unwrap();
    assert_eq!(account.available(), balance(0));
    assert_eq!(account.held(), balance(0));
    assert_eq!(account.total(), balance(0));
    assert!(account.is_locked());

    let result = account.transaction(AccountActivity::deposit(TransactionID(2), client, tenths(500)));
    assert_eq!(kind_of(result), Some(ErrorKind::FailedTransaction));
    assert_eq!(account.available(), balance(0));
    assert_eq!(account.held(), balance(0));
    assert_eq!(account.total(), balance(0));
}

#[test]
fn withdrawal_from_empty_account_fails() {
    let client = ClientID(1);
    let mut account = Account::new(client);
    let result = account.transaction(AccountActivity::withdrawal(TransactionID(1), client, tenths(500)));
    assert_eq!(kind_of(result), Some(ErrorKind::FailedTransaction));
    assert_eq!(account.available(), 0);
    assert_eq!(account.held(), 0);
    assert_eq!(account.total(), 0);
}

#[test]
fn duplicate_deposit_fails_whatever_its_amount() {
    let client = ClientID(1);
    for second in [tenths(1000), tenths(1), Amount::from_units(0)] {
        let mut account = Account::new(client);
        account.transaction(AccountActivity::deposit(TransactionID(1), client, tenths(1000))).unwrap();
        let result = account.transaction(AccountActivity::deposit(TransactionID(1), client, second));
        assert_eq!(kind_of(result), Some(ErrorKind::FailedTransaction));
        assert_eq!(account.available(), balance(1000));
        assert_eq!(account.total(), balance(1000));
    }
}

#[test]
fn invalid_amount_takes_precedence_over_duplicate_id() {
    let client = ClientID(1);
    let mut account = Account::new(client);
    account.transaction(AccountActivity::deposit(TransactionID(1), client, tenths(10))).unwrap();
    let result = account.transaction(AccountActivity::deposit(TransactionID(1), client, negative_one()));
    assert_eq!(kind_of(result), Some(ErrorKind::InvalidTransaction));
    let result =
        account.transaction(AccountActivity::withdrawal(TransactionID(1), client, negative_one()));
    assert_eq!(kind_of(result), Some(ErrorKind::InvalidTransaction));
}

#[test]
fn negative_zero_is_invalid_and_zero_is_valid() {
    let client = ClientID(1);
    let mut account = Account::new(client);
    let result = account.transaction(AccountActivity::deposit(TransactionID(1), client, Amount::new(true, 0)));
    assert_eq!(kind_of(result), Some(ErrorKind::InvalidTransaction));
    let result = account.transaction(AccountActivity::deposit(TransactionID(1), client, Amount::from_units(0)));
    assert_eq!(kind_of(result), None);
    assert_eq!(account.total(), 0);
}

#[test]
fn second_dispute_fails_and_keeps_balances() {
    let client = ClientID(1);
    let mut account = Account::new(client);
    account.transaction(AccountActivity::deposit(TransactionID(7), client, tenths(30))).unwrap();
    account.transaction(AccountActivity::dispute(TransactionID(7), client)).unwrap();
    let result = account.transaction(AccountActivity::dispute(TransactionID(7), client));
    assert_eq!(kind_of(result), Some(ErrorKind::FailedDisputeCase));
    assert_eq!(account.available(), balance(0));
    assert_eq!(account.held(), balance(30));
    assert_eq!(account.total(), balance(30));
}

#[test]
fn unknown_transaction_leaves_account_unchanged() {
    let client = ClientID(1);
    let mut account = Account::new(client);
    account.transaction(AccountActivity::deposit(TransactionID(1), client, tenths(30))).unwrap();
    for activity in [
        AccountActivity::dispute(TransactionID(9), client),
        AccountActivity::resolve(TransactionID(9), client),
        AccountActivity::chargeback(TransactionID(9), client),
    ] {
        assert_eq!(kind_of(account.transaction(activity)), None);
        assert_eq!(account.available(), balance(30));
        assert_eq!(account.held(), 0);
        assert_eq!(account.total(), balance(30));
        assert!(!account.is_locked());
    }
}

#[test]
fn resolve_and_chargeback_of_undisputed_transaction_change_nothing() {
    let client = ClientID(1);
    let mut account = Account::new(client);
    account.transaction(AccountActivity::deposit(TransactionID(1), client, tenths(30))).unwrap();
    assert_eq!(kind_of(account.transaction(AccountActivity::resolve(TransactionID(1), client))), None);
    assert_eq!(kind_of(account.transaction(AccountActivity::chargeback(TransactionID(1), client))), None);
    assert_eq!(account.available(), balance(30));
    assert_eq!(account.held(), 0);
    assert!(!account.is_locked());
}

#[test]
fn dispute_of_withdrawal_can_make_available_negative() {
    let client = ClientID(1);
    let mut account = Account::new(client);
    account.transaction(AccountActivity::deposit(TransactionID(1), client, tenths(100))).unwrap();
    account.transaction(AccountActivity::withdrawal(TransactionID(2), client, tenths(100))).unwrap();
    account.transaction(AccountActivity::dispute(TransactionID(2), client)).unwrap();
    assert_eq!(account.available(), balance(-100));
    assert_eq!(account.held(), balance(100));
    assert_eq!(account.total(), balance(0));
    let result = account.transaction(AccountActivity::withdrawal(TransactionID(3), client, Amount::from_units(1)));
    assert_eq!(kind_of(result), Some(ErrorKind::FailedTransaction));
}

#[test]
fn locked_account_rejects_every_kind_of_activity() {
    let client = ClientID(1);
    let mut account = Account::new(client);
    account.transaction(AccountActivity::deposit(TransactionID(1), client, tenths(100))).unwrap();
    account.transaction(AccountActivity::deposit(TransactionID(2), client, tenths(50))).unwrap();
    account.transaction(AccountActivity::dispute(TransactionID(1), client)).unwrap();
    account.transaction(AccountActivity::chargeback(TransactionID(1), client)).unwrap();
    for activity in [
        AccountActivity::deposit(TransactionID(3), client, tenths(10)),
        AccountActivity::withdrawal(TransactionID(4), client, tenths(10)),
        AccountActivity::dispute(TransactionID(2), client),
        AccountActivity::resolve(TransactionID(2), client),
        AccountActivity::chargeback(TransactionID(2), client),
    ] {
        let result = account.transaction(activity);
        assert_eq!(kind_of(result), Some(ErrorKind::FailedTransaction));
        assert_eq!(account.available(), balance(50));
        assert_eq!(account.held(), 0);
        assert_eq!(account.total(), balance(50));
    }
}

#[test]
fn error_messages_name_the_cause() {
    let client = ClientID(1);
    let mut account = Account::new(client);
    let err = account
        .transaction(AccountActivity::withdrawal(TransactionID(1), client, tenths(1)))
        .unwrap_err();
    assert!(err.message().contains("insufficient funds"));
    let err = account
        .transaction(AccountActivity::deposit(TransactionID(1), client, negative_one()))
        .unwrap_err();
    assert!(matches!(err, AccountActivityError::InvalidTransaction(_)));
}

#[test]
fn activity_accessors_and_names() {
    let a = AccountActivity::withdrawal(TransactionID(3), ClientID(4), tenths(5));
    assert_eq!(a.transaction_id(), TransactionID(3));
    assert_eq!(a.client_id(), ClientID(4));
    assert_eq!(a.name(), "withdrawal");
    assert_eq!(AccountActivity::deposit(TransactionID(1), ClientID(1), tenths(1)).name(), "deposit");
    assert_eq!(AccountActivity::dispute(TransactionID(1), ClientID(1)).name(), "dispute");
    assert_eq!(AccountActivity::resolve(TransactionID(1), ClientID(1)).name(), "resolve");
    assert_eq!(AccountActivity::chargeback(TransactionID(1), ClientID(2)).client_id(), ClientID(2));
}
