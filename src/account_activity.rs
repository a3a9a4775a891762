use crate::amount::Amount;
use crate::dispute::DisputeCase;
use crate::transaction::{Transaction, TransactionID};
use crate::ClientID;
use vstd::prelude::*;

verus! {

/// The three ways in which an account rejects an activity.
#[derive(Debug, Clone, Copy, PartialEq, Eq, Structural)]
pub enum ErrorKind {
    /// The payload is out of domain: a negative amount (or a negative zero).
    InvalidTransaction,
    /// The activity is well formed but cannot be executed: the account is locked, the funds do
    /// not suffice, the transaction id was already recorded, or a balance would leave the range
    /// of `i128`.
    FailedTransaction,
    /// The dispute protocol forbids the activity: the transaction is already under dispute.
    FailedDisputeCase,
}

/// Why an account rejected an activity, with a message for the log.
#[derive(Debug, PartialEq, Eq)]
pub enum AccountActivityError {
    /// Indicates that the payload of a transaction is invalid.
    InvalidTransaction(String),

    /// Indicates that a transaction could not be executed.
    ///
    /// This covers cases such as an attempt of a withdrawal with insufficient funds, a duplicate
    /// transaction id, or activity on a locked account.
    FailedTransaction(String),

    /// Indicates that a dispute case could not be executed.
    ///
    /// This covers a dispute being initiated on an already disputed transaction.
    FailedDisputeCase(String),
}

pub type AccountActivityResult<T> = Result<T, AccountActivityError>;

impl AccountActivityError {
    pub open spec fn spec_kind(&self) -> ErrorKind {
        match self {
            AccountActivityError::InvalidTransaction(_) => ErrorKind::InvalidTransaction,
            AccountActivityError::FailedTransaction(_) => ErrorKind::FailedTransaction,
            AccountActivityError::FailedDisputeCase(_) => ErrorKind::FailedDisputeCase,
        }
    }

    #[verifier::when_used_as_spec(spec_kind)]
    pub fn kind(&self) -> (r: ErrorKind)
        ensures
            r == self.spec_kind(),
    {
        match self {
            AccountActivityError::InvalidTransaction(_) => ErrorKind::InvalidTransaction,
            AccountActivityError::FailedTransaction(_) => ErrorKind::FailedTransaction,
            AccountActivityError::FailedDisputeCase(_) => ErrorKind::FailedDisputeCase,
        }
    }

    /// The message that explains the rejection.
    pub fn message(&self) -> (r: &str)
        ensures
            r@ == match self {
                AccountActivityError::InvalidTransaction(m) => m@,
                AccountActivityError::FailedTransaction(m) => m@,
                AccountActivityError::FailedDisputeCase(m) => m@,
            },
    {
        match self {
            AccountActivityError::InvalidTransaction(m) => m.as_str(),
            AccountActivityError::FailedTransaction(m) => m.as_str(),
            AccountActivityError::FailedDisputeCase(m) => m.as_str(),
        }
    }
}

/// One record of account activity: a transaction, or a step of a dispute case.
#[derive(Debug, Clone, Copy, PartialEq, Eq, Structural)]
pub enum AccountActivity {
    /// A [`Transaction`] where funds are added to an account, increasing the available and total
    /// balance of the account.
    Deposit(Transaction),

    /// A [`Transaction`] where funds are removed from an account, reducing the available and total
    /// balance of the account.
    Withdrawal(Transaction),

    /// The opening of a [`DisputeCase`]: the funds of the referenced transaction are held until
    /// the case is closed.
    Dispute(DisputeCase),

    /// The closing of a [`DisputeCase`] in favour of the transaction: the held funds become
    /// available again.
    Resolve(DisputeCase),

    /// The closing of a [`DisputeCase`] in favour of the client: the held funds are withdrawn and
    /// the account is locked.
    Chargeback(DisputeCase),
}

impl AccountActivity {
    pub fn deposit(transaction_id: TransactionID, client_id: ClientID, amount: Amount) -> (r: Self)
        ensures
            r == AccountActivity::Deposit(Transaction { id: transaction_id, client_id, amount }),
    {
        AccountActivity::Deposit(Transaction::new(transaction_id, client_id, amount))
    }

    pub fn withdrawal(transaction_id: TransactionID, client_id: ClientID, amount: Amount) -> (r:
        Self)
        ensures
            r == AccountActivity::Withdrawal(Transaction { id: transaction_id, client_id, amount }),
    {
        AccountActivity::Withdrawal(Transaction::new(transaction_id, client_id, amount))
    }

    pub fn dispute(transaction_id: TransactionID, client_id: ClientID) -> (r: Self)
        ensures
            r == AccountActivity::Dispute(DisputeCase { transaction_id, client_id }),
    {
        AccountActivity::Dispute(DisputeCase::new(transaction_id, client_id))
    }

    pub fn resolve(transaction_id: TransactionID, client_id: ClientID) -> (r: Self)
        ensures
            r == AccountActivity::Resolve(DisputeCase { transaction_id, client_id }),
    {
        AccountActivity::Resolve(DisputeCase::new(transaction_id, client_id))
    }

    pub fn chargeback(transaction_id: TransactionID, client_id: ClientID) -> (r: Self)
        ensures
            r == AccountActivity::Chargeback(DisputeCase { transaction_id, client_id }),
    {
        AccountActivity::Chargeback(DisputeCase::new(transaction_id, client_id))
    }

    pub open spec fn spec_transaction_id(&self) -> TransactionID {
        match self {
            AccountActivity::Deposit(t) => t.id,
            AccountActivity::Withdrawal(t) => t.id,
            AccountActivity::Dispute(d) => d.transaction_id,
            AccountActivity::Resolve(d) => d.transaction_id,
            AccountActivity::Chargeback(d) => d.transaction_id,
        }
    }

    pub open spec fn spec_client_id(&self) -> ClientID {
        match self {
            AccountActivity::Deposit(t) => t.client_id,
            AccountActivity::Withdrawal(t) => t.client_id,
            AccountActivity::Dispute(d) => d.client_id,
            AccountActivity::Resolve(d) => d.client_id,
            AccountActivity::Chargeback(d) => d.client_id,
        }
    }

    /// The id of the transaction, or of the transaction that a dispute case refers to.
    #[verifier::when_used_as_spec(spec_transaction_id)]
    pub fn transaction_id(&self) -> (r: TransactionID)
        ensures
            r == self.spec_transaction_id(),
    {
        match self {
            AccountActivity::Deposit(t) => t.id(),
            AccountActivity::Withdrawal(t) => t.id(),
            AccountActivity::Dispute(d) => d.id(),
            AccountActivity::Resolve(d) => d.id(),
            AccountActivity::Chargeback(d) => d.id(),
        }
    }

    /// The client whose account the activity applies to.
    #[verifier::when_used_as_spec(spec_client_id)]
    pub fn client_id(&self) -> (r: ClientID)
        ensures
            r == self.spec_client_id(),
    {
        match self {
            AccountActivity::Deposit(t) => t.client_id(),
            AccountActivity::Withdrawal(t) => t.client_id(),
            AccountActivity::Dispute(d) => d.client_id(),
            AccountActivity::Resolve(d) => d.client_id(),
            AccountActivity::Chargeback(d) => d.client_id(),
        }
    }

    pub open spec fn spec_name(self) -> Seq<char> {
        match self {
            AccountActivity::Deposit(_) => "deposit"@,
            AccountActivity::Withdrawal(_) => "withdrawal"@,
            AccountActivity::Dispute(_) => "dispute"@,
            AccountActivity::Resolve(_) => "resolve"@,
            AccountActivity::Chargeback(_) => "chargeback"@,
        }
    }

    /// The kind of activity, as it is named in activity records.
    pub fn name(&self) -> (r: &'static str)
        ensures
            r@ == self.spec_name(),
    {
        match self {
            AccountActivity::Deposit(_) => "deposit",
            AccountActivity::Withdrawal(_) => "withdrawal",
            AccountActivity::Dispute(_) => "dispute",
            AccountActivity::Resolve(_) => "resolve",
            AccountActivity::Chargeback(_) => "chargeback",
        }
    }
}

} // verus!
