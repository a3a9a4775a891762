use crate::transaction::TransactionID;
use crate::ClientID;
use vstd::prelude::*;

verus! {

/// A reference to an earlier transaction that a client challenges.
///
/// A dispute case is opened by [`AccountActivity::Dispute`] and closed either by
/// [`AccountActivity::Resolve`], which gives the held funds back, or by
/// [`AccountActivity::Chargeback`], which removes them and locks the account. It carries no
/// amount: the amount is that of the transaction it refers to.
///
/// [`AccountActivity::Dispute`]: crate::account_activity::AccountActivity::Dispute
/// [`AccountActivity::Resolve`]: crate::account_activity::AccountActivity::Resolve
/// [`AccountActivity::Chargeback`]: crate::account_activity::AccountActivity::Chargeback
#[derive(Debug, Clone, Copy, PartialEq, Eq, Structural)]
pub struct DisputeCase {
    pub transaction_id: TransactionID,
    pub client_id: ClientID,
}

impl DisputeCase {
    pub fn new(id: TransactionID, client_id: ClientID) -> (r: Self)
        ensures
            r == (DisputeCase { transaction_id: id, client_id }),
    {
        DisputeCase { transaction_id: id, client_id }
    }

    pub fn id(&self) -> (r: TransactionID)
        ensures
            r == self.transaction_id,
    {
        self.transaction_id
    }

    pub fn client_id(&self) -> (r: ClientID)
        ensures
            r == self.client_id,
    {
        self.client_id
    }
}

} // verus!
