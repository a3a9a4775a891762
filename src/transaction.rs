use crate::amount::Amount;
use crate::ClientID;
use vstd::prelude::*;

verus! {

/// A globally unique transaction ID.
#[derive(Debug, Clone, Copy, PartialEq, Eq, Structural, Hash, Default)]
pub struct TransactionID(pub u32);

/// A deposit or a withdrawal: an amount of money that moves into or out of a client's account.
#[derive(Debug, Clone, Copy, PartialEq, Eq, Structural)]
pub struct Transaction {
    pub id: TransactionID,
    pub client_id: ClientID,
    pub amount: Amount,
}

impl Transaction {
    pub fn new(id: TransactionID, client_id: ClientID, amount: Amount) -> (r: Self)
        ensures
            r == (Transaction { id, client_id, amount }),
    {
        Transaction { id, client_id, amount }
    }

    pub fn id(&self) -> (r: TransactionID)
        ensures
            r == self.id,
    {
        self.id
    }

    pub fn client_id(&self) -> (r: ClientID)
        ensures
            r == self.client_id,
    {
        self.client_id
    }

    pub fn amount(&self) -> (r: Amount)
        ensures
            r == self.amount,
    {
        self.amount
    }
}

} // verus!
