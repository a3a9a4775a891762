//! Per-client account balances computed from an ordered stream of deposits, withdrawals and
//! dispute activity.
//!
//! Every balance change goes through [`account::Account::transaction`], whose contract is the
//! ledger state machine [`account::step`]. [`processor::process_activities`] folds a stream of
//! activity records into one account per client.

use vstd::prelude::*;

pub mod account;
pub mod account_activity;
pub mod amount;
pub mod dispute;
pub mod laws;
pub mod processor;
pub mod record;
pub mod transaction;

verus! {

/// A globally unique client ID.
#[derive(Debug, Clone, Copy, PartialEq, Eq, Structural, Hash, Default)]
pub struct ClientID(pub u16);

} // verus!
