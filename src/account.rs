//! The ledger state machine of one client's account.

use crate::account_activity::AccountActivityError::{
    FailedDisputeCase,
    FailedTransaction,
    InvalidTransaction,
};
use crate::account_activity::{AccountActivity, AccountActivityResult, ErrorKind};
use crate::amount::Amount;
use crate::dispute::DisputeCase;
use crate::ClientID;
use std::collections::{HashMap, HashSet};
use vstd::prelude::*;
use vstd::set::fold::{is_fun_commutative, lemma_fold_empty, lemma_fold_insert};

verus! {

broadcast use vstd::std_specs::hash::group_hash_axioms;

/// What an account holds, as mathematical values. Balances count ten-thousandths.
pub struct AccountView {
    pub client_id: ClientID,
    /// Funds that can be withdrawn.
    pub available: int,
    /// Funds frozen by open dispute cases.
    pub held: int,
    /// `available + held`.
    pub total: int,
    /// Set by a chargeback; a locked account rejects all activity.
    pub locked: bool,
    /// The amount of each deposit and withdrawal that was executed, by transaction id.
    pub record: Map<u32, u64>,
    /// The ids of the recorded transactions that are under dispute.
    pub disputes: Set<u32>,
}

/// Adds the recorded amount of transaction `t` to `acc`.
pub open spec fn add_recorded(record: Map<u32, u64>) -> spec_fn(int, u32) -> int {
    |acc: int, t: u32| acc + record[t] as int
}

/// The sum of the recorded amounts of the transactions in `disputes`.
pub open spec fn held_sum(record: Map<u32, u64>, disputes: Set<u32>) -> int {
    disputes.fold(0int, add_recorded(record))
}

pub open spec fn in_i128(x: int) -> bool {
    i128::MIN <= x <= i128::MAX
}

impl AccountView {
    /// The account of a client that has seen no activity yet.
    pub open spec fn fresh(client_id: ClientID) -> AccountView {
        AccountView {
            client_id,
            available: 0,
            held: 0,
            total: 0,
            locked: false,
            record: Map::empty(),
            disputes: Set::empty(),
        }
    }

    /// The account's invariant: the total is the sum of the available and held funds, the held
    /// funds are exactly the amounts under dispute, and only recorded transactions are disputed.
    pub open spec fn inv(self) -> bool {
        &&& self.total == self.available + self.held
        &&& self.held >= 0
        &&& in_i128(self.available)
        &&& in_i128(self.held)
        &&& in_i128(self.total)
        &&& self.disputes.finite()
        &&& self.disputes.subset_of(self.record.dom())
        &&& self.held == held_sum(self.record, self.disputes)
    }

    /// The same account with different balances.
    pub open spec fn with_balances(self, available: int, held: int, total: int) -> AccountView {
        AccountView { available, held, total, ..self }
    }
}

/// The outcome of applying `activity` to an account in state `s`: the next state, or the kind of
/// error with which the account rejects it. A rejected activity leaves the account as it was.
///
/// Amounts are validated first (a negative amount is `InvalidTransaction` even when its id is a
/// duplicate); then duplicates, funds and the range of the balances are checked. Disputes,
/// resolutions and chargebacks that refer to no recorded transaction, and resolutions and
/// chargebacks of transactions that are not under dispute, succeed and change nothing.
pub open spec fn step(s: AccountView, activity: AccountActivity) -> Result<AccountView, ErrorKind> {
    if s.locked {
        Err(ErrorKind::FailedTransaction)
    } else {
        match activity {
            AccountActivity::Deposit(t) => {
                let u = t.amount.units as int;
                if t.amount.negative {
                    Err(ErrorKind::InvalidTransaction)
                } else if s.record.contains_key(t.id.0) {
                    Err(ErrorKind::FailedTransaction)
                } else if s.total + u > i128::MAX {
                    Err(ErrorKind::FailedTransaction)
                } else {
                    Ok(
                        AccountView {
                            available: s.available + u,
                            total: s.total + u,
                            record: s.record.insert(t.id.0, t.amount.units),
                            ..s
                        },
                    )
                }
            },
            AccountActivity::Withdrawal(t) => {
                let u = t.amount.units as int;
                if t.amount.negative {
                    Err(ErrorKind::InvalidTransaction)
                } else if s.record.contains_key(t.id.0) {
                    Err(ErrorKind::FailedTransaction)
                } else if u > s.available {
                    Err(ErrorKind::FailedTransaction)
                } else {
                    Ok(
                        AccountView {
                            available: s.available - u,
                            total: s.total - u,
                            record: s.record.insert(t.id.0, t.amount.units),
                            ..s
                        },
                    )
                }
            },
            AccountActivity::Dispute(d) => {
                let id = d.transaction_id.0;
                if s.disputes.contains(id) {
                    Err(ErrorKind::FailedDisputeCase)
                } else if !s.record.contains_key(id) {
                    Ok(s)
                } else {
                    let u = s.record[id] as int;
                    if !in_i128(s.available - u) || !in_i128(s.held + u) {
                        Err(ErrorKind::FailedTransaction)
                    } else {
                        Ok(
                            AccountView {
                                available: s.available - u,
                                held: s.held + u,
                                disputes: s.disputes.insert(id),
                                ..s
                            },
                        )
                    }
                }
            },
            AccountActivity::Resolve(d) => {
                let id = d.transaction_id.0;
                if s.disputes.contains(id) {
                    let u = s.record[id] as int;
                    Ok(
                        AccountView {
                            available: s.available + u,
                            held: s.held - u,
                            disputes: s.disputes.remove(id),
                            ..s
                        },
                    )
                } else {
                    Ok(s)
                }
            },
            AccountActivity::Chargeback(d) => {
                let id = d.transaction_id.0;
                if s.disputes.contains(id) {
                    let u = s.record[id] as int;
                    Ok(
                        AccountView {
                            held: s.held - u,
                            total: s.total - u,
                            disputes: s.disputes.remove(id),
                            locked: true,
                            ..s
                        },
                    )
                } else {
                    Ok(s)
                }
            },
        }
    }
}

/// The state after `step`, whether or not the activity was accepted.
pub open spec fn next(s: AccountView, activity: AccountActivity) -> AccountView {
    match step(s, activity) {
        Ok(n) => n,
        Err(_) => s,
    }
}

proof fn lemma_add_recorded_commutes(record: Map<u32, u64>)
    ensures
        is_fun_commutative(add_recorded(record)),
{
}

/// Adding a transaction to the disputes adds its amount to the sum.
pub proof fn lemma_held_sum_insert(record: Map<u32, u64>, disputes: Set<u32>, t: u32)
    requires
        disputes.finite(),
        !disputes.contains(t),
    ensures
        held_sum(record, disputes.insert(t)) == held_sum(record, disputes) + record[t],
{
    lemma_add_recorded_commutes(record);
    lemma_fold_insert(disputes, 0int, add_recorded(record), t);
}

/// Removing a transaction from the disputes takes its amount from the sum.
pub proof fn lemma_held_sum_remove(record: Map<u32, u64>, disputes: Set<u32>, t: u32)
    requires
        disputes.finite(),
        disputes.contains(t),
    ensures
        held_sum(record, disputes.remove(t)) == held_sum(record, disputes) - record[t],
{
    lemma_held_sum_insert(record, disputes.remove(t), t);
    assert(disputes.remove(t).insert(t) =~= disputes);
}

/// The sum of recorded amounts is never negative.
pub proof fn lemma_held_sum_nonnegative(record: Map<u32, u64>, disputes: Set<u32>)
    requires
        disputes.finite(),
    ensures
        held_sum(record, disputes) >= 0,
    decreases disputes.len(),
{
    if disputes.len() == 0 {
        assert(disputes =~= Set::empty());
        lemma_fold_empty(0int, add_recorded(record));
    } else {
        let t = disputes.choose();
        lemma_held_sum_nonnegative(record, disputes.remove(t));
        lemma_held_sum_remove(record, disputes, t);
    }
}

/// Recording a transaction that is not under dispute leaves the sum unchanged.
pub proof fn lemma_held_sum_record(record: Map<u32, u64>, disputes: Set<u32>, k: u32, v: u64)
    requires
        disputes.finite(),
        !disputes.contains(k),
    ensures
        held_sum(record.insert(k, v), disputes) == held_sum(record, disputes),
    decreases disputes.len(),
{
    if disputes.len() == 0 {
        assert(disputes =~= Set::empty());
        lemma_fold_empty(0int, add_recorded(record));
        lemma_fold_empty(0int, add_recorded(record.insert(k, v)));
    } else {
        let t = disputes.choose();
        lemma_held_sum_record(record, disputes.remove(t), k, v);
        lemma_held_sum_remove(record, disputes, t);
        lemma_held_sum_remove(record.insert(k, v), disputes, t);
    }
}

/// Every step keeps the account's invariant.
pub proof fn lemma_step_keeps_inv(s: AccountView, activity: AccountActivity)
    requires
        s.inv(),
    ensures
        next(s, activity).inv(),
        next(s, activity).client_id == s.client_id,
{
    if !s.locked {
        match activity {
            AccountActivity::Deposit(t) => {
                if !s.record.contains_key(t.id.0) {
                    lemma_held_sum_record(s.record, s.disputes, t.id.0, t.amount.units);
                }
            },
            AccountActivity::Withdrawal(t) => {
                if !s.record.contains_key(t.id.0) {
                    lemma_held_sum_record(s.record, s.disputes, t.id.0, t.amount.units);
                }
            },
            AccountActivity::Dispute(d) => {
                let id = d.transaction_id.0;
                if !s.disputes.contains(id) && s.record.contains_key(id) {
                    lemma_held_sum_insert(s.record, s.disputes, id);
                }
            },
            AccountActivity::Resolve(d) => {
                let id = d.transaction_id.0;
                if s.disputes.contains(id) {
                    lemma_held_sum_remove(s.record, s.disputes, id);
                    lemma_held_sum_nonnegative(s.record, s.disputes.remove(id));
                }
            },
            AccountActivity::Chargeback(d) => {
                let id = d.transaction_id.0;
                if s.disputes.contains(id) {
                    lemma_held_sum_remove(s.record, s.disputes, id);
                    lemma_held_sum_nonnegative(s.record, s.disputes.remove(id));
                }
            },
        }
    }
}

/// The balances of one client, and the bookkeeping of its transactions and dispute cases.
///
/// The only way to change an account is [`Account::transaction`], which applies one
/// [`AccountActivity`] or rejects it and leaves the account unchanged.
///
/// Balances count ten-thousandths of a currency unit:
///
/// | Balance   | Meaning                                               |
/// |-----------|-------------------------------------------------------|
/// | available | funds that can be withdrawn                           |
/// | held      | funds frozen by open dispute cases                    |
/// | total     | all funds of the account: `available + held`          |
///
/// Each executed deposit and withdrawal is recorded with its id, and an id is never executed
/// twice. Resolutions and chargebacks act only on transactions under dispute; dispute activity
/// that refers to an unknown transaction is accepted and changes nothing.
#[derive(Debug)]
pub struct Account {
    client_id: ClientID,
    available: i128,
    held: i128,
    total: i128,
    locked: bool,
    dispute_cases: HashSet<u32>,
    transaction_record: HashMap<u32, u64>,
}

impl View for Account {
    type V = AccountView;

    closed spec fn view(&self) -> AccountView {
        AccountView {
            client_id: self.client_id,
            available: self.available as int,
            held: self.held as int,
            total: self.total as int,
            locked: self.locked,
            record: self.transaction_record@,
            disputes: self.dispute_cases@,
        }
    }
}

impl Account {
    pub open spec fn wf(&self) -> bool {
        self@.inv()
    }

    pub fn new(client_id: ClientID) -> (r: Self)
        ensures
            r@ == AccountView::fresh(client_id),
            r.wf(),
    {
        let r = Account {
            client_id,
            available: 0,
            held: 0,
            total: 0,
            locked: false,
            dispute_cases: HashSet::new(),
            transaction_record: HashMap::new(),
        };
        proof {
            assert(r@.record =~= Map::empty());
            assert(r@.disputes =~= Set::empty());
            lemma_fold_empty(0int, add_recorded(r@.record));
        }
        r
    }

    pub fn client_id(&self) -> (r: ClientID)
        ensures
            r == self@.client_id,
    {
        self.client_id
    }

    /// The available funds, in ten-thousandths.
    pub fn available(&self) -> (r: i128)
        ensures
            r == self@.available,
    {
        self.available
    }

    /// The held funds, in ten-thousandths.
    pub fn held(&self) -> (r: i128)
        ensures
            r == self@.held,
    {
        self.held
    }

    /// The total funds, in ten-thousandths.
    pub fn total(&self) -> (r: i128)
        ensures
            r == self@.total,
    {
        self.total
    }

    pub fn is_locked(&self) -> (r: bool)
        ensures
            r == self@.locked,
    {
        self.locked
    }

    fn lock(&mut self)
        ensures
            final(self)@ == (AccountView { locked: true, ..old(self)@ }),
    {
        self.locked = true;
    }

    /// Adds a valid amount to the available and total funds.
    fn deposit(&mut self, amount: Amount) -> (r: AccountActivityResult<()>)
        requires
            old(self).wf(),
        ensures
            r is Ok <==> amount.is_valid() && old(self)@.total + amount.units <= i128::MAX,
            r matches Err(e) ==> final(self)@ == old(self)@ && e.kind() == if amount.negative {
                ErrorKind::InvalidTransaction
            } else {
                ErrorKind::FailedTransaction
            },
            r is Ok ==> final(self)@ == old(self)@.with_balances(
                old(self)@.available + amount.units,
                old(self)@.held,
                old(self)@.total + amount.units,
            ),
    {
        if amount.is_sign_negative() {
            return Err(InvalidTransaction("deposit amount must be a positive number".to_owned()));
        }
        let units = amount.units() as i128;
        if self.total > i128::MAX - units {
            return Err(FailedTransaction("deposit exceeds the largest balance".to_owned()));
        }
        self.available = self.available + units;
        self.total = self.total + units;
        Ok(())
    }

    /// Takes a valid amount that the available funds cover from the available and total funds.
    fn withdraw(&mut self, amount: Amount) -> (r: AccountActivityResult<()>)
        requires
            old(self).wf(),
        ensures
            r is Ok <==> amount.is_valid() && amount.units <= old(self)@.available,
            r matches Err(e) ==> final(self)@ == old(self)@ && e.kind() == if amount.negative {
                ErrorKind::InvalidTransaction
            } else {
                ErrorKind::FailedTransaction
            },
            r is Ok ==> final(self)@ == old(self)@.with_balances(
                old(self)@.available - amount.units,
                old(self)@.held,
                old(self)@.total - amount.units,
            ),
    {
        if amount.is_sign_negative() {
            return Err(
                InvalidTransaction("withdrawal amount must be a positive number".to_owned()),
            );
        }
        let units = amount.units() as i128;
        if units > self.available {
            return Err(
                FailedTransaction("withdrawal failed because of insufficient funds".to_owned()),
            );
        }
        self.available = self.available - units;
        self.total = self.total - units;
        Ok(())
    }

    /// Moves `units` from the available to the held funds.
    fn hold(&mut self, units: u64) -> (r: AccountActivityResult<()>)
        requires
            old(self).wf(),
        ensures
            r is Ok <==> in_i128(old(self)@.available - units) && in_i128(old(self)@.held + units),
            r matches Err(e) ==> final(self)@ == old(self)@ && e.kind()
                == ErrorKind::FailedTransaction,
            r is Ok ==> final(self)@ == old(self)@.with_balances(
                old(self)@.available - units,
                old(self)@.held + units,
                old(self)@.total,
            ),
    {
        let units = units as i128;
        if self.available < i128::MIN + units || self.held > i128::MAX - units {
            return Err(FailedTransaction("hold exceeds the range of a balance".to_owned()));
        }
        self.available = self.available - units;
        self.held = self.held + units;
        Ok(())
    }

    /// Moves `units` from the held to the available funds.
    fn release(&mut self, units: u64)
        requires
            old(self).wf(),
            units <= old(self)@.held,
        ensures
            final(self)@ == old(self)@.with_balances(
                old(self)@.available + units,
                old(self)@.held - units,
                old(self)@.total,
            ),
    {
        let units = units as i128;
        self.held = self.held - units;
        self.available = self.available + units;
    }

    /// Takes `units` from the held and total funds.
    fn charge(&mut self, units: u64)
        requires
            old(self).wf(),
            units <= old(self)@.held,
        ensures
            final(self)@ == old(self)@.with_balances(
                old(self)@.available,
                old(self)@.held - units,
                old(self)@.total - units,
            ),
    {
        let units = units as i128;
        self.held = self.held - units;
        self.total = self.total - units;
    }

    fn record_transaction(&mut self, id: u32, units: u64)
        requires
            !old(self)@.record.contains_key(id),
        ensures
            final(self)@ == (AccountView { record: old(self)@.record.insert(id, units), ..old(self)@ }),
    {
        self.transaction_record.insert(id, units);
    }

    fn check_unrecorded(&self, id: u32) -> (r: AccountActivityResult<()>)
        ensures
            r is Ok <==> !self@.record.contains_key(id),
            r matches Err(e) ==> e.kind() == ErrorKind::FailedTransaction,
    {
        if self.transaction_record.contains_key(&id) {
            Err(FailedTransaction("transaction already recorded".to_owned()))
        } else {
            Ok(())
        }
    }

    fn initiate_dispute(&mut self, dispute_case: DisputeCase) -> (r: AccountActivityResult<()>)
        requires
            old(self).wf(),
            !old(self)@.locked,
        ensures
            final(self).wf(),
            match r {
                Ok(()) => step(old(self)@, AccountActivity::Dispute(dispute_case)) == Ok::<AccountView, ErrorKind>(final(self)@),
                Err(e) => step(old(self)@, AccountActivity::Dispute(dispute_case)) == Err::<AccountView, ErrorKind>(e.kind())
                    && final(self)@ == old(self)@,
            },
    {
        let id = dispute_case.id().0;
        proof {
            lemma_step_keeps_inv(self@, AccountActivity::Dispute(dispute_case));
        }
        if self.dispute_cases.contains(&id) {
            return Err(FailedDisputeCase("transaction already disputed".to_owned()));
        }
        match self.transaction_record.get(&id) {
            None => Ok(()),
            Some(units) => {
                self.hold(*units)?;
                self.dispute_cases.insert(id);
                Ok(())
            },
        }
    }

    fn resolve_dispute(&mut self, dispute_case: DisputeCase)
        requires
            old(self).wf(),
            !old(self)@.locked,
        ensures
            final(self).wf(),
            step(old(self)@, AccountActivity::Resolve(dispute_case)) == Ok::<AccountView, ErrorKind>(final(self)@),
    {
        let id = dispute_case.id().0;
        proof {
            lemma_step_keeps_inv(self@, AccountActivity::Resolve(dispute_case));
        }
        if self.dispute_cases.contains(&id) {
            let units = *self.transaction_record.get(&id).unwrap();
            proof {
                lemma_held_sum_remove(self@.record, self@.disputes, id);
                lemma_held_sum_nonnegative(self@.record, self@.disputes.remove(id));
            }
            self.release(units);
            self.dispute_cases.remove(&id);
        }
    }

    fn issue_chargeback(&mut self, dispute_case: DisputeCase)
        requires
            old(self).wf(),
            !old(self)@.locked,
        ensures
            final(self).wf(),
            step(old(self)@, AccountActivity::Chargeback(dispute_case)) == Ok::<AccountView, ErrorKind>(final(self)@),
    {
        let id = dispute_case.id().0;
        proof {
            lemma_step_keeps_inv(self@, AccountActivity::Chargeback(dispute_case));
        }
        if self.dispute_cases.contains(&id) {
            let units = *self.transaction_record.get(&id).unwrap();
            proof {
                lemma_held_sum_remove(self@.record, self@.disputes, id);
                lemma_held_sum_nonnegative(self@.record, self@.disputes.remove(id));
            }
            self.charge(units);
            self.dispute_cases.remove(&id);
            self.lock();
        }
    }

    /// Applies an account activity, which is either a transaction or a step of a dispute case.
    ///
    /// On success the account moves to the state that [`step`] gives; on failure it is left
    /// exactly as it was and the error has the kind that [`step`] gives.
    pub fn transaction(&mut self, activity: AccountActivity) -> (r: AccountActivityResult<()>)
        requires
            old(self).wf(),
        ensures
            final(self).wf(),
            match r {
                Ok(()) => step(old(self)@, activity) == Ok::<AccountView, ErrorKind>(final(self)@),
                Err(e) => step(old(self)@, activity) == Err::<AccountView, ErrorKind>(e.kind()) && final(self)@ == old(
                    self,
                )@,
            },
    {
        proof {
            lemma_step_keeps_inv(self@, activity);
        }
        if self.is_locked() {
            return Err(FailedTransaction("account locked".to_owned()));
        }
        match activity {
            AccountActivity::Deposit(transaction) => {
                // An invalid amount is reported before a duplicate id.
                if transaction.amount().is_sign_negative() {
                    return self.deposit(transaction.amount());
                }
                self.check_unrecorded(transaction.id().0)?;
                self.deposit(transaction.amount())?;
                self.record_transaction(transaction.id().0, transaction.amount().units());
                Ok(())
            },
            AccountActivity::Withdrawal(transaction) => {
                // An invalid amount is reported before a duplicate id.
                if transaction.amount().is_sign_negative() {
                    return self.withdraw(transaction.amount());
                }
                self.check_unrecorded(transaction.id().0)?;
                self.withdraw(transaction.amount())?;
                self.record_transaction(transaction.id().0, transaction.amount().units());
                Ok(())
            },
            AccountActivity::Dispute(dispute_case) => {
                self.initiate_dispute(dispute_case)
            },
            AccountActivity::Resolve(dispute_case) => {
                self.resolve_dispute(dispute_case);
                Ok(())
            },
            AccountActivity::Chargeback(dispute_case) => {
                self.issue_chargeback(dispute_case);
                Ok(())
            },
        }
    }
}

} // verus!
