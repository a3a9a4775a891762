//! Folding a stream of activity records into one account per client.

use crate::account::{lemma_step_keeps_inv, next, step, Account, AccountView};
use crate::account_activity::{
    AccountActivity,
    AccountActivityError,
    AccountActivityResult,
    ErrorKind,
};
use crate::ClientID;
use std::collections::HashMap;
use vstd::prelude::*;

verus! {

broadcast use vstd::std_specs::hash::group_hash_axioms;

/// The state of the account of `client` in the ledger `m`: a fresh account if the client has
/// not been seen yet.
pub open spec fn account_in(m: Map<u16, AccountView>, client: ClientID) -> AccountView {
    if m.contains_key(client.0) {
        m[client.0]
    } else {
        AccountView::fresh(client)
    }
}

/// The ledger after applying `activity` to the account of its client, creating that account
/// when the client is new. A rejected activity still creates the account.
pub open spec fn ledger_apply(m: Map<u16, AccountView>, activity: AccountActivity) -> Map<
    u16,
    AccountView,
> {
    let client = activity.client_id();
    m.insert(client.0, next(account_in(m, client), activity))
}

/// The ledger after the records in order, starting from `m`. Records that failed to parse are
/// skipped and change nothing.
pub open spec fn ledger_run<E>(m: Map<u16, AccountView>, records: Seq<Result<AccountActivity, E>>) -> Map<
    u16,
    AccountView,
>
    decreases records.len(),
{
    if records.len() == 0 {
        m
    } else {
        let before = ledger_run(m, records.drop_last());
        match records.last() {
            Ok(activity) => ledger_apply(before, activity),
            Err(_) => before,
        }
    }
}

/// `accounts` holds one account per key of `m`, with the state that `m` gives it.
pub open spec fn lists_ledger(accounts: Seq<Account>, m: Map<u16, AccountView>) -> bool {
    &&& forall|i: int|
        0 <= i < accounts.len() ==> #[trigger] accounts[i].wf() && m.contains_key(
            accounts[i]@.client_id.0,
        ) && m[accounts[i]@.client_id.0] == accounts[i]@
    &&& forall|c: u16|
        #[trigger] m.contains_key(c) ==> exists|i: int|
            0 <= i < accounts.len() && #[trigger] accounts[i]@.client_id.0 == c
    &&& forall|i: int, j: int|
        0 <= i < j < accounts.len() ==> #[trigger] accounts[i]@.client_id != #[trigger] accounts[j]@.client_id
}

/// The accounts of all clients seen so far, in the order in which the clients first appeared.
pub struct Ledger {
    accounts: Vec<Account>,
    index: HashMap<u16, usize>,
}

impl View for Ledger {
    type V = Map<u16, AccountView>;

    closed spec fn view(&self) -> Map<u16, AccountView> {
        Map::new(|c: u16| self.index@.contains_key(c), |c: u16| self.accounts@[self.index@[c] as int]@)
    }
}

impl Ledger {
    pub closed spec fn wf(&self) -> bool {
        &&& forall|c: u16|
            #[trigger] self.index@.contains_key(c) ==> self.index@[c] < self.accounts@.len()
                && self.accounts@[self.index@[c] as int]@.client_id.0 == c
        &&& forall|i: int|
            0 <= i < self.accounts@.len() ==> #[trigger] self.accounts@[i].wf()
                && self.index@.contains_key(self.accounts@[i]@.client_id.0)
                && self.index@[self.accounts@[i]@.client_id.0] == i
    }

    pub fn new() -> (r: Self)
        ensures
            r.wf(),
            r@ == Map::<u16, AccountView>::empty(),
    {
        let r = Ledger { accounts: Vec::new(), index: HashMap::new() };
        assert(r@ =~= Map::<u16, AccountView>::empty());
        r
    }

    /// Applies `activity` to the account of its client, creating the account on first sight.
    ///
    /// The result is that of [`Account::transaction`]: a rejected activity leaves the account as
    /// it was (a new account stays, with zero balances).
    pub fn apply(&mut self, activity: AccountActivity) -> (r: AccountActivityResult<()>)
        requires
            old(self).wf(),
        ensures
            final(self).wf(),
            final(self)@ == ledger_apply(old(self)@, activity),
            match r {
                Ok(()) => step(account_in(old(self)@, activity.client_id()), activity) is Ok,
                Err(e) => step(account_in(old(self)@, activity.client_id()), activity) == Err::<
                    AccountView,
                    ErrorKind,
                >(e.kind()),
            },
    {
        let client = activity.client_id();
        let i: usize = match self.index.get(&client.0) {
            Some(i) => *i,
            None => {
                let i = self.accounts.len();
                self.accounts.push(Account::new(client));
                self.index.insert(client.0, i);
                assert forall|j: int| 0 <= j < self.accounts@.len() implies #[trigger] self.accounts@[j].wf()
                    && self.index@.contains_key(self.accounts@[j]@.client_id.0)
                    && self.index@[self.accounts@[j]@.client_id.0] == j by {
                    if j < i {
                        assert(old(self).accounts@[j].wf());
                    }
                }
                assert(self@ =~= old(self)@.insert(client.0, AccountView::fresh(client)));
                i
            },
        };
        assert(account_in(old(self)@, client) == self.accounts@[i as int]@);
        let ghost before = self.accounts@;
        proof {
            assert(self.accounts@[i as int].wf());
            lemma_step_keeps_inv(before[i as int]@, activity);
        }
        let r = self.accounts[i].transaction(activity);
        assert(self.accounts@ =~= before.update(i as int, self.accounts@[i as int]));
        assert forall|j: int| 0 <= j < self.accounts@.len() implies #[trigger] self.accounts@[j].wf()
            && self.index@.contains_key(self.accounts@[j]@.client_id.0)
            && self.index@[self.accounts@[j]@.client_id.0] == j by {
            assert(before[j].wf());
        }
        assert forall|c: u16| #[trigger] self.index@.contains_key(c) implies self.index@[c]
            < self.accounts@.len() && self.accounts@[self.index@[c] as int]@.client_id.0 == c by {
            assert(before[self.index@[c] as int]@.client_id.0 == c);
        }
        assert(self.wf());
        assert(self@ =~= ledger_apply(old(self)@, activity));
        r
    }

    /// The account of `client`, if the client has been seen.
    pub fn account(&self, client: ClientID) -> (r: Option<&Account>)
        requires
            self.wf(),
        ensures
            r is Some <==> self@.contains_key(client.0),
            r matches Some(a) ==> a@ == self@[client.0] && a.wf(),
    {
        match self.index.get(&client.0) {
            Some(i) => Some(&self.accounts[*i]),
            None => None,
        }
    }

    /// All accounts, one per client seen, in the order in which the clients first appeared.
    pub fn into_accounts(self) -> (r: Vec<Account>)
        requires
            self.wf(),
        ensures
            lists_ledger(r@, self@),
    {
        let r = self.accounts;
        assert forall|i: int, j: int| 0 <= i < j < r@.len() implies #[trigger] r@[i]@.client_id
            != #[trigger] r@[j]@.client_id by {
            assert(self.accounts@[i].wf());
            assert(self.accounts@[j].wf());
        }
        assert forall|i: int| 0 <= i < r@.len() implies #[trigger] r@[i].wf() && self@.contains_key(
            r@[i]@.client_id.0,
        ) && self@[r@[i]@.client_id.0] == r@[i]@ by {
            assert(self.accounts@[i].wf());
        }
        assert forall|c: u16| #[trigger] self@.contains_key(c) implies exists|i: int|
            0 <= i < r@.len() && #[trigger] r@[i]@.client_id.0 == c by {
            let i = self.index@[c] as int;
            assert(r@[i]@.client_id.0 == c);
        }
        r
    }
}

/// An activity that its account rejected, with the position of its record in the input.
#[derive(Debug)]
pub struct Rejection {
    pub index: usize,
    pub activity: AccountActivity,
    pub error: AccountActivityError,
}

/// Whether the record at position `i` is an activity that its account rejects, given the
/// records before it.
pub open spec fn rejected_at<E>(records: Seq<Result<AccountActivity, E>>, i: int) -> bool {
    match records[i] {
        Ok(activity) => step(
            account_in(ledger_run(Map::empty(), records.subrange(0, i)), activity.client_id()),
            activity,
        ) is Err,
        Err(_) => false,
    }
}

/// `rejections` lists, in input order, exactly the records among the first `n` that their
/// accounts reject, each with the kind of error that [`step`] gives.
pub open spec fn reports_rejections<E>(
    records: Seq<Result<AccountActivity, E>>,
    rejections: Seq<Rejection>,
    n: int,
) -> bool {
    &&& forall|k: int|
        0 <= k < rejections.len() ==> {
            let j = #[trigger] rejections[k].index as int;
            &&& j < n
            &&& records[j] == Ok::<AccountActivity, E>(rejections[k].activity)
            &&& step(
                account_in(
                    ledger_run(Map::empty(), records.subrange(0, j)),
                    rejections[k].activity.client_id(),
                ),
                rejections[k].activity,
            ) == Err::<AccountView, ErrorKind>(rejections[k].error.kind())
        }
    &&& forall|k1: int, k2: int|
        0 <= k1 < k2 < rejections.len() ==> #[trigger] rejections[k1].index
            < #[trigger] rejections[k2].index
    &&& forall|i: int|
        0 <= i < n && #[trigger] rejected_at(records, i) ==> exists|k: int|
            0 <= k < rejections.len() && #[trigger] rejections[k].index == i
}

/// Folds activity records, in order, into the final state of every account that they mention,
/// and reports every activity that was rejected.
///
/// Records that failed to parse are skipped. Each activity goes to the account of its client,
/// which is created with zero balances on first sight; a rejected activity is skipped and leaves
/// its account unchanged. The accounts come one per client, in the order in which the clients
/// first appeared; the rejections come in input order.
pub fn process_activities_reporting<E>(activities: &Vec<Result<AccountActivity, E>>) -> (r: (
    Vec<Account>,
    Vec<Rejection>,
))
    ensures
        lists_ledger(r.0@, ledger_run(Map::empty(), activities@)),
        reports_rejections(activities@, r.1@, activities@.len() as int),
{
    let mut ledger = Ledger::new();
    let mut rejections: Vec<Rejection> = Vec::new();
    let mut i: usize = 0;
    while i < activities.len()
        invariant
            ledger.wf(),
            i <= activities@.len(),
            ledger@ == ledger_run(Map::empty(), activities@.subrange(0, i as int)),
            reports_rejections(activities@, rejections@, i as int),
        decreases activities@.len() - i,
    {
        let ghost done = activities@.subrange(0, i as int);
        let ghost with_next = activities@.subrange(0, i as int + 1);
        assert(with_next.drop_last() =~= done);
        let ghost before = rejections@;
        match &activities[i] {
            Ok(activity) => {
                let activity = *activity;
                match ledger.apply(activity) {
                    Ok(()) => {},
                    Err(error) => {
                        rejections.push(Rejection { index: i, activity, error });
                        assert forall|k: int|
                            0 <= k < before.len() implies rejections@[k] == before[k] by {}
                    },
                }
            },
            Err(_) => {},
        }
        assert forall|j: int|
            0 <= j < i + 1 && #[trigger] rejected_at(activities@, j) implies exists|k: int|
                0 <= k < rejections@.len() && #[trigger] rejections@[k].index == j by {
            if j < i {
                let k = choose|k: int| 0 <= k < before.len() && #[trigger] before[k].index == j;
                assert(rejections@[k].index == j);
            } else {
                assert(rejections@[rejections@.len() - 1].index == j);
            }
        }
        i = i + 1;
    }
    assert(activities@.subrange(0, activities@.len() as int) =~= activities@);
    (ledger.into_accounts(), rejections)
}

/// Folds activity records, in order, into the final state of every account that they mention.
///
/// Records that failed to parse are skipped. Each activity goes to the account of its client,
/// which is created with zero balances on first sight; a rejected activity is skipped and leaves
/// its account unchanged. The result holds one account per client, in the order in which the
/// clients first appeared.
pub fn process_activities<E>(activities: Vec<Result<AccountActivity, E>>) -> (r: Vec<Account>)
    ensures
        lists_ledger(r@, ledger_run(Map::empty(), activities@)),
{
    let (accounts, _) = process_activities_reporting(&activities);
    accounts
}

} // verus!
