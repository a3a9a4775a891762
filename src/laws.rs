//! Properties of the ledger that hold for every input, proved over the state machine.

use crate::account::{add_recorded, lemma_step_keeps_inv, next, step, Account, AccountView};
use crate::account_activity::{AccountActivity, ErrorKind};
use crate::dispute::DisputeCase;
use crate::processor::{account_in, ledger_run, lists_ledger};
use crate::transaction::Transaction;
use crate::ClientID;
use vstd::prelude::*;
use vstd::set::fold::lemma_fold_empty;

verus! {

/// A fresh account satisfies the account invariant.
pub proof fn lemma_fresh_inv(client: ClientID)
    ensures
        AccountView::fresh(client).inv(),
{
    lemma_fold_empty(0int, add_recorded(Map::empty()));
}

/// Every account of a ledger built from the empty ledger satisfies the account invariant; in
/// particular its total is the sum of its available and held funds.
pub proof fn lemma_run_keeps_inv<E>(records: Seq<Result<AccountActivity, E>>)
    ensures
        forall|c: u16| #[trigger]
            ledger_run(Map::empty(), records).contains_key(c) ==> ledger_run(
                Map::empty(),
                records,
            )[c].inv(),
    decreases records.len(),
{
    if records.len() > 0 {
        lemma_run_keeps_inv(records.drop_last());
        let before = ledger_run(Map::empty(), records.drop_last());
        if let Ok(activity) = records.last() {
            let client = activity.client_id();
            lemma_fresh_inv(client);
            lemma_step_keeps_inv(account_in(before, client), activity);
        }
    }
}

/// After any sequence of records, every account's total equals its available plus its held
/// funds.
pub proof fn total_is_available_plus_held<E>(records: Seq<Result<AccountActivity, E>>, c: u16)
    requires
        ledger_run(Map::empty(), records).contains_key(c),
    ensures
        ledger_run(Map::empty(), records)[c].total == ledger_run(Map::empty(), records)[c].available
            + ledger_run(Map::empty(), records)[c].held,
{
    lemma_run_keeps_inv(records);
}

/// A withdrawal never drives the available funds below zero: one that exceeds them is rejected
/// with `FailedTransaction`, not clamped.
pub proof fn withdrawal_never_overdraws(s: AccountView, t: Transaction)
    requires
        s.inv(),
    ensures
        step(s, AccountActivity::Withdrawal(t)) matches Ok(n) ==> n.available >= 0,
        !t.amount.negative && t.amount.units > s.available ==> step(
            s,
            AccountActivity::Withdrawal(t),
        ) == Err::<AccountView, ErrorKind>(ErrorKind::FailedTransaction),
{
}

/// Once an account is locked, no later record changes it: every activity for it is rejected
/// and its balances stay as they were.
pub proof fn locked_account_never_changes<E>(
    m: Map<u16, AccountView>,
    records: Seq<Result<AccountActivity, E>>,
    c: u16,
)
    requires
        m.contains_key(c),
        m[c].locked,
    ensures
        ledger_run(m, records).contains_key(c),
        ledger_run(m, records)[c] == m[c],
    decreases records.len(),
{
    if records.len() > 0 {
        locked_account_never_changes(m, records.drop_last(), c);
    }
}

/// A locked account rejects every activity with `FailedTransaction`.
pub proof fn locked_account_rejects(s: AccountView, activity: AccountActivity)
    requires
        s.locked,
    ensures
        step(s, activity) == Err::<AccountView, ErrorKind>(ErrorKind::FailedTransaction),
        next(s, activity) == s,
{
}

/// A dispute, resolution or chargeback of a transaction that the account never recorded is
/// accepted and leaves the account exactly as it was (on an account that is not locked).
pub proof fn unknown_transaction_is_ignored(s: AccountView, d: DisputeCase)
    requires
        s.inv(),
        !s.locked,
        !s.record.contains_key(d.transaction_id.0),
    ensures
        step(s, AccountActivity::Dispute(d)) == Ok::<AccountView, ErrorKind>(s),
        step(s, AccountActivity::Resolve(d)) == Ok::<AccountView, ErrorKind>(s),
        step(s, AccountActivity::Chargeback(d)) == Ok::<AccountView, ErrorKind>(s),
{
}

/// Disputing a recorded transaction twice in a row: the second dispute is rejected with
/// `FailedDisputeCase` and the account stays as the first dispute left it.
pub proof fn second_dispute_is_rejected(s: AccountView, first: DisputeCase, second: DisputeCase)
    requires
        s.inv(),
        s.record.contains_key(first.transaction_id.0),
        step(s, AccountActivity::Dispute(first)) is Ok,
        second.transaction_id == first.transaction_id,
    ensures
        step(next(s, AccountActivity::Dispute(first)), AccountActivity::Dispute(second)) == Err::<
            AccountView,
            ErrorKind,
        >(ErrorKind::FailedDisputeCase),
        next(next(s, AccountActivity::Dispute(first)), AccountActivity::Dispute(second)) == next(
            s,
            AccountActivity::Dispute(first),
        ),
{
}

/// Whether `accounts` holds an account of client `c`.
pub open spec fn holds_client(accounts: Seq<Account>, c: u16) -> bool {
    exists|i: int| 0 <= i < accounts.len() && #[trigger] accounts[i]@.client_id.0 == c
}

/// Two lists of accounts that both describe the outcome of the same records (as the results of
/// two runs of `process_activities` on them do) hold the same clients, and each client has the
/// same balances, lock state and bookkeeping in both.
pub proof fn replay_is_deterministic<E>(
    records: Seq<Result<AccountActivity, E>>,
    first: Seq<Account>,
    second: Seq<Account>,
)
    requires
        lists_ledger(first, ledger_run(Map::empty(), records)),
        lists_ledger(second, ledger_run(Map::empty(), records)),
    ensures
        forall|c: u16| #[trigger] holds_client(first, c) == holds_client(second, c),
        forall|i: int, j: int|
            0 <= i < first.len() && 0 <= j < second.len() && #[trigger] first[i]@.client_id
                == #[trigger] second[j]@.client_id ==> first[i]@ == second[j]@,
{
    lemma_same_ledger(ledger_run(Map::empty(), records), first, second);
}

proof fn lemma_holds_client(m: Map<u16, AccountView>, accounts: Seq<Account>)
    requires
        lists_ledger(accounts, m),
    ensures
        forall|c: u16| #[trigger] holds_client(accounts, c) == m.contains_key(c),
{
    assert forall|c: u16| #[trigger] holds_client(accounts, c) implies m.contains_key(c) by {
        let i = choose|i: int| 0 <= i < accounts.len() && #[trigger] accounts[i]@.client_id.0 == c;
        assert(accounts[i].wf());
    }
}

proof fn lemma_same_ledger(
    m: Map<u16, AccountView>,
    first: Seq<Account>,
    second: Seq<Account>,
)
    requires
        lists_ledger(first, m),
        lists_ledger(second, m),
    ensures
        forall|c: u16| #[trigger] holds_client(first, c) == holds_client(second, c),
        forall|i: int, j: int|
            0 <= i < first.len() && 0 <= j < second.len() && #[trigger] first[i]@.client_id
                == #[trigger] second[j]@.client_id ==> first[i]@ == second[j]@,
{
    lemma_holds_client(m, first);
    lemma_holds_client(m, second);
    assert forall|i: int, j: int|
        0 <= i < first.len() && 0 <= j < second.len() && #[trigger] first[i]@.client_id
            == #[trigger] second[j]@.client_id implies first[i]@ == second[j]@ by {
        assert(first[i].wf());
        assert(second[j].wf());
    }
}

} // verus!
