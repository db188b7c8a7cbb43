use vstd::prelude::*;
use crate::ids::{server_url_is_valid, url_parses};
use crate::model::{Account, AccountId, Changes, TableName};
use crate::store::names;

verus! {

/// Whether a list of accounts holds an identifier, and with which
/// configuration.
pub open spec fn config_of(list: Seq<(AccountId, Account)>, id: AccountId) -> Option<Account> {
    if exists|i: int| 0 <= i < list.len() && (#[trigger] list[i]).0 == id {
        Some(list[choose|i: int| 0 <= i < list.len() && (#[trigger] list[i]).0 == id].1)
    } else {
        None
    }
}

/// An account is started when it is new or its configuration changed.
pub open spec fn must_start(running: Seq<(AccountId, Account)>, current: (AccountId, Account)) -> bool {
    match config_of(running, current.0) {
        Some(a) => a@ != current.1@,
        None => true,
    }
}

/// A running account stops when it is gone or its configuration changed.
pub open spec fn must_stop(current: Seq<(AccountId, Account)>, running: (AccountId, Account)) -> bool {
    match config_of(current, running.0) {
        Some(c) => c@ != running.1@,
        None => true,
    }
}

/// Some running account with that identifier must stop.
pub open spec fn stoppable(
    running: Seq<(AccountId, Account)>,
    current: Seq<(AccountId, Account)>,
    id: AccountId,
) -> bool {
    exists|j: int| 0 <= j < running.len() && (#[trigger] running[j]).0 == id && must_stop(current, running[j])
}

/// An entry of the current accounts that must start, with a usable server
/// address.
pub open spec fn startable(
    running: Seq<(AccountId, Account)>,
    current: Seq<(AccountId, Account)>,
    entry: (AccountId, Account),
) -> bool {
    exists|j: int|
        0 <= j < current.len() && #[trigger] current[j] == entry && must_start(running, current[j])
            && url_parses(current[j].1.server_url@)
}

/// A current account that must start but whose server address does not parse.
pub open spec fn refused(
    running: Seq<(AccountId, Account)>,
    current: Seq<(AccountId, Account)>,
    id: AccountId,
) -> bool {
    exists|j: int|
        0 <= j < current.len() && (#[trigger] current[j]).0 == id && must_start(running, current[j])
            && !url_parses(current[j].1.server_url@)
}

/// What the account supervisor does after reading the accounts.
#[derive(Clone, Debug)]
pub struct AccountPlan {
    /// Accounts whose machinery stops: removed, or about to restart.
    pub stop: Vec<AccountId>,
    /// Accounts whose machinery starts, with their configuration.
    pub start: Vec<(AccountId, Account)>,
    /// Accounts that should start but whose server address does not parse;
    /// they stay stopped, and the others go on.
    pub invalid_url: Vec<AccountId>,
}

fn find_account(list: &Vec<(AccountId, Account)>, id: AccountId) -> (r: Option<usize>)
    ensures
        r is None <==> !(exists|i: int| 0 <= i < list@.len() && (#[trigger] list@[i]).0 == id),
        r matches Some(i) ==> i < list@.len() && list@[i as int].0 == id,
{
    let mut i: usize = 0;
    while i < list.len()
        invariant
            i <= list@.len(),
            forall|j: int| 0 <= j < i ==> (#[trigger] list@[j]).0 != id,
        decreases list@.len() - i,
    {
        if list[i].0 == id {
            return Some(i);
        }
        i = i + 1;
    }
    None
}

/// Compares the accounts being synced with those now stored. Account
/// identifiers are unique in both lists. An account whose server address does
/// not parse is reported and not started; it does not hold up the others.
pub fn plan_accounts(running: &Vec<(AccountId, Account)>, current: &Vec<(AccountId, Account)>) -> (plan:
    AccountPlan)
    requires
        forall|i: int, j: int|
            0 <= i < j < running@.len() ==> (#[trigger] running@[i]).0 != (#[trigger] running@[j]).0,
        forall|i: int, j: int|
            0 <= i < j < current@.len() ==> (#[trigger] current@[i]).0 != (#[trigger] current@[j]).0,
    ensures
        forall|i: int| 0 <= i < plan.stop@.len() ==> stoppable(running@, current@, #[trigger] plan.stop@[i]),
        forall|i: int|
            0 <= i < running@.len() && must_stop(current@, #[trigger] running@[i]) ==> plan.stop@.contains(running@[i].0),
        forall|i: int| 0 <= i < plan.start@.len() ==> startable(running@, current@, #[trigger] plan.start@[i]),
        forall|j: int|
            0 <= j < current@.len() && must_start(running@, #[trigger] current@[j]) && url_parses(
                current@[j].1.server_url@,
            ) ==> plan.start@.contains(current@[j]),
        forall|i: int| 0 <= i < plan.invalid_url@.len() ==> refused(running@, current@, #[trigger] plan.invalid_url@[i]),
        forall|j: int|
            0 <= j < current@.len() && must_start(running@, #[trigger] current@[j]) && !url_parses(
                current@[j].1.server_url@,
            ) ==> plan.invalid_url@.contains(current@[j].0),
{
    let mut stop: Vec<AccountId> = Vec::new();
    let mut i: usize = 0;
    while i < running.len()
        invariant
            i <= running@.len(),
            forall|j: int, k: int|
                0 <= j < k < current@.len() ==> (#[trigger] current@[j]).0 != (#[trigger] current@[k]).0,
            forall|x: int| 0 <= x < stop@.len() ==> stoppable(running@, current@, #[trigger] stop@[x]),
            forall|j: int|
                0 <= j < i && must_stop(current@, #[trigger] running@[j]) ==> stop@.contains(running@[j].0),
        decreases running@.len() - i,
    {
        let (id, acc) = (running[i].0, &running[i].1);
        let found = find_account(current, id);
        let keep = match found {
            Some(j) => current[j].1.same_config(acc),
            None => false,
        };
        proof {
            if let Some(j) = found {
                let c = choose|x: int| 0 <= x < current@.len() && (#[trigger] current@[x]).0 == id;
                if c < j {
                    assert(current@[c].0 != current@[j as int].0);
                } else if j < c {
                    assert(current@[j as int].0 != current@[c].0);
                }
                assert(config_of(current@, id) == Some(current@[j as int].1));
            }
            assert(keep == !must_stop(current@, running@[i as int]));
        }
        let ghost before = stop@;
        if !keep {
            stop.push(id);
            proof {
                assert(stop@[before.len() as int] == id);
            }
        }
        proof {
            assert forall|x: int| 0 <= x < stop@.len() implies stoppable(running@, current@, #[trigger] stop@[x]) by {
                if x < before.len() {
                    assert(stop@[x] == before[x]);
                } else {
                    assert(running@[i as int].0 == stop@[x]);
                    assert(must_stop(current@, running@[i as int]));
                }
            }
            assert forall|j: int|
                0 <= j < i + 1 && must_stop(current@, #[trigger] running@[j]) implies stop@.contains(running@[j].0) by {
                if j < i {
                    let x = choose|x: int| 0 <= x < before.len() && before[x] == running@[j].0;
                    assert(stop@[x] == before[x]);
                } else {
                    assert(stop@[before.len() as int] == id);
                }
            }
        }
        i = i + 1;
    }
    let mut start: Vec<(AccountId, Account)> = Vec::new();
    let mut invalid_url: Vec<AccountId> = Vec::new();
    let mut k: usize = 0;
    while k < current.len()
        invariant
            k <= current@.len(),
            forall|x: int| 0 <= x < stop@.len() ==> stoppable(running@, current@, #[trigger] stop@[x]),
            forall|j: int|
                0 <= j < running@.len() && must_stop(current@, #[trigger] running@[j]) ==> stop@.contains(running@[j].0),
            forall|j: int, l: int|
                0 <= j < l < running@.len() ==> (#[trigger] running@[j]).0 != (#[trigger] running@[l]).0,
            forall|x: int| 0 <= x < start@.len() ==> startable(running@, current@, #[trigger] start@[x]),
            forall|j: int|
                0 <= j < k && must_start(running@, #[trigger] current@[j]) && url_parses(
                    current@[j].1.server_url@,
                ) ==> start@.contains(current@[j]),
            forall|x: int| 0 <= x < invalid_url@.len() ==> refused(running@, current@, #[trigger] invalid_url@[x]),
            forall|j: int|
                0 <= j < k && must_start(running@, #[trigger] current@[j]) && !url_parses(
                    current@[j].1.server_url@,
                ) ==> invalid_url@.contains(current@[j].0),
        decreases current@.len() - k,
    {
        let id = current[k].0;
        let found = find_account(running, id);
        let begin = match found {
            Some(j) => !running[j].1.same_config(&current[k].1),
            None => true,
        };
        proof {
            if let Some(j) = found {
                let c = choose|x: int| 0 <= x < running@.len() && (#[trigger] running@[x]).0 == id;
                if c < j {
                    assert(running@[c].0 != running@[j as int].0);
                } else if j < c {
                    assert(running@[j as int].0 != running@[c].0);
                }
                assert(config_of(running@, id) == Some(running@[j as int].1));
            }
            assert(begin == must_start(running@, current@[k as int]));
        }
        let ghost before = start@;
        let ghost bad_before = invalid_url@;
        let usable = begin && server_url_is_valid(&current[k].1.server_url);
        if usable {
            start.push((id, current[k].1.copy()));
            assert(start@[before.len() as int] == current@[k as int]);
        } else if begin {
            invalid_url.push(id);
            assert(invalid_url@[bad_before.len() as int] == id);
        }
        proof {
            assert forall|x: int| 0 <= x < invalid_url@.len() implies refused(running@, current@, #[trigger] invalid_url@[x]) by {
                if x < bad_before.len() {
                    assert(invalid_url@[x] == bad_before[x]);
                } else {
                    assert(current@[k as int].0 == invalid_url@[x]);
                }
            }
            assert forall|j: int|
                0 <= j < k + 1 && must_start(running@, #[trigger] current@[j]) && !url_parses(
                    current@[j].1.server_url@,
                ) implies invalid_url@.contains(current@[j].0) by {
                if j < k {
                    let x = choose|x: int| 0 <= x < bad_before.len() && bad_before[x] == current@[j].0;
                    assert(invalid_url@[x] == bad_before[x]);
                } else {
                    assert(invalid_url@[bad_before.len() as int] == current@[j].0);
                }
            }
            assert forall|x: int| 0 <= x < start@.len() implies startable(running@, current@, #[trigger] start@[x]) by {
                if x < before.len() {
                    assert(start@[x] == before[x]);
                } else {
                    assert(start@[x] == current@[k as int]);
                }
            }
            assert forall|j: int|
                0 <= j < k + 1 && must_start(running@, #[trigger] current@[j]) && url_parses(
                    current@[j].1.server_url@,
                ) implies start@.contains(current@[j]) by {
                if j < k {
                    let x = choose|x: int| 0 <= x < before.len() && before[x] == current@[j];
                    assert(start@[x] == before[x]);
                } else {
                    assert(start@[before.len() as int] == current@[j]);
                }
            }
        }
        k = k + 1;
    }
    AccountPlan { stop, start, invalid_url }
}

/// Whether a change event concerns the accounts.
pub fn is_accounts_change(ch: &Changes) -> (r: bool)
    ensures
        r == ch.has(TableName::Accounts),
{
    ch.contains(TableName::Accounts)
}

/// Whether a change event concerns the mailboxes.
pub fn is_mailboxes_change(ch: &Changes) -> (r: bool)
    ensures
        r == ch.has(TableName::Mailboxes),
{
    ch.contains(TableName::Mailboxes)
}

/// Which mailbox syncers stop and which start, given the stored mailboxes.
#[derive(Clone, Debug)]
pub struct WorkerPlan {
    pub stop: Vec<String>,
    pub start: Vec<String>,
}

/// Keeps only the syncers of stored mailboxes and starts one for each stored
/// mailbox without one.
pub fn plan_mailbox_workers(running: &Vec<String>, mailboxes: &Vec<String>) -> (r: WorkerPlan)
    ensures
        forall|k: Seq<char>| names(r.stop@, k) <==> (names(running@, k) && !names(mailboxes@, k)),
        forall|k: Seq<char>| names(r.start@, k) <==> (names(mailboxes@, k) && !names(running@, k)),
{
    WorkerPlan { stop: difference(running, mailboxes), start: difference(mailboxes, running) }
}

/// The ids of one list that the other lacks.
pub fn difference(a: &Vec<String>, b: &Vec<String>) -> (r: Vec<String>)
    ensures
        forall|k: Seq<char>| names(r@, k) <==> (names(a@, k) && !names(b@, k)),
{
    let mut out: Vec<String> = Vec::new();
    let mut i: usize = 0;
    while i < a.len()
        invariant
            i <= a@.len(),
            forall|k: Seq<char>| names(out@, k) <==> (crate::store::names_upto(a@, i as int, k) && !names(b@, k)),
        decreases a@.len() - i,
    {
        let ghost before = out@;
        if route_watch_request(b, &a[i]).is_none() {
            out.push(a[i].clone());
        }
        proof {
            assert forall|k: Seq<char>| names(out@, k) <==> (crate::store::names_upto(a@, i as int + 1, k) && !names(b@, k)) by {
                crate::store::lemma_names_upto_step(a@, i as int, k);
                if names(out@, k) {
                    let x = choose|x: int| 0 <= x < out@.len() && (#[trigger] out@[x])@ == k;
                    if x < before.len() {
                        assert(out@[x] == before[x]);
                        assert(names(before, k));
                    }
                }
                if names(before, k) {
                    let x = choose|x: int| 0 <= x < before.len() && (#[trigger] before[x])@ == k;
                    assert(out@[x] == before[x]);
                }
                if a@[i as int]@ == k && !names(b@, k) {
                    assert(out@[before.len() as int]@ == k);
                }
            }
        }
        i = i + 1;
    }
    proof {
        assert forall|k: Seq<char>| names(out@, k) <==> (names(a@, k) && !names(b@, k)) by {
            assert(names(a@, k) == crate::store::names_upto(a@, a@.len() as int, k));
        }
    }
    out
}

/// The syncer that a watch request for a mailbox goes to; none when the
/// mailbox has no syncer, and the request is dropped.
pub fn route_watch_request(running: &Vec<String>, mailbox_id: &String) -> (r: Option<usize>)
    ensures
        r is None <==> !names(running@, mailbox_id@),
        r matches Some(i) ==> i < running@.len() && running@[i as int]@ == mailbox_id@,
{
    let mut i: usize = 0;
    while i < running.len()
        invariant
            i <= running@.len(),
            forall|j: int| 0 <= j < i ==> (#[trigger] running@[j])@ != mailbox_id@,
        decreases running@.len() - i,
    {
        if running[i] == *mailbox_id {
            return Some(i);
        }
        i = i + 1;
    }
    None
}

} // verus!
