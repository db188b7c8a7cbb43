use vstd::prelude::*;
use crate::model::AccountId;
use crate::store::{EmailRow, Store};
use crate::email_query::chars_of;
use crate::order::{key_le, key_le_exec, lemma_key_le_total, lemma_key_le_trans};

verus! {

/// The emails of one thread within a mailbox.
#[derive(Clone, Debug)]
pub struct Thread {
    pub id: String,
    /// When the newest email of the thread arrived.
    pub last_received_at: i64,
    /// The identifiers of the thread's emails in the mailbox.
    pub email_ids: Vec<String>,
}

/// A client's request for a page of a mailbox's threads.
#[derive(Clone, Debug)]
pub struct ThreadQuery {
    pub mailbox_id: String,
    pub limit: usize,
    pub offset: usize,
}

/// A stored email of the account that belongs to the mailbox.
pub open spec fn in_mailbox(s: &Store, account_id: AccountId, mailbox: Seq<char>, row: EmailRow) -> bool {
    row.account_id == account_id && s.has_link(account_id, mailbox, row.id@)
}

/// A stored email of the mailbox has this identifier, belongs to the thread,
/// and arrived no later than the thread's time.
pub open spec fn email_of_thread(s: &Store, account_id: AccountId, mailbox: Seq<char>, th: Thread, id: Seq<char>) -> bool {
    exists|i: int|
        0 <= i < s.emails.rows@.len() && in_mailbox(s, account_id, mailbox, #[trigger] s.emails.rows@[i])
            && s.emails.rows@[i].id@ == id && s.emails.rows@[i].thread_id@ == th.id@
            && s.emails.rows@[i].received_at <= th.last_received_at
}

/// Each thread of a list is made only of emails of the mailbox with its
/// thread identifier, arrived no later than its time.
pub open spec fn threads_sound(s: &Store, account_id: AccountId, mailbox: Seq<char>, ts: Seq<Thread>) -> bool {
    forall|t: int, k: int|
        0 <= t < ts.len() && 0 <= k < ts[t].email_ids@.len() ==> email_of_thread(s, account_id, mailbox, ts[t], (#[trigger] ts[t].email_ids@[k])@)
}

/// A thread's time is that of one of its emails in the mailbox.
pub open spec fn time_attained(s: &Store, account_id: AccountId, mailbox: Seq<char>, th: Thread) -> bool {
    exists|i: int|
        0 <= i < s.emails.rows@.len() && in_mailbox(s, account_id, mailbox, #[trigger] s.emails.rows@[i])
            && s.emails.rows@[i].thread_id@ == th.id@ && s.emails.rows@[i].received_at == th.last_received_at
}

/// Every thread's time is the time of its newest email.
pub open spec fn threads_timed(s: &Store, account_id: AccountId, mailbox: Seq<char>, ts: Seq<Thread>) -> bool {
    forall|t: int| 0 <= t < ts.len() ==> time_attained(s, account_id, mailbox, #[trigger] ts[t])
}

/// No two threads of a list share an identifier.
pub open spec fn threads_distinct(ts: Seq<Thread>) -> bool {
    forall|x: int, y: int| 0 <= x < y < ts.len() ==> (#[trigger] ts[x]).id@ != (#[trigger] ts[y]).id@
}

/// One thread comes no later than another: the newer first, and threads of
/// equal time by identifier in text order.
pub open spec fn thread_le(a: Thread, b: Thread) -> bool {
    key_le(a.last_received_at, a.id@, b.last_received_at, b.id@, false)
}

/// Newest first, then by identifier.
pub open spec fn threads_sorted(ts: Seq<Thread>) -> bool {
    forall|x: int, y: int| 0 <= x < y < ts.len() ==> thread_le(#[trigger] ts[x], #[trigger] ts[y])
}

/// Every email of the mailbox among the first `n` rows stands in the thread
/// of its thread identifier, which is no older than it.
pub open spec fn threads_complete(
    s: &Store,
    account_id: AccountId,
    mailbox: Seq<char>,
    ts: Seq<Thread>,
    n: int,
) -> bool {
    forall|i: int|
        0 <= i < n && in_mailbox(s, account_id, mailbox, #[trigger] s.emails.rows@[i]) ==> exists|t: int|
            0 <= t < ts.len() && ts[t].id@ == s.emails.rows@[i].thread_id@
                && s.emails.rows@[i].received_at <= ts[t].last_received_at && exists|k: int|
                0 <= k < ts[t].email_ids@.len() && ts[t].email_ids@[k]@ == s.emails.rows@[i].id@
}

impl Store {
    pub(crate) fn has_link_exec(&self, account_id: AccountId, mailbox_id: &String, email_id: &String) -> (r: bool)
        ensures
            r == self.has_link(account_id, mailbox_id@, email_id@),
    {
        let mut i: usize = 0;
        while i < self.links.len()
            invariant
                i <= self.links@.len(),
                forall|j: int|
                    0 <= j < i ==> !((#[trigger] self.links@[j]).account_id == account_id
                        && self.links@[j].mailbox_id@ == mailbox_id@ && self.links@[j].email_id@
                        == email_id@),
            decreases self.links@.len() - i,
        {
            let l = &self.links[i];
            if l.account_id == account_id && l.mailbox_id == *mailbox_id && l.email_id == *email_id {
                return true;
            }
            i = i + 1;
        }
        false
    }

    /// The threads of a mailbox, one per thread identifier of its emails, in
    /// the order in which their first email was stored.
    pub fn group_threads(&self, account_id: AccountId, mailbox_id: &String) -> (r: Vec<Thread>)
        requires
            self.wf(),
        ensures
            threads_sound(self, account_id, mailbox_id@, r@),
            threads_timed(self, account_id, mailbox_id@, r@),
            threads_distinct(r@),
            threads_complete(self, account_id, mailbox_id@, r@, self.emails.rows@.len() as int),
    {
        let mut out: Vec<Thread> = Vec::new();
        let mut i: usize = 0;
        while i < self.emails.rows.len()
            invariant
                self.wf(),
                i <= self.emails.rows@.len(),
                threads_sound(self, account_id, mailbox_id@, out@),
                threads_timed(self, account_id, mailbox_id@, out@),
                threads_distinct(out@),
                threads_complete(self, account_id, mailbox_id@, out@, i as int),
            decreases self.emails.rows@.len() - i,
        {
            let row = &self.emails.rows[i];
            if row.account_id == account_id && self.has_link_exec(account_id, mailbox_id, &row.id) {
                let ghost before = out@;
                let mut t: usize = 0;
                while t < out.len() && out[t].id != row.thread_id
                    invariant
                        t <= out@.len(),
                        forall|x: int| 0 <= x < t ==> (#[trigger] out@[x]).id@ != row.thread_id@,
                    decreases out@.len() - t,
                {
                    t = t + 1;
                }
                if t < out.len() {
                    let old_t = out.remove(t);
                    let mut ids = old_t.email_ids;
                    let ghost old_ids = ids@;
                    ids.push(row.id.clone());
                    let last = if row.received_at > old_t.last_received_at {
                        row.received_at
                    } else {
                        old_t.last_received_at
                    };
                    out.insert(t, Thread { id: old_t.id, last_received_at: last, email_ids: ids });
                    proof {
                        assert forall|x: int| 0 <= x < out@.len() implies time_attained(self, account_id, mailbox_id@, #[trigger] out@[x]) by {
                            if x != t as int {
                                assert(out@[x] == before[x]);
                            } else if row.received_at > before[t as int].last_received_at {
                                assert(in_mailbox(self, account_id, mailbox_id@, self.emails.rows@[i as int]));
                            } else {
                                assert(time_attained(self, account_id, mailbox_id@, before[t as int]));
                            }
                        }
                        assert forall|x: int| 0 <= x < out@.len() && x != t implies out@[x] == before[x] by {}
                        assert forall|x: int, k: int|
                            0 <= x < out@.len() && 0 <= k < out@[x].email_ids@.len() implies email_of_thread(self, account_id, mailbox_id@, out@[x], (#[trigger] out@[x].email_ids@[k])@) by {
                            if x != t {
                                assert(out@[x] == before[x]);
                                assert(before[x].email_ids@[k] == out@[x].email_ids@[k]);
                            } else if k < old_ids.len() {
                                assert(out@[x].email_ids@[k] == old_ids[k]);
                                assert(before[x].email_ids@[k] == old_ids[k]);
                            } else {
                                assert(out@[x].email_ids@[k]@ == row.id@);
                                assert(in_mailbox(self, account_id, mailbox_id@, self.emails.rows@[i as int]));
                            }
                        }
                        assert forall|x: int, y: int| 0 <= x < y < out@.len() implies (#[trigger] out@[x]).id@ != (#[trigger] out@[y]).id@ by {
                            if x != t { assert(out@[x] == before[x]); }
                            if y != t { assert(out@[y] == before[y]); }
                        }
                        assert forall|j: int|
                            0 <= j < i + 1 && in_mailbox(self, account_id, mailbox_id@, #[trigger] self.emails.rows@[j]) implies exists|x: int|
                                0 <= x < out@.len() && out@[x].id@ == self.emails.rows@[j].thread_id@
                                    && self.emails.rows@[j].received_at <= out@[x].last_received_at && exists|k: int|
                                    0 <= k < out@[x].email_ids@.len() && out@[x].email_ids@[k]@ == self.emails.rows@[j].id@ by {
                            if j < i {
                                let x = choose|x: int|
                                    0 <= x < before.len() && before[x].id@ == self.emails.rows@[j].thread_id@
                                        && self.emails.rows@[j].received_at <= before[x].last_received_at && exists|k: int|
                                        0 <= k < before[x].email_ids@.len() && before[x].email_ids@[k]@ == self.emails.rows@[j].id@;
                                let k = choose|k: int|
                                    0 <= k < before[x].email_ids@.len() && before[x].email_ids@[k]@ == self.emails.rows@[j].id@;
                                if x != t {
                                    assert(out@[x] == before[x]);
                                } else {
                                    assert(out@[x].email_ids@[k] == old_ids[k]);
                                }
                            } else {
                                assert(out@[t as int].email_ids@[old_ids.len() as int]@ == row.id@);
                            }
                        }
                    }
                } else {
                    let mut ids: Vec<String> = Vec::new();
                    ids.push(row.id.clone());
                    out.push(Thread { id: row.thread_id.clone(), last_received_at: row.received_at, email_ids: ids });
                    proof {
                        let n = before.len() as int;
                        assert forall|x: int| 0 <= x < out@.len() implies time_attained(self, account_id, mailbox_id@, #[trigger] out@[x]) by {
                            if x < n {
                                assert(out@[x] == before[x]);
                            } else {
                                assert(in_mailbox(self, account_id, mailbox_id@, self.emails.rows@[i as int]));
                            }
                        }
                        assert forall|x: int| 0 <= x < n implies out@[x] == before[x] by {}
                        assert forall|x: int, k: int|
                            0 <= x < out@.len() && 0 <= k < out@[x].email_ids@.len() implies email_of_thread(self, account_id, mailbox_id@, out@[x], (#[trigger] out@[x].email_ids@[k])@) by {
                            if x < n {
                                assert(before[x].email_ids@[k] == out@[x].email_ids@[k]);
                            } else {
                                assert(in_mailbox(self, account_id, mailbox_id@, self.emails.rows@[i as int]));
                            }
                        }
                        assert forall|x: int, y: int| 0 <= x < y < out@.len() implies (#[trigger] out@[x]).id@ != (#[trigger] out@[y]).id@ by {
                            if y < n { assert(out@[y] == before[y]); }
                        }
                        assert forall|j: int|
                            0 <= j < i + 1 && in_mailbox(self, account_id, mailbox_id@, #[trigger] self.emails.rows@[j]) implies exists|x: int|
                                0 <= x < out@.len() && out@[x].id@ == self.emails.rows@[j].thread_id@
                                    && self.emails.rows@[j].received_at <= out@[x].last_received_at && exists|k: int|
                                    0 <= k < out@[x].email_ids@.len() && out@[x].email_ids@[k]@ == self.emails.rows@[j].id@ by {
                            if j < i {
                                let x = choose|x: int|
                                    0 <= x < before.len() && before[x].id@ == self.emails.rows@[j].thread_id@
                                        && self.emails.rows@[j].received_at <= before[x].last_received_at && exists|k: int|
                                        0 <= k < before[x].email_ids@.len() && before[x].email_ids@[k]@ == self.emails.rows@[j].id@;
                                assert(out@[x] == before[x]);
                            } else {
                                assert(out@[n].email_ids@[0]@ == row.id@);
                            }
                        }
                    }
                }
            } else {
                proof {
                    assert forall|j: int|
                        0 <= j < i + 1 && in_mailbox(self, account_id, mailbox_id@, #[trigger] self.emails.rows@[j]) implies exists|x: int|
                            0 <= x < out@.len() && out@[x].id@ == self.emails.rows@[j].thread_id@
                                && self.emails.rows@[j].received_at <= out@[x].last_received_at && exists|k: int|
                                0 <= k < out@[x].email_ids@.len() && out@[x].email_ids@[k]@ == self.emails.rows@[j].id@ by {
                        if j == i {
                            assert(!in_mailbox(self, account_id, mailbox_id@, self.emails.rows@[j]));
                        }
                    }
                }
            }
            i = i + 1;
        }
        out
    }
}


/// A thread stands among the first `n` of a list.
pub open spec fn appears(b: Seq<Thread>, n: int, t: Thread) -> bool {
    exists|y: int| 0 <= y < n && #[trigger] b[y] == t
}

/// Every thread of one list stands in the other.
pub open spec fn threads_within(a: Seq<Thread>, b: Seq<Thread>) -> bool {
    forall|x: int| 0 <= x < a.len() ==> appears(b, b.len() as int, #[trigger] a[x])
}

/// Inserts a thread after every thread no older than it.
fn insert_by_time(out: &mut Vec<Thread>, t: Thread)
    requires
        threads_sorted(old(out)@),
        threads_distinct(old(out)@),
        forall|y: int| 0 <= y < old(out)@.len() ==> (#[trigger] old(out)@[y]).id@ != t.id@,
    ensures
        final(out)@.len() == old(out)@.len() + 1,
        threads_sorted(final(out)@),
        threads_distinct(final(out)@),
        threads_within(old(out)@, final(out)@),
        threads_within(final(out)@, old(out)@.push(t)),
        appears(final(out)@, final(out)@.len() as int, t),
{
    let mut p: usize = 0;
    let tk = chars_of(&t.id);
    while p < out.len() && key_le_exec(out[p].last_received_at, &chars_of(&out[p].id), t.last_received_at, &tk, false)
        invariant
            p <= out@.len(),
            tk@ == t.id@,
            forall|x: int| 0 <= x < p ==> thread_le(#[trigger] out@[x], t),
        decreases out@.len() - p,
    {
        p = p + 1;
    }
    let ghost before = out@;
    let ghost tt = t;
    out.insert(p, t);
    proof {
        let with = before.push(tt);
        assert(out@[p as int] == tt);
        if p < before.len() {
            lemma_key_le_total(before[p as int].last_received_at, before[p as int].id@, tt.last_received_at, tt.id@, false);
        }
        assert forall|x: int, y: int| 0 <= x < y < out@.len() implies thread_le(#[trigger] out@[x], #[trigger] out@[y]) by {
            if y < p {
                assert(out@[x] == before[x] && out@[y] == before[y]);
            } else if y == p {
                assert(out@[x] == before[x]);
            } else if x < p {
                assert(out@[x] == before[x] && out@[y] == before[y - 1]);
            } else if x == p {
                assert(out@[y] == before[y - 1]);
                if y - 1 > p {
                    assert(thread_le(before[p as int], before[y - 1]));
                    lemma_key_le_trans(tt.last_received_at, tt.id@, before[p as int].last_received_at, before[p as int].id@, before[y - 1].last_received_at, before[y - 1].id@, false);
                }
            } else {
                assert(out@[x] == before[x - 1] && out@[y] == before[y - 1]);
            }
        }
        assert forall|x: int, y: int| 0 <= x < y < out@.len() implies (#[trigger] out@[x]).id@ != (#[trigger] out@[y]).id@ by {
            let xx = if x < p { x } else { x - 1 };
            let yy = if y < p { y } else { y - 1 };
            if x != p && y != p {
                assert(out@[x] == before[xx] && out@[y] == before[yy]);
            } else if x == p {
                assert(out@[y] == before[yy]);
            } else {
                assert(out@[x] == before[xx]);
            }
        }
        assert forall|y: int| 0 <= y < before.len() implies appears(out@, out@.len() as int, #[trigger] before[y]) by {
            if y < p {
                assert(out@[y] == before[y]);
            } else {
                assert(out@[y + 1] == before[y]);
            }
        }
        assert forall|x: int| 0 <= x < out@.len() implies appears(with, with.len() as int, #[trigger] out@[x]) by {
            if x < p {
                assert(out@[x] == with[x]);
            } else if x == p {
                assert(out@[x] == with[before.len() as int]);
            } else {
                assert(out@[x] == with[x - 1]);
            }
        }
    }
}

/// The same threads, newest first; threads of equal time keep their order.
pub fn sort_newest_first(ts: Vec<Thread>) -> (r: Vec<Thread>)
    requires
        threads_distinct(ts@),
    ensures
        threads_sorted(r@),
        threads_distinct(r@),
        r@.len() == ts@.len(),
        threads_within(r@, ts@),
        threads_within(ts@, r@),
{
    let ghost input = ts@;
    let mut out: Vec<Thread> = Vec::new();
    let mut rest = ts;
    let mut i: usize = 0;
    let n = rest.len();
    while rest.len() > 0
        invariant
            i + rest@.len() == n,
            n == input.len(),
            rest@ == input.subrange(i as int, n as int),
            out@.len() == i,
            threads_sorted(out@),
            threads_distinct(out@),
            threads_distinct(input),
            forall|x: int| 0 <= x < out@.len() ==> appears(input, i as int, #[trigger] out@[x]),
            forall|y: int| 0 <= y < i ==> appears(out@, out@.len() as int, #[trigger] input[y]),
        decreases rest@.len(),
    {
        let t = rest.remove(0);
        let ghost before = out@;
        proof {
            assert(t == input[i as int]);
            assert(rest@ =~= input.subrange(i as int + 1, n as int));
            assert forall|y: int| 0 <= y < out@.len() implies (#[trigger] out@[y]).id@ != t.id@ by {
                assert(appears(input, i as int, out@[y]));
                let w = choose|w: int| 0 <= w < i && #[trigger] input[w] == out@[y];
                assert(input[w].id@ != input[i as int].id@);
            }
        }
        insert_by_time(&mut out, t);
        proof {
            let with = before.push(input[i as int]);
            assert forall|x: int| 0 <= x < out@.len() implies appears(input, i as int + 1, #[trigger] out@[x]) by {
                assert(appears(with, with.len() as int, out@[x]));
                let z = choose|z: int| 0 <= z < with.len() && #[trigger] with[z] == out@[x];
                if z < before.len() {
                    assert(with[z] == before[z]);
                    assert(appears(input, i as int, before[z]));
                    let w = choose|w: int| 0 <= w < i && #[trigger] input[w] == before[z];
                    assert(input[w] == out@[x]);
                } else {
                    assert(input[i as int] == out@[x]);
                }
            }
            assert forall|y: int| 0 <= y < i + 1 implies appears(out@, out@.len() as int, #[trigger] input[y]) by {
                if y < i {
                    assert(appears(before, before.len() as int, input[y]));
                    let x = choose|x: int| 0 <= x < before.len() && #[trigger] before[x] == input[y];
                    assert(appears(out@, out@.len() as int, before[x]));
                }
            }
        }
        i = i + 1;
    }
    proof {
        assert(input == ts@);
    }
    out
}

/// A list within a sound list is sound.
pub proof fn lemma_within_sound(s: &Store, account_id: AccountId, m: Seq<char>, g: Seq<Thread>, all: Seq<Thread>)
    requires
        threads_sound(s, account_id, m, g),
        threads_within(all, g),
    ensures
        threads_sound(s, account_id, m, all),
{
    assert forall|t: int, k: int|
        0 <= t < all.len() && 0 <= k < all[t].email_ids@.len() implies email_of_thread(s, account_id, m, all[t], (#[trigger] all[t].email_ids@[k])@) by {
        assert(appears(g, g.len() as int, all[t]));
        let y = choose|y: int| 0 <= y < g.len() && #[trigger] g[y] == all[t];
        assert(g[y].email_ids@[k] == all[t].email_ids@[k]);
    }
}

/// A list within a timed list is timed.
pub proof fn lemma_within_timed(s: &Store, account_id: AccountId, m: Seq<char>, g: Seq<Thread>, all: Seq<Thread>)
    requires
        threads_timed(s, account_id, m, g),
        threads_within(all, g),
    ensures
        threads_timed(s, account_id, m, all),
{
    assert forall|t: int| 0 <= t < all.len() implies time_attained(s, account_id, m, #[trigger] all[t]) by {
        assert(appears(g, g.len() as int, all[t]));
        let y = choose|y: int| 0 <= y < g.len() && #[trigger] g[y] == all[t];
    }
}

/// A list that holds every thread of a complete list is complete.
#[verifier::rlimit(40)]
pub proof fn lemma_within_complete(s: &Store, account_id: AccountId, m: Seq<char>, g: Seq<Thread>, all: Seq<Thread>)
    requires
        threads_complete(s, account_id, m, g, s.emails.rows@.len() as int),
        threads_within(g, all),
    ensures
        threads_complete(s, account_id, m, all, s.emails.rows@.len() as int),
{
    assert forall|i: int|
        0 <= i < s.emails.rows@.len() && in_mailbox(s, account_id, m, #[trigger] s.emails.rows@[i]) implies exists|t: int|
            0 <= t < all.len() && all[t].id@ == s.emails.rows@[i].thread_id@
                && s.emails.rows@[i].received_at <= all[t].last_received_at && exists|k: int|
                0 <= k < all[t].email_ids@.len() && all[t].email_ids@[k]@ == s.emails.rows@[i].id@ by {
        let row = s.emails.rows@[i];
        let y = choose|y: int|
            0 <= y < g.len() && g[y].id@ == row.thread_id@
                && row.received_at <= g[y].last_received_at && exists|k: int|
                0 <= k < g[y].email_ids@.len() && g[y].email_ids@[k]@ == row.id@;
        assert(appears(all, all.len() as int, g[y]));
        let x = choose|x: int| 0 <= x < all.len() && #[trigger] all[x] == g[y];
        let k = choose|k: int| 0 <= k < g[y].email_ids@.len() && g[y].email_ids@[k]@ == row.id@;
        assert(all[x].email_ids@[k]@ == row.id@);
    }
}

/// The threads of a page: those from `offset` on, at most `limit` of them.
pub fn page(ts: Vec<Thread>, offset: usize, limit: usize) -> (r: Vec<Thread>)
    ensures
        r@ == ts@.subrange(
            if offset < ts@.len() { offset as int } else { ts@.len() as int },
            if offset as int + limit as int <= ts@.len() { offset as int + limit as int } else { ts@.len() as int },
        ),
{
    let len = ts.len();
    let start = if offset < len { offset } else { len };
    let end = if limit <= len - start { start + limit } else { len };
    let mut out: Vec<Thread> = Vec::new();
    let mut rest = ts;
    let mut i: usize = 0;
    let ghost input = rest@;
    while i < end
        invariant
            start <= end <= len,
            input.len() == len,
            i <= end,
            rest@ == input.subrange(i as int, len as int),
            out@ == input.subrange(if i < start { i as int } else { start as int }, i as int),
            i <= start ==> out@.len() == 0,
        decreases end - i,
    {
        let t = rest.remove(0);
        proof {
            assert(t == input[i as int]);
            assert(rest@ =~= input.subrange(i as int + 1, len as int));
        }
        if i >= start {
            out.push(t);
        }
        i = i + 1;
        proof {
            if i <= start {
                assert(out@ =~= input.subrange(i as int, i as int));
            } else {
                assert(out@ =~= input.subrange(start as int, i as int));
            }
        }
    }
    out
}

impl Store {
    /// When a stored email arrived.
    pub open spec fn email_time(&self, account_id: AccountId, id: Seq<char>) -> i64 {
        match self.emails.get(account_id, id) {
            Some(r) => r.received_at,
            None => 0,
        }
    }

    fn email_time_exec(&self, account_id: AccountId, id: &String) -> (r: i64)
        requires
            self.wf(),
        ensures
            r == self.email_time(account_id, id@),
    {
        match self.emails.lookup(account_id, id) {
            Some(row) => row.received_at,
            None => 0,
        }
    }

    /// The same email identifiers, newest email first; emails of equal time
    /// keep their order.
    pub fn sort_emails_newest_first(&self, account_id: AccountId, ids: Vec<String>) -> (r: Vec<String>)
        requires
            self.wf(),
        ensures
            r@.len() == ids@.len(),
            ids_within(r@, ids@),
            ids_within(ids@, r@),
            forall|k: int, l: int|
                0 <= k < l < r@.len() ==> self.email_time(account_id, (#[trigger] r@[k])@) >= self.email_time(
                    account_id,
                    (#[trigger] r@[l])@,
                ),
    {
        let ghost input = ids@;
        let mut out: Vec<String> = Vec::new();
        let mut times: Vec<i64> = Vec::new();
        let mut i: usize = 0;
        while i < ids.len()
            invariant
                self.wf(),
                input == ids@,
                i <= ids@.len(),
                out@.len() == i,
                times@.len() == i,
                forall|x: int| 0 <= x < i ==> times@[x] == self.email_time(account_id, (#[trigger] out@[x])@),
                forall|k: int, l: int|
                    0 <= k < l < out@.len() ==> self.email_time(account_id, (#[trigger] out@[k])@)
                        >= self.email_time(account_id, (#[trigger] out@[l])@),
                forall|x: int| 0 <= x < out@.len() ==> id_appears(input, i as int, #[trigger] out@[x]),
                forall|y: int| 0 <= y < i ==> id_appears(out@, out@.len() as int, #[trigger] input[y]),
            decreases ids@.len() - i,
        {
            let id = ids[i].clone();
            let t = self.email_time_exec(account_id, &id);
            let mut p: usize = 0;
            while p < out.len() && times[p] >= t
                invariant
                    p <= out@.len(),
                    times@.len() == out@.len(),
                    forall|x: int| 0 <= x < p ==> (#[trigger] times@[x]) >= t,
                decreases out@.len() - p,
            {
                p = p + 1;
            }
            let ghost before = out@;
            let ghost btimes = times@;
            out.insert(p, id);
            times.insert(p, t);
            proof {
                assert forall|x: int| 0 <= x < i + 1 implies times@[x] == self.email_time(account_id, (#[trigger] out@[x])@) by {
                    if x < p {
                        assert(times@[x] == btimes[x] && out@[x] == before[x]);
                    } else if x > p {
                        assert(times@[x] == btimes[x - 1] && out@[x] == before[x - 1]);
                    }
                }
                assert forall|k: int, l: int|
                    0 <= k < l < out@.len() implies self.email_time(account_id, (#[trigger] out@[k])@)
                        >= self.email_time(account_id, (#[trigger] out@[l])@) by {
                    assert(times@[k] == self.email_time(account_id, out@[k]@));
                    assert(times@[l] == self.email_time(account_id, out@[l]@));
                    if l < p {
                        assert(times@[k] == btimes[k] && times@[l] == btimes[l]);
                        assert(out@[k] == before[k] && out@[l] == before[l]);
                    } else if l == p {
                        assert(times@[k] == btimes[k]);
                    } else if k < p {
                        assert(out@[k] == before[k] && out@[l] == before[l - 1]);
                    } else if k == p {
                        assert(times@[l] == btimes[l - 1]);
                        if p < btimes.len() {
                            assert(btimes[p as int] < t);
                            assert(btimes[p as int] == self.email_time(account_id, before[p as int]@));
                            assert(self.email_time(account_id, before[p as int]@) >= self.email_time(account_id, before[l - 1]@) || l - 1 == p);
                        }
                    } else {
                        assert(out@[k] == before[k - 1] && out@[l] == before[l - 1]);
                    }
                }
                assert forall|x: int| 0 <= x < out@.len() implies id_appears(input, i as int + 1, #[trigger] out@[x]) by {
                    if x < p {
                        assert(out@[x] == before[x]);
                        assert(id_appears(input, i as int, before[x]));
                        let y = choose|y: int| 0 <= y < i && #[trigger] input[y] == before[x];
                    } else if x > p {
                        assert(out@[x] == before[x - 1]);
                        assert(id_appears(input, i as int, before[x - 1]));
                        let y = choose|y: int| 0 <= y < i && #[trigger] input[y] == before[x - 1];
                    } else {
                        assert(input[i as int] == out@[x]);
                    }
                }
                assert forall|y: int| 0 <= y < i + 1 implies id_appears(out@, out@.len() as int, #[trigger] input[y]) by {
                    if y < i {
                        assert(id_appears(before, before.len() as int, input[y]));
                        let x = choose|x: int| 0 <= x < before.len() && #[trigger] before[x] == input[y];
                        if x < p {
                            assert(out@[x] == before[x]);
                        } else {
                            assert(out@[x + 1] == before[x]);
                        }
                    } else {
                        assert(out@[p as int] == input[y]);
                    }
                }
            }
            i = i + 1;
        }
        out
    }

    /// A page of a mailbox's threads: newest first, threads of equal time by
    /// identifier; within a thread, newest email first.
    pub fn get_threads(&self, account_id: AccountId, query: &ThreadQuery) -> (r: Vec<Thread>)
        requires
            self.wf(),
        ensures
            exists|all: Seq<Thread>| {
                &&& threads_sound(self, account_id, query.mailbox_id@, all)
                &&& threads_timed(self, account_id, query.mailbox_id@, all)
                &&& threads_distinct(all)
                &&& threads_sorted(all)
                &&& threads_complete(self, account_id, query.mailbox_id@, all, self.emails.rows@.len() as int)
                &&& forall|t: int, k: int, l: int|
                    0 <= t < all.len() && 0 <= k < l < all[t].email_ids@.len() ==> self.email_time(
                        account_id,
                        (#[trigger] all[t].email_ids@[k])@,
                    ) >= self.email_time(account_id, (#[trigger] all[t].email_ids@[l])@)
                &&& r@ == all.subrange(
                    if query.offset < all.len() { query.offset as int } else { all.len() as int },
                    if query.offset as int + query.limit as int <= all.len() {
                        query.offset as int + query.limit as int
                    } else {
                        all.len() as int
                    },
                )
            },
    {
        let grouped = self.group_threads(account_id, &query.mailbox_id);
        let ghost g = grouped@;
        let sorted = sort_newest_first(grouped);
        let ghost m = query.mailbox_id@;
        proof {
            lemma_within_sound(self, account_id, m, g, sorted@);
            lemma_within_timed(self, account_id, m, g, sorted@);
            lemma_within_complete(self, account_id, m, g, sorted@);
        }
        let ghost s = sorted@;
        let mut ordered: Vec<Thread> = Vec::new();
        let mut i: usize = 0;
        while i < sorted.len()
            invariant
                self.wf(),
                s == sorted@,
                i <= s.len(),
                ordered@.len() == i,
                forall|x: int|
                    0 <= x < i ==> (#[trigger] ordered@[x]).id == s[x].id && ordered@[x].last_received_at
                        == s[x].last_received_at && ids_within(ordered@[x].email_ids@, s[x].email_ids@)
                        && ids_within(s[x].email_ids@, ordered@[x].email_ids@),
                forall|t: int, k: int, l: int|
                    0 <= t < i && 0 <= k < l < ordered@[t].email_ids@.len() ==> self.email_time(
                        account_id,
                        (#[trigger] ordered@[t].email_ids@[k])@,
                    ) >= self.email_time(account_id, (#[trigger] ordered@[t].email_ids@[l])@),
            decreases s.len() - i,
        {
            let th = &sorted[i];
            let mut ids: Vec<String> = Vec::new();
            let mut k: usize = 0;
            while k < th.email_ids.len()
                invariant
                    k <= th.email_ids@.len(),
                    ids@ == th.email_ids@.subrange(0, k as int),
                decreases th.email_ids@.len() - k,
            {
                ids.push(th.email_ids[k].clone());
                k = k + 1;
                assert(ids@ =~= th.email_ids@.subrange(0, k as int));
            }
            assert(ids@ =~= th.email_ids@);
            let inner = self.sort_emails_newest_first(account_id, ids);
            let ghost prev = ordered@;
            ordered.push(Thread { id: th.id.clone(), last_received_at: th.last_received_at, email_ids: inner });
            proof {
                assert forall|x: int|
                    0 <= x < i + 1 implies (#[trigger] ordered@[x]).id == s[x].id && ordered@[x].last_received_at
                        == s[x].last_received_at && ids_within(ordered@[x].email_ids@, s[x].email_ids@)
                        && ids_within(s[x].email_ids@, ordered@[x].email_ids@) by {
                    if x < i {
                        assert(ordered@[x] == prev[x]);
                    }
                }
                assert forall|t: int, k: int, l: int|
                    0 <= t < i + 1 && 0 <= k < l < ordered@[t].email_ids@.len() implies self.email_time(
                        account_id,
                        (#[trigger] ordered@[t].email_ids@[k])@,
                    ) >= self.email_time(account_id, (#[trigger] ordered@[t].email_ids@[l])@) by {
                    if t < i {
                        assert(ordered@[t] == prev[t]);
                    }
                }
            }
            i = i + 1;
        }
        proof {
            lemma_reordered(self, account_id, m, s, ordered@);
        }
        page(ordered, query.offset, query.limit)
    }
}

/// An identifier stands among the first `n` of a list.
pub open spec fn id_appears(b: Seq<String>, n: int, id: String) -> bool {
    exists|y: int| 0 <= y < n && #[trigger] b[y] == id
}

/// Every identifier of one list stands in the other.
pub open spec fn ids_within(a: Seq<String>, b: Seq<String>) -> bool {
    forall|x: int| 0 <= x < a.len() ==> id_appears(b, b.len() as int, #[trigger] a[x])
}

/// Reordering the emails inside each thread keeps what the list says of the
/// mailbox.
pub proof fn lemma_reordered(s: &Store, account_id: AccountId, m: Seq<char>, a: Seq<Thread>, b: Seq<Thread>)
    requires
        threads_sound(s, account_id, m, a),
        threads_timed(s, account_id, m, a),
        threads_distinct(a),
        threads_sorted(a),
        threads_complete(s, account_id, m, a, s.emails.rows@.len() as int),
        a.len() == b.len(),
        forall|x: int|
            0 <= x < a.len() ==> (#[trigger] b[x]).id == a[x].id && b[x].last_received_at
                == a[x].last_received_at && ids_within(b[x].email_ids@, a[x].email_ids@)
                && ids_within(a[x].email_ids@, b[x].email_ids@),
    ensures
        threads_sound(s, account_id, m, b),
        threads_timed(s, account_id, m, b),
        threads_distinct(b),
        threads_sorted(b),
        threads_complete(s, account_id, m, b, s.emails.rows@.len() as int),
{
    assert forall|t: int, k: int|
        0 <= t < b.len() && 0 <= k < b[t].email_ids@.len() implies email_of_thread(s, account_id, m, b[t], (#[trigger] b[t].email_ids@[k])@) by {
        assert(id_appears(a[t].email_ids@, a[t].email_ids@.len() as int, b[t].email_ids@[k]));
        let y = choose|y: int| 0 <= y < a[t].email_ids@.len() && #[trigger] a[t].email_ids@[y] == b[t].email_ids@[k];
        assert(email_of_thread(s, account_id, m, a[t], a[t].email_ids@[y]@));
        let i = choose|i: int|
            0 <= i < s.emails.rows@.len() && in_mailbox(s, account_id, m, #[trigger] s.emails.rows@[i])
                && s.emails.rows@[i].id@ == a[t].email_ids@[y]@ && s.emails.rows@[i].thread_id@ == a[t].id@
                && s.emails.rows@[i].received_at <= a[t].last_received_at;
    }
    assert forall|t: int| 0 <= t < b.len() implies time_attained(s, account_id, m, #[trigger] b[t]) by {
        assert(time_attained(s, account_id, m, a[t]));
        let i = choose|i: int|
            0 <= i < s.emails.rows@.len() && in_mailbox(s, account_id, m, #[trigger] s.emails.rows@[i])
                && s.emails.rows@[i].thread_id@ == a[t].id@ && s.emails.rows@[i].received_at == a[t].last_received_at;
    }
    assert forall|x: int, y: int| 0 <= x < y < b.len() implies (#[trigger] b[x]).id@ != (#[trigger] b[y]).id@ by {
        assert(a[x].id@ != a[y].id@);
    }
    assert forall|x: int, y: int| 0 <= x < y < b.len() implies thread_le(#[trigger] b[x], #[trigger] b[y]) by {
        assert(thread_le(a[x], a[y]));
    }
    assert forall|i: int|
        0 <= i < s.emails.rows@.len() && in_mailbox(s, account_id, m, #[trigger] s.emails.rows@[i]) implies exists|t: int|
            0 <= t < b.len() && b[t].id@ == s.emails.rows@[i].thread_id@
                && s.emails.rows@[i].received_at <= b[t].last_received_at && exists|k: int|
                0 <= k < b[t].email_ids@.len() && b[t].email_ids@[k]@ == s.emails.rows@[i].id@ by {
        let row = s.emails.rows@[i];
        let t = choose|t: int|
            0 <= t < a.len() && a[t].id@ == row.thread_id@
                && row.received_at <= a[t].last_received_at && exists|k: int|
                0 <= k < a[t].email_ids@.len() && a[t].email_ids@[k]@ == row.id@;
        let k = choose|k: int| 0 <= k < a[t].email_ids@.len() && a[t].email_ids@[k]@ == row.id@;
        assert(id_appears(b[t].email_ids@, b[t].email_ids@.len() as int, a[t].email_ids@[k]));
        let k2 = choose|k2: int| 0 <= k2 < b[t].email_ids@.len() && #[trigger] b[t].email_ids@[k2] == a[t].email_ids@[k];
        assert(b[t].email_ids@[k2]@ == row.id@);
    }
}

} // verus!
