use vstd::prelude::*;
use crate::model::AccountId;
use crate::query::EmailDbQuery;
use crate::order::{key_le, key_le_exec, lemma_key_le_total, lemma_key_le_trans, lemma_text_le_total, lemma_text_le_trans, text_le, text_le_exec};
use crate::store::{EmailRow, Store};
use crate::table::Row;

verus! {

/// One email of a query's result.
#[derive(Clone, Debug)]
pub struct EmailHit {
    pub id: String,
    pub received_at: i64,
    /// The envelope as JSON text.
    pub metadata: String,
}

pub open spec fn is_ascii_upper(c: char) -> bool {
    'A' <= c && c <= 'Z'
}

/// Two characters are equal once ASCII letters are folded to lower case.
pub open spec fn same_folded(a: char, b: char) -> bool {
    a == b || (is_ascii_upper(a) && a as u32 + 32 == b as u32) || (is_ascii_upper(b) && b as u32
        + 32 == a as u32)
}

/// The text holds the keyword at a position, ASCII letters folded.
pub open spec fn holds_at(text: Seq<char>, keyword: Seq<char>, at: int) -> bool {
    &&& 0 <= at
    &&& at + keyword.len() <= text.len()
    &&& forall|j: int| 0 <= j < keyword.len() ==> same_folded(text[at + j], #[trigger] keyword[j])
}

/// The text contains the keyword, ASCII letters folded.
pub open spec fn contains_folded(text: Seq<char>, keyword: Seq<char>) -> bool {
    exists|at: int| holds_at(text, keyword, at)
}

/// A stored email answers a query: it is the account's, in the mailbox when
/// one is named, with the keyword in its subject when one is given.
pub open spec fn answers(s: &Store, account_id: AccountId, q: EmailDbQuery, row: EmailRow) -> bool {
    &&& row.account_id == account_id
    &&& (q.mailbox_id matches Some(m) ==> s.has_link(account_id, m@, row.id@))
    &&& (q.search_keyword matches Some(k) ==> contains_folded(row.subject@, k@))
}

/// One hit comes no later than another: by time as the first sort says and
/// then by identifier when the query sorts, by identifier alone when it does
/// not.
pub open spec fn hit_le(a: EmailHit, b: EmailHit, sorted: bool, asc: bool) -> bool {
    if sorted {
        key_le(a.received_at, a.id@, b.received_at, b.id@, asc)
    } else {
        text_le(a.id@, b.id@)
    }
}

/// A list of hits in the order.
pub open spec fn hits_sorted(h: Seq<EmailHit>, sorted: bool, asc: bool) -> bool {
    forall|x: int, y: int| 0 <= x < y < h.len() ==> hit_le(#[trigger] h[x], #[trigger] h[y], sorted, asc)
}

/// No two hits of a list share an identifier.
pub open spec fn hits_distinct(h: Seq<EmailHit>) -> bool {
    forall|x: int, y: int| 0 <= x < y < h.len() ==> (#[trigger] h[x]).id@ != (#[trigger] h[y]).id@
}

pub proof fn lemma_hit_le_total(a: EmailHit, b: EmailHit, sorted: bool, asc: bool)
    ensures
        hit_le(a, b, sorted, asc) || hit_le(b, a, sorted, asc),
{
    lemma_key_le_total(a.received_at, a.id@, b.received_at, b.id@, asc);
    lemma_text_le_total(a.id@, b.id@);
}

pub proof fn lemma_hit_le_trans(a: EmailHit, b: EmailHit, c: EmailHit, sorted: bool, asc: bool)
    requires
        hit_le(a, b, sorted, asc),
        hit_le(b, c, sorted, asc),
    ensures
        hit_le(a, c, sorted, asc),
{
    if sorted {
        lemma_key_le_trans(a.received_at, a.id@, b.received_at, b.id@, c.received_at, c.id@, asc);
    } else {
        lemma_text_le_trans(a.id@, b.id@, c.id@);
    }
}

/// A hit stands among the first `n` of a list.
pub open spec fn hit_appears(h: Seq<EmailHit>, n: int, e: EmailHit) -> bool {
    exists|y: int| 0 <= y < n && #[trigger] h[y] == e
}

pub open spec fn hits_within(a: Seq<EmailHit>, b: Seq<EmailHit>) -> bool {
    forall|x: int| 0 <= x < a.len() ==> hit_appears(b, b.len() as int, #[trigger] a[x])
}

/// A hit is that of one of the first `n` stored emails that answer a query.
pub open spec fn answered_hit(s: &Store, account_id: AccountId, q: EmailDbQuery, n: int, h: EmailHit) -> bool {
    exists|j: int|
        0 <= j < n && answers(s, account_id, q, s.emails.rows@[j]) && hit_of(#[trigger] s.emails.rows@[j]) == h
}

/// A list of hits is the full answer of a query, in its order.
pub open spec fn full_answer(s: &Store, account_id: AccountId, q: EmailDbQuery, all: Seq<EmailHit>) -> bool {
    &&& hits_sorted(all, q.sorts@.len() > 0, q.sorts@.len() > 0 && q.sorts@[0].asc)
    &&& hits_distinct(all)
    &&& forall|x: int| 0 <= x < all.len() ==> answered_hit(s, account_id, q, s.emails.rows@.len() as int, #[trigger] all[x])
    &&& forall|i: int|
        0 <= i < s.emails.rows@.len() && answers(s, account_id, q, #[trigger] s.emails.rows@[i])
            ==> hit_appears(all, all.len() as int, hit_of(s.emails.rows@[i]))
}

/// The hit of a stored email.
pub open spec fn hit_of(row: EmailRow) -> EmailHit {
    EmailHit { id: row.id, received_at: row.received_at, metadata: row.metadata }
}

fn folded_eq(a: char, b: char) -> (r: bool)
    ensures
        r == same_folded(a, b),
{
    a == b || ('A' <= a && a <= 'Z' && (a as u32) + 32 == b as u32) || ('A' <= b && b <= 'Z' && (b
        as u32) + 32 == a as u32)
}

pub(crate) fn chars_of(s: &String) -> (r: Vec<char>)
    ensures
        r@ == s@,
{
    let n = s.as_str().unicode_len();
    let mut out: Vec<char> = Vec::new();
    let mut i: usize = 0;
    while i < n
        invariant
            n == s@.len(),
            i <= n,
            out@ == s@.subrange(0, i as int),
        decreases n - i,
    {
        out.push(s.as_str().get_char(i));
        i = i + 1;
        assert(out@ =~= s@.subrange(0, i as int));
    }
    assert(out@ =~= s@);
    out
}

/// Whether a text contains a keyword, ASCII letters folded.
pub fn contains_keyword(text: &String, keyword: &String) -> (r: bool)
    ensures
        r == contains_folded(text@, keyword@),
{
    let t = chars_of(text);
    let k = chars_of(keyword);
    if k.len() > t.len() {
        proof {
            assert forall|at: int| !holds_at(text@, keyword@, at) by {}
        }
        return false;
    }
    let last = t.len() - k.len();
    let tl = t.len();
    let mut at: usize = 0;
    while at <= last
        invariant
            tl == t@.len(),
            t@ == text@,
            k@ == keyword@,
            last == t@.len() - k@.len(),
            at <= last + 1,
            forall|p: int| 0 <= p < at ==> !holds_at(text@, keyword@, p),
        decreases last + 1 - at,
    {
        let mut j: usize = 0;
        let mut ok = true;
        while j < k.len() && ok
            invariant
                tl == t@.len(),
                t@ == text@,
                k@ == keyword@,
                at + k@.len() <= t@.len(),
                j <= k@.len(),
                ok ==> forall|x: int| 0 <= x < j ==> same_folded(t@[at + x], #[trigger] k@[x]),
                !ok ==> j > 0 && !same_folded(t@[at + j - 1], k@[j - 1]),
            decreases k@.len() - j,
        {
            ok = folded_eq(t[at + j], k[j]);
            j = j + 1;
        }
        if ok {
            assert(holds_at(text@, keyword@, at as int));
            return true;
        }
        assert(!holds_at(text@, keyword@, at as int));
        at = at + 1;
    }
    proof {
        assert forall|p: int| !holds_at(text@, keyword@, p) by {
            if 0 <= p < at {
            }
        }
    }
    false
}

fn hit_le_exec(ta: i64, ka: &Vec<char>, tb: i64, kb: &Vec<char>, sorted: bool, asc: bool) -> (r: bool)
    ensures
        r == (if sorted {
            key_le(ta, ka@, tb, kb@, asc)
        } else {
            text_le(ka@, kb@)
        }),
{
    if sorted {
        key_le_exec(ta, ka, tb, kb, asc)
    } else {
        text_le_exec(ka, kb)
    }
}

/// Inserts a hit after every hit that comes no later than it; `keys` holds
/// the characters of each hit's identifier.
fn insert_hit(out: &mut Vec<EmailHit>, keys: &mut Vec<Vec<char>>, h: EmailHit, hk: Vec<char>, sorted: bool, asc: bool)
    requires
        hits_sorted(old(out)@, sorted, asc),
        old(keys)@.len() == old(out)@.len(),
        forall|i: int| 0 <= i < old(keys)@.len() ==> (#[trigger] old(keys)@[i])@ == old(out)@[i].id@,
        hk@ == h.id@,
        hits_distinct(old(out)@),
        forall|y: int| 0 <= y < old(out)@.len() ==> (#[trigger] old(out)@[y]).id@ != h.id@,
    ensures
        hits_distinct(final(out)@),
        final(out)@.len() == old(out)@.len() + 1,
        final(keys)@.len() == final(out)@.len(),
        forall|i: int| 0 <= i < final(keys)@.len() ==> (#[trigger] final(keys)@[i])@ == final(out)@[i].id@,
        hits_sorted(final(out)@, sorted, asc),
        hits_within(old(out)@, final(out)@),
        hits_within(final(out)@, old(out)@.push(h)),
        hit_appears(final(out)@, final(out)@.len() as int, h),
{
    let mut p: usize = 0;
    while p < out.len() && hit_le_exec(out[p].received_at, &keys[p], h.received_at, &hk, sorted, asc)
        invariant
            p <= out@.len(),
            keys@.len() == out@.len(),
            forall|i: int| 0 <= i < keys@.len() ==> (#[trigger] keys@[i])@ == out@[i].id@,
            hk@ == h.id@,
            forall|x: int| 0 <= x < p ==> hit_le(#[trigger] out@[x], h, sorted, asc),
        decreases out@.len() - p,
    {
        p = p + 1;
    }
    let ghost before = out@;
    let ghost bkeys = keys@;
    let ghost hh = h;
    out.insert(p, h);
    keys.insert(p, hk);
    proof {
        let with = before.push(hh);
        assert(out@[p as int] == hh);
        if p < before.len() {
            lemma_hit_le_total(before[p as int], hh, sorted, asc);
        }
        assert forall|i: int| 0 <= i < keys@.len() implies (#[trigger] keys@[i])@ == out@[i].id@ by {
            if i < p {
                assert(keys@[i] == bkeys[i] && out@[i] == before[i]);
            } else if i > p {
                assert(keys@[i] == bkeys[i - 1] && out@[i] == before[i - 1]);
            }
        }
        assert forall|x: int, y: int| 0 <= x < y < out@.len() implies hit_le(#[trigger] out@[x], #[trigger] out@[y], sorted, asc) by {
            if y < p {
                assert(out@[x] == before[x] && out@[y] == before[y]);
            } else if y == p {
                assert(out@[x] == before[x]);
            } else if x < p {
                assert(out@[x] == before[x] && out@[y] == before[y - 1]);
            } else if x == p {
                assert(out@[y] == before[y - 1]);
                if y - 1 > p {
                    assert(hit_le(before[p as int], before[y - 1], sorted, asc));
                    lemma_hit_le_trans(hh, before[p as int], before[y - 1], sorted, asc);
                }
            } else {
                assert(out@[x] == before[x - 1] && out@[y] == before[y - 1]);
            }
        }
        assert forall|x: int, y: int| 0 <= x < y < out@.len() implies (#[trigger] out@[x]).id@ != (#[trigger] out@[y]).id@ by {
            let xx = if x < p { x } else { x - 1 };
            let yy = if y < p { y } else { y - 1 };
            if x != p && y != p {
                assert(out@[x] == before[xx] && out@[y] == before[yy]);
            } else if x == p {
                assert(out@[y] == before[yy]);
            } else {
                assert(out@[x] == before[xx]);
            }
        }
        assert forall|y: int| 0 <= y < before.len() implies hit_appears(out@, out@.len() as int, #[trigger] before[y]) by {
            if y < p {
                assert(out@[y] == before[y]);
            } else {
                assert(out@[y + 1] == before[y]);
            }
        }
        assert forall|x: int| 0 <= x < out@.len() implies hit_appears(with, with.len() as int, #[trigger] out@[x]) by {
            if x < p {
                assert(out@[x] == with[x]);
            } else if x == p {
                assert(out@[x] == with[before.len() as int]);
            } else {
                assert(out@[x] == with[x - 1]);
            }
        }
    }
}

impl Store {
    /// The stored emails that answer a query, a page at a time: ordered by
    /// time of arrival as the first sort says and then by identifier in text
    /// order, or by identifier alone when the query does not sort; then from
    /// `offset` on, at most `limit` of them.
    pub fn get_emails(&self, account_id: AccountId, q: &EmailDbQuery) -> (r: Vec<EmailHit>)
        requires
            self.wf(),
        ensures
            exists|all: Seq<EmailHit>| {
                &&& full_answer(self, account_id, *q, all)
                &&& r@ == all.subrange(
                    if q.offset < all.len() { q.offset as int } else { all.len() as int },
                    if q.offset as int + q.limit as int <= all.len() {
                        q.offset as int + q.limit as int
                    } else {
                        all.len() as int
                    },
                )
            },
    {
        let mut all: Vec<EmailHit> = Vec::new();
        let mut keys: Vec<Vec<char>> = Vec::new();
        let sorted = q.sorts.len() > 0;
        let asc = if sorted { q.sorts[0].asc } else { false };
        let mut i: usize = 0;
        while i < self.emails.rows.len()
            invariant
                self.wf(),
                i <= self.emails.rows@.len(),
                sorted == (q.sorts@.len() > 0),
                asc == (sorted && q.sorts@[0].asc),
                hits_sorted(all@, sorted, asc),
                hits_distinct(all@),
                keys@.len() == all@.len(),
                forall|x: int| 0 <= x < keys@.len() ==> (#[trigger] keys@[x])@ == all@[x].id@,
                forall|x: int| 0 <= x < all@.len() ==> answered_hit(self, account_id, *q, i as int, #[trigger] all@[x]),
                forall|j: int|
                    0 <= j < i && answers(self, account_id, *q, #[trigger] self.emails.rows@[j])
                        ==> hit_appears(all@, all@.len() as int, hit_of(self.emails.rows@[j])),
            decreases self.emails.rows@.len() - i,
        {
            let row = &self.emails.rows[i];
            let in_box = match &q.mailbox_id {
                Some(m) => self.has_link_exec(account_id, m, &row.id),
                None => true,
            };
            let has_word = match &q.search_keyword {
                Some(k) => contains_keyword(&row.subject, k),
                None => true,
            };
            if row.account_id == account_id && in_box && has_word {
                let hit = EmailHit { id: row.id.clone(), received_at: row.received_at, metadata: row.metadata.clone() };
                let ghost before = all@;
                proof {
                    assert(hit == hit_of(self.emails.rows@[i as int]));
                }
                proof {
                    assert forall|y: int| 0 <= y < before.len() implies (#[trigger] before[y]).id@ != hit.id@ by {
                        assert(answered_hit(self, account_id, *q, i as int, before[y]));
                        let j = choose|j: int|
                            0 <= j < i && answers(self, account_id, *q, self.emails.rows@[j])
                                && hit_of(#[trigger] self.emails.rows@[j]) == before[y];
                        assert(j < i);
                        assert(self.emails.rows@[j].account() == self.emails.rows@[i as int].account());
                        assert(hit.id@ == self.emails.rows@[i as int].key());
                    }
                }
                let hk = chars_of(&hit.id);
                insert_hit(&mut all, &mut keys, hit, hk, sorted, asc);
                proof {
                    let with = before.push(hit_of(self.emails.rows@[i as int]));
                    assert forall|x: int| 0 <= x < all@.len() implies answered_hit(self, account_id, *q, i as int + 1, #[trigger] all@[x]) by {
                        assert(hit_appears(with, with.len() as int, all@[x]));
                        let z = choose|z: int| 0 <= z < with.len() && #[trigger] with[z] == all@[x];
                        if z < before.len() {
                            assert(with[z] == before[z]);
                            assert(answered_hit(self, account_id, *q, i as int, before[z]));
                            let j = choose|j: int|
                                0 <= j < i && answers(self, account_id, *q, self.emails.rows@[j])
                                    && hit_of(#[trigger] self.emails.rows@[j]) == before[z];
                            assert(0 <= j < i + 1);
                        } else {
                            assert(with[z] == hit_of(self.emails.rows@[i as int]));
                        }
                    }
                    assert forall|j: int|
                        0 <= j < i + 1 && answers(self, account_id, *q, #[trigger] self.emails.rows@[j])
                            implies hit_appears(all@, all@.len() as int, hit_of(self.emails.rows@[j])) by {
                        if j < i {
                            let y = choose|y: int| 0 <= y < before.len() && #[trigger] before[y] == hit_of(self.emails.rows@[j]);
                            assert(hit_appears(all@, all@.len() as int, before[y]));
                        }
                    }
                }
            } else {
                proof {
                    assert(!answers(self, account_id, *q, self.emails.rows@[i as int]));
                }
            }
            i = i + 1;
        }
        let ghost full = all@;
        let r = page_hits(all, q.offset, q.limit);
        proof {
            assert(full_answer(self, account_id, *q, full));
            assert(r@ == full.subrange(
                if q.offset < full.len() { q.offset as int } else { full.len() as int },
                if q.offset as int + q.limit as int <= full.len() {
                    q.offset as int + q.limit as int
                } else {
                    full.len() as int
                },
            ));
        }
        r
    }
}

/// The hits of a page: those from `offset` on, at most `limit` of them.
pub fn page_hits(hs: Vec<EmailHit>, offset: usize, limit: usize) -> (r: Vec<EmailHit>)
    ensures
        r@ == hs@.subrange(
            if offset < hs@.len() { offset as int } else { hs@.len() as int },
            if offset as int + limit as int <= hs@.len() { offset as int + limit as int } else { hs@.len() as int },
        ),
{
    let len = hs.len();
    let start = if offset < len { offset } else { len };
    let end = if limit <= len - start { start + limit } else { len };
    let mut out: Vec<EmailHit> = Vec::new();
    let mut i: usize = start;
    while i < end
        invariant
            start <= i <= end <= len,
            len == hs@.len(),
            out@ == hs@.subrange(start as int, i as int),
        decreases end - i,
    {
        out.push(EmailHit { id: hs[i].id.clone(), received_at: hs[i].received_at, metadata: hs[i].metadata.clone() });
        i = i + 1;
        assert(out@ =~= hs@.subrange(start as int, i as int));
    }
    out
}

} // verus!
