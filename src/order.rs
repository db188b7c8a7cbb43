use vstd::prelude::*;

verus! {

/// Text order: character by character, by code point, a prefix first.
pub open spec fn text_le(a: Seq<char>, b: Seq<char>) -> bool
    decreases a.len(),
{
    if a.len() == 0 {
        true
    } else if b.len() == 0 {
        false
    } else if a[0] != b[0] {
        a[0] < b[0]
    } else {
        text_le(a.drop_first(), b.drop_first())
    }
}

pub proof fn lemma_text_le_total(a: Seq<char>, b: Seq<char>)
    ensures
        text_le(a, b) || text_le(b, a),
    decreases a.len(),
{
    if a.len() > 0 && b.len() > 0 {
        if a[0] == b[0] {
            lemma_text_le_total(a.drop_first(), b.drop_first());
        }
    }
}

pub proof fn lemma_text_le_antisym(a: Seq<char>, b: Seq<char>)
    requires
        text_le(a, b),
        text_le(b, a),
    ensures
        a == b,
    decreases a.len(),
{
    if a.len() == 0 {
        assert(b.len() == 0);
        assert(a =~= b);
    } else {
        assert(a[0] == b[0]);
        lemma_text_le_antisym(a.drop_first(), b.drop_first());
        assert(a =~= seq![a[0]] + a.drop_first());
        assert(b =~= seq![b[0]] + b.drop_first());
    }
}

pub proof fn lemma_text_le_trans(a: Seq<char>, b: Seq<char>, c: Seq<char>)
    requires
        text_le(a, b),
        text_le(b, c),
    ensures
        text_le(a, c),
    decreases a.len(),
{
    if a.len() > 0 {
        assert(b.len() > 0);
        assert(c.len() > 0);
        if a[0] == b[0] && b[0] == c[0] {
            lemma_text_le_trans(a.drop_first(), b.drop_first(), c.drop_first());
        }
    }
}

/// Compares two texts in text order.
pub fn text_le_exec(a: &Vec<char>, b: &Vec<char>) -> (r: bool)
    ensures
        r == text_le(a@, b@),
{
    let mut i: usize = 0;
    proof {
        assert(a@.subrange(0, 0) =~= b@.subrange(0, 0));
        assert(a@.subrange(0, a@.len() as int) =~= a@);
        assert(b@.subrange(0, b@.len() as int) =~= b@);
    }
    while i < a.len() && i < b.len() && a[i] == b[i]
        invariant
            i <= a@.len(),
            i <= b@.len(),
            a@.subrange(0, i as int) == b@.subrange(0, i as int),
            text_le(a@, b@) == text_le(a@.subrange(i as int, a@.len() as int), b@.subrange(i as int, b@.len() as int)),
        decreases a@.len() - i,
    {
        proof {
            let sa = a@.subrange(i as int, a@.len() as int);
            let sb = b@.subrange(i as int, b@.len() as int);
            assert(sa.drop_first() =~= a@.subrange(i + 1, a@.len() as int));
            assert(sb.drop_first() =~= b@.subrange(i + 1, b@.len() as int));
            assert(a@.subrange(0, i + 1) =~= a@.subrange(0, i as int).push(a@[i as int]));
            assert(b@.subrange(0, i + 1) =~= b@.subrange(0, i as int).push(b@[i as int]));
        }
        i = i + 1;
    }
    let sa = Ghost(a@.subrange(i as int, a@.len() as int));
    let sb = Ghost(b@.subrange(i as int, b@.len() as int));
    if i == a.len() {
        true
    } else if i == b.len() {
        false
    } else {
        proof {
            assert(sa@[0] == a@[i as int]);
            assert(sb@[0] == b@[i as int]);
        }
        a[i] < b[i]
    }
}

/// Result order: by time of arrival, oldest first when `asc` and newest first
/// otherwise, then by identifier in text order.
pub open spec fn key_le(t1: i64, id1: Seq<char>, t2: i64, id2: Seq<char>, asc: bool) -> bool {
    if t1 != t2 {
        if asc {
            t1 < t2
        } else {
            t1 > t2
        }
    } else {
        text_le(id1, id2)
    }
}

pub proof fn lemma_key_le_total(t1: i64, id1: Seq<char>, t2: i64, id2: Seq<char>, asc: bool)
    ensures
        key_le(t1, id1, t2, id2, asc) || key_le(t2, id2, t1, id1, asc),
{
    lemma_text_le_total(id1, id2);
}

pub proof fn lemma_key_le_trans(
    t1: i64,
    id1: Seq<char>,
    t2: i64,
    id2: Seq<char>,
    t3: i64,
    id3: Seq<char>,
    asc: bool,
)
    requires
        key_le(t1, id1, t2, id2, asc),
        key_le(t2, id2, t3, id3, asc),
    ensures
        key_le(t1, id1, t3, id3, asc),
{
    if t1 == t2 && t2 == t3 {
        lemma_text_le_trans(id1, id2, id3);
    }
}

pub fn key_le_exec(t1: i64, id1: &Vec<char>, t2: i64, id2: &Vec<char>, asc: bool) -> (r: bool)
    ensures
        r == key_le(t1, id1@, t2, id2@, asc),
{
    if t1 != t2 {
        if asc {
            t1 < t2
        } else {
            t1 > t2
        }
    } else {
        text_le_exec(id1, id2)
    }
}

} // verus!
