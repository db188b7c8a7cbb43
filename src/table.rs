use vstd::prelude::*;

verus! {

/// A row of a table whose primary key is an account and a text identifier.
pub trait Row: Sized {
    spec fn account(&self) -> i64;

    spec fn key(&self) -> Seq<char>;

    fn has_key(&self, account: i64, id: &String) -> (r: bool)
        ensures
            r == (self.account() == account && self.key() == id@),
    ;

    fn account_of(&self) -> (r: i64)
        ensures
            r == self.account(),
    ;

    fn key_string(&self) -> (r: String)
        ensures
            r@ == self.key(),
    ;
}

/// Rows keyed by `(account, id)`, at most one row per key.
pub struct Table<R> {
    pub rows: Vec<R>,
}

pub open spec fn row_matches<R: Row>(r: R, account: i64, id: Seq<char>) -> bool {
    r.account() == account && r.key() == id
}

impl<R: Row> Table<R> {
    pub open spec fn wf(&self) -> bool {
        forall|i: int, j: int|
            0 <= i < j < self.rows@.len() ==> !(#[trigger] self.rows@[i].account()
                == #[trigger] self.rows@[j].account() && self.rows@[i].key()
                == self.rows@[j].key())
    }

    pub open spec fn contains(&self, account: i64, id: Seq<char>) -> bool {
        exists|i: int| 0 <= i < self.rows@.len() && row_matches(#[trigger] self.rows@[i], account, id)
    }

    /// The row stored under a key, if any.
    pub open spec fn get(&self, account: i64, id: Seq<char>) -> Option<R> {
        if self.contains(account, id) {
            Some(
                self.rows@[choose|i: int|
                    0 <= i < self.rows@.len() && row_matches(#[trigger] self.rows@[i], account, id)],
            )
        } else {
            None
        }
    }

    /// Every key other than the given one maps to the same row in both tables.
    pub open spec fn same_except(&self, other: &Self, account: i64, id: Seq<char>) -> bool {
        forall|a: i64, k: Seq<char>|
            !(a == account && k == id) ==> #[trigger] self.get(a, k) == other.get(a, k)
    }

    pub proof fn lemma_get_at(&self, i: int)
        requires
            self.wf(),
            0 <= i < self.rows@.len(),
        ensures
            self.get(self.rows@[i].account(), self.rows@[i].key()) == Some(self.rows@[i]),
    {
        let a = self.rows@[i].account();
        let k = self.rows@[i].key();
        assert(row_matches(self.rows@[i], a, k));
        let j = choose|j: int| 0 <= j < self.rows@.len() && row_matches(#[trigger] self.rows@[j], a, k);
        if j < i {
            assert(self.rows@[j].account() == self.rows@[i].account());
        } else if i < j {
            assert(self.rows@[i].account() == self.rows@[j].account());
        }
    }

    pub fn new() -> (r: Self)
        ensures
            r.wf(),
            r.rows@.len() == 0,
            forall|a: i64, k: Seq<char>| #[trigger] r.get(a, k) is None,
    {
        Table { rows: Vec::new() }
    }

    /// The position of the row stored under a key.
    pub fn find(&self, account: i64, id: &String) -> (r: Option<usize>)
        requires
            self.wf(),
        ensures
            r is None <==> self.get(account, id@) is None,
            r matches Some(i) ==> i < self.rows@.len() && self.get(account, id@) == Some(
                self.rows@[i as int],
            ) && row_matches(self.rows@[i as int], account, id@),
    {
        let mut i: usize = 0;
        while i < self.rows.len()
            invariant
                self.wf(),
                i <= self.rows@.len(),
                forall|j: int| 0 <= j < i ==> !row_matches(#[trigger] self.rows@[j], account, id@),
            decreases self.rows@.len() - i,
        {
            if self.rows[i].has_key(account, id) {
                proof {
                    self.lemma_get_at(i as int);
                }
                return Some(i);
            }
            i = i + 1;
        }
        None
    }

    /// A copy of the row stored under a key.
    pub fn lookup(&self, account: i64, id: &String) -> (r: Option<&R>)
        requires
            self.wf(),
        ensures
            r is None <==> self.get(account, id@) is None,
            r matches Some(row) ==> self.get(account, id@) == Some(*row),
    {
        match self.find(account, id) {
            Some(i) => Some(&self.rows[i]),
            None => None,
        }
    }

    /// Stores a row under its own key, replacing any row stored there before.
    pub fn upsert(&mut self, row: R) -> (existed: bool)
        requires
            old(self).wf(),
        ensures
            final(self).wf(),
            existed == old(self).contains(row.account(), row.key()),
            final(self).get(row.account(), row.key()) == Some(row),
            final(self).same_except(old(self), row.account(), row.key()),
    {
        let ghost a = row.account();
        let ghost k = row.key();
        let ghost pre = *self;
        let id = row.key_string();
        let account = row.account_of();
        match self.find(account, &id) {
            Some(i) => {
                self.rows.set(i, row);
                assert(self.wf()) by {
                    assert forall|x: int, y: int|
                        0 <= x < y < self.rows@.len() implies !(#[trigger] self.rows@[x].account()
                        == #[trigger] self.rows@[y].account() && self.rows@[x].key()
                        == self.rows@[y].key()) by {
                        if x != i as int && y != i as int {
                            assert(pre.rows@[x] == self.rows@[x]);
                            assert(pre.rows@[y] == self.rows@[y]);
                        } else if x == i as int {
                            assert(pre.rows@[y] == self.rows@[y]);
                            assert(row_matches(pre.rows@[x], a, k));
                        } else {
                            assert(pre.rows@[x] == self.rows@[x]);
                            assert(row_matches(pre.rows@[y], a, k));
                        }
                    }
                }
                proof {
                    self.lemma_get_at(i as int);
                    assert forall|x: int|
                        0 <= x < self.rows@.len() && !row_matches(#[trigger] self.rows@[x], a, k)
                            implies exists|y: int|
                        0 <= y < pre.rows@.len() && pre.rows@[y] == self.rows@[x] by {
                        assert(pre.rows@[x] == self.rows@[x]);
                    }
                    assert forall|y: int|
                        0 <= y < pre.rows@.len() && !row_matches(#[trigger] pre.rows@[y], a, k)
                            implies exists|x: int|
                        0 <= x < self.rows@.len() && self.rows@[x] == pre.rows@[y] by {
                        assert(pre.rows@[y] == self.rows@[y]);
                    }
                    self.lemma_same_except_after(&pre, a, k);
                }
                true
            },
            None => {
                self.rows.push(row);
                let ghost n: int = pre.rows@.len() as int;
                assert(self.wf()) by {
                    assert forall|x: int, y: int|
                        0 <= x < y < self.rows@.len() implies !(#[trigger] self.rows@[x].account()
                        == #[trigger] self.rows@[y].account() && self.rows@[x].key()
                        == self.rows@[y].key()) by {
                        assert(pre.rows@[x] == self.rows@[x]);
                        if y < n {
                            assert(pre.rows@[y] == self.rows@[y]);
                        } else {
                            if row_matches(pre.rows@[x], a, k) {
                                assert(pre.contains(a, k));
                            }
                        }
                    }
                }
                proof {
                    self.lemma_get_at(n);
                    assert forall|x: int|
                        0 <= x < self.rows@.len() && !row_matches(#[trigger] self.rows@[x], a, k)
                            implies exists|y: int|
                        0 <= y < pre.rows@.len() && pre.rows@[y] == self.rows@[x] by {
                        assert(pre.rows@[x] == self.rows@[x]);
                    }
                    assert forall|y: int|
                        0 <= y < pre.rows@.len() && !row_matches(#[trigger] pre.rows@[y], a, k)
                            implies exists|x: int|
                        0 <= x < self.rows@.len() && self.rows@[x] == pre.rows@[y] by {
                        assert(pre.rows@[y] == self.rows@[y]);
                    }
                    self.lemma_same_except_after(&pre, a, k);
                }
                false
            },
        }
    }

    /// Removes the row stored under a key, if any.
    pub fn remove(&mut self, account: i64, id: &String) -> (removed: bool)
        requires
            old(self).wf(),
        ensures
            final(self).wf(),
            removed == old(self).contains(account, id@),
            final(self).get(account, id@) is None,
            final(self).same_except(old(self), account, id@),
    {
        let ghost pre = *self;
        match self.find(account, id) {
            Some(i) => {
                self.rows.remove(i);
                assert(self.wf()) by {
                    assert forall|x: int, y: int|
                        0 <= x < y < self.rows@.len() implies !(#[trigger] self.rows@[x].account()
                        == #[trigger] self.rows@[y].account() && self.rows@[x].key()
                        == self.rows@[y].key()) by {
                        let px = if x < i { x } else { x + 1 };
                        let py = if y < i { y } else { y + 1 };
                        assert(self.rows@[x] == pre.rows@[px]);
                        assert(self.rows@[y] == pre.rows@[py]);
                    }
                }
                assert(!self.contains(account, id@)) by {
                    if self.contains(account, id@) {
                        let x = choose|x: int|
                            0 <= x < self.rows@.len() && row_matches(
                                #[trigger] self.rows@[x],
                                account,
                                id@,
                            );
                        let px = if x < i { x } else { x + 1 };
                        assert(self.rows@[x] == pre.rows@[px]);
                        if px < i {
                            assert(pre.rows@[px].account() == pre.rows@[i as int].account());
                        } else {
                            assert(pre.rows@[i as int].account() == pre.rows@[px].account());
                        }
                    }
                }
                proof {
                    assert forall|x: int|
                        0 <= x < self.rows@.len() && !row_matches(#[trigger] self.rows@[x], account, id@)
                            implies exists|y: int|
                        0 <= y < pre.rows@.len() && pre.rows@[y] == self.rows@[x] by {
                        let px = if x < i { x } else { x + 1 };
                        assert(pre.rows@[px] == self.rows@[x]);
                    }
                    assert forall|y: int|
                        0 <= y < pre.rows@.len() && !row_matches(#[trigger] pre.rows@[y], account, id@)
                            implies exists|x: int|
                        0 <= x < self.rows@.len() && self.rows@[x] == pre.rows@[y] by {
                        let x = if y < i { y } else { y - 1 };
                        assert(pre.rows@[y] == self.rows@[x]);
                    }
                    self.lemma_same_except_after(&pre, account, id@);
                }
                true
            },
            None => {
                false
            },
        }
    }

    /// When every row of one table either has the excluded key or stands in the
    /// other, and conversely, the two agree on every other key.
    proof fn lemma_same_except_after(&self, pre: &Self, account: i64, id: Seq<char>)
        requires
            self.wf(),
            pre.wf(),
            forall|x: int|
                0 <= x < self.rows@.len() && !row_matches(#[trigger] self.rows@[x], account, id)
                    ==> exists|y: int| 0 <= y < pre.rows@.len() && pre.rows@[y] == self.rows@[x],
            forall|y: int|
                0 <= y < pre.rows@.len() && !row_matches(#[trigger] pre.rows@[y], account, id)
                    ==> exists|x: int| 0 <= x < self.rows@.len() && self.rows@[x] == pre.rows@[y],
        ensures
            self.same_except(pre, account, id),
    {
        assert forall|a: i64, k: Seq<char>| !(a == account && k == id) implies #[trigger] self.get(
            a,
            k,
        ) == pre.get(a, k) by {
            if self.contains(a, k) {
                let x = choose|x: int| 0 <= x < self.rows@.len() && row_matches(#[trigger] self.rows@[x], a, k);
                self.lemma_get_at(x);
                let y = choose|y: int| 0 <= y < pre.rows@.len() && pre.rows@[y] == self.rows@[x];
                pre.lemma_get_at(y);
            } else if pre.contains(a, k) {
                let y = choose|y: int| 0 <= y < pre.rows@.len() && row_matches(#[trigger] pre.rows@[y], a, k);
                let x = choose|x: int| 0 <= x < self.rows@.len() && self.rows@[x] == pre.rows@[y];
                assert(row_matches(self.rows@[x], a, k));
            }
        }
    }
}

} // verus!
