use vstd::prelude::*;
use crate::table::{Row, Table};

verus! {

/// A request sent on a session and not yet answered, with the caller that
/// waits for it.
pub struct PendingRequest {
    pub session: i64,
    pub tag: String,
    pub waiter: u64,
}

impl Row for PendingRequest {
    open spec fn account(&self) -> i64 {
        self.session
    }

    open spec fn key(&self) -> Seq<char> {
        self.tag@
    }

    fn has_key(&self, account: i64, id: &String) -> (r: bool) {
        self.session == account && self.tag == *id
    }

    fn account_of(&self) -> (r: i64) {
        self.session
    }

    fn key_string(&self) -> (r: String) {
        self.tag.clone()
    }
}

/// What a waiting caller receives.
#[derive(Clone, Copy, Debug, PartialEq, Eq, Structural)]
pub enum Delivery {
    /// The first method response of the envelope.
    FirstResponse,
    /// The envelope held no method response.
    EmptyResponse,
}

/// Where an inbound tagged response goes.
#[derive(Clone, Copy, Debug, PartialEq, Eq, Structural)]
pub enum Routed {
    ToWaiter { waiter: u64, delivery: Delivery },
    /// No request waits for this tag: it is discarded.
    Unknown,
}

/// The correlation of tagged responses with waiting callers, for the requests
/// sent on one session.
pub struct Multiplexer {
    pub session: i64,
    pub pending: Table<PendingRequest>,
}

impl Multiplexer {
    pub open spec fn wf(&self) -> bool {
        &&& self.pending.wf()
        &&& forall|i: int|
            0 <= i < self.pending.rows@.len() ==> (#[trigger] self.pending.rows@[i]).session
                == self.session
    }

    /// The caller that waits for a tag.
    pub open spec fn waiter_of(&self, tag: Seq<char>) -> Option<u64> {
        match self.pending.get(self.session, tag) {
            Some(p) => Some(p.waiter),
            None => None,
        }
    }

    pub fn new(session: i64) -> (r: Multiplexer)
        ensures
            r.wf(),
            r.session == session,
            r.pending.rows@.len() == 0,
            forall|t: Seq<char>| #[trigger] r.waiter_of(t) is None,
    {
        Multiplexer { session, pending: Table::new() }
    }

    /// A request went out under a tag; its caller now waits for the answer.
    pub fn on_sent(&mut self, tag: String, waiter: u64)
        requires
            old(self).wf(),
        ensures
            final(self).wf(),
            final(self).session == old(self).session,
            final(self).waiter_of(tag@) == Some(waiter),
            forall|t: Seq<char>| t != tag@ ==> #[trigger] final(self).waiter_of(t) == old(self).waiter_of(t),
    {
        let ghost pre = *self;
        let ghost k = tag@;
        self.pending.upsert(PendingRequest { session: self.session, tag, waiter });
        assert forall|i: int| 0 <= i < self.pending.rows@.len() implies (#[trigger] self.pending.rows@[i]).session
            == self.session by {
            self.pending.lemma_get_at(i);
            let r = self.pending.rows@[i];
            if !(r.session == self.session && r.tag@ == k) {
                assert(self.pending.get(r.session, r.tag@) == pre.pending.get(r.session, r.tag@));
                let j = choose|j: int| 0 <= j < pre.pending.rows@.len() && crate::table::row_matches(#[trigger] pre.pending.rows@[j], r.session, r.tag@);
            }
        }
    }

    /// A tagged response arrived: it goes to the caller that waits for its
    /// tag, which stops waiting; a response nobody waits for is discarded.
    pub fn on_response(&mut self, tag: &String, method_responses: usize) -> (r: Routed)
        requires
            old(self).wf(),
        ensures
            final(self).wf(),
            final(self).session == old(self).session,
            final(self).waiter_of(tag@) is None,
            forall|t: Seq<char>| t != tag@ ==> #[trigger] final(self).waiter_of(t) == old(self).waiter_of(t),
            match old(self).waiter_of(tag@) {
                Some(w) => r == Routed::ToWaiter {
                    waiter: w,
                    delivery: if method_responses > 0 {
                        Delivery::FirstResponse
                    } else {
                        Delivery::EmptyResponse
                    },
                },
                None => r == Routed::Unknown && *final(self) == *old(self),
            },
    {
        let ghost pre = *self;
        let session = self.session;
        match self.pending.find(session, tag) {
            Some(i) => {
                let waiter = self.pending.rows[i].waiter;
                self.pending.remove(session, tag);
                assert forall|j: int| 0 <= j < self.pending.rows@.len() implies (#[trigger] self.pending.rows@[j]).session
                    == self.session by {
                    self.pending.lemma_get_at(j);
                    let r = self.pending.rows@[j];
                    assert(self.pending.get(r.session, r.tag@) == pre.pending.get(r.session, r.tag@));
                    let x = choose|x: int| 0 <= x < pre.pending.rows@.len() && crate::table::row_matches(#[trigger] pre.pending.rows@[x], r.session, r.tag@);
                }
                let delivery = if method_responses > 0 {
                    Delivery::FirstResponse
                } else {
                    Delivery::EmptyResponse
                };
                Routed::ToWaiter { waiter, delivery }
            },
            None => Routed::Unknown,
        }
    }

    /// The stream closed or failed: every waiting caller is released, and
    /// nothing waits any more.
    pub fn on_closed(&mut self) -> (released: Vec<u64>)
        requires
            old(self).wf(),
        ensures
            final(self).wf(),
            final(self).session == old(self).session,
            forall|t: Seq<char>| #[trigger] final(self).waiter_of(t) is None,
            released@.len() == old(self).pending.rows@.len(),
            forall|i: int| 0 <= i < released@.len() ==> released@[i] == old(self).pending.rows@[i].waiter,
            forall|t: Seq<char>| #[trigger] old(self).waiter_of(t) matches Some(w) ==> released@.contains(w),
    {
        let mut released: Vec<u64> = Vec::new();
        let mut i: usize = 0;
        while i < self.pending.rows.len()
            invariant
                i <= self.pending.rows@.len(),
                released@.len() == i,
                forall|j: int| 0 <= j < i ==> released@[j] == self.pending.rows@[j].waiter,
            decreases self.pending.rows@.len() - i,
        {
            released.push(self.pending.rows[i].waiter);
            i = i + 1;
        }
        proof {
            assert forall|t: Seq<char>| #[trigger] self.waiter_of(t) is Some implies released@.contains(self.waiter_of(t)->0) by {
                let x = choose|x: int| 0 <= x < self.pending.rows@.len() && crate::table::row_matches(#[trigger] self.pending.rows@[x], self.session, t);
                assert(released@[x] == self.pending.rows@[x].waiter);
            }
        }
        self.pending = Table::new();
        released
    }
}

} // verus!
