use vstd::prelude::*;
use crate::email_sync::append_all;
use crate::push::{DataType, PushObject};
use crate::query::EmailQuery;
use crate::store::copy_opt_string;
use crate::query_state::{EmailQueryState, lemma_query_history_push, query_history_ok, query_step};

verus! {

/// Where the last successful sync of a watched query left off.
#[derive(Clone, Debug)]
pub struct LastSyncState {
    pub state: String,
    /// The size of the result, when the server counted it.
    pub total: Option<usize>,
}

/// The request that a sync of a watched query starts with.
#[derive(Clone, Debug)]
pub enum WatchRequest {
    /// Run the query from scratch.
    Query { query: EmailQuery },
    /// Ask for the changes since the last sync.
    Changes { since: String },
}

/// What one sync learnt, before it is stored.
#[derive(Clone, Debug)]
pub struct PendingSync {
    /// Ids to fetch when the store lacks them.
    pub updated: Vec<String>,
    /// Ids to delete.
    pub destroyed: Vec<String>,
    /// Where this sync leaves off once stored.
    pub next: LastSyncState,
}

/// The size of a result after some ids were created and others destroyed;
/// unknown when it was unknown or would leave the range of `usize`.
pub open spec fn next_total(total: Option<usize>, created: nat, destroyed: nat) -> Option<usize> {
    match total {
        Some(t) => {
            let v = t as int + created as int - destroyed as int;
            if 0 <= v <= usize::MAX {
                Some(v as usize)
            } else {
                None
            }
        },
        None => None,
    }
}

pub fn adjust_total(total: Option<usize>, created: usize, destroyed: usize) -> (r: Option<usize>)
    ensures
        r == next_total(total, created as nat, destroyed as nat),
{
    match total {
        Some(t) => {
            if t <= usize::MAX - created {
                let up = t + created;
                if up >= destroyed {
                    Some(up - destroyed)
                } else {
                    None
                }
            } else if t >= destroyed {
                let less = t - destroyed;
                if less <= usize::MAX - created {
                    Some(less + created)
                } else {
                    None
                }
            } else {
                Some(created - (destroyed - t))
            }
        },
        None => None,
    }
}

/// The decisions of a client's watch over an email query: sync, publish the
/// progress, then resync on a change of emails or of the query.
pub struct EmailWatch {
    pub state: EmailQueryState,
    pub last: Option<LastSyncState>,
    pub published: Ghost<Seq<EmailQueryState>>,
}

impl EmailWatch {
    pub open spec fn wf(&self) -> bool {
        &&& query_history_ok(self.published@)
        &&& self.published@.last() == self.state
    }

    pub fn new() -> (r: EmailWatch)
        ensures
            r.wf(),
            r.state is NotStarted,
            r.last is None,
    {
        let ghost first = seq![EmailQueryState::NotStarted];
        EmailWatch { state: EmailQueryState::NotStarted, last: None, published: Ghost(first) }
    }

    fn publish(&mut self, s: EmailQueryState)
        requires
            old(self).wf(),
            query_step(old(self).state, s),
        ensures
            final(self).wf(),
            final(self).state == s,
            final(self).published@ == old(self).published@.push(s),
            final(self).last == old(self).last,
    {
        proof {
            lemma_query_history_push(self.published@, s);
        }
        self.published = Ghost(self.published@.push(s));
        self.state = s;
    }

    /// A sync starts: from scratch without a previous sync, else from where
    /// the last one left off.
    pub fn begin(&mut self, query: &EmailQuery) -> (r: WatchRequest)
        requires
            old(self).wf(),
            !(old(self).state is InProgress),
        ensures
            final(self).wf(),
            final(self).state is InProgress,
            final(self).published@ == old(self).published@.push(EmailQueryState::InProgress),
            final(self).last == old(self).last,
            match old(self).last {
                Some(l) => r == (WatchRequest::Changes { since: l.state }),
                None => r matches WatchRequest::Query { query: q } && q.anchor_id == query.anchor_id
                    && q.mailbox_id == query.mailbox_id && q.search_keyword
                    == query.search_keyword && q.limit == query.limit && q.sorts@ == query.sorts@,
            },
    {
        self.publish(EmailQueryState::InProgress);
        match &self.last {
            Some(l) => WatchRequest::Changes { since: l.state.clone() },
            None => {
                let mut sorts = Vec::new();
                let mut i: usize = 0;
                while i < query.sorts.len()
                    invariant
                        i <= query.sorts@.len(),
                        sorts@ == query.sorts@.subrange(0, i as int),
                    decreases query.sorts@.len() - i,
                {
                    sorts.push(query.sorts[i]);
                    i = i + 1;
                    assert(sorts@ =~= query.sorts@.subrange(0, i as int));
                }
                assert(sorts@ =~= query.sorts@);
                WatchRequest::Query {
                    query: EmailQuery {
                        anchor_id: copy_opt_string(&query.anchor_id),
                        mailbox_id: copy_opt_string(&query.mailbox_id),
                        search_keyword: copy_opt_string(&query.search_keyword),
                        sorts,
                        limit: query.limit,
                    },
                }
            },
        }
    }

    /// The query's answer: every id counts as updated.
    pub fn on_query_result(ids: Vec<String>, query_state: String, total: Option<usize>) -> (r:
        PendingSync)
        ensures
            r.updated@ == ids@,
            r.destroyed@.len() == 0,
            r.next.state == query_state,
            r.next.total == total,
    {
        PendingSync {
            updated: ids,
            destroyed: Vec::new(),
            next: LastSyncState { state: query_state, total },
        }
    }

    /// The changes since the last sync: created and updated ids are fetched,
    /// destroyed ones deleted, and the count moves by the difference.
    pub fn on_changes_result(
        &self,
        created: Vec<String>,
        updated: Vec<String>,
        destroyed: Vec<String>,
        new_state: String,
    ) -> (r: PendingSync)
        requires
            self.last is Some,
        ensures
            r.updated@ == created@ + updated@,
            r.destroyed@ == destroyed@,
            r.next.state == new_state,
            r.next.total == next_total(
                self.last->0.total,
                created@.len(),
                destroyed@.len(),
            ),
    {
        let total = match &self.last {
            Some(l) => adjust_total(l.total, created.len(), destroyed.len()),
            None => None,
        };
        let mut all = created;
        append_all(&mut all, updated);
        PendingSync { updated: all, destroyed, next: LastSyncState { state: new_state, total } }
    }

    /// The sync ended: on success the watch is up to date and remembers where
    /// it left off; on failure it reports the error and keeps the old point.
    pub fn finish(&mut self, outcome: Result<LastSyncState, String>)
        requires
            old(self).wf(),
            old(self).state is InProgress,
        ensures
            final(self).wf(),
            match outcome {
                Ok(next) => final(self).state is UpToDate && final(self).last == Some(next),
                Err(details) => final(self).state == (EmailQueryState::Error { details })
                    && final(self).last == old(self).last,
            },
            final(self).published@ == old(self).published@.push(final(self).state),
    {
        match outcome {
            Ok(next) => {
                self.publish(EmailQueryState::UpToDate);
                self.last = Some(next);
            },
            Err(details) => {
                self.publish(EmailQueryState::Error { details });
            },
        }
    }

    /// A push arrived while idle: a change of emails calls for a sync.
    pub fn on_push(&self, push: &PushObject) -> (resync: bool)
        ensures
            resync == push.names(DataType::Email),
    {
        push.mentions(DataType::Email)
    }

    /// The client changed its query: the next sync starts from scratch.
    pub fn on_query_changed(&mut self)
        ensures
            final(self).last is None,
            final(self).state == old(self).state,
            final(self).published == old(self).published,
    {
        self.last = None;
    }
}

} // verus!
