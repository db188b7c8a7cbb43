use vstd::prelude::*;
use crate::email_sync::append_all;
use crate::model::{AccountId, Changes, MailboxRecord, StoreError, TableName};
use crate::push::{DataType, PushObject};
use crate::store::Store;

verus! {

/// The request that one pass of the mailbox-list sync starts with.
#[derive(Clone, Debug)]
pub enum MailboxListRequest {
    /// No usable cursor: list every mailbox.
    QueryMailboxes,
    /// Ask for the changes since the cursor.
    MailboxChanges { since: String },
}

/// Chooses the first request from the stored cursor: an absent or empty
/// cursor lists everything.
pub fn plan_mailbox_list_sync(cursor: &Option<String>) -> (r: MailboxListRequest)
    ensures
        match cursor {
            Some(c) => if c@.len() > 0 {
                r == (MailboxListRequest::MailboxChanges { since: *c })
            } else {
                r is QueryMailboxes
            },
            None => r is QueryMailboxes,
        },
{
    match cursor {
        Some(c) => {
            if c.as_str().is_empty() {
                MailboxListRequest::QueryMailboxes
            } else {
                MailboxListRequest::MailboxChanges { since: c.clone() }
            }
        },
        None => MailboxListRequest::QueryMailboxes,
    }
}

/// What one pass learnt: the ids to fetch and store, the ids to delete, and
/// the new cursor.
#[derive(Clone, Debug)]
pub struct MailboxDelta {
    pub new_state: String,
    pub updated: Vec<String>,
    pub destroyed: Vec<String>,
}

impl MailboxDelta {
    /// A full listing: every id counts as updated, none as destroyed.
    pub fn from_query(ids: Vec<String>, query_state: String) -> (r: MailboxDelta)
        ensures
            r.updated@ == ids@,
            r.destroyed@.len() == 0,
            r.new_state == query_state,
    {
        MailboxDelta { new_state: query_state, updated: ids, destroyed: Vec::new() }
    }

    /// A changes response: created and updated ids both count as updated.
    pub fn from_changes(
        created: Vec<String>,
        updated: Vec<String>,
        destroyed: Vec<String>,
        new_state: String,
    ) -> (r: MailboxDelta)
        ensures
            r.updated@ == created@ + updated@,
            r.destroyed@ == destroyed@,
            r.new_state == new_state,
    {
        let mut all = created;
        append_all(&mut all, updated);
        MailboxDelta { new_state, updated: all, destroyed }
    }

    /// Whether the pass must fetch mailbox details before storing.
    pub fn needs_fetch(&self) -> (r: bool)
        ensures
            r == (self.updated@.len() > 0),
    {
        self.updated.len() > 0
    }
}

/// Stores one pass in a single step: the fetched mailboxes, the deletions and
/// the new cursor; see `Store::update_mailboxes`.
pub fn apply_mailbox_delta(
    store: &mut Store,
    account_id: AccountId,
    delta: &MailboxDelta,
    fetched: &Vec<MailboxRecord>,
) -> (r: Result<Changes, StoreError>)
    requires
        old(store).wf(),
    ensures
        final(store).wf(),
        r is Err <==> !old(store).has_account(account_id),
        r is Err ==> *final(store) == *old(store),
        r is Ok ==> final(store).mailboxes_cursor(account_id) == Some(delta.new_state@),
        r is Ok ==> forall|i: int|
            0 <= i < delta.destroyed@.len() ==> !final(store).mailboxes.contains(
                account_id,
                (#[trigger] delta.destroyed@[i])@,
            ),
        r is Ok ==> forall|i: int|
            0 <= i < fetched@.len() && crate::store::last_mailbox(fetched@, i) && !crate::store::names(
                delta.destroyed@,
                (#[trigger] fetched@[i]).id@,
            ) ==> (final(store).mailboxes.get(account_id, fetched@[i].id@) matches Some(row)
                && row.metadata@ == fetched@[i].metadata@),
        r is Ok ==> forall|a: AccountId, k: Seq<char>|
            !(a == account_id && (crate::store::names_mailbox(fetched@, k) || crate::store::names(
                delta.destroyed@,
                k,
            ))) ==> #[trigger] final(store).mailboxes.get(a, k) == old(store).mailboxes.get(a, k),
        r matches Ok(ch) ==> (ch.has(TableName::Mailboxes) <==> (fetched@.len() > 0 || exists|i: int|
            0 <= i < delta.destroyed@.len() && old(store).mailboxes.contains(
                account_id,
                (#[trigger] delta.destroyed@[i])@,
            ))),
{
    let r = store.update_mailboxes(account_id, &delta.new_state, fetched, &delta.destroyed);
    proof {
        if r is Ok {
            assert forall|i: int|
                0 <= i < fetched@.len() && crate::store::last_mailbox(fetched@, i) && !crate::store::names(
                    delta.destroyed@,
                    (#[trigger] fetched@[i]).id@,
                ) implies (final(store).mailboxes.get(account_id, fetched@[i].id@) matches Some(row)
                    && row.metadata@ == fetched@[i].metadata@) by {
                assert(store.mailbox_is(account_id, fetched@[i].id@, fetched@[i].metadata@, old(store).prior_email_state(account_id, fetched@[i].id@)));
            }
        }
    }
    r
}

/// Whether a push calls for another pass: it names a change of mailboxes.
pub fn is_mailbox_push(push: &PushObject) -> (r: bool)
    ensures
        r == push.names(DataType::Mailbox),
{
    push.mentions(DataType::Mailbox)
}

/// A mailbox named in a list has a last occurrence there.
pub proof fn lemma_last_mailbox_exists(recs: Seq<MailboxRecord>, k: Seq<char>)
    requires
        crate::store::names_mailbox(recs, k),
    ensures
        exists|i: int| 0 <= i < recs.len() && crate::store::last_mailbox(recs, i) && (#[trigger] recs[i]).id@ == k,
    decreases recs.len(),
{
    let n = recs.len() - 1;
    if recs[n].id@ == k {
        assert(crate::store::last_mailbox(recs, n));
    } else {
        let p = recs.drop_last();
        let i = choose|i: int| 0 <= i < recs.len() && (#[trigger] recs[i]).id@ == k;
        assert(p[i] == recs[i]);
        lemma_last_mailbox_exists(p, k);
        let j = choose|j: int| 0 <= j < p.len() && crate::store::last_mailbox(p, j) && (#[trigger] p[j]).id@ == k;
        assert(p[j] == recs[j]);
        assert forall|l: int| j < l < recs.len() implies (#[trigger] recs[l]).id@ != recs[j].id@ by {
            if l < n {
                assert(p[l] == recs[l]);
            }
        }
    }
}

/// Cold sync: when an account has no mailbox yet and a full listing is
/// stored, the account's mailboxes are exactly the fetched ones, each with its
/// fetched metadata (of its last occurrence), and the cursor is the listing's
/// state.
pub proof fn lemma_cold_sync(
    before: &Store,
    after: &Store,
    account_id: AccountId,
    delta: MailboxDelta,
    fetched: Seq<MailboxRecord>,
)
    requires
        forall|k: Seq<char>| !#[trigger] before.mailboxes.contains(account_id, k),
        delta.destroyed@.len() == 0,
        after.mailboxes_cursor(account_id) == Some(delta.new_state@),
        forall|i: int|
            0 <= i < fetched.len() && crate::store::last_mailbox(fetched, i) && !crate::store::names(
                delta.destroyed@,
                (#[trigger] fetched[i]).id@,
            ) ==> (after.mailboxes.get(account_id, fetched[i].id@) matches Some(row)
                && row.metadata@ == fetched[i].metadata@),
        forall|a: AccountId, k: Seq<char>|
            !(a == account_id && (crate::store::names_mailbox(fetched, k) || crate::store::names(
                delta.destroyed@,
                k,
            ))) ==> #[trigger] after.mailboxes.get(a, k) == before.mailboxes.get(a, k),
    ensures
        forall|k: Seq<char>| #[trigger] after.mailboxes.contains(account_id, k) <==> crate::store::names_mailbox(fetched, k),
        after.mailboxes_cursor(account_id) == Some(delta.new_state@),
{
    assert forall|k: Seq<char>| #[trigger] after.mailboxes.contains(account_id, k) <==> crate::store::names_mailbox(fetched, k) by {
        assert(!crate::store::names(delta.destroyed@, k));
        if crate::store::names_mailbox(fetched, k) {
            lemma_last_mailbox_exists(fetched, k);
            let i = choose|i: int| 0 <= i < fetched.len() && crate::store::last_mailbox(fetched, i) && (#[trigger] fetched[i]).id@ == k;
            assert(!crate::store::names(delta.destroyed@, fetched[i].id@));
        } else {
            assert(after.mailboxes.get(account_id, k) == before.mailboxes.get(account_id, k));
            assert(!before.mailboxes.contains(account_id, k));
        }
    }
}

} // verus!
