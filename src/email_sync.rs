use vstd::prelude::*;
use crate::model::{AccountId, Changes, EmailRecord, StoreError, TableName};
use crate::query::{EmailQuery, EmailSort, EmailSortColumn};
use crate::store::{Store, last_email, names, names_email_upto};

verus! {

/// The most ids that one get-emails request asks for.
pub const GET_EMAILS_CHUNK: usize = 200;

/// The first request of one sync of a mailbox's emails.
#[derive(Clone, Debug)]
pub enum EmailSyncRequest {
    /// No cursor yet: list the whole mailbox, newest first.
    QueryEmails { query: EmailQuery },
    /// Ask for the changes since the cursor.
    EmailChanges { since: String },
}

/// The query that lists a whole mailbox, newest first.
pub open spec fn full_mailbox_query(q: EmailQuery, mailbox_id: Seq<char>) -> bool {
    &&& q.anchor_id is None
    &&& q.mailbox_id matches Some(m) && m@ == mailbox_id
    &&& q.search_keyword is None
    &&& q.limit is None
    &&& q.sorts@ == seq![EmailSort { column: EmailSortColumn::Date, asc: false }]
}

/// Decides how one sync of a mailbox starts, from its stored cursor.
pub fn begin_sync_once(store: &Store, account_id: AccountId, mailbox_id: &String) -> (r: Result<
    EmailSyncRequest,
    StoreError,
>)
    requires
        store.wf(),
    ensures
        r is Err <==> !store.mailboxes.contains(account_id, mailbox_id@),
        r matches Err(e) ==> e == StoreError::MailboxNotFound,
        r matches Ok(req) ==> match req {
            EmailSyncRequest::QueryEmails { query } => store.email_cursor(account_id, mailbox_id@)
                is None && full_mailbox_query(query, mailbox_id@),
            EmailSyncRequest::EmailChanges { since } => store.email_cursor(account_id, mailbox_id@)
                == Some(since@),
        },
{
    match store.get_mailbox_email_sync_state(account_id, mailbox_id) {
        Err(e) => Err(e),
        Ok(Some(since)) => Ok(EmailSyncRequest::EmailChanges { since }),
        Ok(None) => {
            let mut sorts: Vec<EmailSort> = Vec::new();
            sorts.push(EmailSort { column: EmailSortColumn::Date, asc: false });
            assert(sorts@ =~= seq![EmailSort { column: EmailSortColumn::Date, asc: false }]);
            Ok(
                EmailSyncRequest::QueryEmails {
                    query: EmailQuery {
                        anchor_id: None,
                        mailbox_id: Some(mailbox_id.clone()),
                        search_keyword: None,
                        sorts,
                        limit: None,
                    },
                },
            )
        },
    }
}

pub fn append_all(dst: &mut Vec<String>, src: Vec<String>)
    ensures
        final(dst)@ == old(dst)@ + src@,
{
    let mut i: usize = 0;
    let ghost start = dst@;
    while i < src.len()
        invariant
            i <= src@.len(),
            dst@ == start + src@.subrange(0, i as int),
        decreases src@.len() - i,
    {
        dst.push(src[i].clone());
        i = i + 1;
        assert(dst@ =~= start + src@.subrange(0, i as int));
    }
    assert(src@.subrange(0, src@.len() as int) =~= src@);
}

/// What one sync has learnt from the server so far.
#[derive(Clone, Debug)]
pub struct EmailChangeSet {
    /// Ids created or updated since the cursor.
    pub updated: Vec<String>,
    /// Ids destroyed since the cursor.
    pub deleted: Vec<String>,
    /// The cursor of the last response.
    pub new_state: Option<String>,
    /// The server has more changes to report.
    pub has_more: bool,
}

impl EmailChangeSet {
    /// Nothing learnt yet.
    pub fn new() -> (r: EmailChangeSet)
        ensures
            r.updated@.len() == 0,
            r.deleted@.len() == 0,
            r.new_state is None,
            r.has_more,
    {
        EmailChangeSet { updated: Vec::new(), deleted: Vec::new(), new_state: None, has_more: true }
    }

    /// The whole mailbox as listed: every id counts as updated, none as
    /// destroyed.
    pub fn from_query(ids: Vec<String>, query_state: String) -> (r: EmailChangeSet)
        ensures
            r.updated@ == ids@,
            r.deleted@.len() == 0,
            r.new_state == Some(query_state),
            !r.has_more,
    {
        EmailChangeSet {
            updated: ids,
            deleted: Vec::new(),
            new_state: Some(query_state),
            has_more: false,
        }
    }

    /// Adds one changes response; returns the cursor to ask from next while
    /// the server has more.
    pub fn add_changes(
        &mut self,
        created: Vec<String>,
        updated: Vec<String>,
        destroyed: Vec<String>,
        has_more: bool,
        new_state: String,
    ) -> (next: Option<String>)
        ensures
            final(self).updated@ == old(self).updated@ + updated@ + created@,
            final(self).deleted@ == old(self).deleted@ + destroyed@,
            final(self).new_state == Some(new_state),
            final(self).has_more == has_more,
            has_more ==> next == Some(new_state),
            !has_more ==> next is None,
    {
        append_all(&mut self.updated, updated);
        append_all(&mut self.updated, created);
        append_all(&mut self.deleted, destroyed);
        self.has_more = has_more;
        let next = if has_more {
            Some(new_state.clone())
        } else {
            None
        };
        self.new_state = Some(new_state);
        next
    }
}

/// The ids of each request of a split.
pub open spec fn chunk_views(chunks: Seq<Vec<String>>) -> Seq<Seq<String>> {
    chunks.map_values(|v: Vec<String>| v@)
}

/// Splits ids into consecutive requests of at most `size` ids each: the
/// requests, in order, hold every id once, and none is empty.
pub fn chunk_ids(ids: &Vec<String>, size: usize) -> (r: Vec<Vec<String>>)
    requires
        size > 0,
    ensures
        chunk_views(r@).flatten() == ids@,
        forall|c: int| 0 <= c < r@.len() ==> 0 < (#[trigger] r@[c])@.len() <= size,
{
    let mut out: Vec<Vec<String>> = Vec::new();
    let mut start: usize = 0;
    while start < ids.len()
        invariant
            size > 0,
            start <= ids@.len(),
            chunk_views(out@).flatten() == ids@.subrange(0, start as int),
            forall|c: int| 0 <= c < out@.len() ==> 0 < (#[trigger] out@[c])@.len() <= size,
        decreases ids@.len() - start,
    {
        let end = if ids.len() - start > size {
            start + size
        } else {
            ids.len()
        };
        let mut chunk: Vec<String> = Vec::new();
        let mut i: usize = start;
        while i < end
            invariant
                start <= i <= end <= ids@.len(),
                chunk@ == ids@.subrange(start as int, i as int),
            decreases end - i,
        {
            chunk.push(ids[i].clone());
            i = i + 1;
            assert(chunk@ =~= ids@.subrange(start as int, i as int));
        }
        let ghost prev = out@;
        let ghost piece = chunk@;
        out.push(chunk);
        proof {
            assert(chunk_views(out@) =~= chunk_views(prev).push(piece));
            chunk_views(prev).lemma_flatten_push(piece);
            assert(ids@.subrange(0, end as int) =~= ids@.subrange(0, start as int) + piece);
            assert forall|c: int| 0 <= c < out@.len() implies 0 < (#[trigger] out@[c])@.len() <= size by {
                if c < prev.len() {
                    assert(out@[c] == prev[c]);
                }
            }
        }
        start = end;
    }
    proof {
        assert(ids@.subrange(0, ids@.len() as int) =~= ids@);
    }
    out
}

/// Ends one sync of a mailbox after its envelopes were stored: deletes the
/// destroyed emails, then records the new cursor. Afterwards the cursor is the
/// server's last state and no destroyed email is stored.
pub fn complete_sync_once(
    store: &mut Store,
    account_id: AccountId,
    mailbox_id: &String,
    deleted: &Vec<String>,
    new_state: &String,
) -> (r: Result<Changes, StoreError>)
    requires
        old(store).wf(),
    ensures
        final(store).wf(),
        r is Err <==> !old(store).mailboxes.contains(account_id, mailbox_id@),
        r matches Err(e) ==> e == StoreError::MailboxNotFound && *final(store) == *old(store),
        r is Ok ==> {
            &&& final(store).email_cursor(account_id, mailbox_id@) == Some(new_state@)
            &&& forall|i: int|
                0 <= i < deleted@.len() ==> !final(store).emails.contains(
                    account_id,
                    (#[trigger] deleted@[i])@,
                )
            &&& forall|a: AccountId, k: Seq<char>|
                !(a == account_id && names(deleted@, k)) ==> #[trigger] final(store).emails.get(a, k)
                    == old(store).emails.get(a, k)
        },
        r matches Ok(ch) ==> (ch.has(TableName::Emails) <==> exists|i: int|
            0 <= i < deleted@.len() && old(store).emails.contains(account_id, (#[trigger] deleted@[i])@)),
{
    if store.mailboxes.find(account_id, mailbox_id).is_none() {
        return Err(StoreError::MailboxNotFound);
    }
    let ch = store.delete_emails(account_id, deleted);
    store.set_mailbox_email_sync_state(account_id, mailbox_id, new_state);
    Ok(ch)
}


/// Why fetching an email's details failed.
#[derive(Clone, Copy, Debug, PartialEq, Eq, Structural)]
pub enum DetailsError {
    /// The server returned no such email.
    NotFound,
}

/// Where an email's details come from.
#[derive(Clone, Debug)]
pub enum DetailSource {
    /// The store holds them.
    Stored(String),
    /// They were never fetched: fetch them from the server.
    Fetch,
}

/// Serves an email's details from the store; only details never fetched
/// call for a fetch. Fails for an email that is not stored.
pub fn plan_detail_read(store: &Store, account_id: AccountId, email_id: &String) -> (r: Result<DetailSource, StoreError>)
    requires
        store.wf(),
    ensures
        r is Err <==> !store.emails.contains(account_id, email_id@),
        r matches Err(e) ==> e == StoreError::EmailNotFound,
        r matches Ok(src) ==> store.emails.get(account_id, email_id@) matches Some(row) && match src {
            DetailSource::Stored(d) => row.part_details == Some(d),
            DetailSource::Fetch => row.part_details is None,
        },
{
    match store.get_email_parts(account_id, email_id) {
        Ok(Some(d)) => Ok(DetailSource::Stored(d)),
        Ok(None) => Ok(DetailSource::Fetch),
        Err(e) => Err(e),
    }
}

/// The properties that a detail fetch asks of the server.
#[derive(Clone, Copy, Debug, PartialEq, Eq, Structural)]
pub enum DetailProperty {
    BodyValues,
    Attachments,
    BodyStructure,
}

/// A detail fetch asks for the body values, the attachments and the body
/// structure, in that order.
pub fn detail_properties() -> (r: Vec<DetailProperty>)
    ensures
        r@ == seq![DetailProperty::BodyValues, DetailProperty::Attachments, DetailProperty::BodyStructure],
{
    let mut r: Vec<DetailProperty> = Vec::new();
    r.push(DetailProperty::BodyValues);
    r.push(DetailProperty::Attachments);
    r.push(DetailProperty::BodyStructure);
    assert(r@ =~= seq![DetailProperty::BodyValues, DetailProperty::Attachments, DetailProperty::BodyStructure]);
    r
}

/// Stores the details that the server returned for one email: the first
/// email of the response, if any. Returns them with the change event, which
/// names `emails` when the email is stored.
pub fn apply_fetched_details(
    store: &mut Store,
    account_id: AccountId,
    email_id: &String,
    fetched: Vec<String>,
) -> (r: Result<(String, Changes), DetailsError>)
    requires
        old(store).wf(),
    ensures
        final(store).wf(),
        fetched@.len() == 0 <==> r is Err,
        r is Err ==> *final(store) == *old(store),
        r matches Ok((d, ch)) ==> d == fetched@[0] && match old(store).emails.get(account_id, email_id@) {
            Some(o) => final(store).emails.get(account_id, email_id@) == Some(
                crate::store::EmailRow { part_details: Some(d), ..o },
            ) && ch.has(TableName::Emails),
            None => final(store).emails.get(account_id, email_id@) is None && !ch.has(TableName::Emails),
        },
        r matches Ok((d, ch)) ==> forall|t: TableName| #[trigger] ch.has(t) ==> t == TableName::Emails,
        final(store).emails.same_except(&old(store).emails, account_id, email_id@),
{
    if fetched.len() == 0 {
        return Err(DetailsError::NotFound);
    }
    let details = fetched[0].clone();
    let ch = store.update_email_details(account_id, email_id, &details);
    Ok((details, ch))
}


/// The envelopes of all batches, in order.
pub open spec fn batch_views(batches: Seq<Vec<EmailRecord>>) -> Seq<Seq<EmailRecord>> {
    batches.map_values(|v: Vec<EmailRecord>| v@)
}

/// Storing one more batch keeps every envelope stored so far that the batch
/// does not name, and stores the batch's own.
pub proof fn lemma_pass_step(
    before: &Store,
    after: &Store,
    account_id: AccountId,
    done: Seq<EmailRecord>,
    batch: Seq<EmailRecord>,
)
    requires
        forall|x: int|
            0 <= x < done.len() && last_email(done, x) ==> before.email_metadata(
                account_id,
                (#[trigger] done[x]).id@,
            ) == Some(done[x].metadata@),
        forall|i: int|
            0 <= i < batch.len() && last_email(batch, i) ==> after.email_metadata(
                account_id,
                (#[trigger] batch[i]).id@,
            ) == Some(batch[i].metadata@),
        forall|a: AccountId, k: Seq<char>|
            !(a == account_id && names_email_upto(batch, batch.len() as int, k))
                ==> #[trigger] after.emails.get(a, k) == before.emails.get(a, k),
    ensures
        forall|x: int|
            0 <= x < (done + batch).len() && last_email(done + batch, x) ==> after.email_metadata(
                account_id,
                (#[trigger] (done + batch)[x]).id@,
            ) == Some((done + batch)[x].metadata@),
{
    let next = done + batch;
    let n = done.len();
    assert forall|x: int|
        0 <= x < next.len() && last_email(next, x) implies after.email_metadata(
            account_id,
            (#[trigger] next[x]).id@,
        ) == Some(next[x].metadata@) by {
        if x < n {
            assert(next[x] == done[x]);
            assert forall|l: int| x < l < done.len() implies (#[trigger] done[l]).id@ != done[x].id@ by {
                assert(next[l] == done[l]);
            }
            assert(!names_email_upto(batch, batch.len() as int, done[x].id@)) by {
                if names_email_upto(batch, batch.len() as int, done[x].id@) {
                    let j = choose|j: int| 0 <= j < batch.len() && (#[trigger] batch[j]).id@ == done[x].id@;
                    assert(next[n + j] == batch[j]);
                }
            }
            assert(after.emails.get(account_id, done[x].id@) == before.emails.get(account_id, done[x].id@));
        } else {
            let y = x - n;
            assert(next[x] == batch[y]);
            assert forall|l: int| y < l < batch.len() implies (#[trigger] batch[l]).id@ != batch[y].id@ by {
                assert(next[n + l] == batch[l]);
            }
        }
    }
}

/// Stores the outcome of one sync pass of a mailbox: each batch of envelopes
/// that get-emails returned, in order, then the deletions, then the cursor.
/// Afterwards every fetched email that was not destroyed reads back with the
/// envelope of its last occurrence, no destroyed email is stored, and the
/// cursor is the server's last state. Returns the change events, in order.
pub fn store_sync_pass(
    store: &mut Store,
    account_id: AccountId,
    mailbox_id: &String,
    batches: &Vec<Vec<EmailRecord>>,
    deleted: &Vec<String>,
    new_state: &String,
) -> (r: Result<Vec<Changes>, StoreError>)
    requires
        old(store).wf(),
    ensures
        final(store).wf(),
        r is Err <==> !old(store).mailboxes.contains(account_id, mailbox_id@),
        r matches Err(e) ==> e == StoreError::MailboxNotFound && *final(store) == *old(store),
        r is Ok ==> {
            let all = batch_views(batches@).flatten();
            &&& final(store).email_cursor(account_id, mailbox_id@) == Some(new_state@)
            &&& forall|i: int|
                0 <= i < deleted@.len() ==> !final(store).emails.contains(
                    account_id,
                    (#[trigger] deleted@[i])@,
                )
            &&& forall|x: int|
                0 <= x < all.len() && last_email(all, x) && !names(deleted@, (#[trigger] all[x]).id@)
                    ==> final(store).email_metadata(account_id, all[x].id@) == Some(all[x].metadata@)
        },
{
    if store.mailboxes.find(account_id, mailbox_id).is_none() {
        return Err(StoreError::MailboxNotFound);
    }
    let ghost start = *store;
    let mut events: Vec<Changes> = Vec::new();
    let mut k: usize = 0;
    while k < batches.len()
        invariant
            store.wf(),
            k <= batches@.len(),
            store.mailboxes == start.mailboxes,
            store.mailboxes.contains(account_id, mailbox_id@),
            ({
                let done = batch_views(batches@.subrange(0, k as int)).flatten();
                forall|x: int|
                    0 <= x < done.len() && last_email(done, x) ==> store.email_metadata(
                        account_id,
                        (#[trigger] done[x]).id@,
                    ) == Some(done[x].metadata@)
            }),
        decreases batches@.len() - k,
    {
        let ghost before = *store;
        let ghost done = batch_views(batches@.subrange(0, k as int)).flatten();
        let batch = &batches[k];
        let ch = store.update_emails(account_id, batch);
        proof {
            assert(batch_views(batches@.subrange(0, k as int + 1)) =~= batch_views(
                batches@.subrange(0, k as int),
            ).push(batch@));
            batch_views(batches@.subrange(0, k as int)).lemma_flatten_push(batch@);
            lemma_pass_step(&before, store, account_id, done, batch@);
        }
        events.push(ch);
        k = k + 1;
    }
    let ghost stored = *store;
    let r = complete_sync_once(store, account_id, mailbox_id, deleted, new_state);
    proof {
        assert(batches@.subrange(0, batches@.len() as int) =~= batches@);
        let all = batch_views(batches@).flatten();
        assert forall|x: int|
            0 <= x < all.len() && last_email(all, x) && !names(deleted@, (#[trigger] all[x]).id@)
                implies store.email_metadata(account_id, all[x].id@) == Some(all[x].metadata@) by {
            assert(store.emails.get(account_id, all[x].id@) == stored.emails.get(account_id, all[x].id@));
        }
    }
    match r {
        Ok(ch) => {
            events.push(ch);
            Ok(events)
        },
        Err(e) => Err(e),
    }
}

} // verus!
