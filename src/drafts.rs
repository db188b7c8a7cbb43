use vstd::prelude::*;
use crate::ids::new_draft_id;
use crate::model::{AccountId, DraftRecord, EmailDraft, StoreError};
use crate::store::{Store, copy_opt_string, later_of};

verus! {

/// A draft as clients see it.
#[derive(Clone, Debug)]
pub struct DraftResponse {
    pub id: String,
    pub jmap_email_id: Option<String>,
    pub data: EmailDraft,
    pub updated_at: i64,
    /// Whether the draft has been mirrored to the server.
    pub synced: bool,
}

impl From<DraftRecord> for DraftResponse {
    fn from(r: DraftRecord) -> (out: DraftResponse) {
        let synced = r.jmap_email_id.is_some();
        DraftResponse {
            id: r.id,
            jmap_email_id: r.jmap_email_id,
            data: r.data,
            updated_at: r.updated_at,
            synced,
        }
    }
}

impl vstd::std_specs::convert::FromSpecImpl<DraftRecord> for DraftResponse {
    open spec fn obeys_from_spec() -> bool {
        true
    }

    open spec fn from_spec(r: DraftRecord) -> DraftResponse {
        DraftResponse {
            id: r.id,
            jmap_email_id: r.jmap_email_id,
            data: r.data,
            updated_at: r.updated_at,
            synced: r.jmap_email_id is Some,
        }
    }
}

/// Saves a new draft locally under a fresh identifier, with no mirror yet.
/// The mirror is created afterwards; see `on_remote_create`.
pub fn create_draft(store: &mut Store, account_id: AccountId, data: EmailDraft, now: i64) -> (r: Result<
    DraftRecord,
    StoreError,
>)
    requires
        old(store).wf(),
    ensures
        final(store).wf(),
        r matches Err(e) ==> e == StoreError::Conflict && *final(store) == *old(store),
        r is Err ==> exists|k: Seq<char>| k.len() == 36 && old(store).drafts.contains(account_id, k),
        r matches Ok(rec) ==> {
            &&& rec.jmap_email_id is None
            &&& rec.data == data
            &&& rec.updated_at == now
            &&& rec.id@.len() == 36
            &&& !old(store).drafts.contains(account_id, rec.id@)
            &&& final(store).draft(account_id, rec.id@) == Some(rec)
            &&& final(store).drafts.same_except(&old(store).drafts, account_id, rec.id@)
        },
{
    let id = new_draft_id();
    let ghost k = id@;
    let r = store.create_draft(account_id, id, data, now);
    proof {
        if r is Err {
            assert(k.len() == 36 && old(store).drafts.contains(account_id, k));
        }
    }
    r
}

/// The mirror of a new draft was created, or not: on success its identifier
/// is recorded; on failure the draft stays unmirrored.
pub fn on_remote_create(
    store: &mut Store,
    account_id: AccountId,
    draft_id: &String,
    outcome: Result<String, String>,
)
    requires
        old(store).wf(),
    ensures
        final(store).wf(),
        final(store).drafts.same_except(&old(store).drafts, account_id, draft_id@),
        match outcome {
            Ok(remote) => match old(store).draft(account_id, draft_id@) {
                Some(o) => final(store).draft(account_id, draft_id@) == Some(
                    DraftRecord { jmap_email_id: Some(remote), ..o },
                ),
                None => *final(store) == *old(store),
            },
            Err(_) => *final(store) == *old(store),
        },
{
    if let Ok(remote) = outcome {
        store.set_draft_jmap_id(account_id, draft_id, &remote);
    }
}

/// Saves new content for a draft; returns the refreshed record and the
/// mirror that it had, which the new mirror replaces.
pub fn update_draft(
    store: &mut Store,
    account_id: AccountId,
    draft_id: &String,
    data: EmailDraft,
    now: i64,
) -> (r: Result<(DraftRecord, Option<String>), StoreError>)
    requires
        old(store).wf(),
    ensures
        final(store).wf(),
        r is Err <==> !old(store).drafts.contains(account_id, draft_id@),
        r matches Err(e) ==> e == StoreError::DraftNotFound && *final(store) == *old(store),
        r matches Ok((rec, old_remote)) ==> old(store).draft(account_id, draft_id@) matches Some(o)
            && rec == (DraftRecord { data, updated_at: later_of(o.updated_at, now), ..o })
            && rec.updated_at >= o.updated_at && old_remote == o.jmap_email_id
            && final(store).draft(account_id, draft_id@) == Some(rec),
        final(store).drafts.same_except(&old(store).drafts, account_id, draft_id@),
{
    let old_remote = match store.get_draft(account_id, draft_id) {
        Some(d) => d.jmap_email_id,
        None => {
            return Err(StoreError::DraftNotFound);
        },
    };
    match store.update_draft_data(account_id, draft_id, data, now) {
        Ok(()) => {},
        Err(e) => {
            return Err(e);
        },
    }
    match store.get_draft(account_id, draft_id) {
        Some(rec) => Ok((rec, old_remote)),
        None => Err(StoreError::DraftNotFound),
    }
}

/// The mirror of an updated draft was created, or not. On success the new
/// identifier is recorded and the old mirror, if any, is returned to be
/// destroyed. On failure the mirror is forgotten, so that the next save starts
/// afresh, and nothing is destroyed.
pub fn on_remote_update(
    store: &mut Store,
    account_id: AccountId,
    draft_id: &String,
    old_remote: Option<String>,
    outcome: Result<String, String>,
) -> (destroy: Option<String>)
    requires
        old(store).wf(),
    ensures
        final(store).wf(),
        final(store).drafts.same_except(&old(store).drafts, account_id, draft_id@),
        match outcome {
            Ok(remote) => destroy == old_remote && match old(store).draft(account_id, draft_id@) {
                Some(o) => final(store).draft(account_id, draft_id@) == Some(
                    DraftRecord { jmap_email_id: Some(remote), ..o },
                ),
                None => *final(store) == *old(store),
            },
            Err(_) => destroy is None && match old(store).draft(account_id, draft_id@) {
                Some(o) => final(store).draft(account_id, draft_id@) == Some(
                    if old_remote is Some {
                        DraftRecord { jmap_email_id: None, ..o }
                    } else {
                        o
                    },
                ),
                None => *final(store) == *old(store),
            },
        },
{
    match outcome {
        Ok(remote) => {
            store.set_draft_jmap_id(account_id, draft_id, &remote);
            old_remote
        },
        Err(_) => {
            if old_remote.is_some() {
                store.clear_draft_jmap_id(account_id, draft_id);
            }
            None
        },
    }
}

/// Deletes a draft locally; returns its mirror, to be destroyed.
pub fn delete_draft(store: &mut Store, account_id: AccountId, draft_id: &String) -> (r: Result<
    Option<String>,
    StoreError,
>)
    requires
        old(store).wf(),
    ensures
        final(store).wf(),
        r is Err <==> !old(store).drafts.contains(account_id, draft_id@),
        r matches Err(e) ==> e == StoreError::DraftNotFound && *final(store) == *old(store),
        r matches Ok(remote) ==> old(store).draft(account_id, draft_id@) matches Some(o) && remote
            == o.jmap_email_id,
        final(store).draft(account_id, draft_id@) is None,
        final(store).drafts.same_except(&old(store).drafts, account_id, draft_id@),
{
    match store.get_draft(account_id, draft_id) {
        Some(d) => {
            store.delete_draft(account_id, draft_id);
            Ok(d.jmap_email_id)
        },
        None => Err(StoreError::DraftNotFound),
    }
}

/// A request to send a draft.
#[derive(Clone, Debug)]
pub struct OutboxRequest {
    pub draft_id: String,
    /// The sent mailbox; the message is filed there on the server.
    pub sent_mailbox_id: String,
}

/// The message that sending created on the server.
#[derive(Clone, Debug)]
pub struct SendResponse {
    pub email_id: String,
}

/// What sending a draft hands to the server.
#[derive(Clone, Debug)]
pub struct SendPlan {
    /// The message, filed in the sent mailbox.
    pub email: EmailDraft,
    pub identity_id: String,
    /// The draft's mirror, to be destroyed once sent.
    pub old_remote: Option<String>,
}

/// Prepares the sending of a draft: the message is the draft's content, moved
/// to the sent mailbox.
pub fn prepare_send(store: &Store, account_id: AccountId, request: &OutboxRequest) -> (r: Result<
    SendPlan,
    StoreError,
>)
    requires
        store.wf(),
    ensures
        r is Err <==> !store.drafts.contains(account_id, request.draft_id@),
        r matches Err(e) ==> e == StoreError::DraftNotFound,
        r matches Ok(plan) ==> store.draft(account_id, request.draft_id@) matches Some(d)
            && plan.email == (EmailDraft { mailbox_id: request.sent_mailbox_id, ..d.data })
            && plan.identity_id == d.data.identity_id && plan.old_remote == d.jmap_email_id,
{
    match store.get_draft(account_id, &request.draft_id) {
        Some(d) => {
            let identity_id = d.data.identity_id.clone();
            let email = EmailDraft {
                mailbox_id: request.sent_mailbox_id.clone(),
                identity_id: d.data.identity_id,
                content: d.data.content,
            };
            Ok(SendPlan { email, identity_id, old_remote: d.jmap_email_id })
        },
        None => Err(StoreError::DraftNotFound),
    }
}

/// The message was created under `email_id` and submitted: the local draft
/// goes.
pub fn finish_send(store: &mut Store, account_id: AccountId, draft_id: &String, email_id: String) -> (r:
    SendResponse)
    requires
        old(store).wf(),
    ensures
        final(store).wf(),
        r.email_id == email_id,
        final(store).draft(account_id, draft_id@) is None,
        final(store).drafts.same_except(&old(store).drafts, account_id, draft_id@),
{
    store.delete_draft(account_id, draft_id);
    SendResponse { email_id }
}

} // verus!
