use mailsync::email_sync::{
    begin_sync_once, chunk_ids, complete_sync_once, EmailChangeSet, EmailSyncRequest, GET_EMAILS_CHUNK,
};
use mailsync::mailbox_list::{apply_mailbox_delta, is_mailbox_push, plan_mailbox_list_sync, MailboxDelta, MailboxListRequest};
use mailsync::model::{Account, Credentials, EmailRecord, MailboxRecord, TableName};
use mailsync::push::{AccountChange, DataType, PushObject, TypeState};
use mailsync::query::{EmailSort, EmailSortColumn};
use mailsync::store::Store;
use mailsync::syncer::{MailboxSyncer, SyncerAction};
use mailsync::query_state::EmailQueryState;

fn ids(v: &[&str]) -> Vec<String> {
    v.iter().map(|s| s.to_string()).collect()
}

fn new_account(store: &mut Store) -> i64 {
    store
        .add_account(Account {
            server_url: "https://mail.example.com".to_string(),
            credentials: Credentials::Basic { username: "u".to_string(), password: "p".to_string() },
            name: "Main".to_string(),
        })
        .unwrap()
}

fn push_of(t: DataType) -> PushObject {
    PushObject::StateChange {
        changed: vec![AccountChange {
            account_id: "acc".to_string(),
            changed: vec![TypeState { data_type: t, state: "s".to_string() }],
        }],
    }
}

fn fetch_mailboxes(ids: &[String]) -> Vec<MailboxRecord> {
    ids.iter().map(|id| MailboxRecord { id: id.clone(), metadata: format!("{{\"name\":\"{id}\"}}") }).collect()
}

fn sorted(mut v: Vec<String>) -> Vec<String> {
    v.sort();
    v
}

#[test]
fn cold_sync_stores_mailboxes_and_cursor() {
    let mut store = Store::new();
    let a = new_account(&mut store);
    let cursor = store.get_mailboxes_sync_state(a).unwrap();
    assert!(matches!(plan_mailbox_list_sync(&cursor), MailboxListRequest::QueryMailboxes));
    let delta = MailboxDelta::from_query(ids(&["Inbox", "Sent"]), "A1".to_string());
    assert!(delta.needs_fetch());
    let fetched = fetch_mailboxes(&delta.updated);
    let ch = apply_mailbox_delta(&mut store, a, &delta, &fetched).unwrap();
    assert!(ch.contains(TableName::Mailboxes));
    assert_eq!(sorted(store.get_mailbox_ids(a)), ids(&["Inbox", "Sent"]));
    assert_eq!(store.get_mailboxes_sync_state(a).unwrap(), Some("A1".to_string()));
}

#[test]
fn incremental_mailbox_change_adds_archive() {
    let mut store = Store::new();
    let a = new_account(&mut store);
    let delta = MailboxDelta::from_query(ids(&["Inbox", "Sent"]), "A1".to_string());
    apply_mailbox_delta(&mut store, a, &delta, &fetch_mailboxes(&delta.updated)).unwrap();

    assert!(is_mailbox_push(&push_of(DataType::Mailbox)));
    let cursor = store.get_mailboxes_sync_state(a).unwrap();
    match plan_mailbox_list_sync(&cursor) {
        MailboxListRequest::MailboxChanges { since } => assert_eq!(since, "A1"),
        other => panic!("unexpected {other:?}"),
    }
    let delta = MailboxDelta::from_changes(ids(&["Archive"]), vec![], vec![], "A2".to_string());
    assert_eq!(delta.updated, ids(&["Archive"]));
    apply_mailbox_delta(&mut store, a, &delta, &fetch_mailboxes(&delta.updated)).unwrap();
    assert_eq!(sorted(store.get_mailbox_ids(a)), ids(&["Archive", "Inbox", "Sent"]));
    assert_eq!(store.get_mailboxes_sync_state(a).unwrap(), Some("A2".to_string()));
}

#[test]
fn empty_cursor_lists_everything() {
    assert!(matches!(plan_mailbox_list_sync(&Some(String::new())), MailboxListRequest::QueryMailboxes));
    assert!(matches!(plan_mailbox_list_sync(&None), MailboxListRequest::QueryMailboxes));
    assert!(!is_mailbox_push(&push_of(DataType::Email)));
    assert!(!is_mailbox_push(&PushObject::Other));
}

#[test]
fn changes_union_created_and_updated() {
    let d = MailboxDelta::from_changes(ids(&["c"]), ids(&["u"]), ids(&["d"]), "S".to_string());
    assert_eq!(d.updated, ids(&["c", "u"]));
    assert_eq!(d.destroyed, ids(&["d"]));
    assert_eq!(d.new_state, "S");
    assert!(!MailboxDelta::from_query(vec![], "Q".to_string()).needs_fetch());
}

fn envelope(id: &str, mailbox: &str) -> EmailRecord {
    EmailRecord {
        id: id.to_string(),
        thread_id: "t".to_string(),
        received_at: 1,
        subject: "s".to_string(),
        mailbox_ids: vec![mailbox.to_string()],
        metadata: format!("{{\"id\":\"{id}\"}}"),
    }
}

#[test]
fn watcher_gated_email_sync() {
    let mut store = Store::new();
    let a = new_account(&mut store);
    let delta = MailboxDelta::from_query(ids(&["inbox"]), "A1".to_string());
    apply_mailbox_delta(&mut store, a, &delta, &fetch_mailboxes(&delta.updated)).unwrap();

    let mut syncer = MailboxSyncer::new();
    assert!(matches!(syncer.state, EmailQueryState::NotStarted));
    // No watcher: a push leads to no email traffic.
    assert_eq!(syncer.on_push(&push_of(DataType::Email)), SyncerAction::Wait);
    assert!(matches!(syncer.state, EmailQueryState::NotStarted));

    // One watcher: a sync starts with a full query of the mailbox.
    assert_eq!(syncer.on_watcher_request(), SyncerAction::StartSync);
    assert!(matches!(syncer.state, EmailQueryState::InProgress));
    let query = match begin_sync_once(&store, a, &"inbox".to_string()).unwrap() {
        EmailSyncRequest::QueryEmails { query } => query,
        other => panic!("unexpected {other:?}"),
    };
    assert_eq!(query.mailbox_id, Some("inbox".to_string()));
    assert_eq!(query.sorts, vec![EmailSort { column: EmailSortColumn::Date, asc: false }]);
    assert!(query.limit.is_none());

    let set = EmailChangeSet::from_query(ids(&["e1", "e2"]), "Q1".to_string());
    let missing = store.find_missing_email_ids(a, &set.updated);
    for chunk in chunk_ids(&missing, GET_EMAILS_CHUNK) {
        let fetched: Vec<EmailRecord> = chunk.iter().map(|id| envelope(id, "inbox")).collect();
        store.update_emails(a, &fetched);
    }
    complete_sync_once(&mut store, a, &"inbox".to_string(), &set.deleted, set.new_state.as_ref().unwrap()).unwrap();
    assert_eq!(syncer.on_sync_finished(Ok(())), SyncerAction::Wait);
    assert!(matches!(syncer.state, EmailQueryState::UpToDate));
    assert!(store.get_email(a, &"e1".to_string()).is_some());
    assert!(store.get_email(a, &"e2".to_string()).is_some());
    assert_eq!(store.get_mailbox_email_sync_state(a, &"inbox".to_string()).unwrap(), Some("Q1".to_string()));
}

#[test]
fn syncer_queues_one_sync_while_running_and_reports_errors() {
    let mut s = MailboxSyncer::new();
    assert_eq!(s.on_watcher_request(), SyncerAction::StartSync);
    assert_eq!(s.on_watcher_request(), SyncerAction::Wait);
    assert_eq!(s.watchers, 2);
    assert!(s.sync_requested);
    assert_eq!(s.on_sync_finished(Err("Sync failed: boom".to_string())), SyncerAction::StartSync);
    assert!(matches!(s.state, EmailQueryState::InProgress));
    assert_eq!(s.on_sync_finished(Err("Sync failed: again".to_string())), SyncerAction::Wait);
    match &s.state {
        EmailQueryState::Error { details } => assert_eq!(details, "Sync failed: again"),
        other => panic!("unexpected {other:?}"),
    }
    assert_eq!(s.on_push(&push_of(DataType::Mailbox)), SyncerAction::Wait);
    assert_eq!(s.on_push(&push_of(DataType::Email)), SyncerAction::StartSync);
    s.on_watcher_dropped();
    s.on_watcher_dropped();
    assert_eq!(s.watchers, 0);
    assert_eq!(s.on_sync_finished(Ok(())), SyncerAction::Wait);
    assert_eq!(s.on_push(&push_of(DataType::Email)), SyncerAction::Wait);
    assert_eq!(s.state.tag(), "UpToDate");
}

#[test]
fn changes_accumulate_until_the_server_is_done() {
    let mut set = EmailChangeSet::new();
    let next = set.add_changes(ids(&["c1"]), ids(&["u1"]), ids(&["d1"]), true, "S2".to_string());
    assert_eq!(next, Some("S2".to_string()));
    let next = set.add_changes(ids(&["c2"]), vec![], ids(&["d2"]), false, "S3".to_string());
    assert_eq!(next, None);
    assert_eq!(set.updated, ids(&["u1", "c1", "c2"]));
    assert_eq!(set.deleted, ids(&["d1", "d2"]));
    assert_eq!(set.new_state, Some("S3".to_string()));
}

#[test]
fn chunks_hold_at_most_two_hundred_ids() {
    let many: Vec<String> = (0..450).map(|i| format!("e{i}")).collect();
    let chunks = chunk_ids(&many, GET_EMAILS_CHUNK);
    assert_eq!(chunks.len(), 3);
    assert_eq!(chunks[0].len(), 200);
    assert_eq!(chunks[1].len(), 200);
    assert_eq!(chunks[2].len(), 50);
    assert_eq!(chunks.concat(), many);
    assert!(chunk_ids(&vec![], 200).is_empty());
    assert_eq!(chunk_ids(&ids(&["a"]), 200), vec![ids(&["a"])]);
}

#[test]
fn one_watcher_leaves_no_second_sync_pending() {
    let mut s = MailboxSyncer::new();
    assert_eq!(s.on_watcher_request(), SyncerAction::StartSync);
    assert!(!s.sync_requested);
    assert_eq!(s.on_sync_finished(Ok(())), SyncerAction::Wait);
    assert!(matches!(s.state, EmailQueryState::UpToDate));
}
