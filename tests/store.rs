use mailsync::blob::{lookup_blob, BlobSource};
use mailsync::email_sync::{plan_detail_read, DetailSource};
use mailsync::email_sync::{apply_fetched_details, begin_sync_once, complete_sync_once, store_sync_pass, DetailsError, EmailSyncRequest};
use mailsync::model::{Account, Blob, Credentials, EmailRecord, MailboxRecord, StoreError, TableName};
use mailsync::store::Store;

fn account(url: &str) -> Account {
    Account {
        server_url: url.to_string(),
        credentials: Credentials::Basic { username: "u".to_string(), password: "p".to_string() },
        name: "Main".to_string(),
    }
}

fn mailbox(id: &str) -> MailboxRecord {
    MailboxRecord { id: id.to_string(), metadata: format!("{{\"id\":\"{id}\"}}") }
}

fn email(id: &str, mailboxes: &[&str], meta: &str) -> EmailRecord {
    EmailRecord {
        id: id.to_string(),
        thread_id: format!("t-{id}"),
        received_at: 100,
        subject: format!("subject {id}"),
        mailbox_ids: mailboxes.iter().map(|m| m.to_string()).collect(),
        metadata: meta.to_string(),
    }
}

fn ids(v: &[&str]) -> Vec<String> {
    v.iter().map(|s| s.to_string()).collect()
}

fn sorted(mut v: Vec<String>) -> Vec<String> {
    v.sort();
    v
}

#[test]
fn add_and_read_account() {
    let mut store = Store::new();
    let id = store.add_account(account("https://mail.example.com")).unwrap();
    assert_eq!(store.get_account(id).unwrap().name, "Main");
    assert_eq!(store.get_mailboxes_sync_state(id).unwrap(), None);
    let second = store.add_account(account("https://other.example.com")).unwrap();
    assert_ne!(id, second);
    let all = store.list_accounts();
    assert_eq!(all.len(), 2);
    assert_eq!(all[1].0, second);
    assert_eq!(all[1].1.server_url, "https://other.example.com");
}

#[test]
fn missing_account_is_reported() {
    let mut store = Store::new();
    assert_eq!(store.get_mailboxes_sync_state(7), Err(StoreError::AccountNotFound));
    assert!(store.get_account(7).is_none());
    let r = store.update_mailboxes(7, &"A1".to_string(), &vec![mailbox("inbox")], &vec![]);
    assert!(matches!(r, Err(StoreError::AccountNotFound)));
    assert!(store.get_mailbox_ids(7).is_empty());
}

#[test]
fn update_mailboxes_upserts_deletes_and_sets_cursor() {
    let mut store = Store::new();
    let a = store.add_account(account("https://mail.example.com")).unwrap();
    let ch = store
        .update_mailboxes(a, &"A1".to_string(), &vec![mailbox("inbox"), mailbox("sent")], &vec![])
        .unwrap();
    assert!(ch.contains(TableName::Mailboxes));
    assert_eq!(store.get_mailboxes_sync_state(a).unwrap(), Some("A1".to_string()));
    assert_eq!(sorted(store.get_mailbox_ids(a)), ids(&["inbox", "sent"]));

    store.set_mailbox_email_sync_state(a, &"inbox".to_string(), &"E1".to_string());
    let changed = MailboxRecord { id: "inbox".to_string(), metadata: "{\"unread\":3}".to_string() };
    store.update_mailboxes(a, &"A2".to_string(), &vec![changed], &ids(&["sent"])).unwrap();
    assert_eq!(store.get_mailbox_ids(a), ids(&["inbox"]));
    let boxes = store.get_mailboxes(a);
    assert_eq!(boxes[0].metadata, "{\"unread\":3}");
    // The email cursor survives a metadata update.
    assert_eq!(store.get_mailbox_email_sync_state(a, &"inbox".to_string()).unwrap(), Some("E1".to_string()));
    assert_eq!(
        store.get_mailbox_email_sync_state(a, &"sent".to_string()),
        Err(StoreError::MailboxNotFound)
    );
}

#[test]
fn mailbox_update_without_row_change_names_no_table() {
    let mut store = Store::new();
    let a = store.add_account(account("https://mail.example.com")).unwrap();
    let ch = store.update_mailboxes(a, &"A1".to_string(), &vec![], &ids(&["gone"])).unwrap();
    assert!(ch.tables.is_empty());
    assert_eq!(store.get_mailboxes_sync_state(a).unwrap(), Some("A1".to_string()));
}

#[test]
fn fetched_envelopes_read_back_unchanged() {
    let mut store = Store::new();
    let batch = vec![email("e1", &["inbox"], "{\"v\":1}"), email("e2", &["inbox", "sent"], "{\"v\":2}")];
    let ch = store.update_emails(1, &batch);
    assert!(ch.contains(TableName::Emails));
    assert!(ch.contains(TableName::MailboxEmails));
    assert_eq!(store.get_email(1, &"e1".to_string()).unwrap().metadata, "{\"v\":1}");
    assert_eq!(store.get_email(1, &"e2".to_string()).unwrap().metadata, "{\"v\":2}");
    // A later envelope for the same email replaces the earlier one.
    store.update_emails(1, &vec![email("e1", &["sent"], "{\"v\":3}")]);
    assert_eq!(store.get_email(1, &"e1".to_string()).unwrap().metadata, "{\"v\":3}");
    // Within one batch the last occurrence wins.
    store.update_emails(1, &vec![email("e3", &[], "first"), email("e3", &[], "last")]);
    assert_eq!(store.get_email(1, &"e3".to_string()).unwrap().metadata, "last");
    assert!(store.update_emails(1, &vec![]).tables.is_empty());
}

#[test]
fn memberships_follow_the_envelope_and_name_stored_emails() {
    let mut store = Store::new();
    store.update_emails(1, &vec![email("e1", &["inbox", "sent"], "m")]);
    assert_eq!(store.links.len(), 2);
    store.update_emails(1, &vec![email("e1", &["archive"], "m")]);
    assert_eq!(store.links.len(), 1);
    assert_eq!(store.links[0].mailbox_id, "archive");
    store.delete_emails(1, &ids(&["e1"]));
    assert!(store.links.is_empty());
    for link in &store.links {
        assert!(store.get_email(link.account_id, &link.email_id).is_some());
    }
}

#[test]
fn deleting_a_mailbox_drops_its_memberships() {
    let mut store = Store::new();
    let a = store.add_account(account("https://mail.example.com")).unwrap();
    store.update_mailboxes(a, &"A1".to_string(), &vec![mailbox("inbox"), mailbox("sent")], &vec![]).unwrap();
    store.update_emails(a, &vec![email("e1", &["inbox", "sent"], "m")]);
    store.update_mailboxes(a, &"A2".to_string(), &vec![], &ids(&["sent"])).unwrap();
    assert_eq!(store.links.len(), 1);
    assert_eq!(store.links[0].mailbox_id, "inbox");
    assert!(store.get_email(a, &"e1".to_string()).is_some());
}

#[test]
fn delete_emails_reports_only_real_deletions() {
    let mut store = Store::new();
    store.update_emails(1, &vec![email("e1", &[], "m")]);
    assert!(store.delete_emails(1, &ids(&["nope"])).tables.is_empty());
    let ch = store.delete_emails(1, &ids(&["e1", "nope"]));
    assert!(ch.contains(TableName::Emails));
    assert!(store.get_email(1, &"e1".to_string()).is_none());
}

#[test]
fn find_missing_email_ids_is_distinct() {
    let mut store = Store::new();
    store.update_emails(1, &vec![email("e1", &[], "m")]);
    let missing = store.find_missing_email_ids(1, &ids(&["e1", "e2", "e2", "e3"]));
    assert_eq!(missing, ids(&["e2", "e3"]));
    // Another account's emails do not count.
    assert_eq!(store.find_missing_email_ids(2, &ids(&["e1"])), ids(&["e1"]));
}

#[test]
fn email_details_are_stored_after_fetch() {
    let mut store = Store::new();
    store.update_emails(1, &vec![email("e1", &[], "m")]);
    assert_eq!(store.get_email_parts(1, &"e1".to_string()), Ok(None));
    assert_eq!(store.get_email_parts(1, &"zz".to_string()), Err(StoreError::EmailNotFound));
    let r = apply_fetched_details(&mut store, 1, &"e1".to_string(), vec!["{\"body\":1}".to_string()]);
    let (details, ch) = r.unwrap();
    assert_eq!(details, "{\"body\":1}");
    assert!(ch.contains(TableName::Emails));
    assert_eq!(store.get_email_parts(1, &"e1".to_string()), Ok(Some("{\"body\":1}".to_string())));
    // The envelope stays.
    assert_eq!(store.get_email(1, &"e1".to_string()).unwrap().metadata, "m");
    let none = apply_fetched_details(&mut store, 1, &"e1".to_string(), vec![]);
    assert_eq!(none.map(|(d, _)| d), Err(DetailsError::NotFound));
    // Details survive a later envelope update.
    store.update_emails(1, &vec![email("e1", &[], "m2")]);
    assert_eq!(store.get_email_parts(1, &"e1".to_string()), Ok(Some("{\"body\":1}".to_string())));
}

#[test]
fn update_email_details_of_unknown_email_changes_nothing() {
    let mut store = Store::new();
    let ch = store.update_email_details(1, &"e9".to_string(), &"d".to_string());
    assert!(ch.tables.is_empty());
    assert!(store.get_email(1, &"e9".to_string()).is_none());
}

#[test]
fn sync_once_commit_sets_cursor_and_removes_destroyed() {
    let mut store = Store::new();
    let a = store.add_account(account("https://mail.example.com")).unwrap();
    store.update_mailboxes(a, &"A1".to_string(), &vec![mailbox("inbox")], &vec![]).unwrap();
    store.update_emails(a, &vec![email("e1", &["inbox"], "m"), email("e2", &["inbox"], "m")]);
    let r = complete_sync_once(&mut store, a, &"inbox".to_string(), &ids(&["e1"]), &"S9".to_string()).unwrap();
    assert!(r.contains(TableName::Emails));
    assert!(store.get_email(a, &"e1".to_string()).is_none());
    assert!(store.get_email(a, &"e2".to_string()).is_some());
    assert_eq!(store.get_mailbox_email_sync_state(a, &"inbox".to_string()).unwrap(), Some("S9".to_string()));
    match begin_sync_once(&store, a, &"inbox".to_string()).unwrap() {
        EmailSyncRequest::EmailChanges { since } => assert_eq!(since, "S9"),
        other => panic!("unexpected {other:?}"),
    }
    let missing = complete_sync_once(&mut store, a, &"nowhere".to_string(), &ids(&["e2"]), &"S1".to_string());
    assert!(matches!(missing, Err(StoreError::MailboxNotFound)));
    assert!(store.get_email(a, &"e2".to_string()).is_some());
}

#[test]
fn blobs_are_cached_and_keep_content() {
    let mut store = Store::new();
    assert!(store.get_blob(1, &"b1".to_string(), 5).is_none());
    let blob = Blob { name: Some("a.txt".to_string()), mime_type: None, data: vec![1, 2, 3] };
    store.save_blob(1, &"b1".to_string(), &blob, 10);
    let other = Blob { name: None, mime_type: None, data: vec![9] };
    store.save_blob(1, &"b1".to_string(), &other, 20);
    let got = store.get_blob(1, &"b1".to_string(), 30).unwrap();
    assert_eq!(got.data, vec![1, 2, 3]);
    assert_eq!(got.name, Some("a.txt".to_string()));
    assert_eq!(store.blobs.rows[0].last_accessed, 30);
}

#[test]
fn external_cache_is_replaced() {
    let mut store = Store::new();
    let url = "https://img.example.com/a.png".to_string();
    assert!(store.get_external_cache(1, &url, 1).is_none());
    store.put_external_cache(1, &url, &vec![1], &Some("image/png".to_string()), 2);
    store.put_external_cache(1, &url, &vec![2, 2], &None, 3);
    let got = store.get_external_cache(1, &url, 4).unwrap();
    assert_eq!(got.data, vec![2, 2]);
    assert_eq!(got.mime_type, None);
}

#[test]
fn membership_event_only_when_memberships_change() {
    let mut store = Store::new();
    let first = store.update_emails(1, &vec![email("e1", &["inbox"], "m")]);
    assert!(first.contains(TableName::MailboxEmails));
    let same = store.update_emails(1, &vec![email("e1", &["inbox"], "m2")]);
    assert!(same.contains(TableName::Emails));
    assert!(!same.contains(TableName::MailboxEmails));
    let moved = store.update_emails(1, &vec![email("e1", &["sent"], "m2")]);
    assert!(moved.contains(TableName::MailboxEmails));
}

#[test]
fn sync_pass_stores_batches_then_deletes_then_sets_cursor() {

    let mut store = Store::new();
    let a = store.add_account(account("https://mail.example.com")).unwrap();
    store.update_mailboxes(a, &"A1".to_string(), &vec![mailbox("inbox")], &vec![]).unwrap();
    store.update_emails(a, &vec![email("old", &["inbox"], "o")]);
    let batches = vec![vec![email("e1", &["inbox"], "1")], vec![email("e2", &["inbox"], "2"), email("e1", &["inbox"], "1b")]];
    let events = store_sync_pass(&mut store, a, &"inbox".to_string(), &batches, &ids(&["old"]), &"S2".to_string()).unwrap();
    assert!(!events.is_empty());
    assert_eq!(store.get_email(a, &"e1".to_string()).unwrap().metadata, "1b");
    assert_eq!(store.get_email(a, &"e2".to_string()).unwrap().metadata, "2");
    assert!(store.get_email(a, &"old".to_string()).is_none());
    assert_eq!(store.get_mailbox_email_sync_state(a, &"inbox".to_string()).unwrap(), Some("S2".to_string()));
    let missing = store_sync_pass(&mut store, a, &"nowhere".to_string(), &batches, &vec![], &"S3".to_string());
    assert!(matches!(missing, Err(StoreError::MailboxNotFound)));
}

#[test]
fn details_are_read_from_the_store_once_fetched() {

    let mut store = Store::new();
    store.update_emails(1, &vec![email("e1", &[], "m")]);
    assert!(matches!(plan_detail_read(&store, 1, &"e1".to_string()), Ok(DetailSource::Fetch)));
    assert!(matches!(plan_detail_read(&store, 1, &"zz".to_string()), Err(StoreError::EmailNotFound)));
    apply_fetched_details(&mut store, 1, &"e1".to_string(), vec!["d".to_string()]).unwrap();
    match plan_detail_read(&store, 1, &"e1".to_string()) {
        Ok(DetailSource::Stored(d)) => assert_eq!(d, "d"),
        other => panic!("unexpected {other:?}"),
    }
}

#[test]
fn blob_miss_leaves_the_store_alone() {

    let mut store = Store::new();
    store.save_blob(1, &"b1".to_string(), &Blob { name: None, mime_type: None, data: vec![1] }, 1);
    assert!(matches!(lookup_blob(&mut store, 1, &"b2".to_string(), 2), BlobSource::Download));
    assert_eq!(store.blobs.rows.len(), 1);
    assert_eq!(store.blobs.rows[0].last_accessed, 1);
}
