use mailsync::drafts::{
    create_draft, delete_draft, finish_send, on_remote_create, on_remote_update, prepare_send, update_draft,
    DraftResponse, OutboxRequest,
};
use mailsync::connection::{ClientState, ConnectionSupervisor};
use mailsync::model::{EmailDraft, StoreError};
use mailsync::store::Store;

fn draft(content: &str) -> EmailDraft {
    EmailDraft { mailbox_id: "Drafts".to_string(), identity_id: "me".to_string(), content: content.to_string() }
}

#[test]
fn draft_create_while_offline() {
    let conn = ConnectionSupervisor::new();
    assert!(matches!(conn.state, ClientState::Disconnected { .. }));
    let mut store = Store::new();
    let rec = create_draft(&mut store, 1, draft("D1"), 1000).unwrap();
    assert_eq!(rec.id.len(), 36);
    assert_eq!(rec.jmap_email_id, None);
    assert_eq!(rec.data.content, "D1");
    assert_eq!(rec.updated_at, 1000);
    let stored = store.get_draft(1, &rec.id).unwrap();
    assert_eq!(stored.jmap_email_id, None);
    // Once connected, the mirror is created and its id recorded.
    on_remote_create(&mut store, 1, &rec.id, Ok("R0".to_string()));
    assert_eq!(store.get_draft(1, &rec.id).unwrap().jmap_email_id, Some("R0".to_string()));
}

#[test]
fn failed_mirror_creation_leaves_draft_unmirrored() {
    let mut store = Store::new();
    let rec = create_draft(&mut store, 1, draft("D1"), 1).unwrap();
    on_remote_create(&mut store, 1, &rec.id, Err("offline".to_string()));
    assert_eq!(store.get_draft(1, &rec.id).unwrap().jmap_email_id, None);
    let other = create_draft(&mut store, 1, draft("D2"), 2).unwrap();
    assert_ne!(rec.id, other.id);
}

#[test]
fn draft_update_with_remote_create_failure() {
    let mut store = Store::new();
    let rec = create_draft(&mut store, 1, draft("D1"), 1).unwrap();
    on_remote_create(&mut store, 1, &rec.id, Ok("R1".to_string()));

    let (updated, old_remote) = update_draft(&mut store, 1, &rec.id, draft("D2"), 2).unwrap();
    assert_eq!(updated.data.content, "D2");
    assert_eq!(updated.updated_at, 2);
    assert_eq!(updated.jmap_email_id, Some("R1".to_string()));
    assert_eq!(old_remote, Some("R1".to_string()));
    let destroy = on_remote_update(&mut store, 1, &rec.id, old_remote, Err("rejected".to_string()));
    assert_eq!(destroy, None);
    assert_eq!(store.get_draft(1, &rec.id).unwrap().jmap_email_id, None);
    assert_eq!(store.get_draft(1, &rec.id).unwrap().data.content, "D2");

    // The next successful update recreates the mirror from scratch.
    let (_, old_remote) = update_draft(&mut store, 1, &rec.id, draft("D3"), 3).unwrap();
    assert_eq!(old_remote, None);
    let destroy = on_remote_update(&mut store, 1, &rec.id, old_remote, Ok("R2".to_string()));
    assert_eq!(destroy, None);
    assert_eq!(store.get_draft(1, &rec.id).unwrap().jmap_email_id, Some("R2".to_string()));

    // A later success replaces the mirror and returns the old one for destruction.
    let (_, old_remote) = update_draft(&mut store, 1, &rec.id, draft("D4"), 4).unwrap();
    let destroy = on_remote_update(&mut store, 1, &rec.id, old_remote, Ok("R3".to_string()));
    assert_eq!(destroy, Some("R2".to_string()));
    assert_eq!(store.get_draft(1, &rec.id).unwrap().jmap_email_id, Some("R3".to_string()));
}

#[test]
fn send_with_stale_draft_mirror() {
    let mut store = Store::new();
    let rec = create_draft(&mut store, 1, draft("D"), 1).unwrap();
    on_remote_create(&mut store, 1, &rec.id, Ok("R1".to_string()));
    let request = OutboxRequest { draft_id: rec.id.clone(), sent_mailbox_id: "S".to_string() };
    let plan = prepare_send(&store, 1, &request).unwrap();
    assert_eq!(plan.email.mailbox_id, "S");
    assert_eq!(plan.email.content, "D");
    assert_eq!(plan.identity_id, "me");
    assert_eq!(plan.old_remote, Some("R1".to_string()));
    let sent = finish_send(&mut store, 1, &rec.id, "M1".to_string());
    assert_eq!(sent.email_id, "M1");
    assert!(store.get_draft(1, &rec.id).is_none());
    assert!(store.list_drafts(1).is_empty());
}

#[test]
fn missing_drafts_are_reported() {
    let mut store = Store::new();
    let id = "nope".to_string();
    assert!(matches!(update_draft(&mut store, 1, &id, draft("x"), 1), Err(StoreError::DraftNotFound)));
    assert!(matches!(delete_draft(&mut store, 1, &id), Err(StoreError::DraftNotFound)));
    let request = OutboxRequest { draft_id: id.clone(), sent_mailbox_id: "S".to_string() };
    assert!(matches!(prepare_send(&store, 1, &request), Err(StoreError::DraftNotFound)));
    assert_eq!(store.update_draft_data(1, &id, draft("x"), 1), Err(StoreError::DraftNotFound));
}

#[test]
fn duplicate_draft_id_conflicts() {
    let mut store = Store::new();
    store.create_draft(1, "d1".to_string(), draft("a"), 1).unwrap();
    assert_eq!(store.create_draft(1, "d1".to_string(), draft("b"), 2).map(|r| r.id), Err(StoreError::Conflict));
    assert_eq!(store.get_draft(1, &"d1".to_string()).unwrap().data.content, "a");
}

#[test]
fn delete_returns_the_mirror_to_destroy() {
    let mut store = Store::new();
    let rec = create_draft(&mut store, 1, draft("D"), 1).unwrap();
    on_remote_create(&mut store, 1, &rec.id, Ok("R9".to_string()));
    assert_eq!(delete_draft(&mut store, 1, &rec.id).unwrap(), Some("R9".to_string()));
    assert!(store.get_draft(1, &rec.id).is_none());
}

#[test]
fn drafts_list_newest_first() {
    let mut store = Store::new();
    store.create_draft(1, "a".to_string(), draft("a"), 5).unwrap();
    store.create_draft(1, "b".to_string(), draft("b"), 9).unwrap();
    store.create_draft(1, "c".to_string(), draft("c"), 7).unwrap();
    store.create_draft(2, "d".to_string(), draft("d"), 8).unwrap();
    let order: Vec<String> = store.list_drafts(1).into_iter().map(|d| d.id).collect();
    assert_eq!(order, vec!["b".to_string(), "c".to_string(), "a".to_string()]);
}

#[test]
fn draft_response_reports_sync() {
    let mut store = Store::new();
    let rec = store.create_draft(1, "a".to_string(), draft("a"), 5).unwrap();
    let resp = DraftResponse::from(rec);
    assert!(!resp.synced);
    store.set_draft_jmap_id(1, &"a".to_string(), &"R".to_string());
    let resp = DraftResponse::from(store.get_draft(1, &"a".to_string()).unwrap());
    assert!(resp.synced);
    assert_eq!(resp.jmap_email_id, Some("R".to_string()));
    store.clear_draft_jmap_id(1, &"a".to_string());
    assert!(!DraftResponse::from(store.get_draft(1, &"a".to_string()).unwrap()).synced);
}

#[test]
fn update_times_never_go_back() {
    let mut store = Store::new();
    let rec = create_draft(&mut store, 1, draft("D1"), 100).unwrap();
    let (updated, _) = update_draft(&mut store, 1, &rec.id, draft("D2"), 50).unwrap();
    assert_eq!(updated.updated_at, 100);
    assert_eq!(updated.data.content, "D2");
    let (updated, _) = update_draft(&mut store, 1, &rec.id, draft("D3"), 150).unwrap();
    assert_eq!(updated.updated_at, 150);
}

#[test]
fn listed_drafts_are_distinct() {
    let mut store = Store::new();
    store.create_draft(1, "a".to_string(), draft("a"), 1).unwrap();
    store.create_draft(1, "b".to_string(), draft("b"), 1).unwrap();
    store.update_draft_data(1, &"a".to_string(), draft("a2"), 2).unwrap();
    let ids: Vec<String> = store.list_drafts(1).into_iter().map(|d| d.id).collect();
    assert_eq!(ids, vec!["a".to_string(), "b".to_string()]);
}
