use mailsync::model::EmailRecord;
use mailsync::store::Store;
use mailsync::threads::{page, sort_newest_first, Thread, ThreadQuery};

fn email(id: &str, thread: &str, at: i64, mailbox: &str) -> EmailRecord {
    EmailRecord {
        id: id.to_string(),
        thread_id: thread.to_string(),
        received_at: at,
        subject: "s".to_string(),
        mailbox_ids: vec![mailbox.to_string()],
        metadata: "{}".to_string(),
    }
}

fn query(offset: usize, limit: usize) -> ThreadQuery {
    ThreadQuery { mailbox_id: "inbox".to_string(), limit, offset }
}

#[test]
fn threads_group_by_thread_newest_first() {
    let mut store = Store::new();
    store.update_emails(
        1,
        &vec![
            email("e1", "t1", 10, "inbox"),
            email("e2", "t2", 30, "inbox"),
            email("e3", "t1", 40, "inbox"),
            email("e4", "t3", 20, "inbox"),
            email("e5", "t4", 99, "sent"),
        ],
    );
    let threads = store.get_threads(1, &query(0, 10));
    let ids: Vec<&str> = threads.iter().map(|t| t.id.as_str()).collect();
    assert_eq!(ids, vec!["t1", "t2", "t3"]);
    assert_eq!(threads[0].last_received_at, 40);
    assert_eq!(threads[0].email_ids, vec!["e3".to_string(), "e1".to_string()]);

    let second = store.get_threads(1, &query(1, 1));
    assert_eq!(second.len(), 1);
    assert_eq!(second[0].id, "t2");
    assert!(store.get_threads(1, &query(5, 10)).is_empty());
    assert!(store.get_threads(2, &query(0, 10)).is_empty());
}

#[test]
fn sort_breaks_ties_by_id_and_page_is_clamped() {
    let t = |id: &str, at: i64| Thread { id: id.to_string(), last_received_at: at, email_ids: vec![] };
    let sorted = sort_newest_first(vec![t("c", 1), t("b", 5), t("a", 1), t("d", 7)]);
    let ids: Vec<&str> = sorted.iter().map(|t| t.id.as_str()).collect();
    assert_eq!(ids, vec!["d", "b", "a", "c"]);
    let p = page(sorted, 1, 2);
    let ids: Vec<&str> = p.iter().map(|t| t.id.as_str()).collect();
    assert_eq!(ids, vec!["b", "a"]);
    assert!(page(vec![t("x", 1)], 3, usize::MAX).is_empty());
    assert_eq!(page(vec![t("x", 1), t("y", 0)], 0, usize::MAX).len(), 2);
}
