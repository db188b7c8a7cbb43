use mailsync::email_query::contains_keyword;
use mailsync::model::EmailRecord;
use mailsync::query::{EmailDbQuery, EmailSort, EmailSortColumn};
use mailsync::store::Store;

fn email(id: &str, subject: &str, at: i64, mailbox: &str) -> EmailRecord {
    EmailRecord {
        id: id.to_string(),
        thread_id: id.to_string(),
        received_at: at,
        subject: subject.to_string(),
        mailbox_ids: vec![mailbox.to_string()],
        metadata: format!("{{\"id\":\"{id}\"}}"),
    }
}

fn db_query(mailbox: Option<&str>, keyword: Option<&str>, sorts: Vec<EmailSort>, offset: usize, limit: usize) -> EmailDbQuery {
    EmailDbQuery {
        mailbox_id: mailbox.map(str::to_string),
        search_keyword: keyword.map(str::to_string),
        sorts,
        limit,
        offset,
    }
}

fn ids(hits: &[mailsync::email_query::EmailHit]) -> Vec<&str> {
    hits.iter().map(|h| h.id.as_str()).collect()
}

fn store() -> Store {
    let mut s = Store::new();
    s.update_emails(
        1,
        &vec![
            email("e1", "Quarterly Report", 10, "inbox"),
            email("e2", "lunch?", 30, "inbox"),
            email("e3", "report draft", 20, "sent"),
            email("e4", "Re: REPORT", 40, "inbox"),
        ],
    );
    s
}

#[test]
fn keyword_matches_ignore_ascii_case() {
    assert!(contains_keyword(&"Quarterly Report".to_string(), &"report".to_string()));
    assert!(contains_keyword(&"abc".to_string(), &"".to_string()));
    assert!(!contains_keyword(&"abc".to_string(), &"abcd".to_string()));
    assert!(!contains_keyword(&"lunch?".to_string(), &"report".to_string()));
    assert!(contains_keyword(&"ÉTÉ x".to_string(), &"ÉTÉ".to_string()));
}

#[test]
fn stored_email_query_filters_sorts_and_pages() {
    let s = store();
    let newest = vec![EmailSort { column: EmailSortColumn::Date, asc: false }];
    let hits = s.get_emails(1, &db_query(Some("inbox"), Some("report"), newest.clone(), 0, 10));
    assert_eq!(ids(&hits), vec!["e4", "e1"]);
    assert_eq!(hits[0].metadata, "{\"id\":\"e4\"}");

    let oldest = vec![EmailSort { column: EmailSortColumn::Date, asc: true }];
    let hits = s.get_emails(1, &db_query(None, None, oldest, 1, 2));
    assert_eq!(ids(&hits), vec!["e3", "e2"]);

    let hits = s.get_emails(1, &db_query(Some("inbox"), None, vec![], 0, 10));
    assert_eq!(ids(&hits), vec!["e1", "e2", "e4"]);
    assert!(s.get_emails(1, &db_query(None, None, newest.clone(), 10, 10)).is_empty());
    assert!(s.get_emails(2, &db_query(None, None, newest, 0, 10)).is_empty());
}

#[test]
fn equal_times_and_no_sort_order_by_id() {
    let mut s = Store::new();
    s.update_emails(1, &vec![email("b", "x", 5, "inbox"), email("a", "x", 5, "inbox"), email("c", "x", 1, "inbox")]);
    let newest = vec![EmailSort { column: EmailSortColumn::Date, asc: false }];
    assert_eq!(ids(&s.get_emails(1, &db_query(None, None, newest, 0, 10))), vec!["a", "b", "c"]);
    assert_eq!(ids(&s.get_emails(1, &db_query(None, None, vec![], 0, 10))), vec!["a", "b", "c"]);
}
