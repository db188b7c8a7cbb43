use mailsync::blob::{blob_headers, cache_downloaded_blob, lookup_blob, BlobSource, Params};
use mailsync::connection::{ClientState, ConnectError, ConnectErrorKind, ConnectionSupervisor, SupervisorAction};
use mailsync::model::{Account, Blob, Changes, Credentials, TableName};
use mailsync::multiplexer::{Delivery, Multiplexer, Routed};
use mailsync::push::{AccountChange, DataType, PushObject, TypeState};
use mailsync::query::{build_email_query, sort_clause, EmailFilter, NonZeroLimit, EmailQuery, EmailSort, EmailSortColumn, SortProperty};
use mailsync::query_state::EmailQueryState;
use mailsync::store::Store;
use mailsync::supervision::{
    is_accounts_change, is_mailboxes_change, plan_accounts, plan_mailbox_workers, route_watch_request,
};
use mailsync::watch_emails::{adjust_total, EmailWatch, WatchRequest};

fn err(kind: ConnectErrorKind) -> ConnectError {
    ConnectError { kind, reason: "nope".to_string() }
}

#[test]
fn connection_cycles_through_states() {
    let mut c = ConnectionSupervisor::new();
    assert_eq!(c.next_action(false, 0), SupervisorAction::WaitOnline);
    assert_eq!(c.next_action(true, 0), SupervisorAction::Connect);
    c.begin_connect();
    assert!(matches!(c.state, ClientState::Connecting));
    c.on_failure(err(ConnectErrorKind::AuthFailed), 5_000);
    match &c.state {
        ClientState::Disconnected { last_error: Some(e), delay_connect_until: Some(t) } => {
            assert_eq!(e.kind, ConnectErrorKind::AuthFailed);
            assert_eq!(*t, 15_000);
        }
        other => panic!("unexpected {other:?}"),
    }
    assert_eq!(c.next_action(true, 6_000), SupervisorAction::SleepUntil(15_000));
    assert_eq!(c.next_action(true, 15_000), SupervisorAction::Connect);
    c.begin_connect();
    assert_eq!(c.on_connected(), 1);
    assert!(matches!(c.state, ClientState::Connected { session: 1 }));
    c.on_failure(err(ConnectErrorKind::Transport), u64::MAX - 1);
    assert!(matches!(c.state, ClientState::Disconnected { delay_connect_until: Some(u64::MAX), .. }));
    c.begin_connect();
    assert_eq!(c.on_connected(), 2);
}

#[test]
fn responses_go_to_their_waiters_by_tag() {
    let mut m = Multiplexer::new(1);
    m.on_sent("r1".to_string(), 10);
    m.on_sent("r2".to_string(), 20);
    assert_eq!(m.on_response(&"r2".to_string(), 1), Routed::ToWaiter { waiter: 20, delivery: Delivery::FirstResponse });
    assert_eq!(m.on_response(&"r2".to_string(), 1), Routed::Unknown);
    assert_eq!(m.on_response(&"zz".to_string(), 1), Routed::Unknown);
    assert_eq!(m.on_response(&"r1".to_string(), 0), Routed::ToWaiter { waiter: 10, delivery: Delivery::EmptyResponse });
    m.on_sent("r3".to_string(), 30);
    m.on_sent("r4".to_string(), 40);
    let mut released = m.on_closed();
    released.sort();
    assert_eq!(released, vec![30, 40]);
    assert_eq!(m.on_response(&"r3".to_string(), 1), Routed::Unknown);
}

fn query() -> EmailQuery {
    EmailQuery {
        anchor_id: Some("a1".to_string()),
        mailbox_id: Some("inbox".to_string()),
        search_keyword: Some("hello".to_string()),
        sorts: vec![EmailSort { column: EmailSortColumn::Date, asc: false }],
        limit: NonZeroLimit::new(50),
    }
}

#[test]
fn server_query_carries_filters_sorts_and_anchor() {
    let q = build_email_query(&query());
    assert!(q.calculate_total);
    assert_eq!(q.limit, Some(50));
    assert_eq!(q.anchor, Some("a1".to_string()));
    assert_eq!(q.sorts, vec![(SortProperty::ReceivedAt, false)]);
    assert!(matches!(&q.filters[0], EmailFilter::InMailbox { value } if value == "inbox"));
    assert!(matches!(&q.filters[1], EmailFilter::Text { value } if value == "hello"));
    let bare = build_email_query(&EmailQuery { anchor_id: None, mailbox_id: None, search_keyword: None, sorts: vec![], limit: None });
    assert!(bare.filters.is_empty());
    assert!(bare.sorts.is_empty());
}

#[test]
fn store_ordering_ends_with_the_id() {
    assert_eq!(EmailSortColumn::Date.to_sql_column(), "received_at");
    assert_eq!(sort_clause(&vec![]), "id");
    let sorts = vec![
        EmailSort { column: EmailSortColumn::Date, asc: false },
        EmailSort { column: EmailSortColumn::Date, asc: true },
    ];
    assert_eq!(sort_clause(&sorts), "received_at DESC, received_at, id");
}

fn email_push() -> PushObject {
    PushObject::StateChange {
        changed: vec![
            AccountChange { account_id: "x".to_string(), changed: vec![] },
            AccountChange {
                account_id: "y".to_string(),
                changed: vec![
                    TypeState { data_type: DataType::Mailbox, state: "m".to_string() },
                    TypeState { data_type: DataType::Email, state: "e".to_string() },
                ],
            },
        ],
    }
}

#[test]
fn watch_syncs_then_follows_changes() {
    let mut w = EmailWatch::new();
    assert!(matches!(w.state, EmailQueryState::NotStarted));
    match w.begin(&query()) {
        WatchRequest::Query { query: q } => assert_eq!(q.search_keyword, Some("hello".to_string())),
        other => panic!("unexpected {other:?}"),
    }
    let pending = EmailWatch::on_query_result(vec!["e1".to_string()], "Q1".to_string(), Some(10));
    assert_eq!(pending.updated, vec!["e1".to_string()]);
    w.finish(Ok(pending.next));
    assert!(matches!(w.state, EmailQueryState::UpToDate));
    assert!(w.on_push(&email_push()));
    assert!(!w.on_push(&PushObject::Other));
    match w.begin(&query()) {
        WatchRequest::Changes { since } => assert_eq!(since, "Q1"),
        other => panic!("unexpected {other:?}"),
    }
    let pending = w.on_changes_result(
        vec!["c1".to_string(), "c2".to_string()],
        vec!["u1".to_string()],
        vec!["d1".to_string()],
        "Q2".to_string(),
    );
    assert_eq!(pending.updated, vec!["c1".to_string(), "c2".to_string(), "u1".to_string()]);
    assert_eq!(pending.destroyed, vec!["d1".to_string()]);
    assert_eq!(pending.next.total, Some(11));
    w.finish(Err("connection lost".to_string()));
    assert!(matches!(&w.state, EmailQueryState::Error { details } if details == "connection lost"));
    assert_eq!(w.last.as_ref().unwrap().state, "Q1");
    w.on_query_changed();
    assert!(w.last.is_none());
    assert!(matches!(w.begin(&query()), WatchRequest::Query { .. }));
}

#[test]
fn totals_stay_in_range() {
    assert_eq!(adjust_total(Some(3), 2, 4), Some(1));
    assert_eq!(adjust_total(Some(3), 0, 4), None);
    assert_eq!(adjust_total(None, 1, 0), None);
    assert_eq!(adjust_total(Some(usize::MAX), 1, 1), Some(usize::MAX));
    assert_eq!(adjust_total(Some(5), usize::MAX, 10), Some(usize::MAX - 5));
    assert_eq!(adjust_total(Some(usize::MAX), 1, 0), None);
}

fn acct(url: &str, name: &str) -> Account {
    Account {
        server_url: url.to_string(),
        credentials: Credentials::Basic { username: "u".to_string(), password: "p".to_string() },
        name: name.to_string(),
    }
}

#[test]
fn accounts_start_stop_and_restart() {
    let running = vec![(1, acct("https://a.example", "A")), (2, acct("https://b.example", "B"))];
    let current = vec![(2, acct("https://b.example", "B2")), (3, acct("https://c.example", "C"))];
    let plan = plan_accounts(&running, &current);
    assert!(plan.invalid_url.is_empty());
    let mut stop = plan.stop.clone();
    stop.sort();
    assert_eq!(stop, vec![1, 2]);
    let started: Vec<i64> = plan.start.iter().map(|s| s.0).collect();
    assert_eq!(started, vec![2, 3]);
    assert_eq!(plan.start[0].1.name, "B2");
    let same = plan_accounts(&current, &current);
    assert!(same.stop.is_empty() && same.start.is_empty());
}

#[test]
fn invalid_server_url_is_refused() {
    let current = vec![(4, acct("not a url", "D"))];
    let plan = plan_accounts(&vec![], &current);
    assert_eq!(plan.invalid_url, vec![4]);
    assert!(plan.start.is_empty());
    // A bad address holds up only its own account.
    let mixed = vec![(4, acct("not a url", "D")), (5, acct("https://e.example", "E"))];
    let plan = plan_accounts(&vec![], &mixed);
    assert_eq!(plan.invalid_url, vec![4]);
    let started: Vec<i64> = plan.start.iter().map(|s| s.0).collect();
    assert_eq!(started, vec![5]);
    // An unchanged account is not started again, so its address is not read.
    let again = plan_accounts(&current, &current);
    assert!(again.invalid_url.is_empty() && again.start.is_empty());
}

#[test]
fn mailbox_workers_follow_the_store() {
    let running = vec!["inbox".to_string(), "old".to_string()];
    let stored = vec!["inbox".to_string(), "new".to_string()];
    let plan = plan_mailbox_workers(&running, &stored);
    assert_eq!(plan.stop, vec!["old".to_string()]);
    assert_eq!(plan.start, vec!["new".to_string()]);
    assert_eq!(route_watch_request(&running, &"old".to_string()), Some(1));
    assert_eq!(route_watch_request(&running, &"zzz".to_string()), None);
    let ch = Changes { tables: vec![TableName::Emails, TableName::Mailboxes] };
    assert!(is_mailboxes_change(&ch));
    assert!(!is_accounts_change(&ch));
    assert!(is_accounts_change(&Changes { tables: vec![TableName::Accounts] }));
    assert_eq!(TableName::MailboxEmails.as_str(), "mailbox_emails");
}

#[test]
fn blob_headers_follow_the_blob() {
    let blob = Blob { name: Some("r.pdf".to_string()), mime_type: Some("application/pdf".to_string()), data: vec![1] };
    let h = blob_headers(&blob, true);
    assert_eq!(h[0], ("content-type".to_string(), "application/pdf".to_string()));
    assert_eq!(h[1], ("access-control-allow-origin".to_string(), "*".to_string()));
    assert_eq!(h[2], ("access-control-allow-credentials".to_string(), "true".to_string()));
    assert_eq!(h[3], ("cache-control".to_string(), "public, max-age=31536000, immutable".to_string()));
    assert_eq!(h[4], ("content-length".to_string(), "1".to_string()));
    assert_eq!(h[5], ("content-disposition".to_string(), "attachment; filename=\"r.pdf\"".to_string()));
    assert_eq!(h[6], ("content-security-policy".to_string(), "img-src 'none';".to_string()));
    let plain = blob_headers(&Blob { name: None, mime_type: None, data: vec![] }, false);
    assert_eq!(plain.len(), 5);
    assert_eq!(plain[4].1, "0");
    let big = blob_headers(&Blob { name: None, mime_type: None, data: vec![0; 1234] }, false);
    assert_eq!(big[4].1, "1234");
    assert_eq!(plain[0].1, "application/octet-stream");
}

#[test]
fn blob_is_downloaded_once_then_cached() {
    let mut store = Store::new();
    let id = "b1".to_string();
    assert!(matches!(lookup_blob(&mut store, 1, &id, 1), BlobSource::Download));
    let params = Params { name: Some("x".to_string()), mime_type: None, block_images: false };
    let b = cache_downloaded_blob(&mut store, 1, &id, &params, vec![7, 8], 2);
    assert_eq!(b.name, Some("x".to_string()));
    assert_eq!(b.data, vec![7, 8]);
    match lookup_blob(&mut store, 1, &id, 3) {
        BlobSource::Cached(c) => assert_eq!(c.data, vec![7, 8]),
        BlobSource::Download => panic!("expected a cached blob"),
    }
}

#[test]
fn zero_limit_is_refused() {
    assert!(NonZeroLimit::new(0).is_none());
    assert_eq!(NonZeroLimit::new(7).unwrap().get(), 7);
}

#[test]
fn sessions_push_email_core_and_mailbox() {
    assert_eq!(mailsync::connection::push_types(), vec![DataType::Email, DataType::Core, DataType::Mailbox]);
    assert_eq!(ConnectionSupervisor::new().sessions, 0);
}
