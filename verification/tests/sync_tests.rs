use antworker::db::MyDatabaseConnection;
use antworker::parser::{Envelope, FetchedMessage, MailAddress};
use antworker::rules::FilterRules;
use antworker::sync::{fetch_window_low, sync_mailbox, uid_set_string};

fn message(uid: u32) -> FetchedMessage {
    FetchedMessage {
        uid: Some(uid),
        envelope: Some(Envelope {
            subject: Some(b"Invoice".to_vec()),
            date: Some(b"Mon, 15 Nov 2021 10:30:00 +0000".to_vec()),
            from: Some(vec![MailAddress {
                mailbox: Some(b"billing".to_vec()),
                host: Some(b"vendor.com".to_vec()),
            }]),
        }),
    }
}

#[test]
fn test_fetch_window_low() {
    assert_eq!(fetch_window_low(None), 1);
    assert_eq!(fetch_window_low(Some(41)), 42);
    assert_eq!(fetch_window_low(Some(0)), 1);
}

#[test]
fn test_uid_set_string() {
    assert_eq!(uid_set_string(1), "1:*");
    assert_eq!(uid_set_string(42), "42:*");
}

#[test]
fn test_sync_mailbox_commits_batch() {
    let mut store = MyDatabaseConnection::new();
    let rules = FilterRules { allowed_senders: vec![], timeframe: None };
    let messages = vec![message(42), message(43), message(45)];
    let n = sync_mailbox(&mut store, "company", "2021_11", "t1", &messages, &rules).unwrap();
    assert_eq!(n, 3);
    assert_eq!(store.get_latest_uid_by_mailbox("company"), Some(45));
}

#[test]
fn test_sync_mailbox_empty_fetch_writes_nothing() {
    let mut store = MyDatabaseConnection::new();
    let rules = FilterRules { allowed_senders: vec![], timeframe: None };
    let messages: Vec<FetchedMessage> = Vec::new();
    let n = sync_mailbox(&mut store, "company", "2021_11", "t1", &messages, &rules).unwrap();
    assert_eq!(n, 0);
    assert_eq!(store.get_latest_uid_by_mailbox("company"), None);
    assert_eq!(store.get_emails().len(), 0);
}

#[test]
fn test_sync_mailbox_filtered_out_writes_nothing() {
    let mut store = MyDatabaseConnection::new();
    let rules = FilterRules {
        allowed_senders: vec!["someone@else.com".to_string()],
        timeframe: None,
    };
    let messages = vec![message(42)];
    let n = sync_mailbox(&mut store, "company", "2021_11", "t1", &messages, &rules).unwrap();
    assert_eq!(n, 0);
    assert_eq!(store.get_latest_uid_by_mailbox("company"), None);
}

#[test]
fn test_sync_mailbox_missing_uid_fails() {
    let mut store = MyDatabaseConnection::new();
    let rules = FilterRules { allowed_senders: vec![], timeframe: None };
    let mut bad = message(1);
    bad.uid = None;
    let r = sync_mailbox(&mut store, "company", "2021_11", "t1", &vec![bad], &rules);
    assert!(r.is_err());
    assert_eq!(store.get_latest_uid_by_mailbox("company"), None);
}

#[test]
fn test_sync_twice_no_new_mail_keeps_watermark() {
    // A second sync over the same fetch window leaves the watermark where the
    // first left it.
    let mut store = MyDatabaseConnection::new();
    let rules = FilterRules { allowed_senders: vec![], timeframe: None };
    let messages = vec![message(42), message(43)];
    sync_mailbox(&mut store, "company", "2021_11", "t1", &messages, &rules).unwrap();
    let wm1 = store.get_latest_uid_by_mailbox("company");
    sync_mailbox(&mut store, "company", "2021_11", "t2", &messages, &rules).unwrap();
    assert_eq!(store.get_latest_uid_by_mailbox("company"), wm1);
    // And an empty follow-up fetch changes nothing at all.
    let empty: Vec<FetchedMessage> = Vec::new();
    sync_mailbox(&mut store, "company", "2021_11", "t3", &empty, &rules).unwrap();
    assert_eq!(store.get_latest_uid_by_mailbox("company"), wm1);
}
