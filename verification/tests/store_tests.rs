use antworker::datemath::UtcDateTime;
use antworker::db::{Emails, MyDatabaseConnection, Tables};
use antworker::parser::EmailDetails;

fn record(uid: u32) -> EmailDetails {
    EmailDetails {
        subject: format!("subject {}", uid),
        from: vec!["billing@vendor.com".to_string()],
        date: UtcDateTime { year: 2024, month: 11, day: 3, hour: 9, minute: 0, second: 0 },
        uid,
    }
}

fn batch(mailbox: &str, uids: &[u32]) -> Emails {
    Emails {
        mailbox: mailbox.to_string(),
        details: uids.iter().map(|u| record(*u)).collect(),
    }
}

fn snapshot_uids(store: &MyDatabaseConnection, mailbox: &str, ym: &str) -> Vec<u32> {
    let rows = store.get_emails();
    let mut uids = Vec::new();
    for row in rows.iter() {
        if row.emails.mailbox == mailbox && row.year_month == ym {
            for d in row.emails.details.iter() {
                uids.push(d.uid);
            }
        }
    }
    uids
}

#[test]
fn test_tables_names() {
    assert_eq!(Tables::Emails.name(), "emails");
    assert_eq!(Tables::Mailbox.name(), "mailbox");
}

#[test]
fn test_store_mailbox_info_sets_watermark() {
    let mut store = MyDatabaseConnection::new();
    assert_eq!(store.get_latest_uid_by_mailbox("company"), None);
    store.store_mailbox_info(&batch("company", &[41]), "t0");
    assert_eq!(store.get_latest_uid_by_mailbox("company"), Some(41));
    assert_eq!(store.get_latest_uid_by_mailbox("private"), None);
}

#[test]
fn test_sync_scenario_watermark_and_merge() {
    // Mailbox "company" has stored watermark 41 and one stored record. A sync
    // fetches identifiers 42, 43, 45 (44 was never fetched). Afterwards the
    // watermark is 45 and the month's snapshot holds exactly the three new
    // records merged with the pre-existing one.
    let mut store = MyDatabaseConnection::new();
    store.store_emails(batch("company", &[41]), "2024_11", "t0");
    assert_eq!(store.get_latest_uid_by_mailbox("company"), Some(41));

    store.store_emails(batch("company", &[42, 43, 45]), "2024_11", "t1");
    assert_eq!(store.get_latest_uid_by_mailbox("company"), Some(45));
    let uids = snapshot_uids(&store, "company", "2024_11");
    assert_eq!(uids, vec![41, 42, 43, 45]);
    // No row exists for identifier 44.
    assert!(!uids.contains(&44));
}

#[test]
fn test_watermark_idempotent_no_new_mail() {
    // Committing the same batch again, or nothing, leaves the watermark as it
    // was.
    let mut store = MyDatabaseConnection::new();
    store.store_emails(batch("company", &[42, 43]), "2024_11", "t0");
    assert_eq!(store.get_latest_uid_by_mailbox("company"), Some(43));
    store.store_emails(batch("company", &[42, 43]), "2024_11", "t1");
    assert_eq!(store.get_latest_uid_by_mailbox("company"), Some(43));
    store.store_mailbox_info(&batch("company", &[]), "t2");
    assert_eq!(store.get_latest_uid_by_mailbox("company"), Some(43));
    // The merge keeps one copy of each record.
    assert_eq!(snapshot_uids(&store, "company", "2024_11"), vec![42, 43]);
}

#[test]
fn test_watermark_monotone_across_syncs() {
    let mut store = MyDatabaseConnection::new();
    let mut last: u32 = 0;
    for uids in [&[2u32][..], &[5, 3][..], &[4][..], &[][..]] {
        store.store_mailbox_info(&batch("m", uids), "t");
        let wm = store.get_latest_uid_by_mailbox("m").unwrap();
        assert!(wm >= last);
        last = wm;
    }
    assert_eq!(last, 5);
}

#[test]
fn test_snapshot_unique_per_mailbox_month() {
    // After any number of syncs there is at most one snapshot row per
    // (mailbox, month).
    let mut store = MyDatabaseConnection::new();
    for i in 0..4u32 {
        store.store_emails(batch("company", &[10 + i]), "2024_11", "t");
        store.store_emails(batch("private", &[20 + i]), "2024_11", "t");
    }
    store.store_emails(batch("company", &[99]), "2024_12", "t");
    let rows = store.get_emails();
    let company_nov = rows
        .iter()
        .filter(|r| r.emails.mailbox == "company" && r.year_month == "2024_11")
        .count();
    assert_eq!(company_nov, 1);
    let private_nov = rows
        .iter()
        .filter(|r| r.emails.mailbox == "private" && r.year_month == "2024_11")
        .count();
    assert_eq!(private_nov, 1);
    assert_eq!(rows.len(), 3);
}

#[test]
fn test_get_mailboxes_and_ids() {
    let mut store = MyDatabaseConnection::new();
    store.store_mailbox_info(&batch("a", &[1]), "t");
    store.store_mailbox_info(&batch("b", &[2]), "t");
    let mailboxes = store.get_mailboxes();
    assert_eq!(mailboxes.len(), 2);
    assert_eq!(mailboxes[0].mailbox, "a");
    assert_eq!(mailboxes[1].mailbox, "b");
    assert_eq!(mailboxes[1].latest_uid, 2);
    assert_eq!(store.get_mailbox_ids().len(), 2);
    assert!(store.get_mailbox_id_by_mailbox("a").is_some());
    assert!(store.get_mailbox_id_by_mailbox("missing").is_none());
}

#[test]
fn test_get_email_ids_for_month() {
    let mut store = MyDatabaseConnection::new();
    store.store_emails(batch("a", &[1]), "2024_10", "t");
    store.store_emails(batch("b", &[2]), "2024_10", "t");
    store.store_emails(batch("a", &[3]), "2024_11", "t");
    assert_eq!(store.get_emails_ids_for_current_year_month("2024_10").len(), 2);
    assert_eq!(store.get_emails_ids_for_current_year_month("2025_01").len(), 0);
    assert!(store
        .get_email_id_for_current_year_month_by_mailbox("a", "2024_11")
        .is_some());
    assert!(store
        .get_email_id_for_current_year_month_by_mailbox("b", "2024_11")
        .is_none());
}

#[test]
fn test_remove_emails_for_month() {
    let mut store = MyDatabaseConnection::new();
    store.store_emails(batch("a", &[1]), "2024_10", "t");
    store.store_emails(batch("b", &[2]), "2024_10", "t");
    store.store_emails(batch("a", &[3]), "2024_11", "t");
    store.remove_emails("2024_10");
    assert_eq!(store.get_emails().len(), 1);
    assert_eq!(snapshot_uids(&store, "a", "2024_11"), vec![3]);
    // Watermarks are untouched by snapshot removal.
    assert_eq!(store.get_latest_uid_by_mailbox("a"), Some(3));
}

#[test]
fn test_remove_mailbox_watermark() {
    let mut store = MyDatabaseConnection::new();
    store.store_mailbox_info(&batch("a", &[1]), "t");
    store.store_mailbox_info(&batch("b", &[2]), "t");
    store.remove_mailbox("a");
    assert_eq!(store.get_latest_uid_by_mailbox("a"), None);
    assert_eq!(store.get_latest_uid_by_mailbox("b"), Some(2));
}
