use antworker::datemath::UtcDateTime;
use antworker::parser::{
    decode_subject, get_email_details, normalize_subject, parse_date, sender_string,
    EmailDetails, Envelope, FetchedMessage, MailAddress, SyncError,
};
use antworker::rules::FilterRules;
use chrono::{TimeZone, Utc};

fn to_chrono(d: &UtcDateTime) -> chrono::DateTime<Utc> {
    Utc.with_ymd_and_hms(d.year, d.month, d.day, d.hour, d.minute, d.second)
        .unwrap()
}

#[test]
fn test_parse_date_rfc2822() {
    let date_str = "Mon, 15 Nov 2021 10:30:00 +0000";
    let parsed = parse_date(date_str);
    assert_eq!(parsed.year, 2021);
    assert_eq!(parsed.month, 11);
    assert_eq!(parsed.day, 15);
    assert_eq!(parsed.hour, 10);
    assert_eq!(parsed.minute, 30);
}

#[test]
fn test_parse_date_rfc2822_with_offset() {
    let date_str = "Wed, 25 Dec 2024 14:45:30 -0500";
    let parsed = parse_date(date_str);
    assert_eq!(parsed.year, 2024);
    assert_eq!(parsed.month, 12);
    assert_eq!(parsed.day, 25);
    // Note: Time will be adjusted to UTC
    assert_eq!(parsed.hour, 19); // 14:45 - 5 hours = 19:45 UTC
    assert_eq!(parsed.minute, 45);
}

#[test]
fn test_parse_date_invalid_fallback_to_current() {
    let date_str = "invalid date string";
    let parsed = parse_date(date_str);
    let now = Utc::now();
    let diff = (to_chrono(&parsed) - now).num_seconds().abs();
    assert!(diff < 5, "Parsed date should be close to current time");
}

#[test]
fn test_parse_date_empty_string() {
    let date_str = "";
    let parsed = parse_date(date_str);
    let now = Utc::now();
    let diff = (to_chrono(&parsed) - now).num_seconds().abs();
    assert!(diff < 5, "Empty date string should fallback to current time");
}

#[test]
fn test_parse_date_fallback_bounded() {
    // The fallback timestamp lies between the wall-clock readings taken just
    // before and just after the call.
    let before = antworker::datemath::now_utc();
    let parsed = parse_date("not a date at all");
    let after = antworker::datemath::now_utc();
    assert!(before.le(&parsed));
    assert!(parsed.le(&after));
}

#[test]
fn test_email_details_default() {
    let email = EmailDetails::default();
    assert_eq!(email.subject, "");
    assert_eq!(email.from.len(), 0);
    assert_eq!(email.uid, 0);
}

#[test]
fn test_email_details_clone() {
    let email = EmailDetails {
        subject: "Test Subject".to_string(),
        from: vec!["test@example.com".to_string()],
        date: parse_date("Mon, 15 Nov 2021 10:30:00 +0000"),
        uid: 123,
    };
    let cloned = email.clone();
    assert_eq!(email.subject, cloned.subject);
    assert_eq!(email.from, cloned.from);
    assert_eq!(email.date, cloned.date);
    assert_eq!(email.uid, cloned.uid);
}

#[test]
fn test_normalize_subject_strips_markers() {
    assert_eq!(normalize_subject("=?UTF-8?Q?Invoice_01?= extra"), "Invoice 01extra");
    assert_eq!(normalize_subject("=?UTF-8?Q?Faktura_VAT"), "Faktura VAT");
}

#[test]
fn test_normalize_subject_plain_ascii_passthrough() {
    // No encoded-word markers: only underscores change.
    assert_eq!(normalize_subject("Monthly report 2024"), "Monthly report 2024");
    assert_eq!(normalize_subject("a_b_c"), "a b c");
}

#[test]
fn test_decode_subject_quoted_printable() {
    // `=20` is the quoted-printable encoding of a space; a pass-through of the
    // raw bytes would keep the three characters `=20`.
    let bytes: Vec<u8> = b"Hello=20World".to_vec();
    assert_eq!(decode_subject(&bytes), "Hello World");
}

#[test]
fn test_sender_string_local_at_host() {
    let addr = MailAddress {
        mailbox: Some(b"billing".to_vec()),
        host: Some(b"vendor.com".to_vec()),
    };
    assert_eq!(sender_string(&addr), "billing@vendor.com");
    let missing = MailAddress { mailbox: None, host: Some(b"vendor.com".to_vec()) };
    assert_eq!(sender_string(&missing), "@vendor.com");
}

fn message(uid: Option<u32>, from: &str, date: &str) -> FetchedMessage {
    FetchedMessage {
        uid,
        envelope: Some(Envelope {
            subject: Some(b"Invoice".to_vec()),
            date: Some(date.as_bytes().to_vec()),
            from: Some(vec![MailAddress {
                mailbox: Some(from.split('@').next().unwrap().as_bytes().to_vec()),
                host: Some(from.split('@').nth(1).unwrap().as_bytes().to_vec()),
            }]),
        }),
    }
}

#[test]
fn test_get_email_details_extracts_and_filters() {
    let messages = vec![
        message(Some(42), "billing@vendor.com", "Mon, 15 Nov 2021 10:30:00 +0000"),
        message(Some(43), "noreply@vendor.com", "Mon, 15 Nov 2021 11:00:00 +0000"),
    ];
    let rules = FilterRules {
        allowed_senders: vec!["billing@vendor.com".to_string()],
        timeframe: None,
    };
    let details = get_email_details(&messages, &rules).unwrap();
    assert_eq!(details.len(), 1);
    assert_eq!(details[0].uid, 42);
    assert_eq!(details[0].subject, "Invoice");
    assert_eq!(details[0].from, vec!["billing@vendor.com".to_string()]);
    assert_eq!(details[0].date.year, 2021);
}

#[test]
fn test_get_email_details_missing_uid_is_error() {
    let messages = vec![message(None, "a@b.c", "Mon, 15 Nov 2021 10:30:00 +0000")];
    let rules = FilterRules { allowed_senders: vec![], timeframe: None };
    let r = get_email_details(&messages, &rules);
    assert!(matches!(r, Err(SyncError::MissingMessageId)));
}

#[test]
fn test_get_email_details_skips_missing_envelope() {
    let messages = vec![FetchedMessage { uid: Some(7), envelope: None }];
    let rules = FilterRules { allowed_senders: vec![], timeframe: None };
    let details = get_email_details(&messages, &rules).unwrap();
    assert_eq!(details.len(), 0);
}
