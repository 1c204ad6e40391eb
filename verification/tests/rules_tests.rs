use antworker::datemath::UtcDateTime;
use antworker::parser::EmailDetails;
use antworker::rules::{define_rules, FilterRules};

fn record(from: &[&str], year: i32, month: u32) -> EmailDetails {
    EmailDetails {
        subject: "s".to_string(),
        from: from.iter().map(|s| s.to_string()).collect(),
        date: UtcDateTime { year, month, day: 1, hour: 0, minute: 0, second: 0 },
        uid: 1,
    }
}

#[test]
fn test_filter_rules_is_empty_with_empty_senders() {
    let rules = FilterRules { allowed_senders: vec![], timeframe: None };
    assert!(rules.is_empty());
}

#[test]
fn test_filter_rules_is_empty_with_senders() {
    let rules = FilterRules {
        allowed_senders: vec!["test@example.com".to_string()],
        timeframe: None,
    };
    assert!(!rules.is_empty());
}

#[test]
fn test_filter_rules_is_empty_with_multiple_senders() {
    let rules = FilterRules {
        allowed_senders: vec![
            "test1@example.com".to_string(),
            "test2@example.com".to_string(),
        ],
        timeframe: None,
    };
    assert!(!rules.is_empty());
}

#[test]
fn test_filter_rules_with_timeframe() {
    let rules = FilterRules {
        allowed_senders: vec!["test@example.com".to_string()],
        timeframe: Some((2024, 11)),
    };
    assert!(!rules.is_empty());
    assert_eq!(rules.timeframe, Some((2024, 11)));
}

#[test]
fn test_filter_rules_no_timeframe() {
    let rules = FilterRules {
        allowed_senders: vec!["test@example.com".to_string()],
        timeframe: None,
    };
    assert!(rules.timeframe.is_none());
}

#[test]
fn test_matches_allowed_sender_passes() {
    // Allowed senders = ["billing@vendor.com"], no timeframe: a message from
    // noreply@vendor.com is filtered out; one from billing@vendor.com passes
    // with any date.
    let rules = FilterRules {
        allowed_senders: vec!["billing@vendor.com".to_string()],
        timeframe: None,
    };
    assert!(!rules.matches(&record(&["noreply@vendor.com"], 2021, 3)));
    assert!(rules.matches(&record(&["billing@vendor.com"], 2021, 3)));
    assert!(rules.matches(&record(&["billing@vendor.com"], 1999, 12)));
}

#[test]
fn test_matches_empty_senders_ignores_sender() {
    // With an empty allowed set the result does not depend on the sender.
    let rules = FilterRules { allowed_senders: vec![], timeframe: Some((2024, 11)) };
    let a = record(&["x@y.z"], 2024, 11);
    let b = record(&["other@else.w"], 2024, 11);
    assert_eq!(rules.matches(&a), rules.matches(&b));
    assert!(rules.matches(&a));
    // Timeframe still applies.
    assert!(!rules.matches(&record(&["x@y.z"], 2024, 10)));
}

#[test]
fn test_matches_timeframe_exact_month() {
    let rules = FilterRules {
        allowed_senders: vec!["a@b.c".to_string()],
        timeframe: Some((2024, 2)),
    };
    assert!(rules.matches(&record(&["a@b.c"], 2024, 2)));
    assert!(!rules.matches(&record(&["a@b.c"], 2024, 3)));
    assert!(!rules.matches(&record(&["a@b.c"], 2023, 2)));
}

#[test]
fn test_define_rules_uses_current_month() {
    let rules = define_rules(vec!["a@b.c".to_string()]);
    assert_eq!(rules.allowed_senders, vec!["a@b.c".to_string()]);
    let (y, m) = antworker::datemath::get_current_month_year().unwrap();
    assert_eq!(rules.timeframe, Some((y, m)));
}
