use antworker::enums::{DbAction, OpenCommand};
use antworker::sender::{attachment_filename, format_email};

#[test]
fn test_open_command_variants() {
    // Test that we can create both variants
    let _income = OpenCommand::Income;
    let _outcome = OpenCommand::Outcome;
}

#[test]
fn test_db_action_debug() {
    // Test Debug trait implementation
    let get_email = DbAction::GetEmail;
    let debug_str = format!("{:?}", get_email);
    assert_eq!(debug_str, "GetEmail");

    let remove_email = DbAction::RemoveEmail;
    let debug_str = format!("{:?}", remove_email);
    assert_eq!(debug_str, "RemoveEmail");

    let get_mailbox = DbAction::GetMailbox;
    let debug_str = format!("{:?}", get_mailbox);
    assert_eq!(debug_str, "GetMailbox");

    let remove_mailbox = DbAction::RemoveMailbox;
    let debug_str = format!("{:?}", remove_mailbox);
    assert_eq!(debug_str, "RemoveMailbox");
}

#[test]
fn test_format_email() {
    assert_eq!(format_email("john@example.com"), "john <john@example.com>");
    assert_eq!(format_email("billing@vendor.com"), "billing <billing@vendor.com>");
}

#[test]
fn test_attachment_filename() {
    assert_eq!(attachment_filename("/a/b/invoice.pdf"), "invoice.pdf");
    assert_eq!(attachment_filename("plain.pdf"), "plain.pdf");
    assert_eq!(attachment_filename("/dir/"), "");
}
