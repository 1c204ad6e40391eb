//! Incremental mailbox synchronization core.
//!
//! The library extracts typed metadata and PDF attachments from fetched mail,
//! filters messages by sender and month, and folds the results into a
//! monthly-partitioned store while tracking a resumable watermark (the
//! maximum message identifier seen) per mailbox.

pub mod attachment;
pub mod credentials;
pub mod datemath;
pub mod db;
pub mod enums;
pub mod parser;
pub mod rules;
pub mod save_location;
pub mod sender;
pub mod sync;
pub mod text;
