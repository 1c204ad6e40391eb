//! Metadata extraction: turning a fetched message's raw envelope into a typed
//! record with a decoded subject, normalized sender addresses, a best-effort
//! parsed date and the transport-level message identifier.

use crate::datemath::{now_utc, UtcDateTime};
use crate::rules::FilterRules;
use crate::text::{contains_seq, replace_seq, replace_str};
use chrono::{Datelike, Timelike};
use vstd::prelude::*;

verus! {

/// The date format tried after RFC 2822 parsing fails.
pub const FALLBACK_DATE_FORMAT: &'static str = "%a %b %d %H:%M:%S %Z %Y";

/// One address from a `From` header: raw mailbox (local part) and host bytes,
/// either of which the transport may omit.
#[derive(Debug, Clone)]
pub struct MailAddress {
    pub mailbox: Option<Vec<u8>>,
    pub host: Option<Vec<u8>>,
}

/// The raw envelope of a message: header fields as the transport delivered
/// them, each possibly absent.
#[derive(Debug, Clone)]
pub struct Envelope {
    pub subject: Option<Vec<u8>>,
    pub date: Option<Vec<u8>>,
    pub from: Option<Vec<MailAddress>>,
}

/// One fetched message: its unique identifier and its envelope, either of
/// which the transport may omit.
#[derive(Debug, Clone)]
pub struct FetchedMessage {
    pub uid: Option<u32>,
    pub envelope: Option<Envelope>,
}

/// An extracted message record.
#[derive(Debug, Clone)]
pub struct EmailDetails {
    pub subject: String,
    pub from: Vec<String>,
    pub date: UtcDateTime,
    pub uid: u32,
}

/// The mathematical model of an [`EmailDetails`] record.
pub struct RecordModel {
    pub uid: u32,
    pub subject: Seq<char>,
    pub from: Seq<Seq<char>>,
    pub date: UtcDateTime,
}

impl View for EmailDetails {
    type V = RecordModel;

    open spec fn view(&self) -> RecordModel {
        RecordModel {
            uid: self.uid,
            subject: self.subject@,
            from: self.from@.map_values(|s: String| s@),
            date: self.date,
        }
    }
}

impl Default for EmailDetails {
    /// The empty record: no subject, no senders, the Unix epoch, identifier 0.
    fn default() -> (r: Self)
        ensures
            (r.subject@ == Seq::<char>::empty()),
            r.from@.len() == 0,
            (r.date == UtcDateTime { year: 1970, month: 1, day: 1, hour: 0, minute: 0, second: 0 }),
            r.uid == 0,
    {
        EmailDetails {
            subject: String::new(),
            from: Vec::new(),
            date: UtcDateTime { year: 1970, month: 1, day: 1, hour: 0, minute: 0, second: 0 },
            uid: 0,
        }
    }
}

/// Errors of the extraction and sync pipeline.
#[derive(Debug, Clone, Copy, PartialEq, Eq, Structural)]
pub enum SyncError {
    /// A message that has an envelope lacks the transport-level identifier
    /// that drives the watermark.
    MissingMessageId,
}

// ---------------------------------------------------------------------------
// Trusted views of the outside decoding functions.
// ---------------------------------------------------------------------------

/// What `String::from_utf8_lossy` returns for the given bytes.
pub uninterp spec fn lossy_of(b: Seq<u8>) -> Seq<char>;

/// What `quoted_printable::decode` in `Robust` mode returns for the given bytes.
pub uninterp spec fn qp_robust_of(b: Seq<u8>) -> Seq<u8>;

/// What chrono's RFC 2822 parse, converted to UTC, returns for the given text.
pub uninterp spec fn rfc2822_utc_of(s: Seq<char>) -> Option<UtcDateTime>;

/// What chrono's `parse_from_str`, converted to UTC, returns for the given
/// text and format.
pub uninterp spec fn format_parse_utc_of(s: Seq<char>, fmt: Seq<char>) -> Option<UtcDateTime>;

/// Relies on `String::from_utf8_lossy`: the result is a pure function of the
/// input bytes (invalid UTF-8 sequences are replaced with U+FFFD).
#[verifier::external_body]
pub fn utf8_lossy(b: &Vec<u8>) -> (r: String)
    ensures
        r@ == lossy_of(b@),
{
    String::from_utf8_lossy(b).to_string()
}

/// Relies on `quoted_printable::decode` in `Robust` mode: the decode is a pure
/// function of the input bytes, and `Robust` mode never reports an error
/// (every error return in its source is behind the `Strict` mode check).
#[verifier::external_body]
fn qp_decode_robust(b: &Vec<u8>) -> (r: Vec<u8>)
    ensures
        r@ == qp_robust_of(b@),
{
    quoted_printable::decode(b, quoted_printable::ParseMode::Robust).unwrap_or_default()
}

/// Relies on chrono's `DateTime::parse_from_rfc2822` and `with_timezone`:
/// parsing is a pure function of the text; on success the field accessors
/// return a month in 1..=12, a day in 1..=31, an hour below 24 and a minute
/// and second below 60, as the `Datelike`/`Timelike` documentation states.
#[verifier::external_body]
fn parse_rfc2822_utc(s: &str) -> (r: Option<UtcDateTime>)
    ensures
        r == rfc2822_utc_of(s@),
        r matches Some(d) ==> d.wf(),
{
    match chrono::DateTime::parse_from_rfc2822(s) {
        Ok(dt) => {
            let u = dt.with_timezone(&chrono::Utc);
            Some(UtcDateTime {
                year: u.year(),
                month: u.month(),
                day: u.day(),
                hour: u.hour(),
                minute: u.minute(),
                second: u.second(),
            })
        },
        Err(_) => None,
    }
}

/// Relies on chrono's `DateTime::parse_from_str` and `with_timezone`: parsing
/// is a pure function of the text and the format; on success the field
/// accessors return values in the documented calendar ranges.
#[verifier::external_body]
fn parse_format_utc(s: &str, fmt: &str) -> (r: Option<UtcDateTime>)
    ensures
        r == format_parse_utc_of(s@, fmt@),
        r matches Some(d) ==> d.wf(),
{
    match chrono::DateTime::parse_from_str(s, fmt) {
        Ok(dt) => {
            let u = dt.with_timezone(&chrono::Utc);
            Some(UtcDateTime {
                year: u.year(),
                month: u.month(),
                day: u.day(),
                hour: u.hour(),
                minute: u.minute(),
                second: u.second(),
            })
        },
        Err(_) => None,
    }
}

// ---------------------------------------------------------------------------
// Subject normalization.
// ---------------------------------------------------------------------------

/// Subject text with encoded-word boilerplate stripped and underscores turned
/// into spaces (a deliberately lossy approximation of quoted-printable space
/// encoding).
pub open spec fn spec_normalize_subject(s: Seq<char>) -> Seq<char> {
    replace_seq(
        replace_seq(replace_seq(s, "=?UTF-8?Q?"@, ""@), "?= "@, ""@),
        "_"@,
        " "@,
    )
}

/// The decoded subject for raw header bytes: quoted-printable decode, lossy
/// UTF-8 read, then normalization.
pub open spec fn spec_decoded_subject(b: Seq<u8>) -> Seq<char> {
    spec_normalize_subject(lossy_of(qp_robust_of(b)))
}

/// Strips encoded-word boilerplate and replaces underscores with spaces.
pub fn normalize_subject(s: &str) -> (r: String)
    ensures
        r@ == spec_normalize_subject(s@),
{
    proof {
        reveal_strlit("=?UTF-8?Q?");
        reveal_strlit("?= ");
        reveal_strlit("_");
    }
    let a = replace_str(s, "=?UTF-8?Q?", "");
    let b = replace_str(a.as_str(), "?= ", "");
    replace_str(b.as_str(), "_", " ")
}

/// Decodes raw subject header bytes into display text.
pub fn decode_subject(b: &Vec<u8>) -> (r: String)
    ensures
        r@ == spec_decoded_subject(b@),
{
    let decoded = qp_decode_robust(b);
    let text = utf8_lossy(&decoded);
    normalize_subject(text.as_str())
}

proof fn lemma_occurs_shift(s: Seq<char>, pat: Seq<char>, i: int)
    requires
        s.len() > 0,
        crate::text::occurs_at(s.subrange(1, s.len() as int), pat, i),
    ensures
        crate::text::occurs_at(s, pat, i + 1),
{
    let t = s.subrange(1, s.len() as int);
    assert(s.subrange(i + 1, i + 1 + pat.len()) =~= t.subrange(i, i + pat.len()));
}

proof fn lemma_replace_absent(s: Seq<char>, pat: Seq<char>, rep: Seq<char>)
    requires
        pat.len() >= 1,
        !contains_seq(s, pat),
    ensures
        replace_seq(s, pat, rep) == s,
    decreases s.len(),
{
    if s.len() < pat.len() {
    } else {
        if s.subrange(0, pat.len() as int) == pat {
            assert(crate::text::occurs_at(s, pat, 0));
            assert(false);
        }
        let t = s.subrange(1, s.len() as int);
        assert(!contains_seq(t, pat)) by {
            if contains_seq(t, pat) {
                let i = choose|i: int| crate::text::occurs_at(t, pat, i);
                lemma_occurs_shift(s, pat, i);
                assert(contains_seq(s, pat));
            }
        }
        lemma_replace_absent(t, pat, rep);
        assert(replace_seq(s, pat, rep) == seq![s[0]] + t);
        assert(seq![s[0]] + t =~= s);
    }
}

/// Law: a subject that holds no encoded-word markers passes through
/// normalization unchanged except for underscore-to-space substitution.
pub proof fn lemma_plain_subject_passthrough(s: Seq<char>)
    requires
        !contains_seq(s, "=?UTF-8?Q?"@),
        !contains_seq(s, "?= "@),
    ensures
        spec_normalize_subject(s) == replace_seq(s, "_"@, " "@),
{
    reveal_strlit("=?UTF-8?Q?");
    reveal_strlit("?= ");
    lemma_replace_absent(s, "=?UTF-8?Q?"@, ""@);
    lemma_replace_absent(s, "?= "@, ""@);
}

// ---------------------------------------------------------------------------
// Senders.
// ---------------------------------------------------------------------------

/// The normalized `local@host` rendering of one address; a missing part
/// degrades to the empty segment.
pub open spec fn spec_sender_model(a: MailAddress) -> Seq<char> {
    (match a.mailbox {
        Some(b) => lossy_of(b@),
        None => Seq::<char>::empty(),
    }) + seq!['@'] + (match a.host {
        Some(b) => lossy_of(b@),
        None => Seq::<char>::empty(),
    })
}

/// The sender list of an envelope; an absent `From` header yields no senders.
pub open spec fn spec_senders_model(env: Envelope) -> Seq<Seq<char>> {
    match env.from {
        Some(addrs) => addrs@.map_values(|a: MailAddress| spec_sender_model(a)),
        None => Seq::<Seq<char>>::empty(),
    }
}

/// Builds the `local@host` string for one address.
pub fn sender_string(a: &MailAddress) -> (r: String)
    ensures
        r@ == spec_sender_model(*a),
{
    let mut s = match &a.mailbox {
        Some(b) => utf8_lossy(b),
        None => String::new(),
    };
    s.append("@");
    let host = match &a.host {
        Some(b) => utf8_lossy(b),
        None => String::new(),
    };
    s.append(host.as_str());
    proof {
        reveal_strlit("@");
        assert("@"@ =~= seq!['@']);
        assert(s@ =~= spec_sender_model(*a));
    }
    s
}

/// Builds the sender list of an envelope.
pub fn sender_strings(from: &Option<Vec<MailAddress>>) -> (r: Vec<String>)
    ensures
        r@.map_values(|s: String| s@) == (match *from {
            Some(addrs) => addrs@.map_values(|a: MailAddress| spec_sender_model(a)),
            None => Seq::<Seq<char>>::empty(),
        }),
{
    match from {
        None => {
            let r: Vec<String> = Vec::new();
            assert(r@.map_values(|s: String| s@) =~= Seq::<Seq<char>>::empty());
            r
        },
        Some(addrs) => {
            let mut r: Vec<String> = Vec::new();
            let mut i: usize = 0;
            while i < addrs.len()
                invariant
                    i <= addrs@.len(),
                    r@.len() == i,
                    forall|k: int| 0 <= k < i ==> #[trigger] r@[k]@ == spec_sender_model(addrs@[k]),
                decreases addrs@.len() - i,
            {
                r.push(sender_string(&addrs[i]));
                i = i + 1;
            }
            assert(r@.map_values(|s: String| s@) =~= addrs@.map_values(
                |a: MailAddress| spec_sender_model(a),
            ));
            r
        },
    }
}

// ---------------------------------------------------------------------------
// Dates.
// ---------------------------------------------------------------------------

/// Best-effort date parse: RFC 2822 first, then the fixed fallback format,
/// then the current wall-clock time in UTC (the never-block policy: a
/// malformed date is silently represented as "now").
pub fn parse_date(date_str: &str) -> (r: UtcDateTime)
    ensures
        r.wf(),
        rfc2822_utc_of(date_str@) matches Some(d) ==> r == d,
        rfc2822_utc_of(date_str@) is None ==> (format_parse_utc_of(
            date_str@,
            FALLBACK_DATE_FORMAT@,
        ) matches Some(d) ==> r == d),
{
    match parse_rfc2822_utc(date_str) {
        Some(d) => d,
        None => match parse_format_utc(date_str, FALLBACK_DATE_FORMAT) {
            Some(d) => d,
            None => now_utc(),
        },
    }
}

/// The raw date text of an envelope, read lossily; empty when absent.
pub open spec fn spec_raw_date(env: Envelope) -> Seq<char> {
    match env.date {
        Some(b) => lossy_of(b@),
        None => Seq::<char>::empty(),
    }
}

/// `d` is a date that [`parse_date`] could have produced for this message:
/// the parsed value where one of the two formats applies, any well-formed
/// timestamp (the "now" fallback) otherwise.
pub open spec fn date_consistent(msg: FetchedMessage, d: UtcDateTime) -> bool {
    &&& d.wf()
    &&& match msg.envelope {
        Some(env) => {
            let s = spec_raw_date(env);
            match rfc2822_utc_of(s) {
                Some(p) => d == p,
                None => match format_parse_utc_of(s, FALLBACK_DATE_FORMAT@) {
                    Some(p) => d == p,
                    None => true,
                },
            }
        },
        None => true,
    }
}

// ---------------------------------------------------------------------------
// The extraction pipeline.
// ---------------------------------------------------------------------------

/// The record extracted from a message, given the date the parse produced.
pub open spec fn spec_record_model(msg: FetchedMessage, date: UtcDateTime) -> RecordModel
    recommends
        msg.uid is Some,
        msg.envelope is Some,
{
    let env = msg.envelope->0;
    RecordModel {
        uid: msg.uid->0,
        subject: match env.subject {
            Some(b) => spec_decoded_subject(b@),
            None => Seq::<char>::empty(),
        },
        from: spec_senders_model(env),
        date: date,
    }
}

/// Every message that has an envelope also has an identifier.
pub open spec fn no_missing_uid(msgs: Seq<FetchedMessage>) -> bool {
    forall|i: int| 0 <= i < msgs.len() && msgs[i].envelope is Some ==> msgs[i].uid is Some
}

/// Pairwise-distinct transport identifiers among the messages that carry one.
pub open spec fn unique_message_uids(msgs: Seq<FetchedMessage>) -> bool {
    forall|i: int, j: int|
        0 <= i < j < msgs.len() && msgs[i].uid is Some && msgs[j].uid is Some ==> msgs[i].uid->0
            != msgs[j].uid->0
}

/// The records selected from `msgs` under `rules`, where `dates[i]` is the
/// date parsed for `msgs[i]`: envelope-less messages are skipped, and a record
/// is kept exactly when the filter matches it.
pub open spec fn spec_pipeline(
    msgs: Seq<FetchedMessage>,
    rules: FilterRules,
    dates: Seq<UtcDateTime>,
) -> Seq<RecordModel>
    decreases msgs.len(),
{
    if msgs.len() == 0 {
        Seq::<RecordModel>::empty()
    } else {
        let rest = spec_pipeline(msgs.drop_last(), rules, dates.drop_last());
        let m = msgs.last();
        if m.envelope is None {
            rest
        } else {
            let rec = spec_record_model(m, dates.last());
            if rules.spec_matches(rec) {
                rest.push(rec)
            } else {
                rest
            }
        }
    }
}

/// Extracts the filtered records from a batch of fetched messages.
///
/// Fails exactly when some message has an envelope but no identifier; a
/// message without an envelope is skipped (a single malformed message must
/// not abort the batch).
pub fn get_email_details(messages: &Vec<FetchedMessage>, rules: &FilterRules) -> (r: Result<
    Vec<EmailDetails>,
    SyncError,
>)
    ensures
        r is Ok <==> no_missing_uid(messages@),
        r matches Err(e) ==> e == SyncError::MissingMessageId,
        r matches Ok(out) ==> exists|dates: Seq<UtcDateTime>|
            dates.len() == messages@.len() && (forall|i: int|
                0 <= i < dates.len() ==> #[trigger] date_consistent(messages@[i], dates[i]))
                && out@.map_values(|d: EmailDetails| d@) == spec_pipeline(
                messages@,
                *rules,
                dates,
            ),
{
    let mut out: Vec<EmailDetails> = Vec::new();
    let ghost mut dates: Seq<UtcDateTime> = Seq::empty();
    let mut i: usize = 0;
    proof {
        assert(messages@.take(0) =~= Seq::<FetchedMessage>::empty());
    }
    while i < messages.len()
        invariant
            i <= messages@.len(),
            dates.len() == i,
            forall|k: int| 0 <= k < i ==> #[trigger] date_consistent(messages@[k], dates[k]),
            out@.map_values(|d: EmailDetails| d@) == spec_pipeline(
                messages@.take(i as int),
                *rules,
                dates,
            ),
            forall|k: int|
                0 <= k < i && messages@[k].envelope is Some ==> messages@[k].uid is Some,
        decreases messages@.len() - i,
    {
        let msg = &messages[i];
        let ghost prefix = messages@.take(i as int);
        let ghost pipeline_before = spec_pipeline(prefix, *rules, dates);
        match &msg.envelope {
            None => {
                proof {
                    let epoch = UtcDateTime {
                        year: 1970,
                        month: 1,
                        day: 1,
                        hour: 0,
                        minute: 0,
                        second: 0,
                    };
                    let dates0 = dates;
                    dates = dates.push(epoch);
                    assert(messages@.take(i + 1).drop_last() =~= prefix);
                    assert(messages@.take(i + 1).last() == messages@[i as int]);
                    assert(dates.drop_last() =~= dates0);
                    assert(spec_pipeline(messages@.take(i + 1), *rules, dates)
                        == pipeline_before);
                }
            },
            Some(env) => {
                let uid = match msg.uid {
                    Some(u) => u,
                    None => {
                        proof {
                            assert(messages@[i as int].envelope is Some && messages@[i as int].uid
                                is None);
                            assert(!no_missing_uid(messages@));
                        }
                        return Err(SyncError::MissingMessageId);
                    },
                };
                let subject = match &env.subject {
                    Some(b) => decode_subject(b),
                    None => String::new(),
                };
                let from = sender_strings(&env.from);
                let date = match &env.date {
                    Some(b) => {
                        let raw = utf8_lossy(b);
                        parse_date(raw.as_str())
                    },
                    None => {
                        proof {
                            reveal_strlit("");
                            assert(""@ =~= Seq::<char>::empty());
                        }
                        parse_date("")
                    },
                };
                let rec = EmailDetails { subject, from, date, uid };
                proof {
                    assert(rec@ == spec_record_model(messages@[i as int], date)) by {
                        assert(rec@.from =~~= spec_record_model(messages@[i as int], date).from);
                    }
                    assert(date_consistent(messages@[i as int], date));
                }
                let keep = rules.matches(&rec);
                if keep {
                    out.push(rec);
                }
                proof {
                    let dates0 = dates;
                    dates = dates.push(date);
                    assert(messages@.take(i + 1).drop_last() =~= prefix);
                    assert(messages@.take(i + 1).last() == messages@[i as int]);
                    assert(dates.drop_last() =~= dates0);
                    if keep {
                        assert(out@.map_values(|d: EmailDetails| d@) =~= pipeline_before.push(
                            rec@,
                        ));
                    }
                }
            },
        }
        i = i + 1;
    }
    proof {
        assert(messages@.take(messages@.len() as int) =~= messages@);
    }
    Ok(out)
}

} // verus!
