//! The orchestrator core: the fetch window computed from the stored
//! watermark, and the commit decision for one mailbox's fetched batch.
//! Connecting, fetching and sending are I/O concerns outside the library.

use crate::datemath::UtcDateTime;
use crate::db::{
    spec_merge, spec_models, spec_new_watermark, unique_uids, Emails, MyDatabaseConnection,
};
use crate::parser::{
    date_consistent, get_email_details, no_missing_uid, spec_pipeline, spec_record_model,
    unique_message_uids, EmailDetails, FetchedMessage, SyncError,
};
use crate::rules::FilterRules;
use crate::text::{spec_dec, u32_string};
use vstd::prelude::*;
use vstd::string::StringExecFns;

verus! {

/// The lower bound of the open-ended fetch range `[low, ∞)`: one past the
/// stored watermark, or 1 when no watermark exists yet.
pub open spec fn spec_fetch_low(watermark: Option<u32>) -> int {
    match watermark {
        Some(w) => w + 1,
        None => 1,
    }
}

/// Computes the fetch window's lower bound from the stored watermark.
pub fn fetch_window_low(watermark: Option<u32>) -> (r: u32)
    requires
        (watermark matches Some(w) ==> w < u32::MAX),
    ensures
        r as int == spec_fetch_low(watermark),
{
    match watermark {
        Some(w) => w + 1,
        None => 1,
    }
}

/// The identifier-set string `low:*`, requesting every message from `low` on.
pub fn uid_set_string(low: u32) -> (r: String)
    ensures
        r@ == spec_dec(low as nat) + ":*"@,
{
    let mut s = u32_string(low);
    s.append(":*");
    s
}

proof fn lemma_pipeline_unique_uids(
    msgs: Seq<FetchedMessage>,
    rules: FilterRules,
    dates: Seq<UtcDateTime>,
)
    requires
        unique_message_uids(msgs),
        no_missing_uid(msgs),
    ensures
        unique_uids(spec_pipeline(msgs, rules, dates)),
        forall|k: int|
            0 <= k < spec_pipeline(msgs, rules, dates).len() ==> exists|i: int|
                0 <= i < msgs.len() && msgs[i].uid is Some && #[trigger] spec_pipeline(
                    msgs,
                    rules,
                    dates,
                )[k].uid == msgs[i].uid->0,
    decreases msgs.len(),
{
    if msgs.len() == 0 {
    } else {
        let prev = msgs.drop_last();
        lemma_pipeline_unique_uids(prev, rules, dates.drop_last());
        let p = spec_pipeline(msgs, rules, dates);
        let pp = spec_pipeline(prev, rules, dates.drop_last());
        let m = msgs.last();
        assert(m == msgs[msgs.len() - 1]);
        assert forall|k: int| #![trigger pp[k]] 0 <= k < pp.len() implies exists|i: int|
            0 <= i < msgs.len() && msgs[i].uid is Some && pp[k].uid == (#[trigger] msgs[i]).uid->0 by {
            let i = choose|i: int|
                0 <= i < prev.len() && prev[i].uid is Some && pp[k].uid == prev[i].uid->0;
            assert(msgs[i] == prev[i]);
        }
        if m.envelope is None {
            assert(p == pp);
        } else {
            assert(m.uid is Some);
            let rec = spec_record_model(m, dates.last());
            if rules.spec_matches(rec) {
                assert(p == pp.push(rec));
                assert(rec.uid == msgs[msgs.len() - 1].uid->0);
                assert forall|i: int, j: int| 0 <= i < j < p.len() implies p[i].uid
                    != p[j].uid by {
                    if j == p.len() - 1 {
                        let l = choose|l: int|
                            0 <= l < prev.len() && prev[l].uid is Some && pp[i].uid
                                == prev[l].uid->0;
                        assert(msgs[l] == prev[l]);
                        assert(msgs[l].uid->0 != msgs[msgs.len() - 1].uid->0);
                    } else {
                        assert(p[i] == pp[i]);
                        assert(p[j] == pp[j]);
                    }
                }
                assert forall|k: int| #![trigger p[k]] 0 <= k < p.len() implies exists|i: int|
                    0 <= i < msgs.len() && msgs[i].uid is Some && p[k].uid == (
                    #[trigger] msgs[i]).uid->0 by {
                    if k == p.len() - 1 {
                        assert(p[k].uid == msgs[msgs.len() - 1].uid->0);
                    } else {
                        assert(p[k] == pp[k]);
                    }
                }
            } else {
                assert(p == pp);
            }
        }
    }
}

/// Runs the commit decision for one mailbox: extract and filter the fetched
/// batch; when nothing was selected, write no state (no new mail
/// short-circuits the sync); otherwise replace the month's snapshot with the
/// merged record list and advance the watermark. Returns how many records
/// were committed.
pub fn sync_mailbox(
    store: &mut MyDatabaseConnection,
    mailbox: &str,
    year_month: &str,
    updated_at: &str,
    messages: &Vec<FetchedMessage>,
    rules: &FilterRules,
) -> (r: Result<usize, SyncError>)
    requires
        old(store).wf(),
        unique_message_uids(messages@),
    ensures
        final(store).wf(),
        (r is Ok <==> no_missing_uid(messages@)),
        r is Err ==> *final(store) == *old(store),
        r matches Ok(n) ==> exists|dates: Seq<UtcDateTime>|
            {
                &&& #[trigger] spec_pipeline(messages@, *rules, dates) == spec_pipeline(
                    messages@,
                    *rules,
                    dates,
                )
                &&& dates.len() == messages@.len()
                &&& (forall|i: int|
                    0 <= i < dates.len() ==> #[trigger] date_consistent(messages@[i], dates[i]))
                &&& ({
                    let recs = spec_pipeline(messages@, *rules, dates);
                    &&& n == recs.len()
                    &&& (recs.len() == 0 ==> *final(store) == *old(store))
                    &&& (recs.len() > 0 ==> {
                        &&& final(store).snap_of(mailbox@, year_month@) == Some(
                            spec_merge(
                                old(store).snap_or_empty(mailbox@, year_month@),
                                recs,
                            ),
                        )
                        &&& final(store).wm_of(mailbox@) == Some(
                            spec_new_watermark(old(store).wm_of(mailbox@), recs),
                        )
                        &&& (forall|mb: Seq<char>, ym: Seq<char>|
                            !(mb == mailbox@ && ym == year_month@) ==> final(store).snap_of(
                                mb,
                                ym,
                            ) == old(store).snap_of(mb, ym))
                        &&& (forall|mb: Seq<char>|
                            mb != mailbox@ ==> final(store).wm_of(mb) == old(store).wm_of(mb))
                    })
                })
            },
{
    let details = match get_email_details(messages, rules) {
        Ok(d) => d,
        Err(e) => {
            return Err(e);
        },
    };
    let ghost dates = choose|dates: Seq<UtcDateTime>|
        dates.len() == messages@.len() && (forall|i: int|
            0 <= i < dates.len() ==> #[trigger] date_consistent(messages@[i], dates[i]))
            && details@.map_values(|d: EmailDetails| d@) == spec_pipeline(
            messages@,
            *rules,
            dates,
        );
    let ghost models = spec_models(details@);
    proof {
        assert(models =~= details@.map_values(|d: EmailDetails| d@));
        lemma_pipeline_unique_uids(messages@, *rules, dates);
    }
    let n = details.len();
    if n == 0 {
        proof {
            assert(spec_pipeline(messages@, *rules, dates).len() == 0);
        }
        return Ok(0);
    }
    store.store_emails(Emails { mailbox: mailbox.to_owned(), details }, year_month, updated_at);
    proof {
        assert(spec_pipeline(messages@, *rules, dates).len() == n);
    }
    Ok(n)
}

} // verus!
