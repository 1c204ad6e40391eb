//! The filter engine: a pure predicate deciding whether a message record is
//! in scope, from an allowed-sender set and an optional (year, month)
//! timeframe.

use crate::datemath::UtcDateTime;
use crate::parser::{EmailDetails, RecordModel};
use vstd::prelude::*;

verus! {

/// The filter configuration: allowed sender strings and an optional
/// (year, month) timeframe.
#[derive(Debug)]
pub struct FilterRules {
    pub allowed_senders: Vec<String>,
    pub timeframe: Option<(i32, u32)>,
}

impl FilterRules {
    /// The sender check passes when the allowed set is empty (filter
    /// disabled: every message passes) or some sender of the record is in
    /// the set, by case-sensitive exact match.
    pub open spec fn spec_sender_allowed(self, from: Seq<Seq<char>>) -> bool {
        self.allowed_senders@.len() == 0 || exists|i: int, j: int|
            0 <= i < from.len() && 0 <= j < self.allowed_senders@.len() && from[i]
                == self.allowed_senders@[j]@
    }

    /// The timeframe check passes when no timeframe is configured or the
    /// record's (year, month) equals the configured pair exactly.
    pub open spec fn spec_in_timeframe(self, d: UtcDateTime) -> bool {
        match self.timeframe {
            None => true,
            Some(ym) => d.year == ym.0 && d.month == ym.1,
        }
    }

    /// A record matches exactly when both the sender check and the timeframe
    /// check pass.
    pub open spec fn spec_matches(self, rec: RecordModel) -> bool {
        self.spec_sender_allowed(rec.from) && self.spec_in_timeframe(rec.date)
    }

    /// Whether the allowed-sender set is empty.
    pub fn is_empty(&self) -> (r: bool)
        ensures
            r == (self.allowed_senders@.len() == 0),
    {
        self.allowed_senders.is_empty()
    }

    /// The filter decision for one record.
    pub fn matches(&self, msg: &EmailDetails) -> (r: bool)
        ensures
            r == self.spec_matches(msg@),
    {
        let sender_ok = if self.allowed_senders.is_empty() {
            true
        } else {
            let mut found = false;
            let mut i: usize = 0;
            while i < msg.from.len()
                invariant
                    i <= msg.from@.len(),
                    found ==> self.spec_sender_allowed(msg@.from),
                    !found ==> forall|k: int, j: int|
                        0 <= k < i && 0 <= j < self.allowed_senders@.len() ==> msg.from@[k]@
                            != self.allowed_senders@[j]@,
                decreases msg.from@.len() - i,
            {
                if !found {
                    let mut j: usize = 0;
                    while j < self.allowed_senders.len()
                        invariant
                            i < msg.from@.len(),
                            j <= self.allowed_senders@.len(),
                            found ==> self.spec_sender_allowed(msg@.from),
                            !found ==> forall|l: int|
                                0 <= l < j ==> msg.from@[i as int]@ != self.allowed_senders@[l]@,
                        decreases self.allowed_senders@.len() - j,
                    {
                        if msg.from[i].eq(&self.allowed_senders[j]) {
                            found = true;
                            proof {
                                assert(msg@.from[i as int] == self.allowed_senders@[j as int]@);
                            }
                        }
                        j = j + 1;
                    }
                }
                i = i + 1;
            }
            proof {
                if !found {
                    assert(forall|k: int, j: int|
                        0 <= k < msg@.from.len() && 0 <= j < self.allowed_senders@.len()
                            ==> msg@.from[k] != self.allowed_senders@[j]@);
                }
            }
            found
        };
        let time_ok = match self.timeframe {
            None => true,
            Some((y, m)) => msg.date.year == y && msg.date.month == m,
        };
        sender_ok && time_ok
    }
}

/// Builds the run's filter rules: the configured senders, scoped to the
/// current calendar month.
pub fn define_rules(allowed_senders: Vec<String>) -> (r: FilterRules)
    ensures
        r.allowed_senders == allowed_senders,
        r.timeframe matches Some(ym) && 1 <= ym.0 <= 9999 && 1 <= ym.1 <= 12,
{
    FilterRules { allowed_senders, timeframe: crate::datemath::get_current_month_year() }
}

/// Law: with an empty allowed-sender set the filter result does not depend on
/// the record's senders; two records with the same date are treated alike.
pub proof fn lemma_empty_senders_independent(rules: FilterRules, a: RecordModel, b: RecordModel)
    requires
        rules.allowed_senders@.len() == 0,
        a.date == b.date,
    ensures
        rules.spec_matches(a) == rules.spec_matches(b),
{
}

} // verus!
