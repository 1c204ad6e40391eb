//! Calendar values and month arithmetic.
//!
//! A timestamp is held as plain field values in UTC; the current wall-clock
//! time comes from one trusted call into chrono. The previous-month policy is
//! an explicit calendar computation (December rollback included), not a
//! subtraction on day counts.

use crate::text::{spec_dec, push_dec_u32, string_from_chars, u32_string};
use chrono::{Datelike, Timelike};
use vstd::prelude::*;

verus! {

/// A calendar timestamp in UTC, held as plain field values.
#[derive(Clone, Copy, Debug, PartialEq, Eq, Structural)]
pub struct UtcDateTime {
    pub year: i32,
    pub month: u32,
    pub day: u32,
    pub hour: u32,
    pub minute: u32,
    pub second: u32,
}

impl UtcDateTime {
    /// Field ranges of a real calendar timestamp. The year is not bounded
    /// here: a parsed date may carry any year the source text names.
    pub open spec fn wf(self) -> bool {
        &&& 1 <= self.month <= 12
        &&& 1 <= self.day <= 31
        &&& self.hour <= 23
        &&& self.minute <= 59
        &&& self.second <= 59
    }

    /// The year range that the formatting functions accept.
    pub open spec fn year_in_range(self) -> bool {
        1 <= self.year <= 9999
    }

    /// Lexicographic order on (year, month, day, hour, minute, second).
    pub open spec fn spec_le(self, other: Self) -> bool {
        if self.year != other.year {
            self.year < other.year
        } else if self.month != other.month {
            self.month < other.month
        } else if self.day != other.day {
            self.day < other.day
        } else if self.hour != other.hour {
            self.hour < other.hour
        } else if self.minute != other.minute {
            self.minute < other.minute
        } else {
            self.second <= other.second
        }
    }

    /// Chronological comparison.
    pub fn le(&self, other: &Self) -> (r: bool)
        ensures
            r == self.spec_le(*other),
    {
        if self.year != other.year {
            self.year < other.year
        } else if self.month != other.month {
            self.month < other.month
        } else if self.day != other.day {
            self.day < other.day
        } else if self.hour != other.hour {
            self.hour < other.hour
        } else if self.minute != other.minute {
            self.minute < other.minute
        } else {
            self.second <= other.second
        }
    }
}

impl Default for UtcDateTime {
    /// The Unix epoch, 1970-01-01 00:00:00 UTC.
    fn default() -> (r: Self)
        ensures
            r == (UtcDateTime { year: 1970, month: 1, day: 1, hour: 0, minute: 0, second: 0 }),
            r.wf(),
    {
        UtcDateTime { year: 1970, month: 1, day: 1, hour: 0, minute: 0, second: 0 }
    }
}

/// Relies on `chrono::Utc::now` and its `Datelike`/`Timelike` accessors: the
/// current wall-clock time in UTC, with month in 1..=12, day in 1..=31,
/// hour < 24, minute < 60 and second < 60 as chrono documents. The year bounds
/// assume a sanely configured system clock.
#[verifier::external_body]
pub fn now_utc() -> (r: UtcDateTime)
    ensures
        r.wf(),
        r.year_in_range(),
{
    let now: chrono::DateTime<chrono::Utc> = chrono::Utc::now();
    UtcDateTime {
        year: now.year(),
        month: now.month(),
        day: now.day(),
        hour: now.hour(),
        minute: now.minute(),
        second: now.second(),
    }
}

/// The year rendered as four decimal digits, zero-padded.
pub open spec fn spec_year4(y: int) -> Seq<char>
    recommends
        0 <= y <= 9999,
{
    if y < 10 {
        seq!['0', '0', '0'] + spec_dec(y as nat)
    } else if y < 100 {
        seq!['0', '0'] + spec_dec(y as nat)
    } else if y < 1000 {
        seq!['0'] + spec_dec(y as nat)
    } else {
        spec_dec(y as nat)
    }
}

/// The month rendered as two decimal digits, zero-padded.
pub open spec fn spec_month2(m: int) -> Seq<char>
    recommends
        0 <= m <= 12,
{
    if m < 10 {
        seq!['0'] + spec_dec(m as nat)
    } else {
        spec_dec(m as nat)
    }
}

/// The month key `YYYY_MM` that partitions snapshots.
pub open spec fn spec_year_month_key(y: int, m: int) -> Seq<char> {
    spec_year4(y) + seq!['_'] + spec_month2(m)
}

/// The four-digit rendering of a year.
pub fn year4_string(y: i32) -> (r: String)
    requires
        0 <= y <= 9999,
    ensures
        r@ == spec_year4(y as int),
{
    let mut v: Vec<char> = Vec::new();
    if y < 10 {
        v.push('0');
        v.push('0');
        v.push('0');
    } else if y < 100 {
        v.push('0');
        v.push('0');
    } else if y < 1000 {
        v.push('0');
    }
    push_dec_u32(y as u32, &mut v);
    assert(v@ =~= spec_year4(y as int));
    string_from_chars(&v)
}

/// The two-digit rendering of a month.
pub fn month2_string(m: u32) -> (r: String)
    requires
        m <= 12,
    ensures
        r@ == spec_month2(m as int),
{
    let mut v: Vec<char> = Vec::new();
    if m < 10 {
        v.push('0');
    }
    push_dec_u32(m, &mut v);
    assert(v@ =~= spec_month2(m as int));
    string_from_chars(&v)
}

/// The month key `YYYY_MM` for a year and month.
pub fn year_month_key(y: i32, m: u32) -> (r: String)
    requires
        0 <= y <= 9999,
        m <= 12,
    ensures
        r@ == spec_year_month_key(y as int, m as int),
{
    let mut v: Vec<char> = Vec::new();
    if y < 10 {
        v.push('0');
        v.push('0');
        v.push('0');
    } else if y < 100 {
        v.push('0');
        v.push('0');
    } else if y < 1000 {
        v.push('0');
    }
    push_dec_u32(y as u32, &mut v);
    v.push('_');
    if m < 10 {
        v.push('0');
    }
    push_dec_u32(m, &mut v);
    assert(v@ =~= spec_year_month_key(y as int, m as int));
    string_from_chars(&v)
}

/// The calendar month before (`y`, `m`): January rolls back to December of
/// the previous year.
pub open spec fn spec_previous_month(y: int, m: int) -> (int, int) {
    if m == 1 {
        (y - 1, 12)
    } else {
        (y, m - 1)
    }
}

/// The current year as a string, `%Y`-style (four digits).
pub fn get_current_year_str() -> (r: String)
    ensures
        exists|d: UtcDateTime| d.wf() && d.year_in_range() && r@ == spec_year4(d.year as int),
{
    let d = now_utc();
    let s = year4_string(d.year);
    proof {
        assert(d.wf() && d.year_in_range() && s@ == spec_year4(d.year as int));
    }
    s
}

/// The current month as a string, `%m`-style (two digits).
pub fn get_current_month_str() -> (r: String)
    ensures
        exists|d: UtcDateTime| d.wf() && d.year_in_range() && r@ == spec_month2(d.month as int),
{
    let d = now_utc();
    let s = month2_string(d.month);
    proof {
        assert(d.wf() && d.year_in_range() && s@ == spec_month2(d.month as int));
    }
    s
}

/// The current month key, `%Y_%m`-style.
pub fn get_current_year_month_str() -> (r: String)
    ensures
        exists|d: UtcDateTime|
            d.wf() && d.year_in_range() && r@ == spec_year_month_key(
                d.year as int,
                d.month as int,
            ),
{
    let d = now_utc();
    let s = year_month_key(d.year, d.month);
    proof {
        assert(d.wf() && d.year_in_range() && s@ == spec_year_month_key(
            d.year as int,
            d.month as int,
        ));
    }
    s
}

/// The current (year, month) pair; always present.
pub fn get_current_month_year() -> (r: Option<(i32, u32)>)
    ensures
        r matches Some(ym) && 1 <= ym.0 <= 9999 && 1 <= ym.1 <= 12,
{
    let d = now_utc();
    Some((d.year, d.month))
}

/// The calendar month before (`y`, `m`), as executable code.
pub fn previous_month(y: i32, m: u32) -> (r: (i32, u32))
    requires
        1 <= y <= 9999,
        1 <= m <= 12,
    ensures
        (r.0 as int, r.1 as int) == spec_previous_month(y as int, m as int),
        0 <= r.0 <= 9999,
        1 <= r.1 <= 12,
{
    if m == 1 {
        (y - 1, 12u32)
    } else {
        (y, m - 1)
    }
}

/// The (year, month) of the calendar month before the current one.
pub fn get_previous_month_year() -> (r: (i32, u32))
    ensures
        0 <= r.0 <= 9999,
        1 <= r.1 <= 12,
        exists|d: UtcDateTime|
            d.wf() && d.year_in_range() && spec_previous_month(d.year as int, d.month as int) == (
            r.0 as int,
            r.1 as int,
            ),
{
    let d = now_utc();
    let r = previous_month(d.year, d.month);
    proof {
        assert(d.wf() && d.year_in_range() && spec_previous_month(d.year as int, d.month as int) == (
            r.0 as int,
            r.1 as int,
        ));
    }
    r
}

/// The previous month as (`MM`, `YYYY`) strings: the month two-digit padded,
/// the year in plain decimal.
pub fn get_previous_month_year_str() -> (r: (String, String))
    ensures
        exists|pym: (i32, u32)|
            0 <= pym.0 <= 9999 && 1 <= pym.1 <= 12 && r.0@ == spec_month2(pym.1 as int) && r.1@
                == spec_dec(pym.0 as nat) && exists|d: UtcDateTime|
                d.wf() && d.year_in_range() && spec_previous_month(d.year as int, d.month as int) == (
                pym.0 as int,
                pym.1 as int,
                ),
{
    let (py, pm) = get_previous_month_year();
    let month_str = month2_string(pm);
    let year_str = u32_string(py as u32);
    proof {
        let pym = (py, pm);
        assert(0 <= pym.0 <= 9999 && 1 <= pym.1 <= 12 && month_str@ == spec_month2(pym.1 as int)
            && year_str@ == spec_dec(pym.0 as nat));
    }
    (month_str, year_str)
}

} // verus!

