//! Attachment save-location policy: the dated directory paths and the routing
//! of monthly-balance subjects to their own folder. Directory creation and
//! the `open` command are I/O concerns outside the library.

use crate::datemath::{
    month2_string, now_utc, previous_month, spec_month2, spec_previous_month, spec_year4,
    spec_year_month_key, year4_string, year_month_key, UtcDateTime,
};
use crate::text::{
    contains_seq, contains_str, prefix_before, spec_dec, spec_prefix_before, u32_string,
};
use vstd::prelude::*;
use vstd::string::StrSliceExecFns;
use vstd::string::StringExecFns;

verus! {

/// Root paths and the routing subject, loaded once from configuration.
#[derive(Debug)]
pub struct SaveLocationConfig {
    pub root_save_location: String,
    pub root_monthly_summary_balance: String,
    pub monthly_balance_subject: String,
}

/// The invoices directory for a month: `root/YYYY/YYYY_MM`.
pub open spec fn spec_invoices_path(root: Seq<char>, y: int, m: int) -> Seq<char> {
    root + seq!['/'] + spec_year4(y) + seq!['/'] + spec_year_month_key(y, m)
}

/// The monthly-balance directory for a month: `root/YYYY/MM`, the year in
/// plain decimal.
pub open spec fn spec_monthly_balance_path(root: Seq<char>, y: int, m: int) -> Seq<char>
    recommends
        y >= 0,
{
    root + seq!['/'] + spec_dec(y as nat) + seq!['/'] + spec_month2(m)
}

/// Builds `root/YYYY/YYYY_MM`.
pub fn invoices_location(root: &str, year: i32, month: u32) -> (r: String)
    requires
        0 <= year <= 9999,
        month <= 12,
    ensures
        r@ == spec_invoices_path(root@, year as int, month as int),
{
    let mut s = root.to_owned();
    s.append("/");
    let y = year4_string(year);
    s.append(y.as_str());
    s.append("/");
    let key = year_month_key(year, month);
    s.append(key.as_str());
    proof {
        reveal_strlit("/");
        assert("/"@ =~= seq!['/']);
        assert(s@ =~= spec_invoices_path(root@, year as int, month as int));
    }
    s
}

/// Builds `root/YYYY/MM` for the monthly balance.
pub fn monthly_balance_location(root: &str, year: i32, month: u32) -> (r: String)
    requires
        0 <= year <= 9999,
        month <= 12,
    ensures
        r@ == spec_monthly_balance_path(root@, year as int, month as int),
{
    let mut s = root.to_owned();
    s.append("/");
    let y = u32_string(year as u32);
    s.append(y.as_str());
    s.append("/");
    let m = month2_string(month);
    s.append(m.as_str());
    proof {
        reveal_strlit("/");
        assert("/"@ =~= seq!['/']);
        assert(s@ =~= spec_monthly_balance_path(root@, year as int, month as int));
    }
    s
}

/// The invoices directory for the current month.
pub fn get_save_location_invoices(root: &str) -> (r: String)
    ensures
        exists|d: UtcDateTime|
            d.wf() && d.year_in_range() && r@ == spec_invoices_path(
                root@,
                d.year as int,
                d.month as int,
            ),
{
    let d = now_utc();
    let r = invoices_location(root, d.year, d.month);
    proof {
        assert(d.wf() && d.year_in_range() && r@ == spec_invoices_path(
            root@,
            d.year as int,
            d.month as int,
        ));
    }
    r
}

/// The dated save directory `root/YYYY/YYYY_MM` for the current month.
pub fn get_save_loaction(root: &str) -> (r: String)
    ensures
        exists|d: UtcDateTime|
            d.wf() && d.year_in_range() && r@ == spec_invoices_path(
                root@,
                d.year as int,
                d.month as int,
            ),
{
    get_save_location_invoices(root)
}

/// The monthly-balance directory for the previous calendar month.
pub fn get_save_location_monthly_balance(root: &str) -> (r: String)
    ensures
        exists|d: UtcDateTime|
            d.wf() && d.year_in_range() && ({
                let (py, pm) = spec_previous_month(d.year as int, d.month as int);
                r@ == spec_monthly_balance_path(root@, py, pm)
            }),
{
    let d = now_utc();
    let (py, pm) = previous_month(d.year, d.month);
    let r = monthly_balance_location(root, py, pm);
    proof {
        assert(d.wf() && d.year_in_range() && ({
            let (py2, pm2) = spec_previous_month(d.year as int, d.month as int);
            r@ == spec_monthly_balance_path(root@, py2, pm2)
        }));
    }
    r
}

/// Routes a subject to its save location: subjects holding the configured
/// monthly-balance marker go to the previous month's balance folder, all
/// others to the current month's invoices folder.
pub fn setup_save_location(subject: &str, config: &SaveLocationConfig) -> (r: String)
    ensures
        contains_seq(subject@, config.monthly_balance_subject@) ==> exists|d: UtcDateTime|
            d.wf() && d.year_in_range() && ({
                let (py, pm) = spec_previous_month(d.year as int, d.month as int);
                r@ == spec_monthly_balance_path(config.root_monthly_summary_balance@, py, pm)
            }),
        !contains_seq(subject@, config.monthly_balance_subject@) ==> exists|d: UtcDateTime|
            d.wf() && d.year_in_range() && r@ == spec_invoices_path(
                config.root_save_location@,
                d.year as int,
                d.month as int,
            ),
{
    if contains_str(subject, config.monthly_balance_subject.as_str()) {
        get_save_location_monthly_balance(config.root_monthly_summary_balance.as_str())
    } else {
        get_save_location_invoices(config.root_save_location.as_str())
    }
}

/// The directory the invoices `open` command targets: the current month's
/// folder when no month is named, else `root/<year>/<year_month>` with the
/// year read from the `YYYY_MM` argument.
pub fn invoices_open_path(root: &str, year_month: &str) -> (r: String)
    ensures
        year_month@.len() == 0 ==> exists|d: UtcDateTime|
            d.wf() && d.year_in_range() && r@ == spec_invoices_path(
                root@,
                d.year as int,
                d.month as int,
            ),
        year_month@.len() > 0 ==> r@ == root@ + seq!['/'] + spec_prefix_before(year_month@, '_')
            + seq!['/'] + year_month@,
{
    if year_month.unicode_len() == 0 {
        get_save_location_invoices(root)
    } else {
        let mut s = root.to_owned();
        s.append("/");
        let y = prefix_before(year_month, '_');
        s.append(y.as_str());
        s.append("/");
        s.append(year_month);
        proof {
            reveal_strlit("/");
            assert("/"@ =~= seq!['/']);
            assert(s@ =~= root@ + seq!['/'] + spec_prefix_before(year_month@, '_') + seq!['/']
                + year_month@);
        }
        s
    }
}

/// Whether a directory entry counts as a saved attachment: the bookkeeping
/// names `.`, `..` and `.DS_Store` do not.
pub fn keep_saved_file(name: &str) -> (r: bool)
    ensures
        r == (name@ != "."@ && name@ != ".."@ && name@ != ".DS_Store"@),
{
    let n = name.to_owned();
    let dot = ".".to_owned();
    let dotdot = "..".to_owned();
    let ds_store = ".DS_Store".to_owned();
    !(n.eq(&dot) || n.eq(&dotdot) || n.eq(&ds_store))
}

/// The directory the income `open` command targets: the current year's folder
/// when no year is named, else `root/<year>`.
pub fn income_open_path(root: &str, year: &str) -> (r: String)
    ensures
        year@.len() == 0 ==> exists|d: UtcDateTime|
            d.wf() && d.year_in_range() && r@ == root@ + seq!['/'] + spec_year4(d.year as int),
        year@.len() > 0 ==> r@ == root@ + seq!['/'] + year@,
{
    let mut s = root.to_owned();
    s.append("/");
    proof {
        reveal_strlit("/");
        assert("/"@ =~= seq!['/']);
    }
    if year.unicode_len() == 0 {
        let d = now_utc();
        let y = year4_string(d.year);
        s.append(y.as_str());
        proof {
            assert(d.wf() && d.year_in_range() && s@ =~= root@ + seq!['/'] + spec_year4(
                d.year as int,
            ));
        }
        s
    } else {
        s.append(year);
        proof {
            assert(s@ =~= root@ + seq!['/'] + year@);
        }
        s
    }
}

} // verus!
