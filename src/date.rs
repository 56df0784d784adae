//! Install dates, read with chrono's date parser into a date of the library's own.

use chrono::{Datelike, Timelike};
use vstd::prelude::*;

use crate::text::{chars_of, string_of, trim, trim_range};

verus! {

/// A calendar date and a time of day, as the package manager writes an install date.
#[derive(Clone, Copy, Debug, PartialEq, Eq, Structural)]
pub struct InstallDate {
    pub year: i32,
    pub month: u32,
    pub day: u32,
    pub hour: u32,
    pub minute: u32,
    pub second: u32,
}

impl InstallDate {
    /// `self` comes before `other`: the year decides, then the month, the
    /// day, the hour, the minute and the second.
    pub open spec fn earlier(self, other: InstallDate) -> bool {
        if self.year != other.year {
            self.year < other.year
        } else if self.month != other.month {
            self.month < other.month
        } else if self.day != other.day {
            self.day < other.day
        } else if self.hour != other.hour {
            self.hour < other.hour
        } else if self.minute != other.minute {
            self.minute < other.minute
        } else {
            self.second < other.second
        }
    }

    /// The ranges that a calendar date and a time of day keep.
    pub open spec fn valid(self) -> bool {
        &&& 1 <= self.month <= 12
        &&& 1 <= self.day <= 31
        &&& self.hour <= 23
        &&& self.minute <= 59
        &&& self.second <= 59
    }
}

/// What chrono's parser reads from `text` by the strftime-style `format`.
pub uninterp spec fn date_time_parse(text: Seq<char>, format: Seq<char>) -> Option<InstallDate>;

/// Relies on chrono's `NaiveDateTime::parse_from_str`, which reads a date and
/// time by the format or fails, and on the ranges that chrono's `Datelike`
/// (`month` 1 to 12, `day` 1 to 31) and `Timelike` (`hour` 0 to 23, `minute`
/// and `second` 0 to 59) document for what it read.
#[verifier::external_body]
fn parse_date_time(text: &str, format: &str) -> (r: Option<InstallDate>)
    ensures
        r == date_time_parse(text@, format@),
        r matches Some(d) ==> d.valid(),
{
    match chrono::NaiveDateTime::parse_from_str(text, format) {
        Ok(t) => Some(
            InstallDate {
                year: t.year(),
                month: t.month(),
                day: t.day(),
                hour: t.hour(),
                minute: t.minute(),
                second: t.second(),
            },
        ),
        Err(_) => None,
    }
}

/// The date that an install-date text such as `Mon 15 Jan 2024 10:30:00 AM CET`
/// gives: its last four characters (the space and the zone) are dropped and
/// the rest is read as `%a %d %b %Y %I:%M:%S %p`. A blank or shorter text
/// gives none.
pub open spec fn install_date(text: Seq<char>) -> Option<InstallDate> {
    if trim(text).len() == 0 || text.len() < 4 {
        None
    } else {
        date_time_parse(text.take(text.len() - 4), "%a %d %b %Y %I:%M:%S %p"@)
    }
}

/// Reads an install-date text as `install_date` says.
pub fn parse_install_date(text: &str) -> (r: Option<InstallDate>)
    ensures
        r == install_date(text@),
        r matches Some(d) ==> d.valid(),
{
    let v = chars_of(text);
    let n = v.len();
    let (a, b) = trim_range(&v, 0, n);
    assert(v@.subrange(0, n as int) =~= v@);
    if a == b || n < 4 {
        return None;
    }
    let head = string_of(&v, 0, n - 4);
    assert(v@.subrange(0, n - 4) =~= v@.take(n - 4));
    parse_date_time(head.as_str(), "%a %d %b %Y %I:%M:%S %p")
}

/// The order of dates as one number: later dates rank higher, and no date
/// ranks below every date.
pub open spec fn date_rank(d: Option<InstallDate>) -> int {
    match d {
        None => 0,
        Some(d) => 1 + (((((d.year as int + 2147483648) * 13 + d.month) * 32 + d.day) * 24
            + d.hour) * 60 + d.minute) * 60 + d.second,
    }
}

/// Every date ranks above no date.
pub proof fn lemma_dated_ranks_higher(d: InstallDate)
    ensures
        date_rank(None) < date_rank(Some(d)),
{
    let y = d.year as int + 2147483648;
    assert(y >= 0);
    assert((((((y * 13 + d.month) * 32 + d.day) * 24 + d.hour) * 60 + d.minute) * 60 + d.second) >= 0)
        by (nonlinear_arith)
        requires y >= 0;
}

/// Of two valid dates, the earlier one ranks lower.
pub proof fn lemma_date_rank_orders(a: InstallDate, b: InstallDate)
    requires
        a.valid(),
        b.valid(),
    ensures
        date_rank(Some(a)) < date_rank(Some(b)) <==> a.earlier(b),
{
    let ya = a.year as int + 2147483648;
    let yb = b.year as int + 2147483648;
    let da = a.month as int * 2764800 + a.day as int * 86400 + a.hour as int * 3600
        + a.minute as int * 60 + a.second as int;
    let db = b.month as int * 2764800 + b.day as int * 86400 + b.hour as int * 3600
        + b.minute as int * 60 + b.second as int;
    assert(date_rank(Some(a)) == 1 + ya * 35942400 + da) by (nonlinear_arith)
        requires
            ya == a.year as int + 2147483648,
            da == a.month as int * 2764800 + a.day as int * 86400 + a.hour as int * 3600
                + a.minute as int * 60 + a.second as int,
            date_rank(Some(a)) == 1 + (((((a.year as int + 2147483648) * 13 + a.month) * 32
                + a.day) * 24 + a.hour) * 60 + a.minute) * 60 + a.second;
    assert(date_rank(Some(b)) == 1 + yb * 35942400 + db) by (nonlinear_arith)
        requires
            yb == b.year as int + 2147483648,
            db == b.month as int * 2764800 + b.day as int * 86400 + b.hour as int * 3600
                + b.minute as int * 60 + b.second as int,
            date_rank(Some(b)) == 1 + (((((b.year as int + 2147483648) * 13 + b.month) * 32
                + b.day) * 24 + b.hour) * 60 + b.minute) * 60 + b.second;
    assert(0 <= da < 35942400);
    assert(0 <= db < 35942400);
    assert(ya < yb ==> ya * 35942400 + da < yb * 35942400 + db) by (nonlinear_arith)
        requires
            0 <= da < 35942400,
            0 <= db < 35942400,
    ;
    assert(ya > yb ==> ya * 35942400 + da > yb * 35942400 + db) by (nonlinear_arith)
        requires
            0 <= da < 35942400,
            0 <= db < 35942400,
    ;
}

/// `date_rank` of a valid date, or of none.
pub fn rank_of_date(d: Option<InstallDate>) -> (r: u64)
    requires
        d matches Some(x) ==> x.valid(),
    ensures
        r == date_rank(d),
{
    match d {
        None => 0,
        Some(x) => {
            let y = (x.year as i64 + 2147483648) as u64;
            assert(((((y * 13 + x.month) * 32 + x.day) * 24 + x.hour) * 60 + x.minute) * 60
                + x.second < 160000000000000000) by (nonlinear_arith)
                requires
                    y < 4294967296,
                    x.valid(),
            ;
            1 + ((((y * 13 + x.month as u64) * 32 + x.day as u64) * 24 + x.hour as u64) * 60
                + x.minute as u64) * 60 + x.second as u64
        },
    }
}

} // verus!
