//! The current calendar month as a half-open timestamp window
//! [start, end): the first instant of the month and the first instant of
//! the following month, both rendered as ISO-8601 UTC timestamps.

use vstd::prelude::*;

use crate::digits::{i64_to_string, spec_int_str, spec_two_digits, two_digit_string};

verus! {

/// A half-open timestamp interval [start, end).
pub struct DateWindow {
    pub start: String,
    pub end: String,
}

/// The year and month that follow the given month, rolling the year
/// forward after December.
pub open spec fn spec_next_month(year: int, month: int) -> (int, int) {
    if month == 12 {
        (year + 1, 1)
    } else {
        (year, month + 1)
    }
}

/// The first instant of a month, as "YYYY-MM-01T00:00:00Z" (the year is
/// not zero-padded).
pub open spec fn spec_month_start(year: int, month: int) -> Seq<char> {
    spec_int_str(year) + "-"@ + spec_two_digits(month) + "-01T00:00:00Z"@
}

/// Whether a window covers exactly the month given: it starts at the
/// month's first instant and ends at the next month's first instant.
pub open spec fn is_month_window(w: DateWindow, year: int, month: int) -> bool {
    &&& w.start@ == spec_month_start(year, month)
    &&& w.end@ == spec_month_start(
        spec_next_month(year, month).0,
        spec_next_month(year, month).1,
    )
}

/// Build the window of the month given by its year and month number.
pub fn current_month_window(year: i32, month: u32) -> (w: DateWindow)
    requires
        1 <= month <= 12,
        year < i32::MAX,
    ensures
        is_month_window(w, year as int, month as int),
{
    let start = month_start_string(year, month);
    let end = if month == 12 {
        month_start_string(year + 1, 1)
    } else {
        month_start_string(year, month + 1)
    };
    DateWindow { start, end }
}

fn month_start_string(year: i32, month: u32) -> (r: String)
    requires
        1 <= month <= 12,
    ensures
        r@ == spec_month_start(year as int, month as int),
{
    let mut s = i64_to_string(year as i64);
    s.append("-");
    let m = two_digit_string(month as u64);
    s.append(m.as_str());
    s.append("-01T00:00:00Z");
    proof {
        assert(s@ =~= spec_month_start(year as int, month as int));
    }
    s
}

/// The window always moves forward: the end month is exactly one month
/// after the start month, so the end instant lies strictly after the
/// start instant, and December rolls the year over.
pub proof fn lemma_month_window_advances(year: int, month: int)
    requires
        1 <= month <= 12,
    ensures
        1 <= spec_next_month(year, month).1 <= 12,
        spec_next_month(year, month).0 * 12 + spec_next_month(year, month).1 == year * 12 + month
            + 1,
        month == 12 ==> spec_next_month(year, month).0 == year + 1,
{
}

/// Relies on chrono::Utc::now and chrono::Datelike::{year, month} for
/// the current UTC date: the month is documented to lie in 1..=12, and
/// chrono's dates keep the year within a few hundred thousand of zero.
#[verifier::external_body]
fn clock_year_month() -> (r: (i32, u32))
    ensures
        1 <= r.1 <= 12,
        -300000 <= r.0 <= 300000,
{
    let now = chrono::Utc::now();
    (chrono::Datelike::year(&now), chrono::Datelike::month(&now))
}

/// Build the window of the current calendar month, read from the system
/// clock. Whatever instant the clock reports, the result is the exact
/// window of some valid month.
pub fn current_month_window_now() -> (w: DateWindow)
    ensures
        exists|y: int, m: int| 1 <= m <= 12 && is_month_window(w, y, m),
{
    let (year, month) = clock_year_month();
    let w = current_month_window(year, month);
    proof {
        assert(is_month_window(w, year as int, month as int));
    }
    w
}

} // verus!
