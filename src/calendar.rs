use chrono::Datelike;
use vstd::prelude::*;

verus! {

/// Smallest day (counted from 1970-01-01) that the engine accepts.
pub const MIN_EPOCH_DAY: i32 = -90_000_000;

/// Largest day (counted from 1970-01-01) that the engine accepts.
pub const MAX_EPOCH_DAY: i32 = 90_000_000;

/// The period length that activity is rolled up to.
#[derive(Clone, Copy, Debug, PartialEq, Eq, Structural)]
pub enum Granularity {
    /// ISO weeks, starting on Monday.
    Week,
    /// Calendar months.
    Month,
}

/// The calendar (year, month) of a day counted from 1970-01-01, as the
/// proleptic Gregorian calendar gives it; the month runs from 1 to 12.
pub uninterp spec fn civil_year_month(epoch_day: int) -> (int, int);

pub open spec fn day_in_range(day: int) -> bool {
    MIN_EPOCH_DAY <= day <= MAX_EPOCH_DAY
}

/// Index of the ISO week holding a day. Day 0 (1970-01-01) is a Thursday,
/// so week 0 starts on day -3, a Monday.
pub open spec fn week_of(day: int) -> int {
    (day + 3) / 7
}

/// Index of the calendar month holding a day: twelve per year, so that the
/// month before index `m` is `m - 1`.
pub open spec fn month_of(day: int) -> int {
    civil_year_month(day).0 * 12 + civil_year_month(day).1 - 1
}

/// Bound on every week or month index of an accepted day; it leaves room
/// for arithmetic on neighbouring periods.
pub open spec fn period_in_range(p: int) -> bool {
    -0x10_0000_0000 <= p <= 0x10_0000_0000
}

pub open spec fn period_of(g: Granularity, day: int) -> int {
    match g {
        Granularity::Week => week_of(day),
        Granularity::Month => month_of(day),
    }
}

/// Relies on chrono's `NaiveDate::from_epoch_days`, `Datelike::year` and
/// `Datelike::month`: the calendar year and month of a day. chrono covers
/// years -262143 to 262142, which holds every day of the accepted range.
#[verifier::external_body]
fn civil_date(day: i32) -> (r: Option<(i32, u32)>)
    ensures
        day_in_range(day as int) ==> r.is_some(),
        r matches Some(ym) ==> (ym.0 as int, ym.1 as int) == civil_year_month(day as int),
{
    chrono::NaiveDate::from_epoch_days(day).map(|d| (d.year(), d.month()))
}

/// The index of a calendar month: twelve per year, January of year 0 being 0.
pub fn month_index(year: i32, month: u32) -> (r: i64)
    ensures
        r as int == year as int * 12 + month as int - 1,
{
    year as i64 * 12 + month as i64 - 1
}

/// The week or month index of a day counted from 1970-01-01.
pub fn period_of_day(g: Granularity, day: i32) -> (r: i64)
    requires
        day_in_range(day as int),
    ensures
        r as int == period_of(g, day as int),
        period_in_range(r as int),
{
    match g {
        Granularity::Week => {
            let shifted = day as i64 + 3;
            let q = shifted / 7;
            let m = shifted % 7;
            if m < 0 {
                q - 1
            } else {
                q
            }
        },
        Granularity::Month => {
            let (y, m) = civil_date(day).unwrap();
            month_index(y, m)
        },
    }
}

} // verus!
