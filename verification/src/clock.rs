//! The current calendar date, read from the machine clock.

use vstd::prelude::*;
use crate::date::{days_in_month_of, Date};

verus! {

/// Relies on chrono's `Local::now`, `DateTime::date_naive` and the
/// `Datelike` accessors: the month is in 1..=12 and the day in 1..=31.
/// The value itself depends on the clock and the time zone, so nothing more
/// is promised.
#[verifier::external_body]
fn now_ymd() -> (r: (i64, u32, u32))
    ensures
        1 <= r.1 <= 12,
        1 <= r.2 <= 31,
{
    let d = chrono::Local::now().date_naive();
    (
        chrono::Datelike::year(&d) as i64,
        chrono::Datelike::month(&d),
        chrono::Datelike::day(&d),
    )
}

/// The machine's current calendar date.  Nothing when it falls outside the
/// four-digit year range the store's date texts carry; whatever is returned
/// is a well-formed date.
pub fn current_date() -> (r: Option<Date>)
    ensures
        r matches Some(d) ==> d.wf(),
{
    let (y, mo, da) = now_ymd();
    if y < 0 || y > 9999 {
        return None;
    }
    let yy = y as u32;
    let dim = days_in_month_of(yy, mo);
    if da < 1 || da > dim {
        return None;
    }
    Some(Date { year: yy, month: mo, day: da })
}

} // verus!
