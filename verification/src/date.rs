//! Calendar dates in the `YYYY-MM-DD` text form the store uses.
//!
//! A date is held as its three numeric components with the usual Gregorian
//! validity rules.  Parsing accepts exactly the ten-character canonical text;
//! for such texts, ordering the texts byte-wise and ordering the parsed
//! components agree.

use vstd::prelude::*;
use crate::digits::{
    all_digits, digits_val, lemma_digits_val_bound, lemma_pow10_values, parse_digits, pow10,
};

verus! {

/// A calendar date.  Fields are public for contracts; well-formed values
/// satisfy [`Date::wf`], and every `Date` this crate hands out does.
#[derive(Clone, Copy, PartialEq, Eq, Structural, Debug)]
pub struct Date {
    pub year: u32,
    pub month: u32,
    pub day: u32,
}

/// Gregorian leap-year rule.
pub open spec fn is_leap_year(y: int) -> bool {
    (y % 4 == 0 && y % 100 != 0) || y % 400 == 0
}

/// The number of days of month `m` of year `y`.
pub open spec fn days_in_month(y: int, m: int) -> int {
    if m == 2 {
        if is_leap_year(y) {
            29
        } else {
            28
        }
    } else if m == 4 || m == 6 || m == 9 || m == 11 {
        30
    } else {
        31
    }
}

impl Date {
    /// A real calendar date whose year fits the four-digit text form.
    pub open spec fn wf(self) -> bool {
        &&& self.year <= 9999
        &&& 1 <= self.month <= 12
        &&& 1 <= self.day <= days_in_month(self.year as int, self.month as int)
    }
}

/// Strict chronological order on dates, component-wise.
pub open spec fn date_lt(a: Date, b: Date) -> bool {
    ||| a.year < b.year
    ||| (a.year == b.year && a.month < b.month)
    ||| (a.year == b.year && a.month == b.month && a.day < b.day)
}

/// Chronological order, allowing equality.
pub open spec fn date_le(a: Date, b: Date) -> bool {
    date_lt(a, b) || a == b
}

/// The date the text `s` spells, meaningful only when `valid_date_text(s)`.
pub open spec fn date_of_text(s: Seq<char>) -> Date {
    Date {
        year: digits_val(s.subrange(0, 4)) as u32,
        month: digits_val(s.subrange(5, 7)) as u32,
        day: digits_val(s.subrange(8, 10)) as u32,
    }
}

/// Whether `s` is a canonical `YYYY-MM-DD` text naming a real calendar date.
pub open spec fn valid_date_text(s: Seq<char>) -> bool {
    &&& s.len() == 10
    &&& s[4] == '-'
    &&& s[7] == '-'
    &&& all_digits(s.subrange(0, 4))
    &&& all_digits(s.subrange(5, 7))
    &&& all_digits(s.subrange(8, 10))
    &&& date_of_text(s).wf()
}

/// The number of days of month `m` of year `y`.
pub fn days_in_month_of(y: u32, m: u32) -> (r: u32)
    ensures
        r as int == days_in_month(y as int, m as int),
{
    if m == 2 {
        if (y % 4 == 0 && y % 100 != 0) || y % 400 == 0 {
            29
        } else {
            28
        }
    } else if m == 4 || m == 6 || m == 9 || m == 11 {
        30
    } else {
        31
    }
}

/// Parses a `YYYY-MM-DD` text.  Returns nothing exactly when the text is not
/// a canonical spelling of a real calendar date.
pub fn parse_date(s: &str) -> (r: Option<Date>)
    ensures
        r is Some <==> valid_date_text(s@),
        r is Some ==> r.unwrap() == date_of_text(s@) && r.unwrap().wf(),
{
    if s.unicode_len() != 10 {
        return None;
    }
    if s.get_char(4) != '-' {
        return None;
    }
    if s.get_char(7) != '-' {
        return None;
    }
    let y64 = match parse_digits(s, 0, 4) {
        Some(v) => v,
        None => {
            return None;
        },
    };
    let m64 = match parse_digits(s, 5, 7) {
        Some(v) => v,
        None => {
            return None;
        },
    };
    let d64 = match parse_digits(s, 8, 10) {
        Some(v) => v,
        None => {
            return None;
        },
    };
    proof {
        lemma_digits_val_bound(s@.subrange(0, 4));
        lemma_digits_val_bound(s@.subrange(5, 7));
        lemma_digits_val_bound(s@.subrange(8, 10));
        lemma_pow10_values();
        assert(pow10(4) == 10000);
        assert(pow10(2) == 100);
    }
    let y = y64 as u32;
    let m = m64 as u32;
    let d = d64 as u32;
    if m < 1 || m > 12 {
        return None;
    }
    let dim = days_in_month_of(y, m);
    if d < 1 || d > dim {
        return None;
    }
    Some(Date { year: y, month: m, day: d })
}

/// Strict chronological comparison.
pub fn date_before(a: &Date, b: &Date) -> (r: bool)
    ensures
        r == date_lt(*a, *b),
{
    if a.year != b.year {
        a.year < b.year
    } else if a.month != b.month {
        a.month < b.month
    } else {
        a.day < b.day
    }
}

} // verus!
