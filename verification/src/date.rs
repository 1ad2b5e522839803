//! Calendar dates for the report header: a plain day/month/year value
//! with its range invariant, a verified `DD/MM/YYYY` renderer, and the
//! one trusted call that asks the system clock for today's date.

use crate::num::append_four_digits;
use crate::num::append_two_digits;
use crate::num::four_digits;
use crate::num::two_digits;
use vstd::prelude::*;
use vstd::string::*;

use chrono::Datelike;

verus! {

/// A calendar date as plain values. Only the ranges are claimed, not
/// calendar validity of the combination.
#[derive(Clone, Copy, PartialEq, Eq, Structural, Debug)]
pub struct Date {
    /// Day of month, 1 to 31.
    pub day: u8,
    /// Month of year, 1 to 12.
    pub month: u8,
    /// Year, 0 to 9999 so that four digits render it.
    pub year: u16,
}

impl Date {
    /// Field ranges that every constructed date satisfies.
    pub open spec fn wf(&self) -> bool {
        &&& 1 <= self.day <= 31
        &&& 1 <= self.month <= 12
        &&& self.year <= 9999
    }

    /// Builds a date, exactly when the fields are in range.
    pub fn new(day: u8, month: u8, year: u16) -> (r: Option<Date>)
        ensures
            r is Some <==> (1 <= day <= 31 && 1 <= month <= 12 && year <= 9999),
            r matches Some(d) ==> d == (Date { day, month, year }) && d.wf(),
    {
        if 1 <= day && day <= 31 && 1 <= month && month <= 12 && year <= 9999 {
            Some(Date { day, month, year })
        } else {
            None
        }
    }
}

/// The header's date text: `DD/MM/YYYY`.
pub open spec fn date_text(d: Date) -> Seq<char> {
    two_digits(d.day as int) + seq!['/'] + two_digits(d.month as int) + seq!['/'] + four_digits(
        d.year as int,
    )
}

/// Renders a date as `DD/MM/YYYY`.
pub fn format_date(d: &Date) -> (r: String)
    requires
        d.wf(),
    ensures
        r@ == date_text(*d),
{
    let mut s = String::new();
    append_two_digits(&mut s, d.day);
    proof {
        reveal_strlit("/");
        assert("/"@ =~= seq!['/']);
    }
    s.append("/");
    append_two_digits(&mut s, d.month);
    s.append("/");
    append_four_digits(&mut s, d.year);
    proof {
        assert(s@ =~= date_text(*d));
    }
    s
}

/// Relies on `chrono::Local::now` and the `Datelike` accessors `year`,
/// `month` and `day` for today's date in the local time zone: `month`
/// ranges from 1 to 12 and `day` from 1 to 31; nothing is claimed of the
/// year, which depends on the clock.
#[verifier::external_body]
fn now_ymd() -> (r: (i32, u32, u32))
    ensures
        1 <= r.1 <= 12,
        1 <= r.2 <= 31,
{
    let now = chrono::Local::now();
    (now.year(), now.month(), now.day())
}

/// Today's date from the system clock, when its year has at most four
/// digits; what comes back depends on the clock, so only well-formedness
/// is promised.
pub fn current_date() -> (r: Option<Date>)
    ensures
        r matches Some(d) ==> d.wf(),
{
    let (y, m, dd) = now_ymd();
    if 0 <= y && y <= 9999 {
        Some(Date { day: dd as u8, month: m as u8, year: y as u16 })
    } else {
        None
    }
}

} // verus!
