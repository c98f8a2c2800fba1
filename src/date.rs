//! Calendar dates as the ledger records them, read with chrono.
use chrono::Datelike;
use vstd::prelude::*;

use crate::text::{decimal_text, padded_decimal, push_char, push_decimal, push_padded_decimal};

verus! {

/// A calendar date held as plain numbers.
#[derive(Clone, Copy, Debug, PartialEq, Eq, Structural)]
pub struct LedgerDate {
    pub year: i32,
    pub month: u32,
    pub day: u32,
}

impl LedgerDate {
    /// Month and day lie in their calendar ranges.
    pub open spec fn wf(self) -> bool {
        1 <= self.month <= 12 && 1 <= self.day <= 31
    }

    /// The date as a triple of integers (year, month, day).
    pub open spec fn triple(self) -> (int, int, int) {
        (self.year as int, self.month as int, self.day as int)
    }
}

/// What chrono's `NaiveDate::parse_from_str` reads from `text` under the strftime
/// pattern `format`, as (year, month, day); `None` where it reports an error.
pub uninterp spec fn parsed_date(text: Seq<char>, format: Seq<char>) -> Option<(int, int, int)>;

/// Relies on `chrono::NaiveDate::parse_from_str`: the date it reads depends on the
/// text and the pattern alone, and a `NaiveDate` has a month in 1..=12 and a day in
/// 1..=31 (documented on `Datelike::month` and `Datelike::day`).
#[verifier::external_body]
pub(crate) fn parse_date(text: &str, format: &str) -> (r: Option<LedgerDate>)
    ensures
        r is Some <==> parsed_date(text@, format@) is Some,
        r matches Some(d) ==> parsed_date(text@, format@) == Some(d.triple()) && d.wf(),
{
    match chrono::NaiveDate::parse_from_str(text, format) {
        Ok(d) => Some(LedgerDate { year: d.year(), month: d.month(), day: d.day() }),
        Err(_) => None,
    }
}

/// The year modulo 100, always in 0..100.
pub open spec fn year_mod_100(year: int) -> nat {
    (year % 100) as nat
}

/// A date as a QIF `D` field value: `M/D'YY`.
pub open spec fn qif_date_text(d: LedgerDate) -> Seq<char> {
    decimal_text(d.month as nat) + seq!['/'] + decimal_text(d.day as nat) + seq!['\'']
        + padded_decimal(year_mod_100(d.year as int), 2)
}

/// A year as strftime's `%Y` writes it: four digits, with a sign outside 0..=9999.
pub open spec fn full_year_text(year: int) -> Seq<char> {
    if 0 <= year <= 9999 {
        padded_decimal(year as nat, 4)
    } else if year < 0 {
        seq!['-'] + padded_decimal((-year) as nat, 4)
    } else {
        seq!['+'] + padded_decimal(year as nat, 4)
    }
}

/// A date as strftime's `%m/%d/%Y` writes it.
pub open spec fn month_day_year_text(d: LedgerDate) -> Seq<char> {
    padded_decimal(d.month as nat, 2) + seq!['/'] + padded_decimal(d.day as nat, 2) + seq!['/']
        + full_year_text(d.year as int)
}

/// A date as strftime's `%y%m%d` writes it.
pub open spec fn compact_date_text(d: LedgerDate) -> Seq<char> {
    padded_decimal(year_mod_100(d.year as int), 2) + padded_decimal(d.month as nat, 2)
        + padded_decimal(d.day as nat, 2)
}

fn year_mod(year: i32) -> (r: u32)
    ensures
        r as nat == year_mod_100(year as int),
        r < 100,
{
    if year >= 0 {
        (year % 100) as u32
    } else {
        let a: u32 = (-(year as i64)) as u32;
        let m: u32 = a % 100;
        if m == 0 {
            0
        } else {
            100 - m
        }
    }
}

/// Appends the date as a QIF `D` field value.
pub fn push_qif_date(s: &mut String, d: LedgerDate)
    ensures
        final(s)@ == old(s)@ + qif_date_text(d),
{
    push_decimal(s, d.month);
    push_char(s, '/');
    push_decimal(s, d.day);
    push_char(s, '\'');
    push_padded_decimal(s, year_mod(d.year), 2);
    assert(s@ =~= old(s)@ + qif_date_text(d));
}

/// Appends the year as strftime's `%Y` writes it.
fn push_full_year(s: &mut String, year: i32)
    ensures
        final(s)@ == old(s)@ + full_year_text(year as int),
{
    if 0 <= year && year <= 9999 {
        push_padded_decimal(s, year as u32, 4);
    } else if year < 0 {
        push_char(s, '-');
        push_padded_decimal(s, (-(year as i64)) as u32, 4);
        assert(s@ =~= old(s)@ + full_year_text(year as int));
    } else {
        push_char(s, '+');
        push_padded_decimal(s, year as u32, 4);
        assert(s@ =~= old(s)@ + full_year_text(year as int));
    }
}

/// Appends the date as strftime's `%m/%d/%Y` writes it.
pub fn push_month_day_year(s: &mut String, d: LedgerDate)
    ensures
        final(s)@ == old(s)@ + month_day_year_text(d),
{
    push_padded_decimal(s, d.month, 2);
    push_char(s, '/');
    push_padded_decimal(s, d.day, 2);
    push_char(s, '/');
    push_full_year(s, d.year);
    assert(s@ =~= old(s)@ + month_day_year_text(d));
}

/// Appends the date as strftime's `%y%m%d` writes it.
pub fn push_compact_date(s: &mut String, d: LedgerDate)
    ensures
        final(s)@ == old(s)@ + compact_date_text(d),
{
    push_padded_decimal(s, year_mod(d.year), 2);
    push_padded_decimal(s, d.month, 2);
    push_padded_decimal(s, d.day, 2);
    assert(s@ =~= old(s)@ + compact_date_text(d));
}

} // verus!
