//! Dates: three numbers, written `month/day/year`.
//!
//! A date is not held to the calendar: any three numbers that fit in 32 bits
//! make one, and `13/40/1999` is read and printed like any other.

use crate::number::{
    decimal_digits, is_digit, lemma_decimal_digits, lemma_number_round_trip, parse_number,
    push_decimal, read_number,
};
use crate::text::{chars_of, find_char, lemma_position_is, position};
use vstd::prelude::*;
use vstd::slice::slice_subrange;

verus! {

/// A date. The text form gives the month first, then the day, then the year.
#[derive(Clone, Copy, Debug, PartialEq, Eq, Structural)]
pub struct Date {
    pub day: u32,
    pub month: u32,
    pub year: u32,
}

/// Why a text is not a date.
#[derive(Clone, Copy, Debug, PartialEq, Eq, Structural)]
pub enum DateError {
    /// The text holds fewer than two `/`, so fewer than three parts.
    MissingSegment,
    /// One of the three parts is not a number that fits in 32 bits.
    InvalidNumber,
}

/// The text form of `d`: month, day and year in decimal, with `/` between
/// them.
pub open spec fn render_date(d: Date) -> Seq<char> {
    decimal_digits(d.month as nat) + seq!['/'] + decimal_digits(d.day as nat) + seq!['/']
        + decimal_digits(d.year as nat)
}

/// The date that `s` denotes. The first part runs up to the first `/`, the
/// second up to the next `/`, and the third is all that follows; each must be
/// a number, so a text with a third `/` is no date.
pub open spec fn parse_date(s: Seq<char>) -> Result<Date, DateError> {
    let i = position(s, '/', 0);
    let j = position(s, '/', i + 1);
    if i >= s.len() || j >= s.len() {
        Err(DateError::MissingSegment)
    } else {
        match (
            parse_number(s.subrange(0, i)),
            parse_number(s.subrange(i + 1, j)),
            parse_number(s.subrange(j + 1, s.len() as int)),
        ) {
            (Some(month), Some(day), Some(year)) => Ok(Date { day, month, year }),
            _ => Err(DateError::InvalidNumber),
        }
    }
}

/// The line that shows `name` with the date `d` in a listing.
pub open spec fn listing_line(name: Seq<char>, d: Date) -> Seq<char> {
    name + " <--> "@ + render_date(d)
}

/// Reads the date that `s` denotes.
pub fn read_date(s: &[char]) -> (r: Result<Date, DateError>)
    ensures
        r == parse_date(s@),
{
    let i: usize = find_char(s, '/', 0);
    if i >= s.len() {
        return Err(DateError::MissingSegment);
    }
    let j: usize = find_char(s, '/', i + 1);
    if j >= s.len() {
        return Err(DateError::MissingSegment);
    }
    let month = read_number(slice_subrange(s, 0, i));
    let day = read_number(slice_subrange(s, i + 1, j));
    let year = read_number(slice_subrange(s, j + 1, s.len()));
    match (month, day, year) {
        (Some(month), Some(day), Some(year)) => Ok(Date { day, month, year }),
        _ => Err(DateError::InvalidNumber),
    }
}

impl Date {
    /// The date with the given day, month and year.
    pub fn new(day: u32, month: u32, year: u32) -> (d: Date)
        ensures
            d == (Date { day, month, year }),
    {
        Date { day, month, year }
    }

    /// Reads a date from its text form `month/day/year`.
    pub fn convert_to_date(date: String) -> (r: Result<Date, DateError>)
        ensures
            r == parse_date(date@),
    {
        let chars = chars_of(date.as_str());
        read_date(chars.as_slice())
    }

    /// Whether the two dates agree in day, month and year.
    pub fn equals(&self, other: &Date) -> (b: bool)
        ensures
            b == (*self == *other),
    {
        self.day == other.day && self.month == other.month && self.year == other.year
    }

    /// The text form of the date, which `convert_to_date` reads back.
    pub fn format(&self) -> (r: String)
        ensures
            r@ == render_date(*self),
            parse_date(r@) == Ok::<Date, DateError>(*self),
    {
        let mut out = String::new();
        push_decimal(&mut out, self.month);
        out.append("/");
        push_decimal(&mut out, self.day);
        out.append("/");
        push_decimal(&mut out, self.year);
        proof {
            reveal_strlit("/");
            assert("/"@ =~= seq!['/']);
            assert(out@ =~= render_date(*self));
            lemma_date_round_trip(*self);
        }
        out
    }

    /// The line that shows `name` with this date in a listing.
    pub fn as_line(&self, name: &String) -> (r: String)
        ensures
            r@ == listing_line(name@, *self),
    {
        let mut out = name.clone();
        out.append(" <--> ");
        let date = self.format();
        out.append(date.as_str());
        out
    }
}

/// No digit printed for a number is the character `c`, where `c` is no
/// digit.
pub proof fn lemma_digits_exclude(n: nat, c: char)
    requires
        !is_digit(c),
    ensures
        forall|k: int| 0 <= k < decimal_digits(n).len() ==> decimal_digits(n)[k] != c,
{
    lemma_decimal_digits(n);
}

/// Reading the text form of a date gives that date back.
pub proof fn lemma_date_round_trip(d: Date)
    ensures
        parse_date(render_date(d)) == Ok::<Date, DateError>(d),
{
    let m = decimal_digits(d.month as nat);
    let dd = decimal_digits(d.day as nat);
    let y = decimal_digits(d.year as nat);
    let s = render_date(d);
    lemma_digits_exclude(d.month as nat, '/');
    lemma_digits_exclude(d.day as nat, '/');
    let i = m.len() as int;
    let j = i + 1 + dd.len();
    lemma_position_is(s, '/', 0, i);
    lemma_position_is(s, '/', i + 1, j);
    assert(s.subrange(0, i) =~= m);
    assert(s.subrange(i + 1, j) =~= dd);
    assert(s.subrange(j + 1, s.len() as int) =~= y);
    lemma_number_round_trip(d.month);
    lemma_number_round_trip(d.day);
    lemma_number_round_trip(d.year);
}

} // verus!
