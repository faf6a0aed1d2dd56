//! The date classifier: reads the date that a file name encodes under a
//! date format, or finds that it encodes none.

use crate::date::CalendarDate;
use chrono::{Datelike, NaiveDate};
use vstd::prelude::*;

verus! {

/// The year, month and day of the date that `chrono::NaiveDate::parse_from_str`
/// reads from the text `name` under the pattern `format`; `None` where it
/// reports an error, as it does when `name` matches only in part or when
/// anything is left of it after the match.
pub uninterp spec fn parsed_date(name: Seq<char>, format: Seq<char>) -> Option<(i32, u32, u32)>;

/// The digits of 2147483648, the magnitude of the least year that the parser
/// can hold.
pub open spec fn least_year_digits() -> Seq<char> {
    seq!['2', '1', '4', '7', '4', '8', '3', '6', '4', '8']
}

/// Whether `part` stands in `text` from place `at` on.
pub open spec fn holds_run_at(text: Seq<char>, part: Seq<char>, at: int) -> bool {
    0 <= at && at + part.len() <= text.len() && text.subrange(at, at + part.len()) == part
}

/// Whether `part` stands in `text`, its characters in a row.
pub open spec fn holds_run(text: Seq<char>, part: Seq<char>) -> bool {
    exists|at: int| holds_run_at(text, part, at)
}

/// Whether the parser can be given `name` under `format`.
///
/// The parser fails on one kind of input, by an overflow: from the year of an
/// ISO week date that is the least 32-bit integer it goes back one year, to
/// find the Monday of the first week. Only the specifier with the letter `G`
/// reads such a year, and only from the digits 2147483648. So an input is
/// safe where the format holds no `G`, or the name does not hold these
/// digits in a row.
pub open spec fn safe_to_parse(name: Seq<char>, format: Seq<char>) -> bool {
    !format.contains('G') || !holds_run(name, least_year_digits())
}

/// Calls `chrono::NaiveDate::parse_from_str` and takes the date apart with
/// `Datelike::year`, `month` and `day`. Nothing is proved of it: the contract
/// leaves out the texts on which the parser overflows and gives the outcome
/// on all others its name, a function of the two texts alone.
#[verifier::external_body]
fn parse_date(name: &str, format: &str) -> (r: Option<(i32, u32, u32)>)
    requires
        safe_to_parse(name@, format@),
    ensures
        r == parsed_date(name@, format@),
{
    match NaiveDate::parse_from_str(name, format) {
        Ok(date) => Some((date.year(), date.month(), date.day())),
        Err(_) => None,
    }
}

/// The calendar date with the given year, month and day, where there are
/// such fields and the month and the day are in range.
pub open spec fn date_of(parts: Option<(i32, u32, u32)>) -> Option<CalendarDate> {
    match parts {
        Some((year, month, day)) => if 1 <= month <= 12 && 1 <= day <= 31 {
            Some(CalendarDate { year, month, day })
        } else {
            None
        },
        None => None,
    }
}

/// The date that `name` encodes under `format`, if it encodes one. A name
/// that the parser cannot be given encodes none.
pub open spec fn classified(name: Seq<char>, format: Seq<char>) -> Option<CalendarDate> {
    if safe_to_parse(name, format) {
        date_of(parsed_date(name, format))
    } else {
        None
    }
}

/// The characters of `s`.
fn chars_of(s: &str) -> (v: Vec<char>)
    ensures
        v@ == s@,
{
    let mut v: Vec<char> = Vec::new();
    for c in it: s.chars()
        invariant
            it.seq() == s@,
            v@ == s@.take(it.index() as int),
    {
        v.push(c);
        assert(v@ =~= s@.take(it.index() + 1));
    }
    assert(v@ =~= s@);
    v
}

/// Whether `c` is among `text`.
fn has_char(text: &Vec<char>, c: char) -> (b: bool)
    ensures
        b == text@.contains(c),
{
    let mut i: usize = 0;
    while i < text.len()
        invariant
            i <= text@.len(),
            forall|j: int| 0 <= j < i ==> text@[j] != c,
        decreases text@.len() - i,
    {
        if text[i] == c {
            return true;
        }
        i = i + 1;
    }
    false
}

/// Whether `part` stands in `text` from place `at` on.
fn has_run_at(text: &Vec<char>, part: &Vec<char>, at: usize) -> (b: bool)
    requires
        at + part.len() <= text.len(),
    ensures
        b == holds_run_at(text@, part@, at as int),
{
    let mut k: usize = 0;
    while k < part.len()
        invariant
            k <= part.len(),
            at + part.len() <= text.len(),
            forall|t: int| 0 <= t < k ==> text@[at + t] == part@[t],
        decreases part@.len() - k,
    {
        if text[at + k] != part[k] {
            assert(text@.subrange(at as int, at + part@.len())[k as int] != part@[k as int]);
            return false;
        }
        k = k + 1;
    }
    assert(text@.subrange(at as int, at + part@.len()) =~= part@);
    true
}

/// Whether `part` stands in `text`, its characters in a row.
fn has_run(text: &Vec<char>, part: &Vec<char>) -> (b: bool)
    ensures
        b == holds_run(text@, part@),
{
    if part.len() > text.len() {
        return false;
    }
    let last: usize = text.len() - part.len();
    let mut i: usize = 0;
    loop
        invariant
            i <= last,
            last + part.len() == text.len(),
            forall|j: int| 0 <= j < i ==> !holds_run_at(text@, part@, j),
        decreases last - i,
    {
        if has_run_at(text, part, i) {
            return true;
        }
        if i == last {
            return false;
        }
        i = i + 1;
    }
}

/// Whether the parser can be given `name` under `format`.
pub fn is_safe_to_parse(name: &str, format: &str) -> (b: bool)
    ensures
        b == safe_to_parse(name@, format@),
{
    if !has_char(&chars_of(format), 'G') {
        return true;
    }
    proof {
        reveal_strlit("2147483648");
    }
    let digits = chars_of("2147483648");
    assert(digits@ =~= least_year_digits());
    !has_run(&chars_of(name), &digits)
}

/// Makes a calendar date of the fields that a parse has produced.
pub fn date_from_parts(parts: Option<(i32, u32, u32)>) -> (r: Option<CalendarDate>)
    ensures
        r == date_of(parts),
        r matches Some(d) ==> d.wf(),
{
    match parts {
        Some((year, month, day)) => CalendarDate::new(year, month, day),
        None => None,
    }
}

/// Classifies a file name: the date it encodes under `format`, or `None`
/// where the whole name does not match the format, or where the parser
/// cannot be given the name.
pub fn classify(filename: &str, format: &str) -> (r: Option<CalendarDate>)
    ensures
        r == classified(filename@, format@),
        r matches Some(d) ==> d.wf(),
{
    if is_safe_to_parse(filename, format) {
        date_from_parts(parse_date(filename, format))
    } else {
        None
    }
}

} // verus!
