//! Calendar dates: a year, a month and a day, ordered as on the calendar.

use crate::digits::{digit_char, lemma_four_wide, lemma_two_wide, push_zero_padded, zero_padded};
use vstd::prelude::*;

verus! {

/// A day on the calendar, with no time of day.
#[derive(Clone, Copy, Debug, PartialEq, Eq, Structural)]
pub struct CalendarDate {
    pub year: i32,
    pub month: u32,
    pub day: u32,
}

/// Whether `a` comes before `b` on the calendar.
pub open spec fn date_lt(a: CalendarDate, b: CalendarDate) -> bool {
    a.year < b.year || (a.year == b.year && (a.month < b.month || (a.month == b.month && a.day
        < b.day)))
}

/// Whether `a` is `b` or comes before it.
pub open spec fn date_le(a: CalendarDate, b: CalendarDate) -> bool {
    a == b || date_lt(a, b)
}

/// The year as the ISO 8601 calendar date writes it: four digits from 0000
/// to 9999, and outside of that range a sign before four digits or more.
pub open spec fn year_text(year: int) -> Seq<char> {
    if 0 <= year <= 9999 {
        zero_padded(year as nat, 4)
    } else if year > 9999 {
        seq!['+'] + zero_padded(year as nat, 4)
    } else {
        seq!['-'] + zero_padded((-year) as nat, 4)
    }
}

/// The date as `YYYY-MM-DD`.
pub open spec fn date_text(d: CalendarDate) -> Seq<char> {
    year_text(d.year as int) + seq!['-'] + zero_padded(d.month as nat, 2) + seq!['-']
        + zero_padded(d.day as nat, 2)
}

impl CalendarDate {
    /// The month is one of the twelve and the day is no later than the 31st.
    pub open spec fn wf(self) -> bool {
        1 <= self.month <= 12 && 1 <= self.day <= 31
    }

    /// The date with these fields, if the month and the day are in range.
    pub fn new(year: i32, month: u32, day: u32) -> (r: Option<CalendarDate>)
        ensures
            r == (if 1 <= month <= 12 && 1 <= day <= 31 {
                Some(CalendarDate { year, month, day })
            } else {
                None
            }),
            r matches Some(d) ==> d.wf(),
    {
        if 1 <= month && month <= 12 && 1 <= day && day <= 31 {
            Some(CalendarDate { year, month, day })
        } else {
            None
        }
    }

    /// Whether this date comes before `other`.
    pub fn lt(&self, other: &CalendarDate) -> (b: bool)
        ensures
            b == date_lt(*self, *other),
    {
        if self.year != other.year {
            self.year < other.year
        } else if self.month != other.month {
            self.month < other.month
        } else {
            self.day < other.day
        }
    }

    /// Whether this date is `other` or comes before it.
    pub fn le(&self, other: &CalendarDate) -> (b: bool)
        ensures
            b == date_le(*self, *other),
    {
        !other.lt(self)
    }

    /// The date as `YYYY-MM-DD`.
    pub fn to_text(&self) -> (s: String)
        ensures
            s@ == date_text(*self),
    {
        proof {
            reveal_strlit("+");
            reveal_strlit("-");
        }
        let mut s = String::new();
        if 0 <= self.year && self.year <= 9999 {
            push_zero_padded(&mut s, self.year as u32, 4);
        } else if self.year > 9999 {
            s.append("+");
            push_zero_padded(&mut s, self.year as u32, 4);
        } else {
            s.append("-");
            let magnitude: i64 = -(self.year as i64);
            push_zero_padded(&mut s, magnitude as u32, 4);
        }
        assert(s@ =~= year_text(self.year as int));
        s.append("-");
        push_zero_padded(&mut s, self.month, 2);
        s.append("-");
        push_zero_padded(&mut s, self.day, 2);
        assert(s@ =~= date_text(*self));
        s
    }
}

/// Of two dates, one comes before the other or they are the same date.
pub proof fn lemma_date_order_total(a: CalendarDate, b: CalendarDate)
    ensures
        date_le(a, b) || date_le(b, a),
        date_lt(a, b) <==> !date_le(b, a),
{
}

/// Two dates that each come no later than the other are the same date.
pub proof fn lemma_date_order_antisymmetric(a: CalendarDate, b: CalendarDate)
    requires
        date_le(a, b),
        date_le(b, a),
    ensures
        a == b,
{
}

/// The order of dates carries over from one pair to the next.
pub proof fn lemma_date_order_transitive(a: CalendarDate, b: CalendarDate, c: CalendarDate)
    requires
        date_le(a, b),
        date_le(b, c),
    ensures
        date_le(a, c),
{
}

/// A date with its fields in range and a year from 0 to 9999 is written in
/// exactly ten characters, `YYYY-MM-DD`.
pub proof fn lemma_date_text_shape(d: CalendarDate)
    requires
        d.wf(),
        0 <= d.year <= 9999,
    ensures
        date_text(d) == seq![
            digit_char(d.year as int / 1000),
            digit_char(d.year as int / 100 % 10),
            digit_char(d.year as int / 10 % 10),
            digit_char(d.year as int % 10),
            '-',
            digit_char(d.month as int / 10),
            digit_char(d.month as int % 10),
            '-',
            digit_char(d.day as int / 10),
            digit_char(d.day as int % 10),
        ],
{
    lemma_four_wide(d.year as nat);
    lemma_two_wide(d.month as nat);
    lemma_two_wide(d.day as nat);
    assert(date_text(d) =~= seq![
        digit_char(d.year as int / 1000),
        digit_char(d.year as int / 100 % 10),
        digit_char(d.year as int / 10 % 10),
        digit_char(d.year as int % 10),
        '-',
        digit_char(d.month as int / 10),
        digit_char(d.month as int % 10),
        '-',
        digit_char(d.day as int / 10),
        digit_char(d.day as int % 10),
    ]);
}

} // verus!
