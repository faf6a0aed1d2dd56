//! The range label: the shortest text that tells the span between two dates,
//! with brackets around the part in which they differ.

use crate::date::CalendarDate;
use crate::digits::{
    all_digits, digit_char, is_digit, lemma_four_wide, lemma_two_wide, lemma_zero_padded_digits,
    push_signed_zero_padded, push_zero_padded, signed_zero_padded, zero_padded,
};
use vstd::prelude::*;

verus! {

/// The label of the span from `l` to `r`.
///
/// Years that differ give `[YYYY-YYYY]`. Within one year, months that differ
/// give `YYYY-[MM-MM]`. Within one month the label is `YYYY-MM-[DD-DD]`,
/// also when both days are the same. Years are padded to four characters,
/// months and days to two.
pub open spec fn range_label(l: CalendarDate, r: CalendarDate) -> Seq<char> {
    if l.year != r.year {
        seq!['['] + signed_zero_padded(l.year as int, 4) + seq!['-'] + signed_zero_padded(
            r.year as int,
            4,
        ) + seq![']']
    } else if l.month != r.month {
        signed_zero_padded(l.year as int, 4) + seq!['-', '['] + zero_padded(l.month as nat, 2)
            + seq!['-'] + zero_padded(r.month as nat, 2) + seq![']']
    } else {
        signed_zero_padded(l.year as int, 4) + seq!['-'] + zero_padded(l.month as nat, 2)
            + seq!['-', '['] + zero_padded(l.day as nat, 2) + seq!['-'] + zero_padded(
            r.day as nat,
            2,
        ) + seq![']']
    }
}

/// Names the span from the earliest date `l` to the latest date `r`.
pub fn smart_range_name(l: &CalendarDate, r: &CalendarDate) -> (s: String)
    ensures
        s@ == range_label(*l, *r),
{
    proof {
        reveal_strlit("[");
        reveal_strlit("]");
        reveal_strlit("-");
        reveal_strlit("-[");
    }
    let mut s = String::new();
    if l.year != r.year {
        s.append("[");
        push_signed_zero_padded(&mut s, l.year, 4);
        s.append("-");
        push_signed_zero_padded(&mut s, r.year, 4);
        s.append("]");
    } else if l.month != r.month {
        push_signed_zero_padded(&mut s, l.year, 4);
        s.append("-[");
        push_zero_padded(&mut s, l.month, 2);
        s.append("-");
        push_zero_padded(&mut s, r.month, 2);
        s.append("]");
    } else {
        push_signed_zero_padded(&mut s, l.year, 4);
        s.append("-");
        push_zero_padded(&mut s, l.month, 2);
        s.append("-[");
        push_zero_padded(&mut s, l.day, 2);
        s.append("-");
        push_zero_padded(&mut s, r.day, 2);
        s.append("]");
    }
    assert(s@ =~= range_label(*l, *r));
    s
}

/// Whether `c` may stand in a range label: a digit, a dash or a bracket.
pub open spec fn is_label_char(c: char) -> bool {
    is_digit(c) || c == '-' || c == '[' || c == ']'
}

/// Two dates of different years are labelled by the two years in brackets.
pub proof fn lemma_label_across_years(l: CalendarDate, r: CalendarDate)
    requires
        l.year != r.year,
    ensures
        range_label(l, r) == seq!['['] + signed_zero_padded(l.year as int, 4) + seq!['-']
            + signed_zero_padded(r.year as int, 4) + seq![']'],
        0 <= l.year <= 9999 && 0 <= r.year <= 9999 ==> range_label(l, r) == seq![
            '[',
            digit_char(l.year as int / 1000),
            digit_char(l.year as int / 100 % 10),
            digit_char(l.year as int / 10 % 10),
            digit_char(l.year as int % 10),
            '-',
            digit_char(r.year as int / 1000),
            digit_char(r.year as int / 100 % 10),
            digit_char(r.year as int / 10 % 10),
            digit_char(r.year as int % 10),
            ']',
        ],
{
    if 0 <= l.year <= 9999 && 0 <= r.year <= 9999 {
        lemma_four_wide(l.year as nat);
        lemma_four_wide(r.year as nat);
        assert(range_label(l, r) =~= seq![
            '[',
            digit_char(l.year as int / 1000),
            digit_char(l.year as int / 100 % 10),
            digit_char(l.year as int / 10 % 10),
            digit_char(l.year as int % 10),
            '-',
            digit_char(r.year as int / 1000),
            digit_char(r.year as int / 100 % 10),
            digit_char(r.year as int / 10 % 10),
            digit_char(r.year as int % 10),
            ']',
        ]);
    }
}

/// Two dates of one year and different months are labelled by the year and
/// the two months in brackets.
pub proof fn lemma_label_across_months(l: CalendarDate, r: CalendarDate)
    requires
        l.year == r.year,
        l.month != r.month,
    ensures
        range_label(l, r) == signed_zero_padded(l.year as int, 4) + seq!['-', '['] + zero_padded(
            l.month as nat,
            2,
        ) + seq!['-'] + zero_padded(r.month as nat, 2) + seq![']'],
        0 <= l.year <= 9999 && l.wf() && r.wf() ==> range_label(l, r) == seq![
            digit_char(l.year as int / 1000),
            digit_char(l.year as int / 100 % 10),
            digit_char(l.year as int / 10 % 10),
            digit_char(l.year as int % 10),
            '-',
            '[',
            digit_char(l.month as int / 10),
            digit_char(l.month as int % 10),
            '-',
            digit_char(r.month as int / 10),
            digit_char(r.month as int % 10),
            ']',
        ],
{
    if 0 <= l.year <= 9999 && l.wf() && r.wf() {
        lemma_four_wide(l.year as nat);
        lemma_two_wide(l.month as nat);
        lemma_two_wide(r.month as nat);
        assert(range_label(l, r) =~= seq![
            digit_char(l.year as int / 1000),
            digit_char(l.year as int / 100 % 10),
            digit_char(l.year as int / 10 % 10),
            digit_char(l.year as int % 10),
            '-',
            '[',
            digit_char(l.month as int / 10),
            digit_char(l.month as int % 10),
            '-',
            digit_char(r.month as int / 10),
            digit_char(r.month as int % 10),
            ']',
        ]);
    }
}

/// Two dates of one year and one month are labelled by the year, the month
/// and the two days in brackets, also when the days are the same.
pub proof fn lemma_label_within_month(l: CalendarDate, r: CalendarDate)
    requires
        l.year == r.year,
        l.month == r.month,
    ensures
        range_label(l, r) == signed_zero_padded(l.year as int, 4) + seq!['-'] + zero_padded(
            l.month as nat,
            2,
        ) + seq!['-', '['] + zero_padded(l.day as nat, 2) + seq!['-'] + zero_padded(
            r.day as nat,
            2,
        ) + seq![']'],
        0 <= l.year <= 9999 && l.wf() && r.wf() ==> range_label(l, r) == seq![
            digit_char(l.year as int / 1000),
            digit_char(l.year as int / 100 % 10),
            digit_char(l.year as int / 10 % 10),
            digit_char(l.year as int % 10),
            '-',
            digit_char(l.month as int / 10),
            digit_char(l.month as int % 10),
            '-',
            '[',
            digit_char(l.day as int / 10),
            digit_char(l.day as int % 10),
            '-',
            digit_char(r.day as int / 10),
            digit_char(r.day as int % 10),
            ']',
        ],
{
    if 0 <= l.year <= 9999 && l.wf() && r.wf() {
        lemma_four_wide(l.year as nat);
        lemma_two_wide(l.month as nat);
        lemma_two_wide(l.day as nat);
        lemma_two_wide(r.day as nat);
        assert(range_label(l, r) =~= seq![
            digit_char(l.year as int / 1000),
            digit_char(l.year as int / 100 % 10),
            digit_char(l.year as int / 10 % 10),
            digit_char(l.year as int % 10),
            '-',
            digit_char(l.month as int / 10),
            digit_char(l.month as int % 10),
            '-',
            '[',
            digit_char(l.day as int / 10),
            digit_char(l.day as int % 10),
            '-',
            digit_char(r.day as int / 10),
            digit_char(r.day as int % 10),
            ']',
        ]);
    }
}

/// A signed, padded number is written with digits and at most a dash.
proof fn lemma_signed_label_chars(n: int, width: nat)
    ensures
        forall|i: int|
            0 <= i < signed_zero_padded(n, width).len() ==> is_label_char(
                #[trigger] signed_zero_padded(n, width)[i],
            ),
{
    if n >= 0 {
        lemma_zero_padded_digits(n as nat, width);
    } else {
        let rest = zero_padded((-n) as nat, crate::digits::width_after_sign(width));
        lemma_zero_padded_digits((-n) as nat, crate::digits::width_after_sign(width));
        assert forall|i: int| 0 <= i < signed_zero_padded(n, width).len() implies is_label_char(
            #[trigger] signed_zero_padded(n, width)[i],
        ) by {
            if i >= 1 {
                assert(signed_zero_padded(n, width)[i] == rest[i - 1]);
            }
        }
    }
}

/// A padded number is written with digits.
proof fn lemma_padded_label_chars(n: nat, width: nat)
    ensures
        forall|i: int|
            0 <= i < zero_padded(n, width).len() ==> is_label_char(
                #[trigger] zero_padded(n, width)[i],
            ),
{
    lemma_zero_padded_digits(n, width);
    assert(all_digits(zero_padded(n, width)));
}

/// Text whose characters may all stand in a label.
pub open spec fn label_chars_only(s: Seq<char>) -> bool {
    forall|i: int| 0 <= i < s.len() ==> is_label_char(#[trigger] s[i])
}

/// Joining two such texts gives such a text.
proof fn lemma_label_chars_join(a: Seq<char>, b: Seq<char>)
    requires
        label_chars_only(a),
        label_chars_only(b),
    ensures
        label_chars_only(a + b),
{
    assert forall|i: int| 0 <= i < (a + b).len() implies is_label_char(#[trigger] (a + b)[i]) by {
        if i < a.len() {
            assert((a + b)[i] == a[i]);
        } else {
            assert((a + b)[i] == b[i - a.len()]);
        }
    }
}

/// A range label is made of digits, dashes and brackets only, whatever the
/// two dates: it is always safe as one component of a path.
pub proof fn lemma_label_is_path_safe(l: CalendarDate, r: CalendarDate)
    ensures
        label_chars_only(range_label(l, r)),
        range_label(l, r).len() >= 11,
{
    let open = seq!['['];
    let close = seq![']'];
    let dash = seq!['-'];
    let dash_open = seq!['-', '['];
    let ly = signed_zero_padded(l.year as int, 4);
    let ry = signed_zero_padded(r.year as int, 4);
    let lm = zero_padded(l.month as nat, 2);
    let rm = zero_padded(r.month as nat, 2);
    let ld = zero_padded(l.day as nat, 2);
    let rd = zero_padded(r.day as nat, 2);
    lemma_signed_label_chars(l.year as int, 4);
    lemma_signed_label_chars(r.year as int, 4);
    lemma_padded_label_chars(l.month as nat, 2);
    lemma_padded_label_chars(r.month as nat, 2);
    lemma_padded_label_chars(l.day as nat, 2);
    lemma_padded_label_chars(r.day as nat, 2);
    lemma_signed_len(l.year as int);
    lemma_signed_len(r.year as int);
    lemma_zero_padded_digits(l.month as nat, 2);
    lemma_zero_padded_digits(r.month as nat, 2);
    lemma_zero_padded_digits(l.day as nat, 2);
    lemma_zero_padded_digits(r.day as nat, 2);
    if l.year != r.year {
        lemma_label_chars_join(open, ly);
        lemma_label_chars_join(open + ly, dash);
        lemma_label_chars_join(open + ly + dash, ry);
        lemma_label_chars_join(open + ly + dash + ry, close);
    } else if l.month != r.month {
        lemma_label_chars_join(ly, dash_open);
        lemma_label_chars_join(ly + dash_open, lm);
        lemma_label_chars_join(ly + dash_open + lm, dash);
        lemma_label_chars_join(ly + dash_open + lm + dash, rm);
        lemma_label_chars_join(ly + dash_open + lm + dash + rm, close);
    } else {
        lemma_label_chars_join(ly, dash);
        lemma_label_chars_join(ly + dash, lm);
        lemma_label_chars_join(ly + dash + lm, dash_open);
        lemma_label_chars_join(ly + dash + lm + dash_open, ld);
        lemma_label_chars_join(ly + dash + lm + dash_open + ld, dash);
        lemma_label_chars_join(ly + dash + lm + dash_open + ld + dash, rd);
        lemma_label_chars_join(ly + dash + lm + dash_open + ld + dash + rd, close);
    }
}

/// A year padded to four characters takes four characters at least.
proof fn lemma_signed_len(n: int)
    ensures
        signed_zero_padded(n, 4).len() >= 4,
{
    if n >= 0 {
        lemma_zero_padded_digits(n as nat, 4);
    } else {
        lemma_zero_padded_digits((-n) as nat, 3);
    }
}

} // verus!
