//! Proleptic Gregorian calendar dates in the `"YYYY-MM-DD"` text form.
//!
//! The delta calculator needs exactly two operations: decoding a date
//! string and stepping back one calendar day.  Both are implemented here
//! against the leap-year rule rather than delegated, so the whole date
//! logic is verified.

use vstd::prelude::*;

use crate::fixed::{all_digits, digit_char, digit_val, digits_val, is_digit};

verus! {

/// A calendar date with a four-digit year.
#[derive(Clone, Copy, PartialEq, Eq, Structural, Debug)]
pub struct CalendarDate {
    pub year: u32,
    pub month: u8,
    pub day: u8,
}

pub open spec fn is_leap_year(y: int) -> bool {
    y % 4 == 0 && (y % 100 != 0 || y % 400 == 0)
}

pub open spec fn days_in_month_spec(y: int, m: int) -> int {
    if m == 2 {
        if is_leap_year(y) {
            29
        } else {
            28
        }
    } else if m == 4 || m == 6 || m == 9 || m == 11 {
        30
    } else {
        31
    }
}

impl CalendarDate {
    /// A valid calendar date whose year fits the four-digit text form.
    pub open spec fn wf(self) -> bool {
        1 <= self.year <= 9999 && 1 <= self.month <= 12 && 1 <= self.day <= days_in_month_spec(
            self.year as int,
            self.month as int,
        )
    }
}

/// The previous calendar day, or nothing at the start of year one.
pub open spec fn prev_day_spec(d: CalendarDate) -> Option<CalendarDate> {
    if d.day > 1 {
        Some(CalendarDate { year: d.year, month: d.month, day: (d.day - 1) as u8 })
    } else if d.month > 1 {
        Some(
            CalendarDate {
                year: d.year,
                month: (d.month - 1) as u8,
                day: days_in_month_spec(d.year as int, d.month as int - 1) as u8,
            },
        )
    } else if d.year > 1 {
        Some(CalendarDate { year: (d.year - 1) as u32, month: 12, day: 31 })
    } else {
        None
    }
}

/// Two decimal digits with a leading zero.
pub open spec fn pad2(n: int) -> Seq<char> {
    seq![digit_char((n / 10) % 10), digit_char(n % 10)]
}

/// Four decimal digits with leading zeros.
pub open spec fn pad4(n: int) -> Seq<char> {
    seq![
        digit_char((n / 1000) % 10),
        digit_char((n / 100) % 10),
        digit_char((n / 10) % 10),
        digit_char(n % 10),
    ]
}

/// The `"YYYY-MM-DD"` form of a date.
pub open spec fn date_str_spec(d: CalendarDate) -> Seq<char> {
    pad4(d.year as int) + "-"@ + pad2(d.month as int) + "-"@ + pad2(d.day as int)
}

/// Grammar of a date string: exactly `"YYYY-MM-DD"`, naming a valid date.
pub open spec fn parse_date_spec(s: Seq<char>) -> Option<CalendarDate> {
    if s.len() == 10 && s[4] == '-' && s[7] == '-' && all_digits(s.subrange(0, 4)) && all_digits(
        s.subrange(5, 7),
    ) && all_digits(s.subrange(8, 10)) {
        let y = digits_val(s.subrange(0, 4));
        let m = digits_val(s.subrange(5, 7));
        let d = digits_val(s.subrange(8, 10));
        if 1 <= y && 1 <= m <= 12 && 1 <= d <= days_in_month_spec(y, m) {
            Some(CalendarDate { year: y as u32, month: m as u8, day: d as u8 })
        } else {
            None
        }
    } else {
        None
    }
}

/// A parsed date is well formed.
pub proof fn lemma_parse_date_wf(s: Seq<char>)
    ensures
        parse_date_spec(s) is Some ==> parse_date_spec(s)->Some_0.wf(),
{
    if parse_date_spec(s) is Some {
        crate::fixed::lemma_digits_val_bound(s.subrange(0, 4), 4);
        assert(crate::fixed::pow10(4) == 10000) by {
            assert(crate::fixed::pow10(0) == 1);
            assert(crate::fixed::pow10(1) == 10);
            assert(crate::fixed::pow10(2) == 100);
            assert(crate::fixed::pow10(3) == 1000);
        }
    }
}

/// A two-digit group names its value.
proof fn lemma_pad2_val(n: int)
    requires
        0 <= n <= 99,
    ensures
        all_digits(pad2(n)),
        digits_val(pad2(n)) == n,
{
    crate::fixed::lemma_digit_char_val((n / 10) % 10);
    crate::fixed::lemma_digit_char_val(n % 10);
    vstd::arithmetic::div_mod::lemma_fundamental_div_mod(n, 10);
    vstd::arithmetic::div_mod::lemma_small_mod((n / 10) as nat, 10);
    let p = pad2(n);
    assert(all_digits(p)) by {
        assert(forall|i: int| 0 <= i < p.len() ==> #[trigger] is_digit(p[i])) by {
            assert(p.len() == 2 && is_digit(p[0]) && is_digit(p[1]));
        }
    }
    let p1 = seq![digit_char((n / 10) % 10)];
    assert(p1.drop_last() =~= Seq::<char>::empty());
    assert(digits_val(Seq::<char>::empty()) == 0);
    assert(digits_val(p1) == (n / 10) % 10);
    assert(p.drop_last() =~= p1);
    assert(digits_val(p) == digits_val(p1) * 10 + digit_val(p.last()));
}

/// A four-digit group names its value.
proof fn lemma_pad4_val(n: int)
    requires
        0 <= n <= 9999,
    ensures
        all_digits(pad4(n)),
        digits_val(pad4(n)) == n,
{
    let a = (n / 1000) % 10;
    let b = (n / 100) % 10;
    let c = (n / 10) % 10;
    let e = n % 10;
    crate::fixed::lemma_digit_char_val(a);
    crate::fixed::lemma_digit_char_val(b);
    crate::fixed::lemma_digit_char_val(c);
    crate::fixed::lemma_digit_char_val(e);
    let p = pad4(n);
    assert(all_digits(p)) by {
        assert(forall|i: int| 0 <= i < p.len() ==> #[trigger] is_digit(p[i])) by {
            assert(p.len() == 4 && is_digit(p[0]) && is_digit(p[1]) && is_digit(p[2]) && is_digit(
                p[3],
            ));
        }
    }
    let q1 = seq![digit_char(a)];
    let q2 = seq![digit_char(a), digit_char(b)];
    let q3 = seq![digit_char(a), digit_char(b), digit_char(c)];
    assert(q1.drop_last() =~= Seq::<char>::empty());
    assert(digits_val(Seq::<char>::empty()) == 0);
    assert(digits_val(q1) == a);
    assert(q2.drop_last() =~= q1);
    assert(digits_val(q2) == digits_val(q1) * 10 + digit_val(q2.last()));
    assert(q3.drop_last() =~= q2);
    assert(digits_val(q3) == digits_val(q2) * 10 + digit_val(q3.last()));
    assert(p.drop_last() =~= q3);
    assert(digits_val(p) == digits_val(q3) * 10 + digit_val(p.last()));
    assert(digits_val(p) == ((a * 10 + b) * 10 + c) * 10 + e);
    vstd::arithmetic::div_mod::lemma_fundamental_div_mod(n, 10);
    vstd::arithmetic::div_mod::lemma_div_denominator(n, 10, 10);
    vstd::arithmetic::div_mod::lemma_fundamental_div_mod(n / 10, 10);
    vstd::arithmetic::div_mod::lemma_div_denominator(n / 10, 10, 10);
    vstd::arithmetic::div_mod::lemma_fundamental_div_mod(n / 100, 10);
    vstd::arithmetic::div_mod::lemma_small_mod((n / 1000) as nat, 10);
    assert(n / 100 == 10 * (n / 1000) + b);
    assert(n / 10 == 10 * (n / 100) + c);
    assert(n == 10 * (n / 10) + e);
    assert(((a * 10 + b) * 10 + c) * 10 + e == n) by (nonlinear_arith)
        requires
            a == n / 1000,
            n / 100 == 10 * (n / 1000) + b,
            n / 10 == 10 * (n / 100) + c,
            n == 10 * (n / 10) + e,
    ;
}

/// Round trip: the text form of a well-formed date decodes to the date.
pub proof fn lemma_date_round_trip(d: CalendarDate)
    requires
        d.wf(),
    ensures
        parse_date_spec(date_str_spec(d)) == Some(d),
{
    reveal_strlit("-");
    let s = date_str_spec(d);
    lemma_pad4_val(d.year as int);
    lemma_pad2_val(d.month as int);
    lemma_pad2_val(d.day as int);
    assert(s.len() == 10);
    assert(s[4] == '-');
    assert(s[7] == '-');
    assert(s.subrange(0, 4) =~= pad4(d.year as int));
    assert(s.subrange(5, 7) =~= pad2(d.month as int));
    assert(s.subrange(8, 10) =~= pad2(d.day as int));
}

fn days_in_month(y: u32, m: u8) -> (r: u8)
    requires
        1 <= m <= 12,
    ensures
        r as int == days_in_month_spec(y as int, m as int),
{
    if m == 2 {
        if (y % 4 == 0) && (y % 100 != 0 || y % 400 == 0) {
            29
        } else {
            28
        }
    } else if m == 4 || m == 6 || m == 9 || m == 11 {
        30
    } else {
        31
    }
}

/// Decode a `"YYYY-MM-DD"` date string.
pub fn parse_date(s: &str) -> (r: Option<CalendarDate>)
    ensures
        r == parse_date_spec(s@),
        r is Some ==> r->0.wf(),
{
    proof {
        lemma_parse_date_wf(s@);
    }
    let len = s.unicode_len();
    if len != 10 {
        return None;
    }
    if s.get_char(4) != '-' || s.get_char(7) != '-' {
        return None;
    }
    if !crate::fixed::check_digits(s, 0, 4) || !crate::fixed::check_digits(s, 5, 7)
        || !crate::fixed::check_digits(s, 8, 10) {
        return None;
    }
    let y = crate::fixed::digits_value(s, 0, 4);
    let m = crate::fixed::digits_value(s, 5, 7);
    let d = crate::fixed::digits_value(s, 8, 10);
    proof {
        crate::fixed::lemma_digits_val_bound(s@.subrange(0, 4), 4);
        crate::fixed::lemma_digits_val_bound(s@.subrange(5, 7), 2);
        crate::fixed::lemma_digits_val_bound(s@.subrange(8, 10), 2);
    }
    if y < 1 || m < 1 || m > 12 {
        return None;
    }
    let dm = days_in_month(y as u32, m as u8);
    if d < 1 || d > dm as u64 {
        return None;
    }
    Some(CalendarDate { year: y as u32, month: m as u8, day: d as u8 })
}

/// Step back one calendar day.
pub fn prev_day(d: CalendarDate) -> (r: Option<CalendarDate>)
    requires
        d.wf(),
    ensures
        r == prev_day_spec(d),
        r is Some ==> r->0.wf(),
{
    if d.day > 1 {
        Some(CalendarDate { year: d.year, month: d.month, day: d.day - 1 })
    } else if d.month > 1 {
        let pm = d.month - 1;
        Some(CalendarDate { year: d.year, month: pm, day: days_in_month(d.year, pm) })
    } else if d.year > 1 {
        Some(CalendarDate { year: d.year - 1, month: 12, day: 31 })
    } else {
        None
    }
}

/// Encode a date in the `"YYYY-MM-DD"` form.
pub fn fmt_date(d: CalendarDate) -> (s: String)
    requires
        d.wf(),
    ensures
        s@ == date_str_spec(d),
{
    let y = d.year;
    let mut s = String::new();
    s.append(crate::fixed::digit_str(((y / 1000) % 10) as u8));
    s.append(crate::fixed::digit_str(((y / 100) % 10) as u8));
    s.append(crate::fixed::digit_str(((y / 10) % 10) as u8));
    s.append(crate::fixed::digit_str((y % 10) as u8));
    s.append("-");
    s.append(crate::fixed::digit_str((d.month / 10) % 10));
    s.append(crate::fixed::digit_str(d.month % 10));
    s.append("-");
    s.append(crate::fixed::digit_str((d.day / 10) % 10));
    s.append(crate::fixed::digit_str(d.day % 10));
    proof {
        assert(s@ =~= date_str_spec(d));
    }
    s
}

} // verus!
