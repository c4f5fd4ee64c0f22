use vstd::prelude::*;

verus! {

use vstd::arithmetic::div_mod::lemma_fundamental_div_mod;

/// A calendar date with no time component, in the proleptic Gregorian
/// calendar. Years are confined to four decimal digits, matching the
/// `YYYY-MM-DD` surface form the library reads and writes.
#[derive(Clone, Copy, PartialEq, Eq, Structural, Debug)]
pub struct Date {
    pub year: u32,
    pub month: u32,
    pub day: u32,
}

/// True for leap years of the proleptic Gregorian calendar.
pub open spec fn is_leap_year(y: int) -> bool {
    (y % 4 == 0 && y % 100 != 0) || y % 400 == 0
}

pub open spec fn days_in_month(y: int, m: int) -> int {
    if m == 2 {
        if is_leap_year(y) {
            29
        } else {
            28
        }
    } else if m == 4 || m == 6 || m == 9 || m == 11 {
        30
    } else {
        31
    }
}

/// Days in year `y` that precede the first of month `m`.
pub open spec fn days_before_month(y: int, m: int) -> int {
    let flat: int = if m == 1 {
        0
    } else if m == 2 {
        31
    } else if m == 3 {
        59
    } else if m == 4 {
        90
    } else if m == 5 {
        120
    } else if m == 6 {
        151
    } else if m == 7 {
        181
    } else if m == 8 {
        212
    } else if m == 9 {
        243
    } else if m == 10 {
        273
    } else if m == 11 {
        304
    } else {
        334
    };
    flat + if m >= 3 && is_leap_year(y) {
        1int
    } else {
        0int
    }
}

/// Count of leap years in `[0, y)`.
pub open spec fn leap_count(y: int) -> int {
    (y + 3) / 4 - (y + 99) / 100 + (y + 399) / 400
}

/// Days between 0000-01-01 and `d`; the total order the date arithmetic
/// is specified against.
pub open spec fn day_number(d: Date) -> int {
    365 * d.year + leap_count(d.year as int) + days_before_month(d.year as int, d.month as int)
        + d.day - 1
}

pub open spec fn last_date() -> Date {
    Date { year: 9999, month: 12, day: 31 }
}

pub open spec fn first_date() -> Date {
    Date { year: 0, month: 1, day: 1 }
}

/// Days since the most recent Monday: Monday is 0, Sunday is 6.
/// 2000-01-01 (day number 730485, a multiple of 7) was a Saturday.
pub open spec fn weekday_from_monday(d: Date) -> int {
    (day_number(d) + 5) % 7
}

impl Date {
    pub open spec fn valid(self) -> bool {
        self.year <= 9999 && 1 <= self.month <= 12 && 1 <= self.day <= days_in_month(
            self.year as int,
            self.month as int,
        )
    }

    pub fn new(year: u32, month: u32, day: u32) -> (d: Date)
        requires
            (Date { year, month, day }).valid(),
        ensures
            d == (Date { year, month, day }),
    {
        Date { year, month, day }
    }
}

pub fn leap_year(y: u32) -> (b: bool)
    ensures
        b == is_leap_year(y as int),
{
    (y % 4 == 0 && y % 100 != 0) || y % 400 == 0
}

pub fn month_length(y: u32, m: u32) -> (n: u32)
    requires
        1 <= m <= 12,
    ensures
        n == days_in_month(y as int, m as int),
{
    if m == 2 {
        if leap_year(y) {
            29
        } else {
            28
        }
    } else if m == 4 || m == 6 || m == 9 || m == 11 {
        30
    } else {
        31
    }
}

fn month_prefix_days(y: u32, m: u32) -> (n: u32)
    requires
        1 <= m <= 12,
    ensures
        n == days_before_month(y as int, m as int),
{
    let flat: u32 = if m == 1 {
        0
    } else if m == 2 {
        31
    } else if m == 3 {
        59
    } else if m == 4 {
        90
    } else if m == 5 {
        120
    } else if m == 6 {
        151
    } else if m == 7 {
        181
    } else if m == 8 {
        212
    } else if m == 9 {
        243
    } else if m == 10 {
        273
    } else if m == 11 {
        304
    } else {
        334
    };
    if m >= 3 && leap_year(y) {
        flat + 1
    } else {
        flat
    }
}

proof fn lemma_div_nonneg_le(x: int, d: int)
    requires
        x >= 0,
        d >= 1,
    ensures
        0 <= x / d <= x,
{
    lemma_fundamental_div_mod(x, d);
    vstd::arithmetic::div_mod::lemma_mod_division_less_than_divisor(x, d);
    assert(0 <= x / d <= x) by (nonlinear_arith)
        requires
            x >= 0,
            d >= 1,
            x == d * (x / d) + x % d,
            0 <= x % d < d,
    ;
}

proof fn lemma_div_step(n: int, a: int)
    requires
        n >= 0,
        a > 0,
    ensures
        (n + 1) / a == n / a + if (n + 1) % a == 0 {
            1int
        } else {
            0int
        },
{
    lemma_fundamental_div_mod(n, a);
    lemma_fundamental_div_mod(n + 1, a);
    vstd::arithmetic::div_mod::lemma_mod_division_less_than_divisor(n, a);
    vstd::arithmetic::div_mod::lemma_mod_division_less_than_divisor(n + 1, a);
    assert((n + 1) / a == n / a + if (n + 1) % a == 0 {
        1int
    } else {
        0int
    }) by (nonlinear_arith)
        requires
            n >= 0,
            a > 0,
            n == a * (n / a) + n % a,
            0 <= n % a < a,
            n + 1 == a * ((n + 1) / a) + (n + 1) % a,
            0 <= (n + 1) % a < a,
    ;
}

/// Stepping from year `y` to `y + 1` passes one leap day exactly when
/// `y` itself is a leap year.
proof fn lemma_leap_count_step(y: int)
    requires
        y >= 0,
    ensures
        leap_count(y + 1) == leap_count(y) + if is_leap_year(y) {
            1int
        } else {
            0int
        },
{
    lemma_div_step(y + 3, 4);
    lemma_div_step(y + 99, 100);
    lemma_div_step(y + 399, 400);
    assert((y + 4) % 4 == y % 4) by (nonlinear_arith);
    assert((y + 100) % 100 == y % 100) by (nonlinear_arith);
    assert((y + 400) % 400 == y % 400) by (nonlinear_arith);
    assert(y % 100 == 0 ==> y % 4 == 0) by (nonlinear_arith);
    assert(y % 400 == 0 ==> y % 100 == 0) by (nonlinear_arith);
}

/// Leap-year counts grow with the year, by at most one per year.
pub proof fn lemma_leap_count_mono(a: int, b: int)
    requires
        0 <= a <= b,
    ensures
        leap_count(a) <= leap_count(b) <= leap_count(a) + (b - a),
    decreases b - a,
{
    if a < b {
        lemma_leap_count_step(b - 1);
        lemma_leap_count_mono(a, b - 1);
    }
}

/// Bounds on day numbers of valid dates.
pub proof fn lemma_day_number_bounds(d: Date)
    requires
        d.valid(),
    ensures
        day_number(d) >= 0,
        d.year >= 1 ==> day_number(d) >= 365,
        day_number(d) <= day_number(last_date()),
        d.year <= 9998 ==> day_number(d) + 364 <= day_number(last_date()),
{
    lemma_leap_count_mono(0, d.year as int);
    lemma_leap_count_mono(d.year as int, 9999);
}

/// A valid date's offset within its year lies inside that year.
proof fn lemma_day_number_in_year(d: Date)
    requires
        d.valid(),
    ensures
        0 <= days_before_month(d.year as int, d.month as int) + d.day - 1 < 365 + if is_leap_year(
            d.year as int,
        ) {
            1int
        } else {
            0int
        },
{
}

/// Two valid dates with the same day number are the same date: the day
/// number is a faithful encoding of the calendar.
pub proof fn lemma_day_number_injective(a: Date, b: Date)
    requires
        a.valid(),
        b.valid(),
        day_number(a) == day_number(b),
    ensures
        a == b,
{
    lemma_day_number_in_year(a);
    lemma_day_number_in_year(b);
    if a.year != b.year {
        let (lo, hi) = if a.year < b.year {
            (a, b)
        } else {
            (b, a)
        };
        lemma_leap_count_step(lo.year as int);
        lemma_leap_count_mono(lo.year as int + 1, hi.year as int);
        assert(day_number(lo) < 365 * (lo.year + 1) + leap_count(lo.year as int + 1));
        assert(365 * (lo.year + 1) + leap_count(lo.year as int + 1) <= 365 * hi.year + leap_count(
            hi.year as int,
        ));
        assert(false);
    }
    if a.month != b.month {
        let (lo, hi) = if a.month < b.month {
            (a, b)
        } else {
            (b, a)
        };
        assert(days_before_month(lo.year as int, lo.month as int) + lo.day - 1 < days_before_month(
            hi.year as int,
            hi.month as int,
        ));
        assert(false);
    }
}

/// The day number of a valid date fits a `u32`, and this computes it.
pub fn day_index(d: &Date) -> (n: u32)
    requires
        d.valid(),
    ensures
        n == day_number(*d),
{
    proof {
        lemma_div_nonneg_le((d.year + 3) as int, 4);
        lemma_div_nonneg_le((d.year + 99) as int, 100);
        lemma_div_nonneg_le((d.year + 399) as int, 400);
    }
    let grow: u32 = 365 * d.year + (d.year + 3) / 4 + (d.year + 399) / 400 + month_prefix_days(
        d.year,
        d.month,
    ) + (d.day - 1);
    grow - (d.year + 99) / 100
}

/// The calendar successor advances the day number by exactly one.
pub fn succ_date(d: &Date) -> (r: Date)
    requires
        d.valid(),
        *d != last_date(),
    ensures
        r.valid(),
        day_number(r) == day_number(*d) + 1,
{
    let len = month_length(d.year, d.month);
    if d.day < len {
        Date { year: d.year, month: d.month, day: d.day + 1 }
    } else if d.month < 12 {
        Date { year: d.year, month: d.month + 1, day: 1 }
    } else {
        proof {
            lemma_leap_count_step(d.year as int);
        }
        Date { year: d.year + 1, month: 1, day: 1 }
    }
}

/// The calendar predecessor moves the day number back by exactly one.
pub fn pred_date(d: &Date) -> (r: Date)
    requires
        d.valid(),
        *d != first_date(),
    ensures
        r.valid(),
        day_number(r) == day_number(*d) - 1,
{
    if d.day > 1 {
        Date { year: d.year, month: d.month, day: d.day - 1 }
    } else if d.month > 1 {
        let prev = d.month - 1;
        Date { year: d.year, month: prev, day: month_length(d.year, prev) }
    } else {
        proof {
            lemma_leap_count_step((d.year - 1) as int);
        }
        Date { year: d.year - 1, month: 12, day: 31 }
    }
}

/// Moves a date forward by `n` calendar days.
pub fn add_days(d: &Date, n: u32) -> (r: Date)
    requires
        d.valid(),
        day_number(*d) + n <= day_number(last_date()),
    ensures
        r.valid(),
        day_number(r) == day_number(*d) + n,
{
    let mut r: Date = *d;
    let mut i: u32 = 0;
    while i < n
        invariant
            r.valid(),
            i <= n,
            day_number(r) == day_number(*d) + i,
            day_number(*d) + n <= day_number(last_date()),
        decreases n - i,
    {
        proof {
            if r == last_date() {
                assert(day_number(r) == day_number(last_date()));
            }
        }
        r = succ_date(&r);
        i = i + 1;
    }
    r
}

/// Moves a date back by `n` calendar days.
pub fn sub_days(d: &Date, n: u32) -> (r: Date)
    requires
        d.valid(),
        day_number(*d) - n >= 0,
    ensures
        r.valid(),
        day_number(r) == day_number(*d) - n,
{
    let mut r: Date = *d;
    let mut i: u32 = 0;
    while i < n
        invariant
            r.valid(),
            i <= n,
            day_number(r) == day_number(*d) - i,
            day_number(*d) - n >= 0,
        decreases n - i,
    {
        proof {
            if r == first_date() {
                assert(day_number(r) == 0);
            }
        }
        r = pred_date(&r);
        i = i + 1;
    }
    r
}

/// Days since the most recent Monday, 0 through 6.
pub fn days_from_monday(d: &Date) -> (n: u32)
    requires
        d.valid(),
    ensures
        n == weekday_from_monday(*d),
        n <= 6,
{
    let idx = day_index(d);
    (idx + 5) % 7
}

pub open spec fn digit_char(n: int) -> char {
    ((48 + n) as u8) as char
}

pub open spec fn is_digit(c: char) -> bool {
    48 <= c as u32 <= 57
}

pub open spec fn digit_val(c: char) -> int {
    c as u32 - 48
}

/// The ten characters `YYYY-MM-DD` that render a date.
pub open spec fn date_chars(d: Date) -> Seq<char> {
    seq![
        digit_char(d.year as int / 1000),
        digit_char((d.year as int / 100) % 10),
        digit_char((d.year as int / 10) % 10),
        digit_char(d.year as int % 10),
        '-',
        digit_char(d.month as int / 10),
        digit_char(d.month as int % 10),
        '-',
        digit_char(d.day as int / 10),
        digit_char(d.day as int % 10),
    ]
}

fn push_two_digits(out: &mut Vec<char>, n: u32)
    requires
        n <= 99,
    ensures
        final(out)@ == old(out)@ + seq![digit_char(n as int / 10), digit_char(n as int % 10)],
{
    out.push((48 + (n / 10) as u8) as char);
    out.push((48 + (n % 10) as u8) as char);
    proof {
        assert(out@ =~= old(out)@ + seq![digit_char(n as int / 10), digit_char(n as int % 10)]);
    }
}

/// Renders a date as the ten characters `YYYY-MM-DD`.
pub fn date_to_chars(d: &Date) -> (v: Vec<char>)
    requires
        d.valid(),
    ensures
        v@ == date_chars(*d),
{
    let mut v: Vec<char> = Vec::new();
    push_two_digits(&mut v, d.year / 100);
    push_two_digits(&mut v, d.year % 100);
    v.push('-');
    push_two_digits(&mut v, d.month);
    v.push('-');
    push_two_digits(&mut v, d.day);
    proof {
        assert(d.year as int / 100 / 10 == d.year as int / 1000) by (nonlinear_arith);
        assert(d.year as int / 100 % 10 == d.year as int / 100 % 10);
        assert(d.year as int % 100 / 10 == d.year as int / 10 % 10) by (nonlinear_arith)
            requires
                0 <= d.year as int <= 9999,
        ;
        assert(d.year as int % 100 % 10 == d.year as int % 10) by (nonlinear_arith)
            requires
                0 <= d.year as int,
        ;
        assert(v@ =~= date_chars(*d));
    }
    v
}

/// True when `t` is exactly an ISO `YYYY-MM-DD` rendering of a calendar date.
pub open spec fn is_iso_date(t: Seq<char>) -> bool {
    &&& t.len() == 10
    &&& is_digit(t[0]) && is_digit(t[1]) && is_digit(t[2]) && is_digit(t[3])
    &&& t[4] == '-'
    &&& is_digit(t[5]) && is_digit(t[6])
    &&& t[7] == '-'
    &&& is_digit(t[8]) && is_digit(t[9])
    &&& iso_date_of(t).valid()
}

/// The date spelled by an ISO `YYYY-MM-DD` character sequence.
pub open spec fn iso_date_of(t: Seq<char>) -> Date {
    Date {
        year: (1000 * digit_val(t[0]) + 100 * digit_val(t[1]) + 10 * digit_val(t[2]) + digit_val(
            t[3],
        )) as u32,
        month: (10 * digit_val(t[5]) + digit_val(t[6])) as u32,
        day: (10 * digit_val(t[8]) + digit_val(t[9])) as u32,
    }
}

/// Rendering a valid date and reading the ten characters back yields the
/// same date: the formatter and the parser agree.
pub proof fn lemma_date_chars_round_trip(d: Date)
    requires
        d.valid(),
    ensures
        is_iso_date(date_chars(d)),
        iso_date_of(date_chars(d)) == d,
{
    let t = date_chars(d);
    let y = d.year as int;
    assert(digit_val(digit_char(y / 1000)) == y / 1000);
    assert(digit_val(digit_char((y / 100) % 10)) == (y / 100) % 10);
    assert(digit_val(digit_char((y / 10) % 10)) == (y / 10) % 10);
    assert(digit_val(digit_char(y % 10)) == y % 10);
    assert(1000 * (y / 1000) + 100 * ((y / 100) % 10) + 10 * ((y / 10) % 10) + y % 10 == y)
        by (nonlinear_arith)
        requires
            0 <= y <= 9999,
    ;
    let m = d.month as int;
    assert(10 * (m / 10) + m % 10 == m) by (nonlinear_arith)
        requires
            0 <= m,
    ;
    let dd = d.day as int;
    assert(10 * (dd / 10) + dd % 10 == dd) by (nonlinear_arith)
        requires
            0 <= dd,
    ;
    assert(iso_date_of(t) == d);
}

fn digit_of(c: char) -> (r: Option<u32>)
    ensures
        r is Some <==> is_digit(c),
        r is Some ==> r->0 == digit_val(c) && r->0 <= 9,
{
    let n = c as u32;
    if 48 <= n && n <= 57 {
        Some(n - 48)
    } else {
        None
    }
}

/// Parses a whitespace-delimited token as an ISO `YYYY-MM-DD` date.
/// Anything but that exact shape, or a day outside the month, is `None`.
pub fn parse_iso_date(t: &Vec<char>) -> (r: Option<Date>)
    ensures
        r is Some <==> is_iso_date(t@),
        r is Some ==> r->0 == iso_date_of(t@) && r->0.valid(),
{
    if t.len() != 10 {
        return None;
    }
    if !(t[4] == '-' && t[7] == '-') {
        return None;
    }
    let d0 = digit_of(t[0]);
    let d1 = digit_of(t[1]);
    let d2 = digit_of(t[2]);
    let d3 = digit_of(t[3]);
    let m0 = digit_of(t[5]);
    let m1 = digit_of(t[6]);
    let a0 = digit_of(t[8]);
    let a1 = digit_of(t[9]);
    match (d0, d1, d2, d3, m0, m1, a0, a1) {
        (
            Some(d0),
            Some(d1),
            Some(d2),
            Some(d3),
            Some(m0),
            Some(m1),
            Some(a0),
            Some(a1),
        ) => {
            let year = 1000 * d0 + 100 * d1 + 10 * d2 + d3;
            let month = 10 * m0 + m1;
            let day = 10 * a0 + a1;
            if 1 <= month && month <= 12 && 1 <= day && day <= month_length(year, month) {
                Some(Date { year, month, day })
            } else {
                None
            }
        },
        _ => None,
    }
}

} // verus!
