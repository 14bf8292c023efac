//! Civil timestamps with a fixed UTC offset, second precision.  The ledger
//! stores them in the form `YYYY-MM-DDTHH:MM:SS+HH:MM`; parsing is the exact
//! inverse of formatting.

use vstd::prelude::*;

use crate::text::{digit_char, spec_digit_char, str_to_chars};

verus! {

/// A point in civil time together with the UTC offset it was recorded in.
#[derive(Clone, Copy, PartialEq, Eq, Structural, Debug)]
pub struct Timestamp {
    pub year: u32,
    pub month: u32,
    pub day: u32,
    pub hour: u32,
    pub minute: u32,
    pub second: u32,
    /// Local time minus UTC, in minutes.
    pub offset_minutes: i32,
}

pub open spec fn spec_is_leap_year(y: int) -> bool {
    y % 4 == 0 && (y % 100 != 0 || y % 400 == 0)
}

pub open spec fn spec_days_in_month(y: int, m: int) -> int {
    if m == 2 {
        if spec_is_leap_year(y) {
            29
        } else {
            28
        }
    } else if m == 4 || m == 6 || m == 9 || m == 11 {
        30
    } else {
        31
    }
}

/// Integer division truncated toward zero, the semantics of Rust's `/`.
pub open spec fn spec_div_trunc(a: int, b: int) -> int {
    if a >= 0 {
        a / b
    } else {
        -((-a) / b)
    }
}

pub fn days_in_month(y: u32, m: u32) -> (r: u32)
    ensures
        r == spec_days_in_month(y as int, m as int),
{
    if m == 2 {
        if (y % 4 == 0 && y % 100 != 0) || y % 400 == 0 {
            29
        } else {
            28
        }
    } else if m == 4 || m == 6 || m == 9 || m == 11 {
        30
    } else {
        31
    }
}

impl Timestamp {
    /// A well-formed timestamp: a real calendar date, a time of day, and an
    /// offset of less than one day in magnitude.
    pub open spec fn valid(self) -> bool {
        &&& 1 <= self.year <= 9999
        &&& 1 <= self.month <= 12
        &&& 1 <= self.day <= spec_days_in_month(self.year as int, self.month as int)
        &&& self.hour <= 23
        &&& self.minute <= 59
        &&& self.second <= 59
        &&& -1439 <= self.offset_minutes <= 1439
    }

    /// Whether the fields form a well-formed timestamp.
    pub fn check_valid(&self) -> (r: bool)
        ensures
            r == self.valid(),
    {
        1 <= self.year && self.year <= 9999 && 1 <= self.month && self.month <= 12 && 1 <= self.day
            && self.day <= days_in_month(self.year, self.month) && self.hour <= 23 && self.minute
            <= 59 && self.second <= 59 && -1439 <= self.offset_minutes && self.offset_minutes
            <= 1439
    }

    /// The timestamp the raw calendar fields stand for, the offset given
    /// in seconds and truncated to whole minutes.  Meaningful when the
    /// year is in 1..=9999.
    pub open spec fn spec_from_parts(
        year: int,
        month: u32,
        day: u32,
        hour: u32,
        minute: u32,
        second: u32,
        offset_seconds: int,
    ) -> Timestamp {
        Timestamp {
            year: year as u32,
            month,
            day,
            hour,
            minute,
            second,
            offset_minutes: spec_div_trunc(offset_seconds, 60) as i32,
        }
    }

    /// Builds a well-formed timestamp out of raw calendar fields, with the
    /// offset given in seconds; `None` exactly when they do not form one.
    pub fn from_parts(
        year: i32,
        month: u32,
        day: u32,
        hour: u32,
        minute: u32,
        second: u32,
        offset_seconds: i32,
    ) -> (r: Option<Timestamp>)
        requires
            -86400 < offset_seconds < 86400,
        ensures
            r is Some <==> (1 <= year <= 9999 && Timestamp::spec_from_parts(
                year as int,
                month,
                day,
                hour,
                minute,
                second,
                offset_seconds as int,
            ).valid()),
            r matches Some(t) ==> t == Timestamp::spec_from_parts(
                year as int,
                month,
                day,
                hour,
                minute,
                second,
                offset_seconds as int,
            ) && t.valid(),
    {
        if year < 1 || year > 9999 {
            return None;
        }
        let offset_minutes: i32 = if offset_seconds >= 0 {
            offset_seconds / 60
        } else {
            -((-offset_seconds) / 60)
        };
        let t = Timestamp { year: year as u32, month, day, hour, minute, second, offset_minutes };
        if t.check_valid() {
            Some(t)
        } else {
            None
        }
    }
}

/// The two-digit zero-padded rendering of `n`.
pub open spec fn spec_two_digits(n: int) -> Seq<char> {
    seq![spec_digit_char(n / 10), spec_digit_char(n % 10)]
}

/// `YYYY-MM-DDTHH:MM:SS+HH:MM`, 25 characters.
pub open spec fn spec_format_timestamp(t: Timestamp) -> Seq<char> {
    spec_two_digits(t.year as int / 100) + spec_two_digits(t.year as int % 100) + seq!['-']
        + spec_two_digits(t.month as int) + seq!['-'] + spec_two_digits(t.day as int) + seq!['T']
        + spec_two_digits(t.hour as int) + seq![':'] + spec_two_digits(t.minute as int) + seq![':']
        + spec_two_digits(t.second as int) + seq![
        if t.offset_minutes < 0 {
            '-'
        } else {
            '+'
        },
    ] + spec_two_digits(spec_abs_offset(t) / 60) + seq![':'] + spec_two_digits(
        spec_abs_offset(t) % 60,
    )
}

/// The magnitude of the offset, in minutes.
pub open spec fn spec_abs_offset(t: Timestamp) -> int {
    if t.offset_minutes < 0 {
        -(t.offset_minutes as int)
    } else {
        t.offset_minutes as int
    }
}

/// Appends the two-digit zero-padded rendering of `n`.
fn push_two_digits(n: u32, out: &mut String)
    requires
        n < 100,
    ensures
        final(out)@ == old(out)@ + spec_two_digits(n as int),
{
    out.push(digit_char((n / 10) as u64));
    out.push(digit_char((n % 10) as u64));
    proof {
        assert(out@ =~= old(out)@ + spec_two_digits(n as int));
    }
}

/// Renders `t` as `YYYY-MM-DDTHH:MM:SS+HH:MM`.
pub fn format_timestamp(t: &Timestamp) -> (r: String)
    requires
        t.valid(),
    ensures
        r@ == spec_format_timestamp(*t),
{
    let mut r = String::new();
    push_two_digits(t.year / 100, &mut r);
    push_two_digits(t.year % 100, &mut r);
    r.push('-');
    push_two_digits(t.month, &mut r);
    r.push('-');
    push_two_digits(t.day, &mut r);
    r.push('T');
    push_two_digits(t.hour, &mut r);
    r.push(':');
    push_two_digits(t.minute, &mut r);
    r.push(':');
    push_two_digits(t.second, &mut r);
    let abs_off: u32 = if t.offset_minutes < 0 {
        r.push('-');
        (-t.offset_minutes) as u32
    } else {
        r.push('+');
        t.offset_minutes as u32
    };
    push_two_digits(abs_off / 60, &mut r);
    r.push(':');
    push_two_digits(abs_off % 60, &mut r);
    proof {
        assert(abs_off == spec_abs_offset(*t));
        assert(r@ =~= spec_format_timestamp(*t));
    }
    r
}

pub open spec fn spec_digit_val(c: char) -> int {
    c as int - '0' as int
}

pub open spec fn spec_two_val(s: Seq<char>, i: int) -> int {
    spec_digit_val(s[i]) * 10 + spec_digit_val(s[i + 1])
}

/// Whether the characters at `i` and `i + 1` are both decimal digits.
pub open spec fn spec_two_digits_at(s: Seq<char>, i: int) -> bool {
    crate::timespan::is_span_digit(s[i]) && crate::timespan::is_span_digit(s[i + 1])
}

/// The exact inverse of `spec_format_timestamp`: `Some` for precisely the
/// 25-character renderings whose fields form a well-formed timestamp.
pub open spec fn spec_parse_timestamp(s: Seq<char>) -> Option<Timestamp> {
    if s.len() == 25 && spec_two_digits_at(s, 0) && spec_two_digits_at(s, 2) && s[4] == '-'
        && spec_two_digits_at(s, 5) && s[7] == '-' && spec_two_digits_at(s, 8) && s[10] == 'T'
        && spec_two_digits_at(s, 11) && s[13] == ':' && spec_two_digits_at(s, 14) && s[16] == ':'
        && spec_two_digits_at(s, 17) && (s[19] == '+' || s[19] == '-') && spec_two_digits_at(s, 20)
        && s[22] == ':' && spec_two_digits_at(s, 23) {
        let abs_off = spec_two_val(s, 20) * 60 + spec_two_val(s, 23);
        let t = Timestamp {
            year: (spec_two_val(s, 0) * 100 + spec_two_val(s, 2)) as u32,
            month: spec_two_val(s, 5) as u32,
            day: spec_two_val(s, 8) as u32,
            hour: spec_two_val(s, 11) as u32,
            minute: spec_two_val(s, 14) as u32,
            second: spec_two_val(s, 17) as u32,
            offset_minutes: if s[19] == '-' {
                (-abs_off) as i32
            } else {
                abs_off as i32
            },
        };
        if t.valid() {
            Some(t)
        } else {
            None
        }
    } else {
        None
    }
}

/// The numeric value of a digit character, `None` otherwise.
fn digit_val(c: char) -> (r: Option<u32>)
    ensures
        r is Some <==> crate::timespan::is_span_digit(c),
        r is Some ==> r->Some_0 == spec_digit_val(c) && r->Some_0 <= 9,
{
    if '0' <= c && c <= '9' {
        Some(c as u32 - '0' as u32)
    } else {
        None
    }
}

/// Reads the two-digit number at position `i` of `v`.
fn two_val(v: &Vec<char>, i: usize) -> (r: Option<u32>)
    requires
        i + 2 <= v@.len(),
    ensures
        r is Some <==> spec_two_digits_at(v@, i as int),
        r is Some ==> r->Some_0 == spec_two_val(v@, i as int) && r->Some_0 <= 99,
{
    let n: usize = v.len();
    proof {
        assert(i + 1 < n);
    }
    let hi = digit_val(v[i]);
    let lo = digit_val(v[i + 1]);
    match (hi, lo) {
        (Some(h), Some(l)) => Some(h * 10 + l),
        _ => None,
    }
}

/// Parses `YYYY-MM-DDTHH:MM:SS+HH:MM`.
pub fn parse_timestamp(s: &str) -> (r: Option<Timestamp>)
    ensures
        r == spec_parse_timestamp(s@),
{
    let v = str_to_chars(s);
    if v.len() != 25 {
        return None;
    }
    if !(v[4] == '-' && v[7] == '-' && v[10] == 'T' && v[13] == ':' && v[16] == ':' && v[22]
        == ':') {
        return None;
    }
    let sign = v[19];
    if !(sign == '+' || sign == '-') {
        return None;
    }
    let (y_hi, y_lo, month, day) = match (two_val(&v, 0), two_val(&v, 2), two_val(&v, 5), two_val(
        &v,
        8,
    )) {
        (Some(a), Some(b), Some(c), Some(d)) => (a, b, c, d),
        _ => {
            return None;
        },
    };
    let (hour, minute, second) = match (two_val(&v, 11), two_val(&v, 14), two_val(&v, 17)) {
        (Some(a), Some(b), Some(c)) => (a, b, c),
        _ => {
            return None;
        },
    };
    let (off_h, off_m) = match (two_val(&v, 20), two_val(&v, 23)) {
        (Some(a), Some(b)) => (a, b),
        _ => {
            return None;
        },
    };
    let abs_off: u32 = off_h * 60 + off_m;
    let t = Timestamp {
        year: y_hi * 100 + y_lo,
        month,
        day,
        hour,
        minute,
        second,
        offset_minutes: if sign == '-' {
            -(abs_off as i32)
        } else {
            abs_off as i32
        },
    };
    if t.check_valid() {
        Some(t)
    } else {
        None
    }
}

/// Days from the first day of year 1 to the first day of year `y`, in the
/// proleptic Gregorian calendar.
pub open spec fn spec_days_before_year(y: int) -> int {
    365 * (y - 1) + (y - 1) / 4 - (y - 1) / 100 + (y - 1) / 400
}

/// Days from the first day of month 1 of year `y` to the first day of month
/// `m` of the same year.
pub open spec fn spec_days_before_month(y: int, m: int) -> int
    decreases m,
{
    if m <= 1 {
        0
    } else {
        spec_days_before_month(y, m - 1) + spec_days_in_month(y, m - 1)
    }
}

/// Days from the first day of year 1 to the civil date of `t`.
pub open spec fn spec_day_number(t: Timestamp) -> int {
    spec_days_before_year(t.year as int) + spec_days_before_month(t.year as int, t.month as int) + (
    t.day - 1)
}

/// Seconds from the first instant of year 1 (UTC) to the instant of `t`.
pub open spec fn spec_utc_seconds(t: Timestamp) -> int {
    ((spec_day_number(t) * 24 + t.hour) * 60 + t.minute - t.offset_minutes) * 60 + t.second
}

/// Whole minutes from `start` to `now`, truncated toward zero.
pub open spec fn spec_elapsed_minutes(start: Timestamp, now: Timestamp) -> int {
    spec_div_trunc(spec_utc_seconds(now) - spec_utc_seconds(start), 60)
}

fn days_before_month(y: u32, m: u32) -> (r: u32)
    requires
        1 <= m <= 12,
    ensures
        r == spec_days_before_month(y as int, m as int),
        r <= 366,
{
    let mut r: u32 = 0;
    let mut i: u32 = 1;
    while i < m
        invariant
            1 <= i <= m <= 12,
            r == spec_days_before_month(y as int, i as int),
            r <= 31 * (i - 1),
        decreases m - i,
    {
        r = r + days_in_month(y, i);
        i = i + 1;
    }
    r
}

fn day_number(t: &Timestamp) -> (r: u32)
    requires
        t.valid(),
    ensures
        r == spec_day_number(*t),
        r <= 3_660_000,
{
    let a: u32 = t.year - 1;
    let before_year: u32 = 365 * a + a / 4 - a / 100 + a / 400;
    proof {
        assert(a / 100 <= a / 4) by {
            vstd::arithmetic::div_mod::lemma_div_is_ordered_by_denominator(a as int, 4, 100);
        }
        assert(365 * a <= 365 * 9998) by (nonlinear_arith)
            requires
                a <= 9998,
        ;
        assert(a / 4 <= a);
    }
    before_year + days_before_month(t.year, t.month) + (t.day - 1)
}

/// Seconds from the first instant of year 1 (UTC) to the instant of `t`.
pub fn utc_seconds(t: &Timestamp) -> (r: i64)
    requires
        t.valid(),
    ensures
        r == spec_utc_seconds(*t),
        -90_000 <= r <= 320_000_000_000,
{
    let days: i64 = day_number(t) as i64;
    ((days * 24 + t.hour as i64) * 60 + t.minute as i64 - t.offset_minutes as i64) * 60
        + t.second as i64
}

/// Whole minutes from `start` to `now`, truncated toward zero — the measure
/// a closing session records.
pub fn elapsed_minutes(start: &Timestamp, now: &Timestamp) -> (r: i64)
    requires
        start.valid(),
        now.valid(),
    ensures
        r == spec_elapsed_minutes(*start, *now),
        -6_000_000_000 <= r <= 6_000_000_000,
{
    let delta: i64 = utc_seconds(now) - utc_seconds(start);
    if delta >= 0 {
        delta / 60
    } else {
        -((-delta) / 60)
    }
}

/// A number of one or two digits read greedily at position `i`: its value
/// and the position after it.
pub open spec fn spec_scan_num2(s: Seq<char>, i: int) -> Option<(int, int)> {
    if 0 <= i < s.len() && crate::timespan::is_span_digit(s[i]) {
        if i + 1 < s.len() && crate::timespan::is_span_digit(s[i + 1]) {
            Some((spec_digit_val(s[i]) * 10 + spec_digit_val(s[i + 1]), i + 2))
        } else {
            Some((spec_digit_val(s[i]), i + 1))
        }
    } else {
        None
    }
}

/// An `H:MM`-shaped time of day read at position `i`, which must reach the
/// end of the string: the hour and minute values.
pub open spec fn spec_scan_time(s: Seq<char>, i: int) -> Option<(int, int)> {
    match spec_scan_num2(s, i) {
        None => None,
        Some((hour, j)) => {
            if j < s.len() && s[j] == ':' {
                match spec_scan_num2(s, j + 1) {
                    None => None,
                    Some((minute, k)) => {
                        if k == s.len() {
                            Some((hour, minute))
                        } else {
                            None
                        }
                    },
                }
            } else {
                None
            }
        },
    }
}

/// What a user-supplied start is: either `YYYY-MM-DDTHH:MM`, or `HH:MM` on
/// the day of `now`; seconds zero, the offset taken from `now`.  `None` on
/// any other shape or an impossible date or time.
pub open spec fn spec_parse_started_date(s: Seq<char>, now: Timestamp) -> Option<Timestamp> {
    let full = {
        if s.len() >= 5 && crate::timespan::is_span_digit(s[0]) && crate::timespan::is_span_digit(
            s[1],
        ) && crate::timespan::is_span_digit(s[2]) && crate::timespan::is_span_digit(s[3]) && s[4]
            == '-' {
            let year = ((spec_digit_val(s[0]) * 10 + spec_digit_val(s[1])) * 10 + spec_digit_val(
                s[2],
            )) * 10 + spec_digit_val(s[3]);
            match spec_scan_num2(s, 5) {
                None => None,
                Some((month, j)) => {
                    if j < s.len() && s[j] == '-' {
                        match spec_scan_num2(s, j + 1) {
                            None => None,
                            Some((day, k)) => {
                                if k < s.len() && s[k] == 'T' {
                                    match spec_scan_time(s, k + 1) {
                                        None => None,
                                        Some((hour, minute)) => Some(
                                            Timestamp {
                                                year: year as u32,
                                                month: month as u32,
                                                day: day as u32,
                                                hour: hour as u32,
                                                minute: minute as u32,
                                                second: 0,
                                                offset_minutes: now.offset_minutes,
                                            },
                                        ),
                                    }
                                } else {
                                    None
                                }
                            },
                        }
                    } else {
                        None
                    }
                },
            }
        } else {
            None
        }
    };
    let t = match full {
        Some(t) => Some(t),
        None => match spec_scan_time(s, 0) {
            Some((hour, minute)) => Some(
                Timestamp {
                    year: now.year,
                    month: now.month,
                    day: now.day,
                    hour: hour as u32,
                    minute: minute as u32,
                    second: 0,
                    offset_minutes: now.offset_minutes,
                },
            ),
            None => None,
        },
    };
    match t {
        Some(t) => if t.valid() {
            Some(t)
        } else {
            None
        },
        None => None,
    }
}

/// Reads one or two digits at `i`.
fn scan_num2(v: &Vec<char>, i: usize) -> (r: Option<(u32, usize)>)
    ensures
        match r {
            Some(p) => spec_scan_num2(v@, i as int) == Some((p.0 as int, p.1 as int)) && p.0 <= 99
                && i < p.1 <= v@.len(),
            None => spec_scan_num2(v@, i as int) is None,
        },
{
    let n: usize = v.len();
    if i >= n {
        return None;
    }
    match digit_val(v[i]) {
        None => None,
        Some(d0) => {
            if i + 1 < n {
                match digit_val(v[i + 1]) {
                    Some(d1) => Some((d0 * 10 + d1, i + 2)),
                    None => Some((d0, i + 1)),
                }
            } else {
                Some((d0, i + 1))
            }
        },
    }
}

/// Reads an `H:MM` time of day that must end the string.
fn scan_time(v: &Vec<char>, i: usize) -> (r: Option<(u32, u32)>)
    ensures
        match r {
            Some(p) => spec_scan_time(v@, i as int) == Some((p.0 as int, p.1 as int)) && p.0 <= 99
                && p.1 <= 99,
            None => spec_scan_time(v@, i as int) is None,
        },
{
    let n: usize = v.len();
    match scan_num2(v, i) {
        None => None,
        Some((hour, j)) => {
            if j < n && v[j] == ':' {
                match scan_num2(v, j + 1) {
                    None => None,
                    Some((minute, k)) => {
                        if k == n {
                            Some((hour, minute))
                        } else {
                            None
                        }
                    },
                }
            } else {
                None
            }
        },
    }
}

/// Reads a user-supplied start: `YYYY-MM-DDTHH:MM`, or `HH:MM` meaning
/// today — the day of `now` — at that time; the offset is `now`'s.  Fails
/// with `ValidationError` on any other shape or an impossible date.
pub fn get_started_date(started_date: &str, now: &Timestamp) -> (r: Result<
    Timestamp,
    crate::errors::WorklogError,
>)
    requires
        now.valid(),
    ensures
        match r {
            Ok(t) => spec_parse_started_date(started_date@, *now) == Some(t) && t.valid(),
            Err(e) => spec_parse_started_date(started_date@, *now) is None && e matches crate::errors::WorklogError::ValidationError(
                _,
            ),
        },
{
    let v = str_to_chars(started_date);
    let n: usize = v.len();
    let mut candidate: Option<Timestamp> = None;
    if n >= 5 {
        let full = match (digit_val(v[0]), digit_val(v[1]), digit_val(v[2]), digit_val(v[3])) {
            (Some(y0), Some(y1), Some(y2), Some(y3)) => {
                if v[4] == '-' {
                    let year = ((y0 * 10 + y1) * 10 + y2) * 10 + y3;
                    match scan_num2(&v, 5) {
                        None => None,
                        Some((month, j)) => {
                            if j < n && v[j] == '-' {
                                match scan_num2(&v, j + 1) {
                                    None => None,
                                    Some((day, k)) => {
                                        if k < n && v[k] == 'T' {
                                            match scan_time(&v, k + 1) {
                                                None => None,
                                                Some((hour, minute)) => Some(
                                                    Timestamp {
                                                        year,
                                                        month,
                                                        day,
                                                        hour,
                                                        minute,
                                                        second: 0,
                                                        offset_minutes: now.offset_minutes,
                                                    },
                                                ),
                                            }
                                        } else {
                                            None
                                        }
                                    },
                                }
                            } else {
                                None
                            }
                        },
                    }
                } else {
                    None
                }
            },
            _ => None,
        };
        candidate = full;
    }
    if candidate.is_none() {
        candidate = match scan_time(&v, 0) {
            Some((hour, minute)) => Some(
                Timestamp {
                    year: now.year,
                    month: now.month,
                    day: now.day,
                    hour,
                    minute,
                    second: 0,
                    offset_minutes: now.offset_minutes,
                },
            ),
            None => None,
        };
    }
    match candidate {
        Some(t) => {
            if t.check_valid() {
                Ok(t)
            } else {
                Err(
                    crate::errors::WorklogError::ValidationError(
                        String::from_str("Ambiguous or invalid datetime"),
                    ),
                )
            }
        },
        None => Err(
            crate::errors::WorklogError::ValidationError(
                String::from_str("Invalid format. Use 'YYYY-MM-DDTHH:MM' or 'HH:MM'."),
            ),
        ),
    }
}

/// A digit character decodes back to the digit it renders.
proof fn lemma_digit_char_val(d: int)
    requires
        0 <= d <= 9,
    ensures
        spec_digit_val(spec_digit_char(d)) == d,
        crate::timespan::is_span_digit(spec_digit_char(d)),
{
}

/// A two-digit rendering decodes back to its value.
proof fn lemma_two_digits_val(n: int)
    requires
        0 <= n <= 99,
    ensures
        spec_digit_val(spec_two_digits(n)[0]) * 10 + spec_digit_val(spec_two_digits(n)[1]) == n,
        crate::timespan::is_span_digit(spec_two_digits(n)[0]),
        crate::timespan::is_span_digit(spec_two_digits(n)[1]),
{
    lemma_digit_char_val(n / 10);
    lemma_digit_char_val(n % 10);
}

/// Formatting then parsing gives back the very timestamp: the codec loses
/// nothing, to the second.
pub proof fn lemma_timestamp_round_trip(t: Timestamp)
    requires
        t.valid(),
    ensures
        spec_parse_timestamp(spec_format_timestamp(t)) == Some(t),
{
    let s = spec_format_timestamp(t);
    let y = t.year as int;
    let abs_off = spec_abs_offset(t);
    lemma_two_digits_val(y / 100);
    lemma_two_digits_val(y % 100);
    lemma_two_digits_val(t.month as int);
    lemma_two_digits_val(t.day as int);
    lemma_two_digits_val(t.hour as int);
    lemma_two_digits_val(t.minute as int);
    lemma_two_digits_val(t.second as int);
    lemma_two_digits_val(abs_off / 60);
    lemma_two_digits_val(abs_off % 60);
    assert(s.len() == 25);
    assert(s[0] == spec_two_digits(y / 100)[0]);
    assert(s[1] == spec_two_digits(y / 100)[1]);
    assert(s[2] == spec_two_digits(y % 100)[0]);
    assert(s[3] == spec_two_digits(y % 100)[1]);
    assert(s[4] == '-');
    assert(s[5] == spec_two_digits(t.month as int)[0]);
    assert(s[6] == spec_two_digits(t.month as int)[1]);
    assert(s[7] == '-');
    assert(s[8] == spec_two_digits(t.day as int)[0]);
    assert(s[9] == spec_two_digits(t.day as int)[1]);
    assert(s[10] == 'T');
    assert(s[11] == spec_two_digits(t.hour as int)[0]);
    assert(s[12] == spec_two_digits(t.hour as int)[1]);
    assert(s[13] == ':');
    assert(s[14] == spec_two_digits(t.minute as int)[0]);
    assert(s[15] == spec_two_digits(t.minute as int)[1]);
    assert(s[16] == ':');
    assert(s[17] == spec_two_digits(t.second as int)[0]);
    assert(s[18] == spec_two_digits(t.second as int)[1]);
    assert(s[20] == spec_two_digits(abs_off / 60)[0]);
    assert(s[21] == spec_two_digits(abs_off / 60)[1]);
    assert(s[22] == ':');
    assert(s[23] == spec_two_digits(abs_off % 60)[0]);
    assert(s[24] == spec_two_digits(abs_off % 60)[1]);
    assert(spec_two_val(s, 0) == y / 100);
    assert(spec_two_val(s, 2) == y % 100);
    assert(spec_two_val(s, 0) * 100 + spec_two_val(s, 2) == y);
    assert(spec_two_val(s, 20) == abs_off / 60);
    assert(spec_two_val(s, 23) == abs_off % 60);
    assert(spec_two_val(s, 20) * 60 + spec_two_val(s, 23) == abs_off);
    if t.offset_minutes < 0 {
        assert(s[19] == '-');
    } else {
        assert(s[19] == '+');
    }
    assert(spec_parse_timestamp(s) == Some(t));
}

} // verus!
