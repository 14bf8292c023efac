//! The compact time-span format: a non-empty sequence of `<integer><unit>`
//! tokens, where the unit is one of `m` (minutes), `h` (hours), `d` (days)
//! and `w` (weeks) — for example `1d5h`.

use vstd::prelude::*;

use crate::text::{decimal_string, spec_decimal, str_to_chars};

verus! {

/// The decimal rendering of a possibly negative number of minutes, with a
/// trailing `m` — what a closing session writes into `time_spent`.
pub open spec fn spec_minutes_span(n: int) -> Seq<char> {
    if n >= 0 {
        spec_decimal(n as nat).push('m')
    } else {
        seq!['-'].add(spec_decimal((-n) as nat)).push('m')
    }
}

/// Renders `n` minutes as `<n>m`.
pub fn minutes_span_string(n: i64) -> (r: String)
    requires
        i64::MIN < n,
    ensures
        r@ == spec_minutes_span(n as int),
{
    let mut r: String;
    if n >= 0 {
        r = decimal_string(n as u64);
    } else {
        r = String::new();
        r.push('-');
        let digits = decimal_string((-n) as u64);
        proof {
            assert(r@ =~= seq!['-']);
        }
        r.append(digits.as_str());
    }
    r.push('m');
    r
}

pub open spec fn is_span_digit(c: char) -> bool {
    '0' <= c && c <= '9'
}

pub open spec fn is_span_unit(c: char) -> bool {
    c == 'm' || c == 'h' || c == 'd' || c == 'w'
}

/// The scanner state for the time-span grammar, from position `i` on:
/// `in_digits` says whether the current token already has at least one
/// digit.  The remainder is accepted when it completes the current token and
/// any number of further `<integer><unit>` tokens.
pub open spec fn span_scan(s: Seq<char>, i: int, in_digits: bool) -> bool
    recommends
        0 <= i <= s.len(),
    decreases s.len() - i when 0 <= i <= s.len()
{
    if i >= s.len() {
        !in_digits
    } else if is_span_digit(s[i]) {
        span_scan(s, i + 1, true)
    } else if is_span_unit(s[i]) {
        in_digits && span_scan(s, i + 1, false)
    } else {
        false
    }
}

/// Whether `s` is a well-formed time-span, i.e. matches
/// `(<digit>+<unit>)+`.
pub open spec fn is_timespan(s: Seq<char>) -> bool {
    s.len() > 0 && span_scan(s, 0, false)
}

/// Whether the string `s` is a well-formed time-span.
pub fn is_timespan_str(s: &str) -> (r: bool)
    ensures
        r == is_timespan(s@),
{
    let v = str_to_chars(s);
    let n: usize = v.len();
    if n == 0 {
        return false;
    }
    let mut i: usize = 0;
    let mut in_digits: bool = false;
    while i < n
        invariant
            i <= n,
            n == v@.len(),
            v@ == s@,
            span_scan(s@, 0, false) == span_scan(s@, i as int, in_digits),
        decreases n - i,
    {
        let c = v[i];
        if '0' <= c && c <= '9' {
            in_digits = true;
        } else if c == 'm' || c == 'h' || c == 'd' || c == 'w' {
            if !in_digits {
                return false;
            }
            in_digits = false;
        } else {
            return false;
        }
        i = i + 1;
    }
    !in_digits
}

/// Every character of the decimal rendering of `n` is a digit.
pub proof fn lemma_decimal_digits(n: nat)
    ensures
        spec_decimal(n).len() >= 1,
        forall|k: int| 0 <= k < spec_decimal(n).len() ==> is_span_digit(#[trigger] spec_decimal(n)[k]),
    decreases n,
{
    if n >= 10 {
        lemma_decimal_digits(n / 10);
    }
}

/// The string a closing session writes is never the literal `current`: it
/// starts with a digit or a minus sign.
pub proof fn lemma_minutes_span_not_current(n: int)
    ensures
        spec_minutes_span(n) != "current"@,
{
    reveal_strlit("current");
    if n >= 0 {
        lemma_decimal_digits(n as nat);
        assert(spec_minutes_span(n)[0] == spec_decimal(n as nat)[0]);
    } else {
        assert(spec_minutes_span(n)[0] == '-');
    }
}

} // verus!
