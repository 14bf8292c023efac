//! The remote tracker's interface contract: the shape of the worklog write
//! request — URL, JSON body, timestamp format — and the classification of
//! its outcome.  Sending the request is the caller's affair.

use vstd::prelude::*;

use crate::codec::spec_spent_field;
use crate::errors::WorklogError;
use crate::model::{RecordView, WorklogRecord};
use crate::text::{chars_to_string, spec_digit_char, str_to_chars};
use crate::timespan::{is_timespan, is_timespan_str};
use crate::timestamp::{spec_abs_offset, spec_two_digits, Timestamp};
use crate::text::str_eq;

verus! {

/// Validates a user-supplied `time_spent`: the compact time-span format,
/// or the active-session marker.
pub fn validate_jira_time_spent(input: &str) -> (r: Result<(), WorklogError>)
    ensures
        r is Ok <==> (input@ == "current"@ || is_timespan(input@)),
        r matches Err(e) ==> e matches WorklogError::ValidationError(_),
{
    if str_eq(input, "current") {
        return Ok(());
    }
    if is_timespan_str(input) {
        Ok(())
    } else {
        Err(
            WorklogError::ValidationError(
                String::from_str("Invalid time spent, use jira time spent format, for example 1d5h"),
            ),
        )
    }
}

pub open spec fn spec_hex_digit(d: int) -> char {
    if d < 10 {
        spec_digit_char(d)
    } else if d == 10 {
        'a'
    } else if d == 11 {
        'b'
    } else if d == 12 {
        'c'
    } else if d == 13 {
        'd'
    } else if d == 14 {
        'e'
    } else {
        'f'
    }
}

/// How one character stands inside a JSON string.
pub open spec fn spec_json_escape_char(c: char) -> Seq<char> {
    if c == '"' {
        seq!['\\', '"']
    } else if c == '\\' {
        seq!['\\', '\\']
    } else if c == '\n' {
        seq!['\\', 'n']
    } else if c == '\r' {
        seq!['\\', 'r']
    } else if c == '\t' {
        seq!['\\', 't']
    } else if c == '\u{08}' {
        seq!['\\', 'b']
    } else if c == '\u{0C}' {
        seq!['\\', 'f']
    } else if (c as u32) < 32 {
        seq!['\\', 'u', '0', '0', spec_hex_digit((c as u32) as int / 16), spec_hex_digit(
            (c as u32) as int % 16,
        )]
    } else {
        seq![c]
    }
}

/// A string's characters as they stand inside a JSON string literal.
pub open spec fn spec_json_escape(s: Seq<char>) -> Seq<char>
    decreases s.len(),
{
    if s.len() == 0 {
        Seq::empty()
    } else {
        spec_json_escape_char(s[0]) + spec_json_escape(s.skip(1))
    }
}

/// JSON escaping commutes with appending one character.
proof fn lemma_json_escape_snoc(s: Seq<char>, c: char)
    ensures
        spec_json_escape(s.push(c)) == spec_json_escape(s) + spec_json_escape_char(c),
    decreases s.len(),
{
    let t = s.push(c);
    if s.len() == 0 {
        assert(t.skip(1) =~= Seq::<char>::empty());
        assert(spec_json_escape(Seq::<char>::empty()) =~= Seq::<char>::empty());
        assert(spec_json_escape(t) =~= spec_json_escape(s) + spec_json_escape_char(c));
    } else {
        assert(t.skip(1) =~= s.skip(1).push(c));
        lemma_json_escape_snoc(s.skip(1), c);
        assert(spec_json_escape(t) =~= spec_json_escape(s) + spec_json_escape_char(c));
    }
}

fn hex_digit(d: u32) -> (r: char)
    requires
        d < 16,
    ensures
        r == spec_hex_digit(d as int),
{
    if d < 10 {
        crate::text::digit_char(d as u64)
    } else if d == 10 {
        'a'
    } else if d == 11 {
        'b'
    } else if d == 12 {
        'c'
    } else if d == 13 {
        'd'
    } else if d == 14 {
        'e'
    } else {
        'f'
    }
}

/// Appends `s` with JSON string escaping.
fn push_json_escaped(out: &mut Vec<char>, s: &str)
    ensures
        final(out)@ == old(out)@ + spec_json_escape(s@),
{
    let v = str_to_chars(s);
    let n: usize = v.len();
    let mut i: usize = 0;
    proof {
        assert(v@.subrange(0, 0) =~= Seq::<char>::empty());
        assert(old(out)@ + spec_json_escape(v@.subrange(0, 0)) =~= old(out)@);
    }
    while i < n
        invariant
            0 <= i <= n,
            n == v@.len(),
            v@ == s@,
            out@ == old(out)@ + spec_json_escape(v@.subrange(0, i as int)),
        decreases n - i,
    {
        let c = v[i];
        proof {
            lemma_json_escape_snoc(v@.subrange(0, i as int), v@[i as int]);
            assert(v@.subrange(0, i + 1) =~= v@.subrange(0, i as int).push(v@[i as int]));
        }
        if c == '"' {
            out.push('\\');
            out.push('"');
        } else if c == '\\' {
            out.push('\\');
            out.push('\\');
        } else if c == '\n' {
            out.push('\\');
            out.push('n');
        } else if c == '\r' {
            out.push('\\');
            out.push('r');
        } else if c == '\t' {
            out.push('\\');
            out.push('t');
        } else if c == '\u{08}' {
            out.push('\\');
            out.push('b');
        } else if c == '\u{0C}' {
            out.push('\\');
            out.push('f');
        } else if (c as u32) < 32 {
            out.push('\\');
            out.push('u');
            out.push('0');
            out.push('0');
            out.push(hex_digit((c as u32) / 16));
            out.push(hex_digit((c as u32) % 16));
        } else {
            out.push(c);
        }
        proof {
            assert(out@ =~= old(out)@ + spec_json_escape(v@.subrange(0, i + 1)));
        }
        i = i + 1;
    }
    proof {
        assert(v@.subrange(0, n as int) =~= v@);
    }
}

/// The tracker's timestamp shape: `YYYY-MM-DDTHH:MM:SS.000+HHMM` —
/// millisecond precision padded with zeros, the offset without a colon.
pub open spec fn spec_jira_started(t: Timestamp) -> Seq<char> {
    spec_two_digits(t.year as int / 100) + spec_two_digits(t.year as int % 100) + seq!['-']
        + spec_two_digits(t.month as int) + seq!['-'] + spec_two_digits(t.day as int) + seq!['T']
        + spec_two_digits(t.hour as int) + seq![':'] + spec_two_digits(t.minute as int) + seq![':']
        + spec_two_digits(t.second as int) + seq!['.', '0', '0', '0'] + seq![
        if t.offset_minutes < 0 {
            '-'
        } else {
            '+'
        },
    ] + spec_two_digits(spec_abs_offset(t) / 60) + spec_two_digits(spec_abs_offset(t) % 60)
}

/// Appends the two-digit zero-padded rendering of `n`.
fn push_two_digit_chars(out: &mut Vec<char>, n: u32)
    requires
        n < 100,
    ensures
        final(out)@ == old(out)@ + spec_two_digits(n as int),
{
    out.push(crate::text::digit_char((n / 10) as u64));
    out.push(crate::text::digit_char((n % 10) as u64));
    proof {
        assert(out@ =~= old(out)@ + spec_two_digits(n as int));
    }
}

/// Renders `t` in the tracker's timestamp shape.
#[verifier::rlimit(100)]
#[verifier::spinoff_prover]
fn push_jira_started(out: &mut Vec<char>, t: &Timestamp)
    requires
        t.valid(),
    ensures
        final(out)@ == old(out)@ + spec_jira_started(*t),
{
    push_two_digit_chars(out, t.year / 100);
    push_two_digit_chars(out, t.year % 100);
    out.push('-');
    push_two_digit_chars(out, t.month);
    out.push('-');
    push_two_digit_chars(out, t.day);
    out.push('T');
    push_two_digit_chars(out, t.hour);
    out.push(':');
    push_two_digit_chars(out, t.minute);
    out.push(':');
    push_two_digit_chars(out, t.second);
    out.push('.');
    out.push('0');
    out.push('0');
    out.push('0');
    let abs_off: u32 = if t.offset_minutes < 0 {
        out.push('-');
        (-t.offset_minutes) as u32
    } else {
        out.push('+');
        t.offset_minutes as u32
    };
    push_two_digit_chars(out, abs_off / 60);
    push_two_digit_chars(out, abs_off % 60);
    proof {
        assert(abs_off == spec_abs_offset(*t));
        assert(out@ =~= old(out)@ + spec_jira_started(*t));
    }
}

/// The worklog endpoint for a ticket.
pub open spec fn spec_worklog_url(base: Seq<char>, ticket: Seq<char>) -> Seq<char> {
    base + "/rest/api/3/issue/"@ + ticket + "/worklog"@
}

/// The request body: the time spent, the start instant in the tracker's
/// shape, and the description as a one-paragraph structured comment.
pub open spec fn spec_worklog_body(m: RecordView) -> Seq<char> {
    "{\"comment\":{\"content\":[{\"content\":[{\"text\":\""@ + spec_json_escape(m.description)
        + "\",\"type\":\"text\"}],\"type\":\"paragraph\"}],\"type\":\"doc\",\"version\":1},\"started\":\""@
        + spec_jira_started(m.started_date) + "\",\"timeSpent\":\""@ + spec_json_escape(
        spec_spent_field(m.time_spent),
    ) + "\"}"@
}

/// One remote write, ready to send: where, and what.
#[derive(Debug, Clone, PartialEq, Eq)]
pub struct SyncRequest {
    pub url: String,
    pub body: String,
}

/// Builds the remote write request for one record: the ticket's worklog
/// endpoint, and the JSON body carrying `timeSpent`, `started` and the
/// description as a comment.
pub fn build_sync_request(jira_url: &String, rec: &WorklogRecord) -> (r: SyncRequest)
    requires
        rec.started_date.valid(),
    ensures
        r.url@ == spec_worklog_url(jira_url@, rec.ticket@),
        r.body@ == spec_worklog_body(rec@),
{
    let mut url = jira_url.clone();
    url.append("/rest/api/3/issue/");
    url.append(rec.ticket.as_str());
    url.append("/worklog");
    let mut body: Vec<char> = Vec::new();
    let mut opening = str_to_chars("{\"comment\":{\"content\":[{\"content\":[{\"text\":\"");
    body.append(&mut opening);
    let spent: String = match &rec.time_spent {
        crate::model::TimeSpent::Current => String::from_str("current"),
        crate::model::TimeSpent::Logged(s) => s.clone(),
    };
    push_json_escaped(&mut body, rec.description.as_str());
    let mut middle = str_to_chars(
        "\",\"type\":\"text\"}],\"type\":\"paragraph\"}],\"type\":\"doc\",\"version\":1},\"started\":\"",
    );
    body.append(&mut middle);
    push_jira_started(&mut body, &rec.started_date);
    let mut spent_key = str_to_chars("\",\"timeSpent\":\"");
    body.append(&mut spent_key);
    push_json_escaped(&mut body, spent.as_str());
    let mut closing = str_to_chars("\"}");
    body.append(&mut closing);
    proof {
        assert(spent@ == spec_spent_field(rec.time_spent@));
        assert(body@ =~= spec_worklog_body(rec@));
    }
    SyncRequest { url, body: chars_to_string(&body) }
}

/// Whether the tracker accepted the write: it answers 201 on success, and
/// anything else is a failure.
pub fn sync_status_ok(status: u16) -> (r: bool)
    ensures
        r == (status == 201),
{
    status == 201
}

} // verus!
