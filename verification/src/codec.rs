//! The ledger file format: a header row naming the six fields, then one
//! quoted-CSV row per record, fields in fixed order — ticket, time_spent,
//! description, started_date, committed, id.  Parsing is proved to be the
//! exact inverse of serialization.

use vstd::prelude::*;

use crate::errors::WorklogError;
use crate::ledger::records_wf;
use crate::model::{RecordView, SpentView, TimeSpent, WorklogRecord};
use crate::text::{chars_to_string, str_to_chars};
use crate::timestamp::{format_timestamp, parse_timestamp, spec_format_timestamp, spec_parse_timestamp};

verus! {

/// A character that forces a field into quotes.
pub open spec fn is_special_char(c: char) -> bool {
    c == ',' || c == '"' || c == '\n' || c == '\r'
}

pub open spec fn field_needs_quoting(s: Seq<char>) -> bool {
    exists|i: int| 0 <= i < s.len() && is_special_char(#[trigger] s[i])
}

/// The field's characters with every quote doubled.
pub open spec fn spec_escape_quotes(s: Seq<char>) -> Seq<char>
    decreases s.len(),
{
    if s.len() == 0 {
        Seq::empty()
    } else if s[0] == '"' {
        seq!['"', '"'] + spec_escape_quotes(s.skip(1))
    } else {
        seq![s[0]] + spec_escape_quotes(s.skip(1))
    }
}

/// A field as it stands in the file: bare, or quoted with doubled quotes
/// when it holds a delimiter, a quote or a line break.
pub open spec fn spec_encode_field(s: Seq<char>) -> Seq<char> {
    if field_needs_quoting(s) {
        seq!['"'] + spec_escape_quotes(s) + seq!['"']
    } else {
        s
    }
}

/// The `time_spent` column: the marker spells `current`.
pub open spec fn spec_spent_field(ts: SpentView) -> Seq<char> {
    match ts {
        SpentView::Current => "current"@,
        SpentView::Logged(s) => s,
    }
}

pub open spec fn spec_bool_field(b: bool) -> Seq<char> {
    if b {
        "true"@
    } else {
        "false"@
    }
}

/// A record's six columns, in file order.
pub open spec fn spec_record_fields(m: RecordView) -> Seq<Seq<char>> {
    seq![
        m.ticket,
        spec_spent_field(m.time_spent),
        m.description,
        spec_format_timestamp(m.started_date),
        spec_bool_field(m.committed),
        m.id,
    ]
}

/// The header row's six names.
pub open spec fn spec_header_fields() -> Seq<Seq<char>> {
    seq!["ticket"@, "time_spent"@, "description"@, "started_date"@, "committed"@, "id"@]
}

/// Encoded fields joined by commas.
pub open spec fn spec_encode_fields(fields: Seq<Seq<char>>) -> Seq<char>
    decreases fields.len(),
{
    if fields.len() == 0 {
        Seq::empty()
    } else if fields.len() == 1 {
        spec_encode_field(fields[0])
    } else {
        spec_encode_field(fields[0]) + seq![','] + spec_encode_fields(fields.drop_first())
    }
}

/// A row: its fields joined by commas, terminated by a line feed.
pub open spec fn spec_encode_row(fields: Seq<Seq<char>>) -> Seq<char> {
    spec_encode_fields(fields).push('\n')
}

/// The record rows, in ledger order.
pub open spec fn spec_encode_rows(ms: Seq<RecordView>) -> Seq<char>
    decreases ms.len(),
{
    if ms.len() == 0 {
        Seq::empty()
    } else {
        spec_encode_row(spec_record_fields(ms[0])) + spec_encode_rows(ms.drop_first())
    }
}

/// The whole file: empty for an empty ledger, else the header row followed
/// by one row per record.
pub open spec fn spec_encode_ledger(ms: Seq<RecordView>) -> Seq<char> {
    if ms.len() == 0 {
        Seq::empty()
    } else {
        spec_encode_row(spec_header_fields()) + spec_encode_rows(ms)
    }
}

/// The records' mathematical shadows, in order.
pub open spec fn spec_views(rs: Seq<WorklogRecord>) -> Seq<RecordView> {
    Seq::new(rs.len(), |i: int| rs[i]@)
}

/// Escaping commutes with appending one character.
proof fn lemma_escape_snoc(s: Seq<char>, c: char)
    ensures
        spec_escape_quotes(s.push(c)) == spec_escape_quotes(s) + (if c == '"' {
            seq!['"', '"']
        } else {
            seq![c]
        }),
    decreases s.len(),
{
    let t = s.push(c);
    if s.len() == 0 {
        assert(t.skip(1) =~= Seq::<char>::empty());
        assert(spec_escape_quotes(Seq::<char>::empty()) =~= Seq::<char>::empty());
        assert(spec_escape_quotes(t) =~= spec_escape_quotes(s) + (if c == '"' {
            seq!['"', '"']
        } else {
            seq![c]
        }));
    } else {
        assert(t.skip(1) =~= s.skip(1).push(c));
        lemma_escape_snoc(s.skip(1), c);
        assert(spec_escape_quotes(t) =~= spec_escape_quotes(s) + (if c == '"' {
            seq!['"', '"']
        } else {
            seq![c]
        }));
    }
}

/// Whether the field must be quoted in the file.
fn needs_quoting(v: &Vec<char>) -> (r: bool)
    ensures
        r == field_needs_quoting(v@),
{
    let n: usize = v.len();
    let mut i: usize = 0;
    while i < n
        invariant
            0 <= i <= n,
            n == v@.len(),
            forall|k: int| 0 <= k < i ==> !is_special_char(#[trigger] v@[k]),
        decreases n - i,
    {
        let c = v[i];
        if c == ',' || c == '"' || c == '\n' || c == '\r' {
            return true;
        }
        i = i + 1;
    }
    false
}

/// Appends the encoded form of one field.
fn push_field(out: &mut Vec<char>, f: &Vec<char>)
    ensures
        final(out)@ == old(out)@ + spec_encode_field(f@),
{
    let n: usize = f.len();
    if needs_quoting(f) {
        out.push('"');
        let ghost base = out@;
        let mut i: usize = 0;
        proof {
            assert(f@.subrange(0, 0) =~= Seq::<char>::empty());
            assert(base =~= base + spec_escape_quotes(f@.subrange(0, 0)));
        }
        while i < n
            invariant
                0 <= i <= n,
                n == f@.len(),
                out@ == base + spec_escape_quotes(f@.subrange(0, i as int)),
            decreases n - i,
        {
            let c = f[i];
            proof {
                lemma_escape_snoc(f@.subrange(0, i as int), f@[i as int]);
                assert(f@.subrange(0, i + 1).drop_last() =~= f@.subrange(0, i as int));
                assert(f@.subrange(0, i + 1) =~= f@.subrange(0, i as int).push(f@[i as int]));
            }
            if c == '"' {
                out.push('"');
                out.push('"');
            } else {
                out.push(c);
            }
            i = i + 1;
        }
        out.push('"');
        proof {
            assert(f@.subrange(0, n as int) =~= f@);
            assert(out@ =~= old(out)@ + spec_encode_field(f@));
        }
    } else {
        let mut i: usize = 0;
        while i < n
            invariant
                0 <= i <= n,
                n == f@.len(),
                out@ == old(out)@ + f@.subrange(0, i as int),
            decreases n - i,
        {
            out.push(f[i]);
            proof {
                assert(out@ =~= old(out)@ + f@.subrange(0, i + 1));
            }
            i = i + 1;
        }
        proof {
            assert(f@.subrange(0, n as int) =~= f@);
        }
    }
}

/// Unfolds the comma-joined encoding of a six-field row.
#[verifier::rlimit(100)]
#[verifier::spinoff_prover]
proof fn lemma_encode_fields6(
    f0: Seq<char>,
    f1: Seq<char>,
    f2: Seq<char>,
    f3: Seq<char>,
    f4: Seq<char>,
    f5: Seq<char>,
)
    ensures
        spec_encode_fields(seq![f0, f1, f2, f3, f4, f5]) =~= spec_encode_field(f0) + seq![',']
            + spec_encode_field(f1) + seq![','] + spec_encode_field(f2) + seq![',']
            + spec_encode_field(f3) + seq![','] + spec_encode_field(f4) + seq![',']
            + spec_encode_field(f5),
{
    let fs = seq![f0, f1, f2, f3, f4, f5];
    assert(fs.drop_first() =~= seq![f1, f2, f3, f4, f5]);
    assert(seq![f1, f2, f3, f4, f5].drop_first() =~= seq![f2, f3, f4, f5]);
    assert(seq![f2, f3, f4, f5].drop_first() =~= seq![f3, f4, f5]);
    assert(seq![f3, f4, f5].drop_first() =~= seq![f4, f5]);
    assert(seq![f4, f5].drop_first() =~= seq![f5]);
    assert(spec_encode_fields(seq![f5]) == spec_encode_field(f5));
    assert(spec_encode_fields(seq![f4, f5]) == spec_encode_field(f4) + seq![',']
        + spec_encode_fields(seq![f5]));
    assert(spec_encode_fields(seq![f3, f4, f5]) == spec_encode_field(f3) + seq![',']
        + spec_encode_fields(seq![f4, f5]));
    assert(spec_encode_fields(seq![f2, f3, f4, f5]) == spec_encode_field(f2) + seq![',']
        + spec_encode_fields(seq![f3, f4, f5]));
    assert(spec_encode_fields(seq![f1, f2, f3, f4, f5]) == spec_encode_field(f1) + seq![',']
        + spec_encode_fields(seq![f2, f3, f4, f5]));
    assert(spec_encode_fields(fs) == spec_encode_field(f0) + seq![',']
        + spec_encode_fields(seq![f1, f2, f3, f4, f5]));
}

/// Appends one row built from six already-prepared fields.
fn push_row(
    out: &mut Vec<char>,
    f0: &Vec<char>,
    f1: &Vec<char>,
    f2: &Vec<char>,
    f3: &Vec<char>,
    f4: &Vec<char>,
    f5: &Vec<char>,
)
    ensures
        final(out)@ == old(out)@ + spec_encode_row(seq![f0@, f1@, f2@, f3@, f4@, f5@]),
{
    push_field(out, f0);
    out.push(',');
    push_field(out, f1);
    out.push(',');
    push_field(out, f2);
    out.push(',');
    push_field(out, f3);
    out.push(',');
    push_field(out, f4);
    out.push(',');
    push_field(out, f5);
    out.push('\n');
    proof {
        lemma_encode_fields6(f0@, f1@, f2@, f3@, f4@, f5@);
        assert(out@ =~= old(out)@ + spec_encode_row(seq![f0@, f1@, f2@, f3@, f4@, f5@]));
    }
}

/// Appends the header row.
fn push_header(out: &mut Vec<char>)
    ensures
        final(out)@ == old(out)@ + spec_encode_row(spec_header_fields()),
{
    let f0 = str_to_chars("ticket");
    let f1 = str_to_chars("time_spent");
    let f2 = str_to_chars("description");
    let f3 = str_to_chars("started_date");
    let f4 = str_to_chars("committed");
    let f5 = str_to_chars("id");
    push_row(out, &f0, &f1, &f2, &f3, &f4, &f5);
    proof {
        assert(seq![f0@, f1@, f2@, f3@, f4@, f5@] =~= spec_header_fields());
    }
}

/// Appends the row of one record.
fn push_record(out: &mut Vec<char>, rec: &WorklogRecord)
    requires
        rec.started_date.valid(),
    ensures
        final(out)@ == old(out)@ + spec_encode_row(spec_record_fields(rec@)),
{
    let f0 = str_to_chars(rec.ticket.as_str());
    let f1 = match &rec.time_spent {
        TimeSpent::Current => str_to_chars("current"),
        TimeSpent::Logged(s) => str_to_chars(s.as_str()),
    };
    let f2 = str_to_chars(rec.description.as_str());
    let date = format_timestamp(&rec.started_date);
    let f3 = str_to_chars(date.as_str());
    let f4 = if rec.committed {
        str_to_chars("true")
    } else {
        str_to_chars("false")
    };
    let f5 = str_to_chars(rec.id.as_str());
    push_row(out, &f0, &f1, &f2, &f3, &f4, &f5);
    proof {
        assert(seq![f0@, f1@, f2@, f3@, f4@, f5@] =~= spec_record_fields(rec@));
    }
}

/// Appending one record extends the encoded rows by its row.
proof fn lemma_encode_rows_snoc(ms: Seq<RecordView>, m: RecordView)
    ensures
        spec_encode_rows(ms.push(m)) == spec_encode_rows(ms) + spec_encode_row(
            spec_record_fields(m),
        ),
    decreases ms.len(),
{
    let t = ms.push(m);
    if ms.len() == 0 {
        assert(t.drop_first() =~= Seq::<RecordView>::empty());
        assert(spec_encode_rows(Seq::<RecordView>::empty()) =~= Seq::<char>::empty());
        assert(spec_encode_rows(t) =~= spec_encode_rows(ms) + spec_encode_row(
            spec_record_fields(m),
        ));
    } else {
        assert(t.drop_first() =~= ms.drop_first().push(m));
        lemma_encode_rows_snoc(ms.drop_first(), m);
        assert(spec_encode_rows(t) =~= spec_encode_rows(ms) + spec_encode_row(
            spec_record_fields(m),
        ));
    }
}

/// Serializes the ledger: the empty ledger writes an empty file; otherwise
/// the header row, then each record's row in order.
pub fn encode_ledger(records: &Vec<WorklogRecord>) -> (r: String)
    requires
        records_wf(records@),
    ensures
        r@ == spec_encode_ledger(spec_views(records@)),
{
    let n: usize = records.len();
    if n == 0 {
        return String::new();
    }
    let mut out: Vec<char> = Vec::new();
    push_header(&mut out);
    let ghost header = out@;
    let mut i: usize = 0;
    proof {
        assert(spec_views(records@).subrange(0, 0) =~= Seq::<RecordView>::empty());
        assert(out@ =~= header + spec_encode_rows(spec_views(records@).subrange(0, 0)));
    }
    while i < n
        invariant
            0 <= i <= n,
            n == records@.len(),
            records_wf(records@),
            out@ == header + spec_encode_rows(spec_views(records@).subrange(0, i as int)),
        decreases n - i,
    {
        proof {
            assert(records@[i as int].wf());
        }
        push_record(&mut out, &records[i]);
        proof {
            lemma_encode_rows_snoc(
                spec_views(records@).subrange(0, i as int),
                records@[i as int]@,
            );
            assert(spec_views(records@).subrange(0, i + 1) =~= spec_views(
                records@,
            ).subrange(0, i as int).push(records@[i as int]@));
        }
        i = i + 1;
    }
    proof {
        assert(spec_views(records@).subrange(0, n as int) =~= spec_views(records@));
        assert(out@ =~= spec_encode_ledger(spec_views(records@)));
    }
    chars_to_string(&out)
}

/// A character that ends a bare field: the delimiter or a line break.
pub open spec fn is_field_end(c: char) -> bool {
    c == ',' || c == '\n' || c == '\r'
}

/// Consumes a quoted field's inside, `s` starting just after the opening
/// quote: doubled quotes collapse, the first lone quote closes the field.
/// `None` when the field never closes.
pub open spec fn spec_parse_quoted(s: Seq<char>) -> Option<(Seq<char>, Seq<char>)>
    decreases s.len(),
{
    if s.len() == 0 {
        None
    } else if s[0] != '"' {
        match spec_parse_quoted(s.skip(1)) {
            Some(p) => Some((seq![s[0]] + p.0, p.1)),
            None => None,
        }
    } else if s.len() >= 2 && s[1] == '"' {
        match spec_parse_quoted(s.skip(2)) {
            Some(p) => Some((seq!['"'] + p.0, p.1)),
            None => None,
        }
    } else {
        Some((Seq::empty(), s.skip(1)))
    }
}

/// Consumes a bare field: everything up to the delimiter, a line break or
/// the end.  A stray quote inside is malformed.
pub open spec fn spec_parse_raw(s: Seq<char>) -> Option<(Seq<char>, Seq<char>)>
    decreases s.len(),
{
    if s.len() == 0 {
        Some((Seq::empty(), s))
    } else if is_field_end(s[0]) {
        Some((Seq::empty(), s))
    } else if s[0] == '"' {
        None
    } else {
        match spec_parse_raw(s.skip(1)) {
            Some(p) => Some((seq![s[0]] + p.0, p.1)),
            None => None,
        }
    }
}

/// Consumes one field, quoted or bare; after a quoted field only a
/// delimiter, a line break or the end may follow.
pub open spec fn spec_parse_field(s: Seq<char>) -> Option<(Seq<char>, Seq<char>)> {
    if s.len() > 0 && s[0] == '"' {
        match spec_parse_quoted(s.skip(1)) {
            Some(p) => if p.1.len() == 0 || is_field_end(p.1[0]) {
                Some(p)
            } else {
                None
            },
            None => None,
        }
    } else {
        spec_parse_raw(s)
    }
}

/// Consumes one row: comma-separated fields up to a line feed (or a
/// carriage-return–line-feed pair, or the end of the file).
pub open spec fn spec_parse_row(s: Seq<char>) -> Option<(Seq<Seq<char>>, Seq<char>)>
    decreases s.len(),
{
    match spec_parse_field(s) {
        None => None,
        Some((f, rest)) => {
            if rest.len() == 0 {
                Some((seq![f], rest))
            } else if rest[0] == ',' && rest.len() <= s.len() {
                match spec_parse_row(rest.skip(1)) {
                    Some((fs, r2)) => Some((seq![f] + fs, r2)),
                    None => None,
                }
            } else if rest[0] == '\n' {
                Some((seq![f], rest.skip(1)))
            } else if rest[0] == '\r' && rest.len() >= 2 && rest[1] == '\n' {
                Some((seq![f], rest.skip(2)))
            } else {
                None
            }
        },
    }
}

/// Reads a row's six fields back into a record shadow: `None` on a wrong
/// column count, a bad timestamp or a bad boolean.
pub open spec fn spec_fields_to_record(fields: Seq<Seq<char>>) -> Option<RecordView> {
    if fields.len() != 6 {
        None
    } else {
        match spec_parse_timestamp(fields[3]) {
            None => None,
            Some(ts) => {
                if fields[4] == "true"@ || fields[4] == "false"@ {
                    Some(
                        RecordView {
                            ticket: fields[0],
                            time_spent: if fields[1] == "current"@ {
                                SpentView::Current
                            } else {
                                SpentView::Logged(fields[1])
                            },
                            description: fields[2],
                            started_date: ts,
                            committed: fields[4] == "true"@,
                            id: fields[5],
                        },
                    )
                } else {
                    None
                }
            },
        }
    }
}

/// Consumes record rows until the end of the file; any malformed row fails
/// the whole parse.
pub open spec fn spec_parse_records(s: Seq<char>) -> Option<Seq<RecordView>>
    decreases s.len(),
{
    if s.len() == 0 {
        Some(Seq::empty())
    } else {
        match spec_parse_row(s) {
            None => None,
            Some((fields, rest)) => {
                if rest.len() < s.len() {
                    match (spec_fields_to_record(fields), spec_parse_records(rest)) {
                        (Some(m), Some(ms)) => Some(seq![m] + ms),
                        _ => None,
                    }
                } else {
                    None
                }
            },
        }
    }
}

/// The whole file: empty means the empty ledger; otherwise the first row
/// must spell the header, and every further row must read back as a
/// record.
pub open spec fn spec_parse_ledger(s: Seq<char>) -> Option<Seq<RecordView>> {
    if s.len() == 0 {
        Some(Seq::empty())
    } else {
        match spec_parse_row(s) {
            None => None,
            Some((fields, rest)) => {
                if fields == spec_header_fields() && rest.len() < s.len() {
                    spec_parse_records(rest)
                } else {
                    None
                }
            },
        }
    }
}

/// The fields' characters, in order.
pub open spec fn spec_field_views(fs: Seq<Vec<char>>) -> Seq<Seq<char>> {
    Seq::new(fs.len(), |i: int| fs[i]@)
}

/// Reads a quoted field's inside, `i` just after the opening quote.
fn parse_quoted_at(v: &Vec<char>, i: usize) -> (r: Option<(Vec<char>, usize)>)
    requires
        i <= v@.len(),
    ensures
        match r {
            Some(p) => i <= p.1 <= v@.len() && spec_parse_quoted(v@.skip(i as int)) == Some(
                (p.0@, v@.skip(p.1 as int)),
            ),
            None => spec_parse_quoted(v@.skip(i as int)) is None,
        },
{
    let n: usize = v.len();
    let mut out: Vec<char> = Vec::new();
    let mut cur: usize = i;
    while cur < n
        invariant
            i <= cur <= n,
            n == v@.len(),
            forall|c: Seq<char>, rest: Seq<char>|
                spec_parse_quoted(v@.skip(cur as int)) == Some((c, rest))
                    ==> spec_parse_quoted(v@.skip(i as int)) == Some((out@ + c, rest)),
            spec_parse_quoted(v@.skip(cur as int)) is None ==> spec_parse_quoted(
                v@.skip(i as int),
            ) is None,
        decreases n - cur,
    {
        let c = v[cur];
        proof {
            assert(v@.skip(cur as int)[0] == v@[cur as int]);
            assert(v@.skip(cur as int).skip(1) =~= v@.skip(cur + 1));
        }
        if c != '"' {
            let ghost pre = out@;
            out.push(c);
            proof {
                assert forall|cc: Seq<char>, rest: Seq<char>|
                    spec_parse_quoted(v@.skip(cur + 1)) == Some(
                        (cc, rest),
                    ) implies spec_parse_quoted(v@.skip(i as int)) == Some(
                    (out@ + cc, rest),
                ) by {
                    assert(spec_parse_quoted(v@.skip(cur as int)) == Some(
                        (seq![c] + cc, rest),
                    ));
                    assert(pre + (seq![c] + cc) =~= out@ + cc);
                }
            }
            cur = cur + 1;
        } else if cur + 1 < n && v[cur + 1] == '"' {
            proof {
                assert(v@.skip(cur as int)[1] == v@[cur + 1]);
                assert(v@.skip(cur as int).skip(2) =~= v@.skip(cur + 2));
            }
            let ghost pre = out@;
            out.push('"');
            proof {
                assert forall|cc: Seq<char>, rest: Seq<char>|
                    spec_parse_quoted(v@.skip(cur + 2)) == Some(
                        (cc, rest),
                    ) implies spec_parse_quoted(v@.skip(i as int)) == Some(
                    (out@ + cc, rest),
                ) by {
                    assert(spec_parse_quoted(v@.skip(cur as int)) == Some(
                        (seq!['"'] + cc, rest),
                    ));
                    assert(pre + (seq!['"'] + cc) =~= out@ + cc);
                }
            }
            cur = cur + 2;
        } else {
            proof {
                if cur + 1 < n {
                    assert(v@.skip(cur as int)[1] == v@[cur + 1]);
                }
                assert(v@.skip(cur as int).skip(1) =~= v@.skip(cur + 1));
                assert(spec_parse_quoted(v@.skip(cur as int)) == Some(
                    (Seq::<char>::empty(), v@.skip(cur + 1)),
                ));
                assert(out@ + Seq::<char>::empty() =~= out@);
            }
            return Some((out, cur + 1));
        }
    }
    proof {
        assert(v@.skip(cur as int).len() == 0);
    }
    None
}

/// Reads a bare field starting at `i`.
fn parse_raw_at(v: &Vec<char>, i: usize) -> (r: Option<(Vec<char>, usize)>)
    requires
        i <= v@.len(),
    ensures
        match r {
            Some(p) => i <= p.1 <= v@.len() && spec_parse_raw(v@.skip(i as int)) == Some(
                (p.0@, v@.skip(p.1 as int)),
            ),
            None => spec_parse_raw(v@.skip(i as int)) is None,
        },
{
    let n: usize = v.len();
    let mut out: Vec<char> = Vec::new();
    let mut cur: usize = i;
    while cur < n
        invariant
            i <= cur <= n,
            n == v@.len(),
            forall|c: Seq<char>, rest: Seq<char>|
                spec_parse_raw(v@.skip(cur as int)) == Some((c, rest)) ==> spec_parse_raw(
                    v@.skip(i as int),
                ) == Some((out@ + c, rest)),
            spec_parse_raw(v@.skip(cur as int)) is None ==> spec_parse_raw(
                v@.skip(i as int),
            ) is None,
        decreases n - cur,
    {
        let c = v[cur];
        proof {
            assert(v@.skip(cur as int)[0] == v@[cur as int]);
            assert(v@.skip(cur as int).skip(1) =~= v@.skip(cur + 1));
        }
        if c == ',' || c == '\n' || c == '\r' {
            proof {
                assert(spec_parse_raw(v@.skip(cur as int)) == Some(
                    (Seq::<char>::empty(), v@.skip(cur as int)),
                ));
                assert(out@ + Seq::<char>::empty() =~= out@);
            }
            return Some((out, cur));
        }
        if c == '"' {
            return None;
        }
        let ghost pre = out@;
        out.push(c);
        proof {
            assert forall|cc: Seq<char>, rest: Seq<char>|
                spec_parse_raw(v@.skip(cur + 1)) == Some((cc, rest)) implies spec_parse_raw(
                v@.skip(i as int),
            ) == Some((out@ + cc, rest)) by {
                assert(spec_parse_raw(v@.skip(cur as int)) == Some((seq![c] + cc, rest)));
                assert(pre + (seq![c] + cc) =~= out@ + cc);
            }
        }
        cur = cur + 1;
    }
    proof {
        assert(v@.skip(cur as int).len() == 0);
        assert(spec_parse_raw(v@.skip(cur as int)) == Some(
            (Seq::<char>::empty(), v@.skip(cur as int)),
        ));
        assert(out@ + Seq::<char>::empty() =~= out@);
    }
    Some((out, cur))
}

/// Reads one field starting at `i`.
fn parse_field_at(v: &Vec<char>, i: usize) -> (r: Option<(Vec<char>, usize)>)
    requires
        i <= v@.len(),
    ensures
        match r {
            Some(p) => i <= p.1 <= v@.len() && spec_parse_field(v@.skip(i as int)) == Some(
                (p.0@, v@.skip(p.1 as int)),
            ),
            None => spec_parse_field(v@.skip(i as int)) is None,
        },
{
    let n: usize = v.len();
    if i < n && v[i] == '"' {
        proof {
            assert(v@.skip(i as int)[0] == v@[i as int]);
            assert(v@.skip(i as int).skip(1) =~= v@.skip(i + 1));
        }
        match parse_quoted_at(v, i + 1) {
            Some((f, j)) => {
                proof {
                    if j < n {
                        assert(v@.skip(j as int)[0] == v@[j as int]);
                    }
                }
                if j >= n {
                    Some((f, j))
                } else {
                    let c = v[j];
                    if c == ',' || c == '\n' || c == '\r' {
                        Some((f, j))
                    } else {
                        None
                    }
                }
            },
            None => None,
        }
    } else {
        parse_raw_at(v, i)
    }
}

/// Reads one row starting at `i`.
fn parse_row_at(v: &Vec<char>, i: usize) -> (r: Option<(Vec<Vec<char>>, usize)>)
    requires
        i <= v@.len(),
    ensures
        match r {
            Some(p) => i <= p.1 <= v@.len() && spec_parse_row(v@.skip(i as int)) == Some(
                (spec_field_views(p.0@), v@.skip(p.1 as int)),
            ),
            None => spec_parse_row(v@.skip(i as int)) is None,
        },
    decreases v@.len() - i,
{
    let n: usize = v.len();
    match parse_field_at(v, i) {
        None => None,
        Some((f, j)) => {
            proof {
                if j < n {
                    assert(v@.skip(j as int)[0] == v@[j as int]);
                }
            }
            if j >= n {
                let mut fields: Vec<Vec<char>> = Vec::new();
                fields.push(f);
                proof {
                    assert(spec_field_views(fields@) =~= seq![fields@[0]@]);
                }
                Some((fields, j))
            } else {
                let c = v[j];
                if c == ',' {
                    proof {
                        assert(v@.skip(j as int).skip(1) =~= v@.skip(j + 1));
                        assert(v@.skip(j as int).len() <= v@.skip(i as int).len());
                    }
                    match parse_row_at(v, j + 1) {
                        Some((rest_fields, j2)) => {
                            let ghost rf = rest_fields@;
                            let mut fields = rest_fields;
                            fields.insert(0, f);
                            proof {
                                assert(spec_field_views(fields@) =~= seq![f@]
                                    + spec_field_views(rf));
                            }
                            Some((fields, j2))
                        },
                        None => None,
                    }
                } else if c == '\n' {
                    proof {
                        assert(v@.skip(j as int).skip(1) =~= v@.skip(j + 1));
                    }
                    let mut fields: Vec<Vec<char>> = Vec::new();
                    fields.push(f);
                    proof {
                        assert(spec_field_views(fields@) =~= seq![fields@[0]@]);
                    }
                    Some((fields, j + 1))
                } else if c == '\r' && j + 1 < n && v[j + 1] == '\n' {
                    proof {
                        assert(v@.skip(j as int)[1] == v@[j + 1]);
                        assert(v@.skip(j as int).skip(2) =~= v@.skip(j + 2));
                    }
                    let mut fields: Vec<Vec<char>> = Vec::new();
                    fields.push(f);
                    proof {
                        assert(spec_field_views(fields@) =~= seq![fields@[0]@]);
                    }
                    Some((fields, j + 2))
                } else {
                    proof {
                        if c == '\r' && j + 1 < n {
                            assert(v@.skip(j as int)[1] == v@[j + 1]);
                        }
                    }
                    None
                }
            }
        },
    }
}

/// Whether the characters of `v` spell `s`.
fn chars_eq_str(v: &Vec<char>, s: &str) -> (r: bool)
    ensures
        r == (v@ == s@),
{
    let n: usize = s.unicode_len();
    if v.len() != n {
        proof {
            assert(v@.len() != s@.len());
        }
        return false;
    }
    let mut i: usize = 0;
    while i < n
        invariant
            0 <= i <= n,
            n == v@.len(),
            n == s@.len(),
            forall|k: int| 0 <= k < i ==> v@[k] == s@[k],
        decreases n - i,
    {
        if v[i] != s.get_char(i) {
            return false;
        }
        i = i + 1;
    }
    proof {
        assert(v@ =~= s@);
    }
    true
}

/// Turns a parsed row into a record: fails on a wrong column count, a bad
/// timestamp or a bad boolean, exactly as the shadow conversion does.
fn fields_to_record(fields: &Vec<Vec<char>>) -> (r: Option<WorklogRecord>)
    ensures
        match r {
            Some(rec) => spec_fields_to_record(spec_field_views(fields@)) == Some(rec@)
                && rec.wf(),
            None => spec_fields_to_record(spec_field_views(fields@)) is None,
        },
{
    if fields.len() != 6 {
        return None;
    }
    let date_text = chars_to_string(&fields[3]);
    let started_date = match parse_timestamp(date_text.as_str()) {
        Some(t) => t,
        None => {
            return None;
        },
    };
    let is_true = chars_eq_str(&fields[4], "true");
    let is_false = chars_eq_str(&fields[4], "false");
    if !is_true && !is_false {
        return None;
    }
    let time_spent = if chars_eq_str(&fields[1], "current") {
        TimeSpent::Current
    } else {
        TimeSpent::Logged(chars_to_string(&fields[1]))
    };
    let rec = WorklogRecord {
        ticket: chars_to_string(&fields[0]),
        time_spent,
        description: chars_to_string(&fields[2]),
        started_date,
        committed: is_true,
        id: chars_to_string(&fields[5]),
    };
    proof {
        assert(spec_field_views(fields@)[3] == fields@[3]@);
        assert(started_date.valid());
        assert(spec_fields_to_record(spec_field_views(fields@)) == Some(rec@));
    }
    Some(rec)
}

/// Reads record rows from `i` to the end of the file.
fn parse_records_at(v: &Vec<char>, i: usize) -> (r: Option<Vec<WorklogRecord>>)
    requires
        i <= v@.len(),
    ensures
        match r {
            Some(records) => spec_parse_records(v@.skip(i as int)) == Some(
                spec_views(records@),
            ) && records_wf(records@),
            None => spec_parse_records(v@.skip(i as int)) is None,
        },
    decreases v@.len() - i,
{
    let n: usize = v.len();
    if i >= n {
        let records: Vec<WorklogRecord> = Vec::new();
        proof {
            assert(v@.skip(i as int).len() == 0);
            assert(spec_views(records@) =~= Seq::<RecordView>::empty());
        }
        return Some(records);
    }
    match parse_row_at(v, i) {
        None => None,
        Some((fields, j)) => {
            if j <= i {
                proof {
                    assert(v@.skip(j as int).len() >= v@.skip(i as int).len());
                }
                return None;
            }
            proof {
                assert(v@.skip(j as int).len() < v@.skip(i as int).len());
            }
            let rec = match fields_to_record(&fields) {
                Some(rec) => rec,
                None => {
                    return None;
                },
            };
            match parse_records_at(v, j) {
                Some(rest) => {
                    let ghost rest_view = rest@;
                    let mut records = rest;
                    records.insert(0, rec);
                    proof {
                        assert(spec_views(records@) =~= seq![rec@] + spec_views(rest_view));
                        assert(records_wf(records@)) by {
                            assert(forall|k: int|
                                1 <= k < records@.len() ==> records@[k] == rest_view[k - 1]);
                        }
                    }
                    Some(records)
                },
                None => None,
            }
        },
    }
}

/// Deserializes the ledger file: the empty file is the empty ledger; any
/// malformed row, timestamp or boolean — or a wrong header — fails the
/// whole load with `ParseError`, and nothing is partially recovered.
pub fn parse_ledger(text: &str) -> (r: Result<Vec<WorklogRecord>, WorklogError>)
    ensures
        match r {
            Ok(records) => spec_parse_ledger(text@) == Some(spec_views(records@))
                && records_wf(records@),
            Err(e) => spec_parse_ledger(text@) is None && e matches WorklogError::ParseError(
                _,
            ),
        },
{
    let v = str_to_chars(text);
    if v.len() == 0 {
        let records: Vec<WorklogRecord> = Vec::new();
        proof {
            assert(spec_views(records@) =~= Seq::<RecordView>::empty());
        }
        return Ok(records);
    }
    proof {
        assert(v@.skip(0) =~= v@);
    }
    let header_error = "Invalid worklog header";
    match parse_row_at(&v, 0) {
        None => Err(WorklogError::ParseError(String::from_str(header_error))),
        Some((fields, j)) => {
            let header_ok = fields.len() == 6 && chars_eq_str(&fields[0], "ticket")
                && chars_eq_str(&fields[1], "time_spent") && chars_eq_str(
                &fields[2],
                "description",
            ) && chars_eq_str(&fields[3], "started_date") && chars_eq_str(
                &fields[4],
                "committed",
            ) && chars_eq_str(&fields[5], "id");
            proof {
                if header_ok {
                    assert(spec_field_views(fields@) =~= spec_header_fields());
                } else {
                    assert(spec_field_views(fields@) != spec_header_fields()) by {
                        if spec_field_views(fields@) == spec_header_fields() {
                            assert(spec_header_fields().len() == 6);
                            assert(spec_field_views(fields@).len() == fields@.len());
                            assert(fields@[0]@ == spec_header_fields()[0]);
                            assert(fields@[1]@ == spec_header_fields()[1]);
                            assert(fields@[2]@ == spec_header_fields()[2]);
                            assert(fields@[3]@ == spec_header_fields()[3]);
                            assert(fields@[4]@ == spec_header_fields()[4]);
                            assert(fields@[5]@ == spec_header_fields()[5]);
                        }
                    }
                }
            }
            if !header_ok {
                return Err(WorklogError::ParseError(String::from_str(header_error)));
            }
            if j == 0 {
                return Err(WorklogError::ParseError(String::from_str(header_error)));
            }
            proof {
                assert(v@.skip(j as int).len() < v@.len());
            }
            match parse_records_at(&v, j) {
                Some(records) => Ok(records),
                None => Err(
                    WorklogError::ParseError(String::from_str("Invalid worklog file")),
                ),
            }
        },
    }
}

/// Reading a quoted body back: the escaped field followed by the closing
/// quote parses to the original field, consuming exactly that much.
proof fn lemma_parse_quoted_of_escape(f: Seq<char>, rest: Seq<char>)
    requires
        rest.len() == 0 || rest[0] != '"',
    ensures
        spec_parse_quoted(spec_escape_quotes(f) + seq!['"'] + rest) == Some((f, rest)),
    decreases f.len(),
{
    let s = spec_escape_quotes(f) + seq!['"'] + rest;
    if f.len() == 0 {
        assert(spec_escape_quotes(f) =~= Seq::<char>::empty());
        assert(s =~= seq!['"'] + rest);
        assert(s[0] == '"');
        if s.len() >= 2 {
            assert(s[1] == rest[0]);
        }
        assert(s.skip(1) =~= rest);
    } else if f[0] == '"' {
        assert(spec_escape_quotes(f) == seq!['"', '"'] + spec_escape_quotes(f.skip(1)));
        assert(s[0] == '"');
        assert(s[1] == '"');
        assert(s.len() >= 2);
        assert(s.skip(2) =~= spec_escape_quotes(f.skip(1)) + seq!['"'] + rest);
        lemma_parse_quoted_of_escape(f.skip(1), rest);
        assert(seq!['"'] + f.skip(1) =~= f);
    } else {
        assert(spec_escape_quotes(f) == seq![f[0]] + spec_escape_quotes(f.skip(1)));
        assert(s[0] == f[0]);
        assert(s.skip(1) =~= spec_escape_quotes(f.skip(1)) + seq!['"'] + rest);
        lemma_parse_quoted_of_escape(f.skip(1), rest);
        assert(seq![f[0]] + f.skip(1) =~= f);
    }
}

/// Reading a bare field back: a field with no special character parses to
/// itself, stopping exactly at the terminator.
proof fn lemma_parse_raw_of_plain(f: Seq<char>, rest: Seq<char>)
    requires
        !field_needs_quoting(f),
        rest.len() == 0 || is_field_end(rest[0]),
    ensures
        spec_parse_raw(f + rest) == Some((f, rest)),
    decreases f.len(),
{
    let s = f + rest;
    if f.len() == 0 {
        assert(s =~= rest);
        assert(f =~= Seq::<char>::empty());
    } else {
        assert(s[0] == f[0]);
        assert(!is_special_char(f[0]));
        assert(s.skip(1) =~= f.skip(1) + rest);
        assert(!field_needs_quoting(f.skip(1))) by {
            assert forall|k: int|
                0 <= k < f.skip(1).len() implies !is_special_char(#[trigger] f.skip(1)[k]) by {
                assert(f.skip(1)[k] == f[k + 1]);
                assert(!is_special_char(f[k + 1]));
            }
        }
        lemma_parse_raw_of_plain(f.skip(1), rest);
        assert(seq![f[0]] + f.skip(1) =~= f);
    }
}

/// Reading one field back: the encoded field followed by a delimiter, a
/// line feed or nothing parses to the original field.
proof fn lemma_parse_field_of_encode(f: Seq<char>, rest: Seq<char>)
    requires
        rest.len() == 0 || rest[0] == ',' || rest[0] == '\n',
    ensures
        spec_parse_field(spec_encode_field(f) + rest) == Some((f, rest)),
{
    let s = spec_encode_field(f) + rest;
    if field_needs_quoting(f) {
        assert(s =~= seq!['"'] + (spec_escape_quotes(f) + seq!['"'] + rest));
        assert(s[0] == '"');
        assert(s.skip(1) =~= spec_escape_quotes(f) + seq!['"'] + rest);
        lemma_parse_quoted_of_escape(f, rest);
        if rest.len() > 0 {
            assert(is_field_end(rest[0]));
        }
    } else {
        lemma_parse_raw_of_plain(f, rest);
        if s.len() > 0 {
            assert(s[0] != '"') by {
                if f.len() > 0 {
                    assert(s[0] == f[0]);
                    assert(!is_special_char(f[0]));
                } else {
                    assert(s =~= rest);
                }
            }
        }
    }
}

/// Reading one row back: the encoded row followed by anything parses to
/// its fields, consuming up to and including the line feed.
proof fn lemma_parse_row_of_encode(fields: Seq<Seq<char>>, tail: Seq<char>)
    requires
        fields.len() >= 1,
    ensures
        spec_parse_row(spec_encode_row(fields) + tail) == Some((fields, tail)),
    decreases fields.len(),
{
    let s = spec_encode_row(fields) + tail;
    if fields.len() == 1 {
        assert(spec_encode_fields(fields) == spec_encode_field(fields[0]));
        assert(s =~= spec_encode_field(fields[0]) + (seq!['\n'] + tail));
        lemma_parse_field_of_encode(fields[0], seq!['\n'] + tail);
        let rest = seq!['\n'] + tail;
        assert(rest[0] == '\n');
        assert(rest.skip(1) =~= tail);
        assert(seq![fields[0]] =~= fields);
    } else {
        let rf = fields.drop_first();
        assert(spec_encode_fields(fields) == spec_encode_field(fields[0]) + seq![',']
            + spec_encode_fields(rf));
        let rest = seq![','] + (spec_encode_row(rf) + tail);
        assert(s =~= spec_encode_field(fields[0]) + rest);
        lemma_parse_field_of_encode(fields[0], rest);
        assert(rest[0] == ',');
        assert(rest.len() <= s.len());
        assert(rest.skip(1) =~= spec_encode_row(rf) + tail);
        lemma_parse_row_of_encode(rf, tail);
        assert(seq![fields[0]] + rf =~= fields);
    }
}

/// Reading a record's row back gives the record, field for field.
proof fn lemma_fields_of_record(m: RecordView)
    requires
        m.wf(),
    ensures
        spec_fields_to_record(spec_record_fields(m)) == Some(m),
{
    let fs = spec_record_fields(m);
    assert(fs.len() == 6);
    assert(fs[3] == spec_format_timestamp(m.started_date));
    crate::timestamp::lemma_timestamp_round_trip(m.started_date);
    reveal_strlit("true");
    reveal_strlit("false");
    reveal_strlit("current");
    assert("true"@ != "false"@) by {
        assert("true"@.len() == 4);
        assert("false"@.len() == 5);
    }
    match m.time_spent {
        SpentView::Current => {
            assert(fs[1] == "current"@);
        },
        SpentView::Logged(d) => {
            assert(fs[1] == d);
            assert(d != "current"@);
        },
    }
}

/// Reading all record rows back gives the records, in order.
proof fn lemma_parse_records_of_encode(ms: Seq<RecordView>)
    requires
        forall|i: int| 0 <= i < ms.len() ==> (#[trigger] ms[i]).wf(),
    ensures
        spec_parse_records(spec_encode_rows(ms)) == Some(ms),
    decreases ms.len(),
{
    let s = spec_encode_rows(ms);
    if ms.len() == 0 {
        assert(s =~= Seq::<char>::empty());
        assert(ms =~= Seq::<RecordView>::empty());
    } else {
        let tail = spec_encode_rows(ms.drop_first());
        assert(s == spec_encode_row(spec_record_fields(ms[0])) + tail);
        lemma_parse_row_of_encode(spec_record_fields(ms[0]), tail);
        assert(spec_encode_row(spec_record_fields(ms[0])).len() >= 1);
        assert(s.len() > tail.len());
        lemma_fields_of_record(ms[0]);
        assert(forall|i: int|
            0 <= i < ms.drop_first().len() ==> (#[trigger] ms.drop_first()[i]).wf());
        lemma_parse_records_of_encode(ms.drop_first());
        assert(seq![ms[0]] + ms.drop_first() =~= ms);
    }
}

/// Serializing a set of records and reloading them yields field-for-field
/// identical records, timestamp precision preserved: parsing is the exact
/// inverse of serialization on every well-formed ledger.
pub proof fn lemma_ledger_round_trip(ms: Seq<RecordView>)
    requires
        forall|i: int| 0 <= i < ms.len() ==> (#[trigger] ms[i]).wf(),
    ensures
        spec_parse_ledger(spec_encode_ledger(ms)) == Some(ms),
{
    let s = spec_encode_ledger(ms);
    if ms.len() == 0 {
        assert(s.len() == 0);
        assert(ms =~= Seq::<RecordView>::empty());
    } else {
        let tail = spec_encode_rows(ms);
        assert(s == spec_encode_row(spec_header_fields()) + tail);
        lemma_parse_row_of_encode(spec_header_fields(), tail);
        assert(spec_header_fields().len() == 6);
        assert(s.len() > tail.len());
        assert(s.len() > 0);
        lemma_parse_records_of_encode(ms);
    }
}

} // verus!
