//! The ledger: the in-memory sequence of worklog records that the store
//! persists, together with the session operations over it.  All operations
//! work on a first-match basis in file order, as the on-disk format does.

use vstd::prelude::*;

use crate::errors::WorklogError;
use crate::ids::get_nano_id;
use crate::model::{BeginWorklog, TimeSpent, WorklogMessage, WorklogRecord};
use crate::timespan::{is_timespan, is_timespan_str, lemma_minutes_span_not_current, spec_minutes_span};
use crate::timestamp::{spec_elapsed_minutes, Timestamp};
use crate::text::{chars_to_string, replace_all, spec_replace_all, str_eq, str_to_chars};
use crate::timespan::minutes_span_string;
use crate::timestamp::elapsed_minutes;

verus! {

/// The index of the first active record at or after `from`, or `rs.len()`
/// if there is none.
pub open spec fn spec_find_current(rs: Seq<WorklogRecord>, from: int) -> int
    decreases rs.len() - from when 0 <= from <= rs.len()
{
    if from >= rs.len() {
        rs.len() as int
    } else if rs[from].is_current() {
        from
    } else {
        spec_find_current(rs, from + 1)
    }
}

/// The index of the first record carrying `id` at or after `from`, or
/// `rs.len()` if there is none.
pub open spec fn spec_find_id(rs: Seq<WorklogRecord>, id: Seq<char>, from: int) -> int
    decreases rs.len() - from when 0 <= from <= rs.len()
{
    if from >= rs.len() {
        rs.len() as int
    } else if rs[from].id@ == id {
        from
    } else {
        spec_find_id(rs, id, from + 1)
    }
}

/// No two records are both active: the single-active-session shape.
pub open spec fn at_most_one_current(rs: Seq<WorklogRecord>) -> bool {
    forall|i: int, j: int|
        0 <= i < j < rs.len() ==> !(rs[i].is_current() && rs[j].is_current())
}

/// Every record is well formed.
pub open spec fn records_wf(rs: Seq<WorklogRecord>) -> bool {
    forall|i: int| 0 <= i < rs.len() ==> (#[trigger] rs[i]).wf()
}

/// The records that have not yet been synchronized, in ledger order.
pub open spec fn spec_uncommitted(rs: Seq<WorklogRecord>) -> Seq<WorklogRecord> {
    rs.filter(|rec: WorklogRecord| !rec.committed)
}

/// Some record carries `id`.
pub open spec fn spec_has_id(rs: Seq<WorklogRecord>, id: Seq<char>) -> bool {
    exists|i: int| 0 <= i < rs.len() && (#[trigger] rs[i]).id@ == id
}

/// No two records share an id: ids are never reused or renumbered.
pub open spec fn distinct_ids(rs: Seq<WorklogRecord>) -> bool {
    forall|i: int, j: int| 0 <= i < j < rs.len() ==> rs[i].id@ != rs[j].id@
}

/// `spec_find_current` lands on the first active record: everything before
/// it is closed, and it is active if it is in range.
pub proof fn lemma_find_current(rs: Seq<WorklogRecord>, from: int)
    requires
        0 <= from <= rs.len(),
    ensures
        from <= spec_find_current(rs, from) <= rs.len(),
        spec_find_current(rs, from) < rs.len() ==> rs[spec_find_current(rs, from)].is_current(),
        forall|k: int|
            from <= k < spec_find_current(rs, from) ==> !(#[trigger] rs[k]).is_current(),
    decreases rs.len() - from,
{
    if from < rs.len() && !rs[from].is_current() {
        lemma_find_current(rs, from + 1);
    }
}

/// `spec_find_id` lands on the first record carrying `id`: everything
/// before it carries another id, and it carries `id` if it is in range.
pub proof fn lemma_find_id(rs: Seq<WorklogRecord>, id: Seq<char>, from: int)
    requires
        0 <= from <= rs.len(),
    ensures
        from <= spec_find_id(rs, id, from) <= rs.len(),
        spec_find_id(rs, id, from) < rs.len() ==> rs[spec_find_id(rs, id, from)].id@ == id,
        forall|k: int| from <= k < spec_find_id(rs, id, from) ==> (#[trigger] rs[k]).id@ != id,
    decreases rs.len() - from,
{
    if from < rs.len() && rs[from].id@ != id {
        lemma_find_id(rs, id, from + 1);
    }
}

/// Where records are searched by id, only the ids matter: two ledgers
/// whose records carry the same ids position by position find every id at
/// the same place.
pub proof fn lemma_find_id_same_ids(
    rs1: Seq<WorklogRecord>,
    rs2: Seq<WorklogRecord>,
    id: Seq<char>,
    from: int,
)
    requires
        0 <= from <= rs1.len(),
        rs1.len() == rs2.len(),
        forall|p: int| 0 <= p < rs1.len() ==> (#[trigger] rs1[p]).id@ == rs2[p].id@,
    ensures
        spec_find_id(rs1, id, from) == spec_find_id(rs2, id, from),
    decreases rs1.len() - from,
{
    if from < rs1.len() && rs1[from].id@ != id {
        lemma_find_id_same_ids(rs1, rs2, id, from + 1);
    }
}

/// The closed copy of an active record: every field kept, `time_spent`
/// rewritten to the elapsed whole minutes against `now`.
pub open spec fn record_closed(orig: WorklogRecord, c: WorklogRecord, now: Timestamp) -> bool {
    &&& c.ticket == orig.ticket
    &&& c.description == orig.description
    &&& c.started_date == orig.started_date
    &&& c.committed == orig.committed
    &&& c.id == orig.id
    &&& c.time_spent matches TimeSpent::Logged(s) && s@ == spec_minutes_span(
        spec_elapsed_minutes(orig.started_date, now),
    )
}

/// How ending a session rewrites the ledger: the first active record, if
/// any, is replaced in place by its closed copy; nothing else moves.
pub open spec fn closes_first_current(
    old_rs: Seq<WorklogRecord>,
    new_rs: Seq<WorklogRecord>,
    closed: Option<WorklogRecord>,
    now: Timestamp,
) -> bool {
    let i = spec_find_current(old_rs, 0);
    if i == old_rs.len() {
        new_rs == old_rs && closed is None
    } else {
        &&& closed matches Some(c)
        &&& record_closed(old_rs[i], c, now)
        &&& new_rs == old_rs.update(i, c)
    }
}

/// The durable sequence of worklog records.  The store that persists it
/// reads and writes it wholesale; no other component caches state.
#[derive(Debug, Clone, PartialEq, Eq)]
pub struct Ledger {
    pub records: Vec<WorklogRecord>,
}

impl View for Ledger {
    type V = Seq<WorklogRecord>;

    open spec fn view(&self) -> Seq<WorklogRecord> {
        self.records@
    }
}

impl Ledger {
    pub open spec fn wf(self) -> bool {
        records_wf(self@)
    }

    /// The empty ledger, the state before any file exists.
    pub fn new() -> (r: Ledger)
        ensures
            r@ =~= Seq::<WorklogRecord>::empty(),
            r.wf(),
    {
        Ledger { records: Vec::new() }
    }

    /// A ledger over the given records, in their order.
    pub fn from_records(records: Vec<WorklogRecord>) -> (r: Ledger)
        ensures
            r@ == records@,
    {
        Ledger { records }
    }

    /// The number of records.
    pub fn len(&self) -> (r: usize)
        ensures
            r == self@.len(),
    {
        self.records.len()
    }

    /// The index of the first active record, or the length if none is.
    fn find_current_index(&self) -> (r: usize)
        ensures
            r == spec_find_current(self@, 0),
    {
        let n: usize = self.records.len();
        let mut i: usize = 0;
        while i < n
            invariant
                0 <= i <= n,
                n == self@.len(),
                spec_find_current(self@, 0) == spec_find_current(self@, i as int),
            decreases n - i,
        {
            match &self.records[i].time_spent {
                TimeSpent::Current => {
                    return i;
                },
                TimeSpent::Logged(_) => {},
            }
            i = i + 1;
        }
        i
    }

    /// The active record, if one is open — the first in file order, should
    /// the ledger anomalously hold several.
    pub fn current_ticket(&self) -> (r: Option<WorklogRecord>)
        ensures
            match r {
                Some(rec) => spec_find_current(self@, 0) < self@.len() && rec == self@[
                    spec_find_current(self@, 0)
                ],
                None => spec_find_current(self@, 0) == self@.len(),
            },
    {
        let i = self.find_current_index();
        if i < self.records.len() {
            Some(self.records[i].duplicate())
        } else {
            proof {
                lemma_find_current(self@, 0);
            }
            None
        }
    }

    /// Closes the active session against the simulated or real clock `now`:
    /// rewrites its `time_spent` from the marker to the elapsed whole
    /// minutes and returns the closed record; a no-op returning `None` when
    /// no session is active.  When the ledger held at most one active
    /// record, none is left afterwards.
    pub fn end_current(&mut self, now: &Timestamp) -> (r: Option<WorklogRecord>)
        requires
            old(self).wf(),
            now.valid(),
        ensures
            closes_first_current(old(self)@, final(self)@, r, *now),
            final(self).wf(),
            final(self)@.len() == old(self)@.len(),
            at_most_one_current(old(self)@) ==> spec_find_current(final(self)@, 0)
                == final(self)@.len(),
    {
        let ghost old_rs = self@;
        proof {
            lemma_find_current(old_rs, 0);
        }
        let i = self.find_current_index();
        if i < self.records.len() {
            let ghost orig = old_rs[i as int];
            proof {
                assert(orig.wf());
            }
            let started = self.records[i].started_date;
            let minutes = elapsed_minutes(&started, now);
            let span = minutes_span_string(minutes);
            let closed = WorklogRecord {
                ticket: self.records[i].ticket.clone(),
                time_spent: TimeSpent::Logged(span),
                description: self.records[i].description.clone(),
                started_date: started,
                committed: self.records[i].committed,
                id: self.records[i].id.clone(),
            };
            let result = closed.duplicate();
            proof {
                lemma_minutes_span_not_current(spec_elapsed_minutes(orig.started_date, *now));
                assert(closed.wf());
            }
            self.records[i] = closed;
            proof {
                assert(self@ =~= old_rs.update(i as int, closed));
                assert(records_wf(self@)) by {
                    assert(forall|k: int|
                        0 <= k < self@.len() && k != i ==> self@[k] == old_rs[k]);
                }
                if at_most_one_current(old_rs) {
                    assert forall|k: int|
                        0 <= k < self@.len() implies !(#[trigger] self@[k]).is_current() by {
                        if k < i {
                            assert(self@[k] == old_rs[k]);
                        } else if k > i {
                            assert(self@[k] == old_rs[k]);
                            assert(!(old_rs[i as int].is_current() && old_rs[k].is_current()));
                        }
                    }
                    lemma_find_current(self@, 0);
                }
            }
            Some(result)
        } else {
            None
        }
    }

    /// The index of the first record carrying `id`, or the length if none
    /// does.
    fn find_id_index(&self, id: &String) -> (r: usize)
        ensures
            r == spec_find_id(self@, id@, 0),
    {
        let n: usize = self.records.len();
        let mut i: usize = 0;
        while i < n
            invariant
                0 <= i <= n,
                n == self@.len(),
                spec_find_id(self@, id@, 0) == spec_find_id(self@, id@, i as int),
            decreases n - i,
        {
            if str_eq(self.records[i].id.as_str(), id.as_str()) {
                return i;
            }
            i = i + 1;
        }
        i
    }

    /// The record carrying `id`, if any — the first in file order.
    pub fn find_item(&self, id: &String) -> (r: Option<WorklogRecord>)
        ensures
            match r {
                Some(rec) => spec_find_id(self@, id@, 0) < self@.len() && rec == self@[
                    spec_find_id(self@, id@, 0)
                ],
                None => spec_find_id(self@, id@, 0) == self@.len(),
            },
    {
        let i = self.find_id_index(id);
        if i < self.records.len() {
            Some(self.records[i].duplicate())
        } else {
            proof {
                lemma_find_id(self@, id@, 0);
            }
            None
        }
    }

    /// Whether some record carries `id`.
    fn has_id(&self, id: &String) -> (r: bool)
        ensures
            r == spec_has_id(self@, id@),
    {
        let i = self.find_id_index(id);
        proof {
            lemma_find_id(self@, id@, 0);
            if i < self@.len() {
                assert(self@[i as int].id@ == id@);
            }
        }
        i < self.records.len()
    }

    /// An identifier built to differ from every present id: one character
    /// per record, the `i`-th chosen to differ from the `i`-th record's
    /// id at position `i`, so no record's id can equal it.
    fn fallback_id(&self) -> (r: String)
        ensures
            !spec_has_id(self@, r@),
    {
        let n: usize = self.records.len();
        let mut fb: Vec<char> = Vec::new();
        let mut i: usize = 0;
        while i < n
            invariant
                0 <= i <= n,
                n == self@.len(),
                fb@.len() == i,
                forall|k: int|
                    0 <= k < i ==> (self@[k].id@.len() > k ==> (#[trigger] fb@[k]) != self@[
                        k
                    ].id@[k]),
            decreases n - i,
        {
            let id_str = self.records[i].id.as_str();
            let len_i: usize = id_str.unicode_len();
            let c: char = if len_i > i {
                if id_str.get_char(i) == 'a' {
                    'b'
                } else {
                    'a'
                }
            } else {
                'a'
            };
            fb.push(c);
            i = i + 1;
        }
        let r = chars_to_string(&fb);
        proof {
            assert forall|w: int| 0 <= w < self@.len() implies (#[trigger] self@[w]).id@
                != r@ by {
                if self@[w].id@.len() == n {
                    assert(fb@[w] != self@[w].id@[w]);
                } else {
                    assert(r@.len() == n);
                }
            }
        }
        r
    }

    /// An identifier no current record carries: a few random draws, then
    /// — should every draw collide — the deterministic fallback.
    fn fresh_id(&self) -> (r: String)
        ensures
            !spec_has_id(self@, r@),
    {
        let mut attempts: usize = 0;
        while attempts < 8
            invariant
                attempts <= 8,
            decreases 8 - attempts,
        {
            let id = get_nano_id();
            if !self.has_id(&id) {
                return id;
            }
            attempts = attempts + 1;
        }
        self.fallback_id()
    }

    /// Appends a freshly created record, whose identifier differs from
    /// every id already in the ledger — no reuse, so distinctness of ids
    /// is preserved.
    fn push_new(
        &mut self,
        ticket: &String,
        time_spent: TimeSpent,
        description: &String,
        started_date: &Timestamp,
    ) -> (r: WorklogRecord)
        requires
            old(self).wf(),
            time_spent.wf(),
            started_date.valid(),
        ensures
            final(self)@ == old(self)@.push(r),
            r.ticket == *ticket,
            r.time_spent == time_spent,
            r.description == *description,
            r.started_date == *started_date,
            r.committed == false,
            !spec_has_id(old(self)@, r.id@),
            distinct_ids(old(self)@) ==> distinct_ids(final(self)@),
            final(self).wf(),
            r.wf(),
    {
        let ghost old_rs = self@;
        let id = self.fresh_id();
        let rec = WorklogRecord {
            ticket: ticket.clone(),
            time_spent,
            description: description.clone(),
            started_date: *started_date,
            committed: false,
            id,
        };
        let r = rec.duplicate();
        self.records.push(rec);
        proof {
            assert(records_wf(self@)) by {
                assert(forall|k: int| 0 <= k < old_rs.len() ==> self@[k] == old_rs[k]);
                assert(self@[old_rs.len() as int].wf());
            }
            if distinct_ids(old_rs) {
                assert forall|a: int, b: int|
                    0 <= a < b < self@.len() implies self@[a].id@ != self@[b].id@ by {
                    if b < old_rs.len() {
                        assert(self@[a] == old_rs[a] && self@[b] == old_rs[b]);
                    } else {
                        assert(self@[a] == old_rs[a]);
                        assert(self@[b] == r);
                        if old_rs[a].id@ == r.id@ {
                            assert(spec_has_id(old_rs, r.id@));
                        }
                    }
                }
            }
        }
        r
    }

    /// Appends a new record after validating the time-span, which must be a
    /// well-formed duration or the explicit `current` marker; a malformed
    /// one is rejected before any mutation.
    pub fn add(
        &mut self,
        ticket: &String,
        time_spent: &String,
        description: &String,
        started_date: &Timestamp,
    ) -> (r: Result<WorklogRecord, WorklogError>)
        requires
            old(self).wf(),
            started_date.valid(),
        ensures
            match r {
                Ok(rec) => {
                    &&& time_spent@ == "current"@ || is_timespan(time_spent@)
                    &&& final(self)@ == old(self)@.push(rec)
                    &&& rec.ticket == *ticket
                    &&& rec.description == *description
                    &&& rec.started_date == *started_date
                    &&& rec.committed == false
                    &&& (time_spent@ == "current"@ <==> rec.time_spent is Current)
                    &&& (rec.time_spent matches TimeSpent::Logged(s) ==> s == *time_spent)
                    &&& !spec_has_id(old(self)@, rec.id@)
                    &&& distinct_ids(old(self)@) ==> distinct_ids(final(self)@)
                    &&& final(self).wf()
                },
                Err(e) => {
                    &&& e matches WorklogError::ValidationError(_)
                    &&& time_spent@ != "current"@ && !is_timespan(time_spent@)
                    &&& *final(self) == *old(self)
                },
            },
    {
        let is_marker = str_eq(time_spent.as_str(), "current");
        if !is_marker && !is_timespan_str(time_spent.as_str()) {
            return Err(
                WorklogError::ValidationError(
                    String::from_str("Invalid time spent, use jira time spent format, for example 1d5h"),
                ),
            );
        }
        let ts = if is_marker {
            TimeSpent::Current
        } else {
            TimeSpent::Logged(time_spent.clone())
        };
        let rec = self.push_new(ticket, ts, description, started_date);
        Ok(rec)
    }

    /// Ends any running session against `now`, then opens a new one for
    /// `ticket`: afterwards the ledger again holds at most one — here,
    /// exactly one — active record, provided it did before.
    pub fn begin(&mut self, ticket: &String, description: &String, now: &Timestamp) -> (r:
        BeginWorklog)
        requires
            old(self).wf(),
            now.valid(),
        ensures
            ({
                let i = spec_find_current(old(self)@, 0);
                &&& i == old(self)@.len() ==> r.previous is None && final(self)@ == old(self)@.push(r.current)
                &&& i < old(self)@.len() ==> (r.previous matches Some(prev) && record_closed(
                    old(self)@[i],
                    prev,
                    *now,
                ) && final(self)@ == old(self)@.update(i, prev).push(r.current))
            }),
            r.current.time_spent is Current,
            r.current.ticket == *ticket,
            r.current.description == *description,
            r.current.started_date == *now,
            r.current.committed == false,
            !spec_has_id(old(self)@, r.current.id@),
            distinct_ids(old(self)@) ==> distinct_ids(final(self)@),
            final(self).wf(),
            at_most_one_current(old(self)@) ==> at_most_one_current(final(self)@)
                && final(self)@.last().is_current(),
    {
        let previous = self.end_current(now);
        let ghost mid = self@;
        proof {
            assert(closes_first_current(old(self)@, mid, previous, *now));
        }
        let current = self.push_new(ticket, TimeSpent::Current, description, now);
        proof {
            assert forall|p: int|
                0 <= p < mid.len() implies (#[trigger] mid[p]).id@ == old(self)@[p].id@ by {
                let i = spec_find_current(old(self)@, 0);
                lemma_find_current(old(self)@, 0);
                if i == old(self)@.len() {
                    assert(mid == old(self)@);
                } else {
                    let c = previous->Some_0;
                    assert(record_closed(old(self)@[i], c, *now));
                    assert(mid == old(self)@.update(i, c));
                    if p == i {
                        assert(mid[p] == c);
                    } else {
                        assert(old(self)@.update(i, c)[p] == old(self)@[p]);
                        assert(mid[p] == old(self)@[p]);
                    }
                }
            }
            assert(!spec_has_id(old(self)@, current.id@)) by {
                if spec_has_id(old(self)@, current.id@) {
                    let w = choose|w: int|
                        0 <= w < old(self)@.len() && old(self)@[w].id@ == current.id@;
                    assert(mid[w].id@ == current.id@);
                    assert(spec_has_id(mid, current.id@));
                }
            }
            if distinct_ids(old(self)@) {
                assert(distinct_ids(mid)) by {
                    assert(forall|a: int, b: int|
                        0 <= a < b < mid.len() ==> mid[a].id@ == old(self)@[a].id@ && mid[b].id@
                            == old(self)@[b].id@);
                }
            }
            if at_most_one_current(old(self)@) {
                lemma_find_current(mid, 0);
                assert forall|i: int, j: int|
                    0 <= i < j < self@.len() implies !(self@[i].is_current()
                    && self@[j].is_current()) by {
                    if j < mid.len() {
                        assert(self@[i] == mid[i] && self@[j] == mid[j]);
                    } else {
                        assert(self@[i] == mid[i]);
                        assert(!mid[i].is_current());
                    }
                }
            }
        }
        BeginWorklog { previous, current }
    }

    /// Removes the first record carrying `id`; fails with `NotFoundError`,
    /// leaving the ledger unchanged, when no record does.
    pub fn remove(&mut self, id: &String) -> (r: Result<String, WorklogError>)
        requires
            old(self).wf(),
        ensures
            match r {
                Ok(removed) => ({
                    let i = spec_find_id(old(self)@, id@, 0);
                    &&& i < old(self)@.len()
                    &&& final(self)@ == old(self)@.remove(i)
                    &&& removed == *id
                    &&& final(self).wf()
                }),
                Err(e) => {
                    &&& e matches WorklogError::NotFoundError(_)
                    &&& spec_find_id(old(self)@, id@, 0) == old(self)@.len()
                    &&& *final(self) == *old(self)
                },
            },
    {
        let ghost old_rs = self@;
        let i = self.find_id_index(id);
        if i < self.records.len() {
            self.records.remove(i);
            proof {
                assert(records_wf(self@)) by {
                    assert(forall|k: int|
                        0 <= k < self@.len() ==> self@[k] == if k < i {
                            old_rs[k]
                        } else {
                            old_rs[k + 1]
                        });
                }
            }
            Ok(id.clone())
        } else {
            proof {
                lemma_find_id(old_rs, id@, 0);
            }
            let mut msg = String::from_str("No worklog item ");
            msg.append(id.as_str());
            Err(WorklogError::NotFoundError(msg))
        }
    }

    /// Removes and returns the most recent record, `None` on an empty
    /// ledger.
    pub fn pop(&mut self) -> (r: Option<WorklogRecord>)
        requires
            old(self).wf(),
        ensures
            old(self)@.len() == 0 ==> r is None && final(self)@ == old(self)@,
            old(self)@.len() > 0 ==> r == Some(old(self)@.last())
                && final(self)@ == old(self)@.drop_last(),
            final(self).wf(),
    {
        let ghost old_rs = self@;
        let r = self.records.pop();
        proof {
            if old_rs.len() > 0 {
                assert(records_wf(self@)) by {
                    assert(forall|k: int| 0 <= k < self@.len() ==> self@[k] == old_rs[k]);
                }
            }
        }
        r
    }

    /// Rewrites the first record carrying `item`'s id to `item`; does
    /// nothing when no record carries it.
    pub fn update_item(&mut self, item: &WorklogRecord)
        requires
            old(self).wf(),
            item.wf(),
        ensures
            ({
                let i = spec_find_id(old(self)@, item.id@, 0);
                &&& i < old(self)@.len() ==> final(self)@ == old(self)@.update(i, *item)
                &&& i == old(self)@.len() ==> *final(self) == *old(self)
            }),
            final(self).wf(),
    {
        let ghost old_rs = self@;
        let i = self.find_id_index(&item.id);
        if i < self.records.len() {
            self.records[i] = item.duplicate();
            proof {
                assert(self@ =~= old_rs.update(i as int, *item));
                assert(records_wf(self@)) by {
                    assert(forall|k: int|
                        0 <= k < self@.len() && k != i ==> self@[k] == old_rs[k]);
                }
            }
        }
    }

    /// The records not yet synchronized, in ledger order, as owned copies.
    pub fn uncommitted(&self) -> (r: Vec<WorklogRecord>)
        ensures
            r@ == spec_uncommitted(self@),
            self.wf() ==> records_wf(r@),
    {
        let n: usize = self.records.len();
        let mut out: Vec<WorklogRecord> = Vec::new();
        let mut i: usize = 0;
        proof {
            reveal(Seq::filter);
            assert(self@.subrange(0, 0) =~= Seq::<WorklogRecord>::empty());
        }
        while i < n
            invariant
                0 <= i <= n,
                n == self@.len(),
                out@ == spec_uncommitted(self@.subrange(0, i as int)),
                records_wf(self@) ==> records_wf(out@),
            decreases n - i,
        {
            let ghost prefix = self@.subrange(0, i as int);
            let ghost extended = self@.subrange(0, i + 1);
            proof {
                reveal(Seq::filter);
                assert(extended.drop_last() =~= prefix);
                assert(extended.last() == self@[i as int]);
            }
            if !self.records[i].committed {
                let ghost before = out@;
                out.push(self.records[i].duplicate());
                proof {
                    if records_wf(self@) {
                        assert(records_wf(out@)) by {
                            assert(forall|k: int| 0 <= k < before.len() ==> out@[k] == before[k]);
                            assert(out@[before.len() as int] == self@[i as int]);
                        }
                    }
                }
            }
            i = i + 1;
        }
        proof {
            assert(self@.subrange(0, n as int) =~= self@);
        }
        out
    }

    /// Hard-deletes every committed record in one rewrite, leaving the
    /// uncommitted ones untouched; returns how many were removed.
    pub fn purge(&mut self) -> (r: usize)
        requires
            old(self).wf(),
        ensures
            final(self)@ == spec_uncommitted(old(self)@),
            r == old(self)@.len() - final(self)@.len(),
            final(self).wf(),
    {
        let kept = self.uncommitted();
        proof {
            self@.lemma_filter_len(|rec: WorklogRecord| !rec.committed);
        }
        let removed = self.records.len() - kept.len();
        self.records = kept;
        removed
    }

    /// Renders the active session through `fmt`, substituting `%ti`, `%d`
    /// and `%ts` in that order.
    fn render_current(&self, fmt: &String, rec: &WorklogRecord, now: &Timestamp) -> (r: String)
        requires
            rec.wf(),
            now.valid(),
        ensures
            r@ == spec_render_current(fmt@, *rec, *now),
    {
        proof {
            reveal_strlit("%ti");
            reveal_strlit("%d");
            reveal_strlit("%ts");
        }
        let chars = str_to_chars(fmt.as_str());
        let pat_ticket = str_to_chars("%ti");
        let pat_description = str_to_chars("%d");
        let pat_spent = str_to_chars("%ts");
        let duration = minutes_span_string(elapsed_minutes(&rec.started_date, now));
        let step1 = replace_all(&chars, &pat_ticket, &str_to_chars(rec.ticket.as_str()));
        let step2 = replace_all(&step1, &pat_description, &str_to_chars(rec.description.as_str()));
        let step3 = replace_all(&step2, &pat_spent, &str_to_chars(duration.as_str()));
        chars_to_string(&step3)
    }

    /// Renders the active session, if one is open, through the given or the
    /// default template.  With no session and no template the message says
    /// so; with a template it stays empty, so scripted callers emit
    /// nothing.
    pub fn print_current_ticket(&self, format: &Option<String>, now: &Timestamp) -> (r:
        WorklogMessage)
        requires
            self.wf(),
            now.valid(),
        ensures
            ({
                let i = spec_find_current(self@, 0);
                &&& i < self@.len() ==> r.0@ == spec_render_current(
                    match format {
                        Some(f) => f@,
                        None => "[%ti]: time spent=%ts"@,
                    },
                    self@[i],
                    *now,
                )
                &&& i == self@.len() && format is None ==> r.0@ == "No current ticket"@
                &&& i == self@.len() && format is Some ==> r.0@ =~= Seq::<char>::empty()
            }),
    {
        match self.current_ticket() {
            Some(rec) => {
                proof {
                    lemma_find_current(self@, 0);
                    assert(self@[spec_find_current(self@, 0)].wf());
                }
                let fmt: String = match format {
                    Some(f) => f.clone(),
                    None => String::from_str("[%ti]: time spent=%ts"),
                };
                WorklogMessage(self.render_current(&fmt, &rec, now))
            },
            None => {
                match format {
                    None => WorklogMessage(String::from_str("No current ticket")),
                    Some(_) => WorklogMessage(String::new()),
                }
            },
        }
    }
}

/// The template substitution `current` renders with: `%ti`, then `%d`,
/// then `%ts`, each replaced everywhere in that order.
pub open spec fn spec_render_current(fmt: Seq<char>, rec: WorklogRecord, now: Timestamp) -> Seq<
    char,
> {
    spec_replace_all(
        spec_replace_all(spec_replace_all(fmt, "%ti"@, rec.ticket@), "%d"@, rec.description@),
        "%ts"@,
        spec_minutes_span(spec_elapsed_minutes(rec.started_date, now)),
    )
}

/// Every sequence whose members all satisfy the predicate filters to
/// itself.
proof fn lemma_filter_all<A>(s: Seq<A>, pred: spec_fn(A) -> bool)
    requires
        forall|i: int| 0 <= i < s.len() ==> pred(#[trigger] s[i]),
    ensures
        s.filter(pred) == s,
    decreases s.len(),
{
    reveal(Seq::filter);
    if s.len() == 0 {
        assert(s.filter(pred) =~= s);
    } else {
        lemma_filter_all(s.drop_last(), pred);
        assert(s.filter(pred) =~= s);
    }
}

/// Every member of the filtered sequence is a member of the original.
pub proof fn lemma_filter_subset<A>(s: Seq<A>, pred: spec_fn(A) -> bool)
    ensures
        forall|i: int|
            0 <= i < s.filter(pred).len() ==> s.contains(#[trigger] s.filter(pred)[i]),
    decreases s.len(),
{
    reveal(Seq::filter);
    if s.len() > 0 {
        lemma_filter_subset(s.drop_last(), pred);
        assert forall|i: int|
            0 <= i < s.filter(pred).len() implies s.contains(#[trigger] s.filter(pred)[i]) by {
            let sub = s.drop_last().filter(pred);
            if i < sub.len() {
                assert(s.filter(pred)[i] == sub[i]);
                assert(s.drop_last().contains(sub[i]));
                let w = choose|w: int| 0 <= w < s.drop_last().len() && s.drop_last()[w] == sub[i];
                assert(s[w] == sub[i]);
            } else {
                assert(s.filter(pred)[i] == s.last());
                assert(s[s.len() - 1] == s.last());
            }
        }
    }
}

/// Purging is idempotent: a second purge finds nothing committed, removes
/// nothing, and leaves the ledger exactly as the first left it.
pub proof fn lemma_purge_idempotent(rs: Seq<WorklogRecord>)
    ensures
        spec_uncommitted(spec_uncommitted(rs)) == spec_uncommitted(rs),
{
    let pred = |rec: WorklogRecord| !rec.committed;
    assert forall|i: int| 0 <= i < rs.filter(pred).len() implies pred(#[trigger] rs.filter(pred)[i]) by {
        rs.lemma_filter_pred(pred, i);
    }
    lemma_filter_all(rs.filter(pred), pred);
}

} // verus!
