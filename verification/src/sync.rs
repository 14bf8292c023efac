//! The Sync Engine: uploads the reviewed batch one record at a time, in
//! batch order, marking each record committed in the ledger only after the
//! remote accepted it, and stopping the whole batch at the first failure.
//! The committed records are therefore always a prefix of the attempted
//! batch, which makes a retry after a fix safe: only the uncommitted
//! suffix is re-attempted.

use vstd::prelude::*;

use crate::errors::WorklogError;
use crate::ledger::{distinct_ids, lemma_find_id, lemma_find_id_same_ids, records_wf, spec_find_id, Ledger};
use crate::model::WorklogRecord;

verus! {

/// The committed copy of a record: every field kept, `committed` true —
/// the only mutation a commit ever performs.
pub open spec fn record_committed_copy(orig: WorklogRecord, c: WorklogRecord) -> bool {
    &&& c.ticket == orig.ticket
    &&& c.time_spent == orig.time_spent
    &&& c.description == orig.description
    &&& c.started_date == orig.started_date
    &&& c.committed == true
    &&& c.id == orig.id
}

/// The index of the first failed outcome at or after `from`, or the
/// length if every outcome succeeded.
pub open spec fn spec_first_false(bs: Seq<bool>, from: int) -> int
    decreases bs.len() - from when 0 <= from <= bs.len()
{
    if from >= bs.len() {
        bs.len() as int
    } else if !bs[from] {
        from
    } else {
        spec_first_false(bs, from + 1)
    }
}

/// The ledger after the batch's first `k` records were synced: each of
/// their first occurrences rewritten to its committed copy, every other
/// position untouched.
pub open spec fn prefix_committed(
    old_rs: Seq<WorklogRecord>,
    new_rs: Seq<WorklogRecord>,
    batch: Seq<WorklogRecord>,
    k: int,
) -> bool {
    &&& new_rs.len() == old_rs.len()
    &&& forall|j: int|
        0 <= j < k && #[trigger] spec_find_id(old_rs, batch[j].id@, 0) < old_rs.len()
            ==> record_committed_copy(batch[j], new_rs[spec_find_id(old_rs, batch[j].id@, 0)])
    &&& forall|p: int|
        0 <= p < old_rs.len() && (forall|j: int|
            0 <= j < k ==> p != #[trigger] spec_find_id(old_rs, batch[j].id@, 0)) ==> (
        #[trigger] new_rs[p]) == old_rs[p]
}

/// One batch upload in progress: the reviewed records, and how many the
/// remote has accepted so far.
#[derive(Debug, Clone, PartialEq, Eq)]
pub struct SyncSession {
    pub batch: Vec<WorklogRecord>,
    pub next: usize,
}

impl SyncSession {
    pub open spec fn wf(self) -> bool {
        self.next <= self.batch@.len() && records_wf(self.batch@)
    }

    /// Starts an upload over the reviewed batch, nothing accepted yet.
    pub fn new(batch: Vec<WorklogRecord>) -> (s: SyncSession)
        requires
            records_wf(batch@),
        ensures
            s.batch@ == batch@,
            s.next == 0,
            s.wf(),
    {
        SyncSession { batch, next: 0 }
    }

    /// The record to upload next, or `None` when the batch is done.
    pub fn pending(&self) -> (r: Option<WorklogRecord>)
        requires
            self.wf(),
        ensures
            match r {
                Some(rec) => self.next < self.batch@.len() && rec == self.batch@[
                    self.next as int
                ],
                None => self.next == self.batch@.len(),
            },
    {
        if self.next < self.batch.len() {
            Some(self.batch[self.next].duplicate())
        } else {
            None
        }
    }

    /// How many records the remote has accepted so far.
    pub fn committed_count(&self) -> (r: usize)
        ensures
            r == self.next,
    {
        self.next
    }

    /// The remote accepted the pending record: its first occurrence in
    /// the ledger is rewritten to its committed copy — durably flipping
    /// `committed` and nothing else — and the engine moves to the next.
    pub fn record_accepted(&mut self, ledger: &mut Ledger)
        requires
            old(self).wf(),
            old(self).next < old(self).batch@.len(),
            old(ledger).wf(),
        ensures
            final(self).batch@ == old(self).batch@,
            final(self).next == old(self).next + 1,
            final(self).wf(),
            final(ledger).wf(),
            final(ledger)@.len() == old(ledger)@.len(),
            ({
                let rec = old(self).batch@[old(self).next as int];
                let i = spec_find_id(old(ledger)@, rec.id@, 0);
                &&& i < old(ledger)@.len() ==> record_committed_copy(rec, final(ledger)@[i])
                    && final(ledger)@ == old(ledger)@.update(i, final(ledger)@[i])
                &&& i == old(ledger)@.len() ==> final(ledger)@ == old(ledger)@
            }),
    {
        let ghost rec_spec = self.batch@[self.next as int];
        let n: usize = self.batch.len();
        proof {
            assert(self.next < n);
            assert(rec_spec.wf());
        }
        let orig = self.batch[self.next].duplicate();
        let commit_item = WorklogRecord {
            ticket: orig.ticket,
            time_spent: orig.time_spent,
            description: orig.description,
            started_date: orig.started_date,
            committed: true,
            id: orig.id,
        };
        proof {
            assert(commit_item.wf());
            assert(commit_item.id@ == rec_spec.id@);
            lemma_find_id(ledger@, commit_item.id@, 0);
        }
        ledger.update_item(&commit_item);
        self.next = self.next + 1;
    }

    /// The remote rejected the pending record, or transport failed: the
    /// batch stops here, and the error names the offending record.
    pub fn record_rejected(&self, reason: String) -> (r: WorklogError)
        requires
            self.wf(),
            self.next < self.batch@.len(),
        ensures
            r matches WorklogError::SyncError { id, reason: why } && id@ == self.batch@[
                self.next as int
            ].id@ && why == reason,
    {
        WorklogError::SyncError { id: self.batch[self.next].id.clone(), reason }
    }
}

/// What a sync run reports: how many records went through, and the
/// failure that stopped it, if one did.
#[derive(Debug, Clone, PartialEq, Eq)]
pub struct SyncReport {
    pub succeeded: usize,
    pub failure: Option<WorklogError>,
}

/// Owned copies of the records, in order.
pub fn duplicate_records(rs: &Vec<WorklogRecord>) -> (r: Vec<WorklogRecord>)
    ensures
        r@ == rs@,
{
    let mut out: Vec<WorklogRecord> = Vec::new();
    let mut i: usize = 0;
    while i < rs.len()
        invariant
            0 <= i <= rs@.len(),
            out@ == rs@.subrange(0, i as int),
        decreases rs@.len() - i,
    {
        out.push(rs[i].duplicate());
        proof {
            assert(out@ =~= rs@.subrange(0, i + 1));
        }
        i = i + 1;
    }
    proof {
        assert(out@ =~= rs@);
    }
    out
}

/// Runs the engine over the whole batch against the given per-record
/// outcomes (`true`: the remote accepted).  Records are processed in
/// batch order; the run stops at the first failure; and afterwards
/// exactly the records before that failure are committed in the ledger,
/// everything else untouched — the commit-prefix invariant.
pub fn run_sync(
    ledger: &mut Ledger,
    batch: &Vec<WorklogRecord>,
    outcomes: &Vec<bool>,
    reason: &String,
) -> (r: SyncReport)
    requires
        old(ledger).wf(),
        records_wf(batch@),
        distinct_ids(batch@),
        outcomes@.len() == batch@.len(),
    ensures
        final(ledger).wf(),
        ({
            let k = spec_first_false(outcomes@, 0);
            &&& r.succeeded == k
            &&& prefix_committed(old(ledger)@, final(ledger)@, batch@, k)
            &&& k == batch@.len() ==> r.failure is None
            &&& k < batch@.len() ==> (r.failure matches Some(e) && e matches WorklogError::SyncError {
                id,
                reason: why,
            } && id@ == batch@[k].id@ && why@ == reason@)
        }),
{
    let ghost orig = old(ledger)@;
    let mut session = SyncSession::new(duplicate_records(batch));
    let n: usize = batch.len();
    while session.next < n && outcomes[session.next]
        invariant
            session.wf(),
            session.batch@ == batch@,
            session.next <= n,
            n == batch@.len(),
            outcomes@.len() == batch@.len(),
            distinct_ids(batch@),
            ledger.wf(),
            ledger@.len() == orig.len(),
            forall|p: int| 0 <= p < orig.len() ==> (#[trigger] ledger@[p]).id@ == orig[p].id@,
            spec_first_false(outcomes@, 0) == spec_first_false(outcomes@, session.next as int),
            prefix_committed(orig, ledger@, batch@, session.next as int),
        decreases n - session.next,
    {
        let ghost pre_ledger = ledger@;
        let ghost j0 = session.next as int;
        let ghost rec = batch@[j0];
        proof {
            lemma_find_id_same_ids(orig, pre_ledger, rec.id@, 0);
            lemma_find_id(orig, rec.id@, 0);
        }
        session.record_accepted(ledger);
        proof {
            let i = spec_find_id(orig, rec.id@, 0);
            assert(spec_find_id(pre_ledger, rec.id@, 0) == i);
            if i < orig.len() {
                assert(ledger@ == pre_ledger.update(i, ledger@[i]));
            }
            assert forall|p: int|
                0 <= p < orig.len() implies (#[trigger] ledger@[p]).id@ == orig[p].id@ by {
                if i < orig.len() && p == i {
                    assert(ledger@[i].id@ == rec.id@);
                    assert(orig[i].id@ == rec.id@);
                } else {
                    assert(ledger@[p] == pre_ledger[p]);
                }
            }
            assert(prefix_committed(orig, ledger@, batch@, j0 + 1)) by {
                assert forall|j: int|
                    0 <= j < j0 + 1 && #[trigger] spec_find_id(orig, batch[j].id@, 0)
                        < orig.len() implies record_committed_copy(
                    batch@[j],
                    ledger@[spec_find_id(orig, batch@[j].id@, 0)],
                ) by {
                    let pj = spec_find_id(orig, batch@[j].id@, 0);
                    lemma_find_id(orig, batch@[j].id@, 0);
                    if j < j0 {
                        if i < orig.len() {
                            assert(orig[i].id@ == rec.id@);
                            assert(orig[pj].id@ == batch@[j].id@);
                            assert(batch@[j].id@ != rec.id@);
                            assert(pj != i);
                            assert(ledger@[pj] == pre_ledger[pj]);
                        } else {
                            assert(ledger@[pj] == pre_ledger[pj]);
                        }
                    } else {
                        assert(j == j0);
                    }
                }
                assert forall|p: int|
                    0 <= p < orig.len() && (forall|j: int|
                        0 <= j < j0 + 1 ==> p != #[trigger] spec_find_id(
                            orig,
                            batch@[j].id@,
                            0,
                        )) implies (#[trigger] ledger@[p]) == orig[p] by {
                    assert(p != spec_find_id(orig, batch@[j0].id@, 0));
                    if i < orig.len() {
                        assert(p != i);
                        assert(ledger@[p] == pre_ledger[p]);
                    } else {
                        assert(ledger@[p] == pre_ledger[p]);
                    }
                    assert(forall|j: int|
                        0 <= j < j0 ==> p != #[trigger] spec_find_id(orig, batch@[j].id@, 0));
                    assert(pre_ledger[p] == orig[p]);
                }
            }
        }
    }
    if session.next < n {
        let err = session.record_rejected(reason.clone());
        let succeeded = session.committed_count();
        proof {
            assert(spec_first_false(outcomes@, session.next as int) == session.next as int);
        }
        SyncReport { succeeded, failure: Some(err) }
    } else {
        let succeeded = session.committed_count();
        proof {
            assert(spec_first_false(outcomes@, session.next as int) == session.next as int);
        }
        SyncReport { succeeded, failure: None }
    }
}

/// Retry after a fix is safe, and completes the batch: if one run
/// committed exactly the batch's first `k` records, and a later run over
/// the remaining suffix went through wholly, then every record of the
/// batch has its first occurrence committed, and every other position of
/// the ledger is untouched — as if a single run had succeeded.
pub proof fn lemma_retry_commits_suffix(
    l0: Seq<WorklogRecord>,
    l1: Seq<WorklogRecord>,
    l2: Seq<WorklogRecord>,
    batch: Seq<WorklogRecord>,
    k: int,
)
    requires
        0 <= k <= batch.len(),
        distinct_ids(batch),
        prefix_committed(l0, l1, batch, k),
        prefix_committed(l1, l2, batch.skip(k), batch.len() - k),
    ensures
        prefix_committed(l0, l2, batch, batch.len() as int),
{
    let suffix = batch.skip(k);
    assert forall|p: int| 0 <= p < l0.len() implies (#[trigger] l1[p]).id@ == l0[p].id@ by {
        if exists|j: int| 0 <= j < k && p == spec_find_id(l0, batch[j].id@, 0) {
            let j = choose|j: int| 0 <= j < k && p == spec_find_id(l0, batch[j].id@, 0);
            lemma_find_id(l0, batch[j].id@, 0);
            assert(record_committed_copy(batch[j], l1[p]));
        } else {
            assert(forall|j: int| 0 <= j < k ==> p != #[trigger] spec_find_id(l0, batch[j].id@, 0));
            assert(l1[p] == l0[p]);
        }
    }
    assert forall|j: int|
        0 <= j < batch.len() && #[trigger] spec_find_id(l0, batch[j].id@, 0)
            < l0.len() implies record_committed_copy(
        batch[j],
        l2[spec_find_id(l0, batch[j].id@, 0)],
    ) by {
        let pj = spec_find_id(l0, batch[j].id@, 0);
        lemma_find_id(l0, batch[j].id@, 0);
        lemma_find_id_same_ids(l0, l1, batch[j].id@, 0);
        if j < k {
            assert(record_committed_copy(batch[j], l1[pj]));
            assert forall|i: int|
                0 <= i < batch.len() - k implies pj != #[trigger] spec_find_id(
                l1,
                suffix[i].id@,
                0,
            ) by {
                assert(suffix[i] == batch[k + i]);
                lemma_find_id(l1, suffix[i].id@, 0);
                lemma_find_id_same_ids(l0, l1, suffix[i].id@, 0);
                let pi = spec_find_id(l1, suffix[i].id@, 0);
                if pi < l1.len() {
                    assert(l1[pi].id@ == batch[k + i].id@);
                    assert(l1[pj].id@ == batch[j].id@);
                    assert(batch[j].id@ != batch[k + i].id@);
                }
            }
            assert(l2[pj] == l1[pj]);
        } else {
            assert(suffix[j - k] == batch[j]);
            assert(spec_find_id(l1, suffix[j - k].id@, 0) == pj);
            assert(record_committed_copy(suffix[j - k], l2[pj]));
        }
    }
    assert forall|p: int|
        0 <= p < l0.len() && (forall|j: int|
            0 <= j < batch.len() ==> p != #[trigger] spec_find_id(l0, batch[j].id@, 0)) implies (
    #[trigger] l2[p]) == l0[p] by {
        assert(forall|j: int| 0 <= j < k ==> p != #[trigger] spec_find_id(l0, batch[j].id@, 0));
        assert(l1[p] == l0[p]);
        assert forall|i: int|
            0 <= i < batch.len() - k implies p != #[trigger] spec_find_id(l1, suffix[i].id@, 0) by {
            assert(suffix[i] == batch[k + i]);
            lemma_find_id_same_ids(l0, l1, suffix[i].id@, 0);
            assert(p != spec_find_id(l0, batch[k + i].id@, 0));
        }
        assert(l2[p] == l1[p]);
    }
}

} // verus!
