//! The Commit Orchestrator: closes any active session, loads the
//! uncommitted records, hands them to the human for review, and drives the
//! Sync Engine over the approved batch.  The caller performs the outside
//! work — the editor process and the remote calls — and feeds the results
//! back; every decision in between is made here.

use vstd::prelude::*;

use crate::codec::{encode_ledger, parse_ledger, spec_encode_ledger, spec_parse_ledger, spec_views};
use crate::errors::WorklogError;
use crate::ledger::{at_most_one_current, closes_first_current, lemma_filter_subset, lemma_find_current, spec_find_current, spec_uncommitted, Ledger};
use crate::model::{WorklogMessage, WorklogRecord};
use crate::sync::SyncSession;
use crate::timestamp::Timestamp;

verus! {

/// Where the commit workflow stands.
#[derive(Debug, Clone, PartialEq, Eq)]
pub enum CommitStage {
    /// The batch is with the Review Editor Gateway.
    AwaitingReview { batch: Vec<WorklogRecord> },
    /// The approved batch is being uploaded, one record at a time.
    Syncing(SyncSession),
    /// The workflow is over.
    Done,
}

/// What the caller must do next.
#[derive(Debug, Clone, PartialEq, Eq)]
pub enum CommitAction {
    /// Hand this serialized batch to the review editor and bring back the
    /// edited text.
    OpenEditor(String),
    /// Send this record's worklog to the tracker and bring back the
    /// outcome.
    Upload(WorklogRecord),
    /// The workflow finished; report this to the user.
    Finished(WorklogMessage),
    /// The workflow failed after `succeeded` records went through; report
    /// the error and the count, so the user knows the ledger's true state.
    Failed { error: WorklogError, succeeded: usize },
}

/// The commit workflow's state between two of the caller's outside steps.
#[derive(Debug, Clone, PartialEq, Eq)]
pub struct CommitFlow {
    pub stage: CommitStage,
}

impl CommitFlow {
    /// Step one and two: close any running session against `now`, then
    /// load the uncommitted records.  With nothing to commit the workflow
    /// finishes at once — a success, not an error; otherwise the batch
    /// goes out for review, serialized in the ledger's own format.
    pub fn start(ledger: &mut Ledger, now: &Timestamp) -> (r: (CommitFlow, CommitAction))
        requires
            old(ledger).wf(),
            now.valid(),
        ensures
            final(ledger).wf(),
            exists|closed: Option<WorklogRecord>|
                closes_first_current(old(ledger)@, final(ledger)@, closed, *now),
            at_most_one_current(old(ledger)@) ==> forall|i: int|
                0 <= i < spec_uncommitted(final(ledger)@).len() ==> !(#[trigger] spec_uncommitted(
                    final(ledger)@,
                )[i]).is_current(),
            ({
                let batch = spec_uncommitted(final(ledger)@);
                if batch.len() == 0 {
                    r.0.stage is Done && (r.1 matches CommitAction::Finished(m) && m.0@
                        == "Nothing to commit"@)
                } else {
                    &&& (r.0.stage matches CommitStage::AwaitingReview { batch: b }
                        && b@ == batch)
                    &&& (r.1 matches CommitAction::OpenEditor(text) && text@
                        == spec_encode_ledger(spec_views(batch)))
                }
            }),
    {
        let closed = ledger.end_current(now);
        proof {
            assert(closes_first_current(old(ledger)@, ledger@, closed, *now));
            if at_most_one_current(old(ledger)@) {
                lemma_find_current(ledger@, 0);
                lemma_filter_subset(ledger@, |rec: WorklogRecord| !rec.committed);
                assert forall|i: int|
                    0 <= i < spec_uncommitted(ledger@).len() implies !(#[trigger] spec_uncommitted(
                    ledger@,
                )[i]).is_current() by {
                    assert(ledger@.contains(spec_uncommitted(ledger@)[i]));
                    let w = choose|w: int|
                        0 <= w < ledger@.len() && ledger@[w] == spec_uncommitted(ledger@)[i];
                    assert(!ledger@[w].is_current());
                }
            }
        }
        let batch = ledger.uncommitted();
        if batch.len() == 0 {
            (
                CommitFlow { stage: CommitStage::Done },
                CommitAction::Finished(WorklogMessage(String::from_str("Nothing to commit"))),
            )
        } else {
            let text = encode_ledger(&batch);
            (
                CommitFlow { stage: CommitStage::AwaitingReview { batch } },
                CommitAction::OpenEditor(text),
            )
        }
    }

    /// Step three and four: the editor came back with `text`.  An empty
    /// result aborts the whole commit — this step takes no ledger, so an
    /// abort cannot leave a trace.  A malformed batch fails the commit the
    /// same way, with nothing written.  Otherwise the approved batch—
    /// possibly edited or thinned by the human — goes to the Sync Engine,
    /// and the first upload is requested.
    pub fn reviewed(self, text: &str) -> (r: (CommitFlow, CommitAction))
        requires
            self.stage matches CommitStage::AwaitingReview { .. },
        ensures
            ({
                if text@.len() == 0 {
                    r.0.stage is Done && (r.1 matches CommitAction::Finished(m) && m.0@
                        == "Abort commit"@)
                } else {
                    match spec_parse_ledger(text@) {
                        None => r.0.stage is Done && (r.1 matches CommitAction::Failed {
                            error,
                            succeeded,
                        } && error matches WorklogError::ParseError(_) && succeeded == 0),
                        Some(ms) => {
                            if ms.len() == 0 {
                                r.0.stage is Done && (r.1 matches CommitAction::Finished(m)
                                    && m.0@ == "All done"@)
                            } else {
                                &&& (r.0.stage matches CommitStage::Syncing(s) && s.next == 0
                                    && spec_views(s.batch@) == ms && s.wf())
                                &&& (r.1 matches CommitAction::Upload(rec) && rec@ == ms[0])
                            }
                        },
                    }
                }
            }),
    {
        if text.unicode_len() == 0 {
            return (
                CommitFlow { stage: CommitStage::Done },
                CommitAction::Finished(WorklogMessage(String::from_str("Abort commit"))),
            );
        }
        match parse_ledger(text) {
            Err(e) => (
                CommitFlow { stage: CommitStage::Done },
                CommitAction::Failed { error: e, succeeded: 0 },
            ),
            Ok(batch) => {
                if batch.len() == 0 {
                    return (
                        CommitFlow { stage: CommitStage::Done },
                        CommitAction::Finished(WorklogMessage(String::from_str("All done"))),
                    );
                }
                let session = SyncSession::new(batch);
                let first = match session.pending() {
                    Some(rec) => rec,
                    None => session.batch[0].duplicate(),  // unreachable: the batch is non-empty
                };
                proof {
                    assert(first@ == spec_views(session.batch@)[0]);
                }
                (CommitFlow { stage: CommitStage::Syncing(session) }, CommitAction::Upload(first))
            },
        }
    }

    /// Step five, one record at a time: the tracker accepted the pending
    /// record, so its committed flag is flipped in the ledger — the caller
    /// persists it before the next upload.  The next record is requested,
    /// or the workflow finishes.
    pub fn upload_accepted(self, ledger: &mut Ledger) -> (r: (CommitFlow, CommitAction))
        requires
            self.stage matches CommitStage::Syncing(s) && s.wf() && s.next < s.batch@.len(),
            old(ledger).wf(),
        ensures
            final(ledger).wf(),
            ({
                let old_s = self.stage->Syncing_0;
                let rec = old_s.batch@[old_s.next as int];
                let i = crate::ledger::spec_find_id(old(ledger)@, rec.id@, 0);
                &&& i < old(ledger)@.len() ==> crate::sync::record_committed_copy(
                    rec,
                    final(ledger)@[i],
                ) && final(ledger)@ == old(ledger)@.update(i, final(ledger)@[i])
                &&& i == old(ledger)@.len() ==> final(ledger)@ == old(ledger)@
                &&& (old_s.next + 1 < old_s.batch@.len() ==> (r.0.stage
                    matches CommitStage::Syncing(s2) && s2.batch@ == old_s.batch@ && s2.next
                    == old_s.next + 1) && (r.1 matches CommitAction::Upload(next) && next
                    == old_s.batch@[old_s.next + 1]))
                &&& (old_s.next + 1 == old_s.batch@.len() ==> r.0.stage is Done && (r.1
                    matches CommitAction::Finished(m) && m.0@ == "All done"@))
            }),
    {
        match self.stage {
            CommitStage::Syncing(mut session) => {
                session.record_accepted(ledger);
                match session.pending() {
                    Some(rec) => (
                        CommitFlow { stage: CommitStage::Syncing(session) },
                        CommitAction::Upload(rec),
                    ),
                    None => (
                        CommitFlow { stage: CommitStage::Done },
                        CommitAction::Finished(WorklogMessage(String::from_str("All done"))),
                    ),
                }
            },
            _ => (
                CommitFlow { stage: CommitStage::Done },
                CommitAction::Finished(WorklogMessage(String::new())),
            ),  // unreachable under the precondition
        }
    }

    /// Step five, the failure arm: the tracker rejected the pending
    /// record, or transport failed.  The batch stops here; everything
    /// before it stays committed, the rest stays uncommitted.
    pub fn upload_rejected(self, reason: String) -> (r: CommitAction)
        requires
            self.stage matches CommitStage::Syncing(s) && s.wf() && s.next < s.batch@.len(),
        ensures
            ({
                let s = self.stage->Syncing_0;
                r matches CommitAction::Failed { error, succeeded } && succeeded == s.next && (
                error matches WorklogError::SyncError { id, reason: why } && id@ == s.batch@[
                    s.next as int
                ].id@ && why@ == reason@)
            }),
    {
        match self.stage {
            CommitStage::Syncing(session) => {
                let succeeded = session.committed_count();
                let error = session.record_rejected(reason);
                CommitAction::Failed { error, succeeded }
            },
            _ => CommitAction::Failed {
                error: WorklogError::EditorError(String::new()),
                succeeded: 0,
            },  // unreachable under the precondition
        }
    }
}

/// An aborted commit leaves no trace: when no session was open, closing
/// sessions changed nothing, and the review step touches no ledger at
/// all — so the ledger, and with it its file, is identical to before.
pub proof fn lemma_abort_leaves_no_trace(
    old_rs: Seq<WorklogRecord>,
    new_rs: Seq<WorklogRecord>,
    closed: Option<WorklogRecord>,
    now: Timestamp,
)
    requires
        closes_first_current(old_rs, new_rs, closed, now),
        spec_find_current(old_rs, 0) == old_rs.len(),
    ensures
        new_rs == old_rs,
        closed is None,
{
}

} // verus!
