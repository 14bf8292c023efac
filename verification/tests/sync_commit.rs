use jiralog::codec::encode_ledger;
use jiralog::commit::{CommitAction, CommitFlow, CommitStage};
use jiralog::errors::WorklogError;
use jiralog::jira::build_sync_request;
use jiralog::ledger::Ledger;
use jiralog::model::{TimeSpent, WorklogRecord};
use jiralog::sync::run_sync;
use jiralog::timestamp::Timestamp;

fn t0() -> Timestamp {
    Timestamp { year: 2024, month: 1, day: 15, hour: 10, minute: 30, second: 0, offset_minutes: 120 }
}

fn rec(ticket: &str, id: &str) -> WorklogRecord {
    WorklogRecord {
        ticket: ticket.to_string(),
        time_spent: TimeSpent::Logged("1h".to_string()),
        description: "d".to_string(),
        started_date: t0(),
        committed: false,
        id: id.to_string(),
    }
}

fn committed_flags(ledger: &Ledger) -> Vec<bool> {
    ledger.records.iter().map(|r| r.committed).collect()
}

#[test]
fn sync_failure_at_third_record_commits_exactly_the_first_two() {
    // The commit prefix invariant: failure at record 3 of 4 leaves
    // records 1 and 2 committed, 3 and 4 untouched.
    let batch = vec![rec("A", "id-a"), rec("B", "id-b"), rec("C", "id-c"), rec("D", "id-d")];
    let mut ledger = Ledger::new();
    ledger.records = batch.clone();
    let outcomes = vec![true, true, false, true];
    let report = run_sync(&mut ledger, &batch, &outcomes, &"rejected".to_string());
    assert_eq!(report.succeeded, 2);
    match report.failure {
        Some(WorklogError::SyncError { id, reason }) => {
            assert_eq!(id, "id-c");
            assert_eq!(reason, "rejected");
        },
        other => panic!("expected a sync failure, got {:?}", other),
    }
    assert_eq!(committed_flags(&ledger), vec![true, true, false, false]);
}

#[test]
fn sync_retry_commits_exactly_the_remaining_suffix() {
    // After a mid-batch failure, re-running over the uncommitted records
    // commits exactly the remaining suffix.
    let batch = vec![rec("A", "id-a"), rec("B", "id-b"), rec("C", "id-c")];
    let mut ledger = Ledger::new();
    ledger.records = batch.clone();
    let first = run_sync(&mut ledger, &batch, &vec![true, false, true], &"down".to_string());
    assert_eq!(first.succeeded, 1);
    assert_eq!(committed_flags(&ledger), vec![true, false, false]);
    let remaining = ledger.uncommitted();
    let ids: Vec<&str> = remaining.iter().map(|r| r.id.as_str()).collect();
    assert_eq!(ids, vec!["id-b", "id-c"]);
    let second = run_sync(&mut ledger, &remaining, &vec![true, true], &"".to_string());
    assert_eq!(second.succeeded, 2);
    assert!(second.failure.is_none());
    assert_eq!(committed_flags(&ledger), vec![true, true, true]);
}

#[test]
fn sync_full_success_reports_no_failure() {
    let batch = vec![rec("A", "id-a"), rec("B", "id-b")];
    let mut ledger = Ledger::new();
    ledger.records = batch.clone();
    let report = run_sync(&mut ledger, &batch, &vec![true, true], &"".to_string());
    assert_eq!(report.succeeded, 2);
    assert!(report.failure.is_none());
    assert_eq!(committed_flags(&ledger), vec![true, true]);
}

#[test]
fn commit_with_nothing_to_do_reports_so() {
    let mut ledger = Ledger::new();
    let (flow, action) = CommitFlow::start(&mut ledger, &t0());
    assert!(matches!(flow.stage, CommitStage::Done));
    match action {
        CommitAction::Finished(m) => assert_eq!(m.0, "Nothing to commit"),
        other => panic!("expected a finished workflow, got {:?}", other),
    }
}

#[test]
fn commit_abort_leaves_the_ledger_byte_identical() {
    // An empty review result aborts: the ledger file's bytes afterwards
    // are exactly the bytes before.
    let mut ledger = Ledger::new();
    ledger.records = vec![rec("A", "id-a"), rec("B", "id-b")];
    let before = encode_ledger(&ledger.records);
    let (flow, action) = CommitFlow::start(&mut ledger, &t0());
    assert!(matches!(action, CommitAction::OpenEditor(_)));
    let (flow, action) = flow.reviewed("");
    assert!(matches!(flow.stage, CommitStage::Done));
    match action {
        CommitAction::Finished(m) => assert_eq!(m.0, "Abort commit"),
        other => panic!("expected an abort, got {:?}", other),
    }
    assert_eq!(encode_ledger(&ledger.records), before);
}

#[test]
fn commit_flow_uploads_the_reviewed_batch() {
    let mut ledger = Ledger::new();
    ledger.records = vec![rec("A", "id-a"), rec("B", "id-b")];
    let (flow, action) = CommitFlow::start(&mut ledger, &t0());
    let text = match action {
        CommitAction::OpenEditor(text) => text,
        other => panic!("expected a review, got {:?}", other),
    };
    // The human approves the batch unchanged.
    let (flow, action) = flow.reviewed(&text);
    let first = match action {
        CommitAction::Upload(rec) => rec,
        other => panic!("expected an upload, got {:?}", other),
    };
    assert_eq!(first.id, "id-a");
    let (flow, action) = flow.upload_accepted(&mut ledger);
    let second = match action {
        CommitAction::Upload(rec) => rec,
        other => panic!("expected a second upload, got {:?}", other),
    };
    assert_eq!(second.id, "id-b");
    let (flow, action) = flow.upload_accepted(&mut ledger);
    assert!(matches!(flow.stage, CommitStage::Done));
    match action {
        CommitAction::Finished(m) => assert_eq!(m.0, "All done"),
        other => panic!("expected the end, got {:?}", other),
    }
    assert_eq!(committed_flags(&ledger), vec![true, true]);
}

#[test]
fn commit_flow_review_can_thin_the_batch() {
    // The human deletes the second row: only the first record is
    // attempted, the second stays uncommitted.
    let mut ledger = Ledger::new();
    ledger.records = vec![rec("A", "id-a"), rec("B", "id-b")];
    let (flow, action) = CommitFlow::start(&mut ledger, &t0());
    let text = match action {
        CommitAction::OpenEditor(text) => text,
        other => panic!("expected a review, got {:?}", other),
    };
    let mut lines: Vec<&str> = text.lines().collect();
    lines.truncate(2);
    let edited = lines.join("\n");
    let (flow, action) = flow.reviewed(&edited);
    match action {
        CommitAction::Upload(rec) => assert_eq!(rec.id, "id-a"),
        other => panic!("expected an upload, got {:?}", other),
    }
    let (_, action) = flow.upload_accepted(&mut ledger);
    assert!(matches!(action, CommitAction::Finished(_)));
    assert_eq!(committed_flags(&ledger), vec![true, false]);
}

#[test]
fn commit_flow_rejection_names_the_record_and_the_count() {
    let mut ledger = Ledger::new();
    ledger.records = vec![rec("A", "id-a")];
    let (flow, action) = CommitFlow::start(&mut ledger, &t0());
    let text = match action {
        CommitAction::OpenEditor(text) => text,
        other => panic!("expected a review, got {:?}", other),
    };
    let (flow, _) = flow.reviewed(&text);
    let action = flow.upload_rejected("status 400".to_string());
    match action {
        CommitAction::Failed { error: WorklogError::SyncError { id, reason }, succeeded } => {
            assert_eq!(id, "id-a");
            assert_eq!(reason, "status 400");
            assert_eq!(succeeded, 0);
        },
        other => panic!("expected a failure, got {:?}", other),
    }
    assert_eq!(committed_flags(&ledger), vec![false]);
}

#[test]
fn commit_flow_malformed_edit_fails_without_writing() {
    let mut ledger = Ledger::new();
    ledger.records = vec![rec("A", "id-a")];
    let before = encode_ledger(&ledger.records);
    let (flow, _) = CommitFlow::start(&mut ledger, &t0());
    let (flow, action) = flow.reviewed("not,a,valid,worklog\nfile\n");
    assert!(matches!(flow.stage, CommitStage::Done));
    match action {
        CommitAction::Failed { error, succeeded } => {
            assert!(matches!(error, WorklogError::ParseError(_)));
            assert_eq!(succeeded, 0);
        },
        other => panic!("expected a parse failure, got {:?}", other),
    }
    assert_eq!(encode_ledger(&ledger.records), before);
}

#[test]
fn sync_request_has_the_exact_url_and_body() {
    let record = WorklogRecord {
        ticket: "TICK-7".to_string(),
        time_spent: TimeSpent::Logged("1d5h".to_string()),
        description: "fix \"the\" bug".to_string(),
        started_date: t0(),
        committed: false,
        id: "idaaaaaaaa".to_string(),
    };
    let request = build_sync_request(&"https://corp.atlassian.net".to_string(), &record);
    assert_eq!(request.url, "https://corp.atlassian.net/rest/api/3/issue/TICK-7/worklog");
    assert_eq!(
        request.body,
        "{\"comment\":{\"content\":[{\"content\":[{\"text\":\"fix \\\"the\\\" bug\",\"type\":\"text\"}],\
         \"type\":\"paragraph\"}],\"type\":\"doc\",\"version\":1},\
         \"started\":\"2024-01-15T10:30:00.000+0200\",\"timeSpent\":\"1d5h\"}"
    );
}

#[test]
fn sync_status_only_201_is_success() {
    assert!(jiralog::jira::sync_status_ok(201));
    assert!(!jiralog::jira::sync_status_ok(200));
    assert!(!jiralog::jira::sync_status_ok(400));
    assert!(!jiralog::jira::sync_status_ok(500));
}
