use jiralog::errors::WorklogError;
use jiralog::ledger::Ledger;
use jiralog::model::{TimeSpent, WorklogRecord};
use jiralog::timestamp::Timestamp;

fn t0() -> Timestamp {
    Timestamp { year: 2024, month: 3, day: 1, hour: 8, minute: 30, second: 0, offset_minutes: 60 }
}

fn rec(ticket: &str, id: &str, committed: bool) -> WorklogRecord {
    WorklogRecord {
        ticket: ticket.to_string(),
        time_spent: TimeSpent::Logged("1h".to_string()),
        description: "".to_string(),
        started_date: t0(),
        committed,
        id: id.to_string(),
    }
}

#[test]
fn add_appends_a_record() {
    let mut ledger = Ledger::new();
    let added = ledger
        .add(&"TICK-2".to_string(), &"1d5h".to_string(), &"desc".to_string(), &t0())
        .expect("a valid time-span is accepted");
    assert_eq!(ledger.len(), 1);
    assert_eq!(added.ticket, "TICK-2");
    assert_eq!(added.time_spent, TimeSpent::Logged("1d5h".to_string()));
    assert_eq!(added.description, "desc");
    assert_eq!(added.started_date, t0());
    assert!(!added.committed);
    assert_eq!(added.id.chars().count(), 10);
    assert!(added.id.chars().all(|c| "1234567890abcdef".contains(c)));
}

#[test]
fn added_ids_are_fresh_against_the_ledger() {
    // The new record's id differs from every id already present: no
    // reuse, so id distinctness is preserved.
    let mut ledger = Ledger::new();
    ledger.records.push(rec("A", "id-a", false));
    ledger.records.push(rec("B", "id-b", true));
    let added = ledger
        .add(&"TICK-3".to_string(), &"30m".to_string(), &"".to_string(), &t0())
        .expect("a valid time-span is accepted");
    assert!(ledger.records[..2].iter().all(|r| r.id != added.id));
    let begun = ledger.begin(&"TICK-4".to_string(), &"".to_string(), &t0());
    assert!(ledger.records[..3].iter().all(|r| r.id != begun.current.id));
}

#[test]
fn add_rejects_a_malformed_time_span_before_any_write() {
    let mut ledger = Ledger::new();
    let err = ledger
        .add(&"TICK-2".to_string(), &"abc".to_string(), &"desc".to_string(), &t0())
        .expect_err("a malformed time-span is rejected");
    assert!(matches!(err, WorklogError::ValidationError(_)));
    assert_eq!(ledger.len(), 0);
}

#[test]
fn add_accepts_the_current_marker() {
    let mut ledger = Ledger::new();
    let added = ledger
        .add(&"TICK-2".to_string(), &"current".to_string(), &"".to_string(), &t0())
        .expect("the marker is accepted");
    assert_eq!(added.time_spent, TimeSpent::Current);
}

#[test]
fn remove_deletes_by_id() {
    let mut ledger = Ledger::new();
    ledger.records.push(rec("A", "id-a", false));
    ledger.records.push(rec("B", "id-b", false));
    let removed = ledger.remove(&"id-a".to_string()).expect("the id exists");
    assert_eq!(removed, "id-a");
    assert_eq!(ledger.len(), 1);
    assert_eq!(ledger.records[0].ticket, "B");
}

#[test]
fn remove_nonexistent_id_fails_and_leaves_the_ledger_unchanged() {
    let mut ledger = Ledger::new();
    ledger.records.push(rec("A", "id-a", false));
    let before = ledger.clone();
    let err = ledger.remove(&"nonexistent-id".to_string()).expect_err("no such id");
    assert!(matches!(err, WorklogError::NotFoundError(_)));
    assert_eq!(ledger, before);
}

#[test]
fn pop_removes_the_most_recent_record() {
    let mut ledger = Ledger::new();
    ledger.records.push(rec("A", "id-a", false));
    ledger.records.push(rec("B", "id-b", false));
    let popped = ledger.pop().expect("the ledger is not empty");
    assert_eq!(popped.ticket, "B");
    assert_eq!(ledger.len(), 1);
    assert!(Ledger::new().pop().is_none());
}

#[test]
fn update_item_rewrites_by_id() {
    let mut ledger = Ledger::new();
    ledger.records.push(rec("A", "id-a", false));
    let mut newer = rec("A", "id-a", true);
    newer.description = "done".to_string();
    ledger.update_item(&newer);
    assert_eq!(ledger.records[0].description, "done");
    assert!(ledger.records[0].committed);
    // An unknown id changes nothing.
    let stranger = rec("Z", "id-z", true);
    let before = ledger.clone();
    ledger.update_item(&stranger);
    assert_eq!(ledger, before);
}

#[test]
fn find_item_returns_the_first_match() {
    let mut ledger = Ledger::new();
    ledger.records.push(rec("A", "id-a", false));
    assert_eq!(ledger.find_item(&"id-a".to_string()).unwrap().ticket, "A");
    assert!(ledger.find_item(&"id-b".to_string()).is_none());
}

#[test]
fn purge_removes_only_committed_records() {
    let mut ledger = Ledger::new();
    ledger.records.push(rec("A", "id-a", true));
    ledger.records.push(rec("B", "id-b", false));
    ledger.records.push(rec("C", "id-c", true));
    ledger.records.push(rec("D", "id-d", false));
    let removed = ledger.purge();
    assert_eq!(removed, 2);
    let tickets: Vec<&str> = ledger.records.iter().map(|r| r.ticket.as_str()).collect();
    assert_eq!(tickets, vec!["B", "D"]);
}

#[test]
fn purge_twice_removes_records_only_the_first_time() {
    // Idempotent purge: the second run returns 0 and changes nothing.
    let mut ledger = Ledger::new();
    ledger.records.push(rec("A", "id-a", true));
    ledger.records.push(rec("B", "id-b", false));
    let first = ledger.purge();
    assert_eq!(first, 1);
    let after_first = ledger.clone();
    let second = ledger.purge();
    assert_eq!(second, 0);
    assert_eq!(ledger, after_first);
}

#[test]
fn uncommitted_keeps_ledger_order() {
    let mut ledger = Ledger::new();
    ledger.records.push(rec("A", "id-a", false));
    ledger.records.push(rec("B", "id-b", true));
    ledger.records.push(rec("C", "id-c", false));
    let open_records = ledger.uncommitted();
    let tickets: Vec<&str> = open_records.iter().map(|r| r.ticket.as_str()).collect();
    assert_eq!(tickets, vec!["A", "C"]);
}
