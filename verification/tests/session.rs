use jiralog::ledger::Ledger;
use jiralog::model::{TimeSpent, WorklogRecord};
use jiralog::timestamp::Timestamp;

fn t(year: u32, month: u32, day: u32, hour: u32, minute: u32, second: u32, offset_minutes: i32) -> Timestamp {
    Timestamp { year, month, day, hour, minute, second, offset_minutes }
}

fn count_current(ledger: &Ledger) -> usize {
    ledger.records.iter().filter(|r| r.time_spent == TimeSpent::Current).count()
}

#[test]
fn begin_opens_a_session() {
    let mut ledger = Ledger::new();
    let now = t(2024, 1, 15, 9, 0, 0, 120);
    let out = ledger.begin(&"TICK-1".to_string(), &"work".to_string(), &now);
    assert!(out.previous.is_none());
    assert_eq!(out.current.ticket, "TICK-1");
    assert_eq!(out.current.description, "work");
    assert_eq!(out.current.time_spent, TimeSpent::Current);
    assert_eq!(out.current.started_date, now);
    assert!(!out.current.committed);
    assert_eq!(out.current.id.chars().count(), 10);
    assert_eq!(count_current(&ledger), 1);
}

#[test]
fn begin_single_active_session_over_many_calls() {
    // However many sessions are begun, at most one record is ever active.
    let mut ledger = Ledger::new();
    let mut minute = 0;
    for i in 0..5 {
        let now = t(2024, 1, 15, 9, minute, 0, 0);
        minute += 1;
        let ticket = format!("TICK-{}", i);
        ledger.begin(&ticket, &"".to_string(), &now);
        assert_eq!(count_current(&ledger), 1);
    }
    assert_eq!(ledger.len(), 5);
}

#[test]
fn begin_closes_the_previous_session() {
    let mut ledger = Ledger::new();
    let start = t(2024, 1, 15, 9, 0, 0, 0);
    ledger.begin(&"TICK-1".to_string(), &"first".to_string(), &start);
    let later = t(2024, 1, 15, 9, 30, 0, 0);
    let out = ledger.begin(&"TICK-2".to_string(), &"second".to_string(), &later);
    let previous = out.previous.expect("the first session should have been closed");
    assert_eq!(previous.ticket, "TICK-1");
    assert_eq!(previous.time_spent, TimeSpent::Logged("30m".to_string()));
}

#[test]
fn end_after_65_minutes_records_65m() {
    // begin, then 65 minutes later (simulated clock) end.
    let mut ledger = Ledger::new();
    let start = t(2024, 1, 15, 9, 0, 0, 120);
    ledger.begin(&"TICK-1".to_string(), &"work".to_string(), &start);
    let later = t(2024, 1, 15, 10, 5, 0, 120);
    let closed = ledger.end_current(&later).expect("a session was active");
    assert_eq!(closed.time_spent, TimeSpent::Logged("65m".to_string()));
    assert_eq!(count_current(&ledger), 0);
}

#[test]
fn end_crossing_midnight_and_offsets() {
    // A session crossing midnight into a leap day still measures plain
    // wall-clock minutes.
    let mut ledger = Ledger::new();
    let start = t(2024, 2, 28, 23, 50, 0, 0);
    ledger.begin(&"TICK-1".to_string(), &"".to_string(), &start);
    let later = t(2024, 2, 29, 0, 20, 0, 0);
    let closed = ledger.end_current(&later).expect("a session was active");
    assert_eq!(closed.time_spent, TimeSpent::Logged("30m".to_string()));
}

#[test]
fn end_without_session_is_a_no_op() {
    let mut ledger = Ledger::new();
    let now = t(2024, 1, 15, 9, 0, 0, 0);
    assert!(ledger.end_current(&now).is_none());
    assert_eq!(ledger.len(), 0);
}

#[test]
fn current_ticket_reports_the_active_record() {
    let mut ledger = Ledger::new();
    let now = t(2024, 1, 15, 9, 0, 0, 0);
    assert!(ledger.current_ticket().is_none());
    ledger.begin(&"TICK-9".to_string(), &"desc".to_string(), &now);
    let current = ledger.current_ticket().expect("a session is active");
    assert_eq!(current.ticket, "TICK-9");
}

#[test]
fn print_current_default_message_without_session() {
    let ledger = Ledger::new();
    let now = t(2024, 1, 15, 9, 0, 0, 0);
    let msg = ledger.print_current_ticket(&None, &now);
    assert_eq!(msg.0, "No current ticket");
}

#[test]
fn print_current_empty_with_format_without_session() {
    let ledger = Ledger::new();
    let now = t(2024, 1, 15, 9, 0, 0, 0);
    let msg = ledger.print_current_ticket(&Some("[%ti]".to_string()), &now);
    assert_eq!(msg.0, "");
}

#[test]
fn print_current_renders_the_template() {
    let mut ledger = Ledger::new();
    let start = t(2024, 1, 15, 9, 0, 0, 0);
    ledger.begin(&"TICK-3".to_string(), &"polish".to_string(), &start);
    let now = t(2024, 1, 15, 9, 42, 0, 0);
    let msg = ledger.print_current_ticket(&None, &now);
    assert_eq!(msg.0, "[TICK-3]: time spent=42m");
    let custom = ledger.print_current_ticket(&Some("%ti/%d/%ts".to_string()), &now);
    assert_eq!(custom.0, "TICK-3/polish/42m");
}

#[test]
fn elapsed_minutes_truncates_toward_zero() {
    let start = t(2024, 1, 15, 9, 0, 30, 0);
    let now = t(2024, 1, 15, 9, 1, 59, 0);
    // 89 seconds elapsed: one whole minute.
    assert_eq!(jiralog::timestamp::elapsed_minutes(&start, &now), 1);
    // The clock ran backwards 89 seconds: minus one whole minute.
    assert_eq!(jiralog::timestamp::elapsed_minutes(&now, &start), -1);
}

#[test]
fn multiple_anomalous_current_records_end_closes_first() {
    // Defensive handling: should the ledger anomalously hold two active
    // records, end touches only the first in file order.
    let mut ledger = Ledger::new();
    let start = t(2024, 1, 15, 9, 0, 0, 0);
    let mk = |ticket: &str, id: &str| WorklogRecord {
        ticket: ticket.to_string(),
        time_spent: TimeSpent::Current,
        description: "".to_string(),
        started_date: start,
        committed: false,
        id: id.to_string(),
    };
    ledger.records.push(mk("A", "id-a"));
    ledger.records.push(mk("B", "id-b"));
    let later = t(2024, 1, 15, 9, 10, 0, 0);
    let closed = ledger.end_current(&later).expect("one session closes");
    assert_eq!(closed.ticket, "A");
    assert_eq!(ledger.records[1].time_spent, TimeSpent::Current);
}
