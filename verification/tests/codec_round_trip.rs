use jiralog::codec::{encode_ledger, parse_ledger};
use jiralog::errors::WorklogError;
use jiralog::model::{TimeSpent, WorklogRecord};
use jiralog::timestamp::Timestamp;

fn t0() -> Timestamp {
    Timestamp { year: 2024, month: 1, day: 15, hour: 10, minute: 30, second: 5, offset_minutes: 120 }
}

fn rec(ticket: &str, id: &str) -> WorklogRecord {
    WorklogRecord {
        ticket: ticket.to_string(),
        time_spent: TimeSpent::Logged("2h30m".to_string()),
        description: "plain".to_string(),
        started_date: t0(),
        committed: false,
        id: id.to_string(),
    }
}

#[test]
fn encode_writes_header_and_rows() {
    let records = vec![rec("TICK-1", "aaaaaaaaaa")];
    let text = encode_ledger(&records);
    assert_eq!(
        text,
        "ticket,time_spent,description,started_date,committed,id\n\
         TICK-1,2h30m,plain,2024-01-15T10:30:05+02:00,false,aaaaaaaaaa\n"
    );
}

#[test]
fn encode_of_empty_ledger_is_empty() {
    let records: Vec<WorklogRecord> = Vec::new();
    assert_eq!(encode_ledger(&records), "");
    assert_eq!(parse_ledger("").unwrap(), records);
}

#[test]
fn round_trip_is_field_for_field_identical() {
    // Serialize, reload: identical records, timestamp precision kept.
    let mut records = vec![rec("TICK-1", "aaaaaaaaaa")];
    records.push(WorklogRecord {
        ticket: "TICK-2".to_string(),
        time_spent: TimeSpent::Current,
        description: "with, comma and \"quotes\"\nand a newline".to_string(),
        started_date: Timestamp {
            year: 2023,
            month: 12,
            day: 31,
            hour: 23,
            minute: 59,
            second: 59,
            offset_minutes: -330,
        },
        committed: true,
        id: "bbbbbbbbbb".to_string(),
    });
    let text = encode_ledger(&records);
    let reloaded = parse_ledger(&text).expect("what was written parses back");
    assert_eq!(reloaded, records);
}

#[test]
fn quoted_fields_encode_and_parse() {
    let mut record = rec("TICK,1", "cccccccccc");
    record.description = "say \"hi\"".to_string();
    let text = encode_ledger(&vec![record.clone()]);
    assert!(text.contains("\"TICK,1\""));
    assert!(text.contains("\"say \"\"hi\"\"\""));
    let reloaded = parse_ledger(&text).unwrap();
    assert_eq!(reloaded, vec![record]);
}

#[test]
fn parse_accepts_crlf_rows() {
    let text = "ticket,time_spent,description,started_date,committed,id\r\n\
                A,1h,,2024-01-15T10:30:05+02:00,false,idaaaaaaaa\r\n";
    let records = parse_ledger(text).unwrap();
    assert_eq!(records.len(), 1);
    assert_eq!(records[0].ticket, "A");
}

#[test]
fn parse_maps_current_to_the_marker() {
    let text = "ticket,time_spent,description,started_date,committed,id\n\
                A,current,,2024-01-15T10:30:05+02:00,false,idaaaaaaaa\n";
    let records = parse_ledger(text).unwrap();
    assert_eq!(records[0].time_spent, TimeSpent::Current);
}

#[test]
fn parse_rejects_wrong_column_count() {
    let text = "ticket,time_spent,description,started_date,committed,id\n\
                A,1h,,2024-01-15T10:30:05+02:00,false\n";
    let err = parse_ledger(text).expect_err("five columns are malformed");
    assert!(matches!(err, WorklogError::ParseError(_)));
}

#[test]
fn parse_rejects_bad_timestamp() {
    let text = "ticket,time_spent,description,started_date,committed,id\n\
                A,1h,,2024-13-15T10:30:05+02:00,false,idaaaaaaaa\n";
    assert!(matches!(parse_ledger(text), Err(WorklogError::ParseError(_))));
}

#[test]
fn parse_rejects_bad_boolean() {
    let text = "ticket,time_spent,description,started_date,committed,id\n\
                A,1h,,2024-01-15T10:30:05+02:00,maybe,idaaaaaaaa\n";
    assert!(matches!(parse_ledger(text), Err(WorklogError::ParseError(_))));
}

#[test]
fn parse_rejects_wrong_header() {
    let text = "nope,time_spent,description,started_date,committed,id\n\
                A,1h,,2024-01-15T10:30:05+02:00,false,idaaaaaaaa\n";
    assert!(matches!(parse_ledger(text), Err(WorklogError::ParseError(_))));
}

#[test]
fn parse_whole_file_fails_on_one_bad_row() {
    // No partial recovery: one malformed row fails the whole load.
    let text = "ticket,time_spent,description,started_date,committed,id\n\
                A,1h,,2024-01-15T10:30:05+02:00,false,idaaaaaaaa\n\
                B,1h,,bad-date,false,idbbbbbbbb\n";
    assert!(matches!(parse_ledger(text), Err(WorklogError::ParseError(_))));
}

#[test]
fn parse_header_only_gives_empty_ledger() {
    let text = "ticket,time_spent,description,started_date,committed,id\n";
    assert_eq!(parse_ledger(text).unwrap(), Vec::<WorklogRecord>::new());
}

#[test]
fn parse_accepts_missing_trailing_newline() {
    let text = "ticket,time_spent,description,started_date,committed,id\n\
                A,1h,,2024-01-15T10:30:05+02:00,false,idaaaaaaaa";
    let records = parse_ledger(text).unwrap();
    assert_eq!(records.len(), 1);
}
