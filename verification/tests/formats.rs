use jiralog::errors::WorklogError;
use jiralog::ids::get_nano_id;
use jiralog::jira::validate_jira_time_spent;
use jiralog::model::Configuration;
use jiralog::timespan::{is_timespan_str, minutes_span_string};
use jiralog::timestamp::{format_timestamp, get_started_date, parse_timestamp, Timestamp};

fn t(year: u32, month: u32, day: u32, hour: u32, minute: u32, second: u32, offset_minutes: i32) -> Timestamp {
    Timestamp { year, month, day, hour, minute, second, offset_minutes }
}

#[test]
fn timestamp_formats_with_offset() {
    assert_eq!(format_timestamp(&t(2024, 1, 15, 10, 30, 5, 120)), "2024-01-15T10:30:05+02:00");
    assert_eq!(format_timestamp(&t(2023, 12, 31, 23, 59, 59, -330)), "2023-12-31T23:59:59-05:30");
    assert_eq!(format_timestamp(&t(1, 1, 1, 0, 0, 0, 0)), "0001-01-01T00:00:00+00:00");
}

#[test]
fn timestamp_parses_its_own_format() {
    let ts = t(2024, 2, 29, 8, 15, 42, -90);
    let text = format_timestamp(&ts);
    assert_eq!(parse_timestamp(&text), Some(ts));
}

#[test]
fn timestamp_parse_rejects_bad_shapes() {
    assert_eq!(parse_timestamp("2024-01-15"), None);
    assert_eq!(parse_timestamp("2024-01-15 10:30:05+02:00"), None);
    assert_eq!(parse_timestamp("2024-13-15T10:30:05+02:00"), None);
    assert_eq!(parse_timestamp("2024-02-30T10:30:05+02:00"), None);
    assert_eq!(parse_timestamp("2023-02-29T10:30:05+02:00"), None);
    assert_eq!(parse_timestamp("2024-01-15T24:30:05+02:00"), None);
    assert_eq!(parse_timestamp("2024-01-15T10:30:05+24:00"), None);
}

#[test]
fn leap_years_have_february_29() {
    assert!(parse_timestamp("2024-02-29T00:00:00+00:00").is_some());
    assert!(parse_timestamp("2000-02-29T00:00:00+00:00").is_some());
    assert!(parse_timestamp("1900-02-29T00:00:00+00:00").is_none());
}

#[test]
fn timespan_grammar_accepts_and_rejects() {
    assert!(is_timespan_str("1d5h"));
    assert!(is_timespan_str("65m"));
    assert!(is_timespan_str("2w3d10h30m"));
    assert!(is_timespan_str("10m5m"));
    assert!(!is_timespan_str(""));
    assert!(!is_timespan_str("abc"));
    assert!(!is_timespan_str("5"));
    assert!(!is_timespan_str("m5"));
    assert!(!is_timespan_str("5h3"));
    assert!(!is_timespan_str("5x"));
    assert!(!is_timespan_str("current"));
}

#[test]
fn validate_accepts_spans_and_the_marker() {
    assert!(validate_jira_time_spent("1d5h").is_ok());
    assert!(validate_jira_time_spent("current").is_ok());
    let err = validate_jira_time_spent("abc").expect_err("malformed");
    assert!(matches!(err, WorklogError::ValidationError(_)));
}

#[test]
fn minutes_render_with_unit() {
    assert_eq!(minutes_span_string(0), "0m");
    assert_eq!(minutes_span_string(65), "65m");
    assert_eq!(minutes_span_string(1234), "1234m");
    assert_eq!(minutes_span_string(-5), "-5m");
}

#[test]
fn started_date_parses_the_full_form() {
    let now = t(2024, 1, 15, 10, 0, 0, 120);
    let parsed = get_started_date("2023-11-03T09:05", &now).unwrap();
    assert_eq!(parsed, t(2023, 11, 3, 9, 5, 0, 120));
    // Single-digit month, day, hour and minute are accepted.
    let short = get_started_date("2023-1-3T9:5", &now).unwrap();
    assert_eq!(short, t(2023, 1, 3, 9, 5, 0, 120));
}

#[test]
fn started_date_time_only_means_today() {
    let now = t(2024, 1, 15, 10, 0, 0, 120);
    let parsed = get_started_date("08:30", &now).unwrap();
    assert_eq!(parsed, t(2024, 1, 15, 8, 30, 0, 120));
}

#[test]
fn started_date_rejects_other_shapes() {
    let now = t(2024, 1, 15, 10, 0, 0, 0);
    for bad in ["", "abc", "2023-11-03", "25:00", "2023-13-03T09:05", "09:05x"] {
        let err = get_started_date(bad, &now).expect_err(bad);
        assert!(matches!(err, WorklogError::ValidationError(_)));
    }
}

#[test]
fn nano_ids_are_ten_hex_chars() {
    // Through the library's public generator: ten characters, all from
    // the hexadecimal alphabet.  A stub handing back its input unchanged
    // could not satisfy this for two draws of this length.
    let a = get_nano_id();
    let b = get_nano_id();
    assert_eq!(a.chars().count(), 10);
    assert_eq!(b.chars().count(), 10);
    assert!(a.chars().all(|c| "1234567890abcdef".contains(c)));
    assert!(b.chars().all(|c| "1234567890abcdef".contains(c)));
}

#[test]
fn jira_url_from_cloud_instance_or_literal() {
    let cloud = Configuration {
        token: "token".to_string(),
        jira_cloud_instance: Some("corp".to_string()),
        jira_url: None,
        user: "me@example.com".to_string(),
        editor: None,
    };
    assert_eq!(cloud.get_jira_url(), "https://corp.atlassian.net");
    let literal = Configuration {
        token: "token".to_string(),
        jira_cloud_instance: None,
        jira_url: Some("https://jira.example.com".to_string()),
        user: "me@example.com".to_string(),
        editor: None,
    };
    assert_eq!(literal.get_jira_url(), "https://jira.example.com");
}

#[test]
fn editor_command_prefers_config_then_environment_then_nano() {
    let config = Configuration {
        token: "token".to_string(),
        jira_cloud_instance: Some("corp".to_string()),
        jira_url: None,
        user: "me".to_string(),
        editor: Some("vim".to_string()),
    };
    assert_eq!(config.get_editor_command(Some("emacs".to_string())), "vim");
    assert_eq!(config.get_editor_command(None), "vim");
    let bare = Configuration { editor: None, ..config };
    assert_eq!(bare.get_editor_command(Some("emacs".to_string())), "emacs");
    assert_eq!(bare.get_editor_command(None), "nano");
}

#[test]
fn clock_reads_a_wellformed_timestamp() {
    let now = jiralog::clock::now_local().expect("the clock is in range");
    assert!(now.year >= 2024);
    assert!((1..=12).contains(&now.month));
    assert!((1..=31).contains(&now.day));
    assert!(now.hour <= 23 && now.minute <= 59 && now.second <= 59);
    // A well-formed now is usable as a session clock end to end.
    let mut ledger = jiralog::ledger::Ledger::new();
    ledger.begin(&"TICK-1".to_string(), &"".to_string(), &now);
    let closed = ledger.end_current(&now).unwrap();
    assert_eq!(closed.time_spent, jiralog::model::TimeSpent::Logged("0m".to_string()));
}
