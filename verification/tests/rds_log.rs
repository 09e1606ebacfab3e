use sherlog::model::{LogEntry, LogLevel, LogSource, LogSourceContents, Timestamp};
use sherlog::parse::rds_log;
use sherlog::parse::rds_log::RdsLogSeverity;

fn parse(input: &[u8]) -> Vec<LogEntry> {
    let root = LogSource { name: "rds".to_string(), children: LogSourceContents::Entries(vec![]) };
    let parsed = rds_log::to_log_entries(input, root);
    assert_eq!(parsed.name, "rds");
    match parsed.children {
        LogSourceContents::Entries(entries) => entries,
        LogSourceContents::Sources(_) => panic!("expected entries"),
    }
}

#[test]
fn rds_datetime_is_read_as_utc() {
    assert_eq!(
        rds_log::parse_rds_datetime("2020-06-26 15:38:19.0857502"),
        Some(Timestamp { secs: 1593185899, nanos: 85_750_200 })
    );
    assert_eq!(
        rds_log::parse_rds_datetime("1970-01-01 00:00:01"),
        Some(Timestamp { secs: 1, nanos: 0 })
    );
    assert_eq!(rds_log::parse_rds_datetime("2020-06-26"), None);
    assert_eq!(rds_log::parse_rds_datetime("not a date"), None);
    assert_eq!(rds_log::parse_rds_datetime(""), None);
}

#[test]
fn rds_severity_words() {
    assert_eq!(RdsLogSeverity::from_str("critical"), Some(RdsLogSeverity::Fatal));
    assert_eq!(RdsLogSeverity::from_str("Fatal"), Some(RdsLogSeverity::Fatal));
    assert_eq!(RdsLogSeverity::from_str("FATAL"), Some(RdsLogSeverity::Fatal));
    assert_eq!(RdsLogSeverity::from_str("fatal"), None);
    assert_eq!(RdsLogSeverity::from_str("warn"), Some(RdsLogSeverity::Warning));
    assert_eq!(RdsLogSeverity::from_str("Warning"), None);
    assert_eq!(RdsLogSeverity::from_str("TRACE"), Some(RdsLogSeverity::Trace));
    assert_eq!(RdsLogSeverity::from_str(" info"), None);
    assert_eq!(
        rds_log::normalize_rds_log_sev(RdsLogSeverity::Fatal),
        LogLevel::Critical
    );
    assert_eq!(rds_log::normalize_rds_log_sev(RdsLogSeverity::Trace), LogLevel::Trace);
}

#[test]
fn records_with_and_without_error_code() {
    let input = b"2021-03-09 08:07:25.852|   17|INFO|RDS.Core|Started\r\n2021-03-09 08:07:26.000|warn|RDS.Core|Low disk\r\n";
    let entries = parse(input);
    assert_eq!(entries.len(), 2);
    assert_eq!(entries[0].timestamp, Timestamp { secs: 1615277245, nanos: 852_000_000 });
    assert_eq!(entries[0].severity, LogLevel::Info);
    assert_eq!(entries[0].message, "Started");
    assert_eq!(entries[1].timestamp, Timestamp { secs: 1615277246, nanos: 0 });
    assert_eq!(entries[1].severity, LogLevel::Warning);
    // The last message of a log keeps its line break.
    assert_eq!(entries[1].message, "Low disk\r\n");
}

#[test]
fn a_message_runs_over_lines_that_begin_with_no_date() {
    let input = b"2021-03-09 08:07:25|ERROR|src|first line\nsecond | line\n   at third()\n2021-03-09 08:07:26|DEBUG|src|next\n";
    let entries = parse(input);
    assert_eq!(entries.len(), 2);
    assert_eq!(entries[0].severity, LogLevel::Error);
    assert_eq!(entries[0].message, "first line\nsecond | line\n   at third()");
    assert_eq!(entries[1].severity, LogLevel::Debug);
    assert_eq!(entries[1].message, "next\n");
}

#[test]
fn a_number_where_the_severity_should_be_is_an_error_code() {
    // A word that is a number is always taken for an error code, so that
    // the field after it is read as the severity.
    let entries = parse(b"2021-03-09 08:07:25|42|Error|src|msg");
    assert_eq!(entries.len(), 1);
    assert_eq!(entries[0].severity, LogLevel::Error);
    assert_eq!(entries[0].message, "msg");
    // What is neither a number nor a severity is passed over like a number.
    let entries = parse(b"2021-03-09 08:07:25|what|Trace|src|msg");
    assert_eq!(entries[0].severity, LogLevel::Trace);
    // After a severity the log source follows at once.
    let entries = parse(b"2021-03-09 08:07:25|Trace|Info|msg|rest");
    assert_eq!(entries[0].severity, LogLevel::Trace);
    assert_eq!(entries[0].message, "msg|rest");
}

#[test]
fn malformed_fields_keep_the_defaults() {
    let entries = parse(b"yesterday|\xff|loud|src|msg\n");
    assert_eq!(entries.len(), 1);
    assert_eq!(entries[0].timestamp, Timestamp { secs: 0, nanos: 0 });
    assert_eq!(entries[0].severity, LogLevel::Error);
    assert_eq!(entries[0].message, "msg\n");
}

#[test]
fn a_record_that_is_cut_off_is_kept() {
    assert_eq!(parse(b"").len(), 0);
    let entries = parse(b"2021-03-09 08:07:25|INFO|src|");
    assert_eq!(entries.len(), 1);
    assert_eq!(entries[0].message, "");
    assert_eq!(entries[0].severity, LogLevel::Info);
    let entries = parse(b"2021-03-09 08:07:25|INFO");
    assert_eq!(entries.len(), 1);
    assert_eq!(entries[0].timestamp, Timestamp { secs: 1615277245, nanos: 0 });
    assert_eq!(entries[0].severity, LogLevel::Info);
    assert_eq!(entries[0].message, "");
    let entries = parse(b"2021-03-09 08:07:25|");
    assert_eq!(entries.len(), 1);
    assert_eq!(entries[0].timestamp, Timestamp { secs: 1615277245, nanos: 0 });
}

#[test]
fn line_breaks_before_the_next_record_are_cut_off() {
    let entries = parse(b"2021-03-09 08:07:25|INFO|s|\n2021-03-09 08:07:26|INFO|s|x\r\n\r\n2021-03-09 08:07:27|INFO|s|y");
    assert_eq!(entries.len(), 3);
    assert_eq!(entries[0].message, "");
    assert_eq!(entries[1].message, "x\r\n");
    assert_eq!(entries[2].message, "y");
}

#[test]
fn read_until_pipe_or_newline_stops_at_either() {
    assert_eq!(rds_log::read_until_pipe_or_newline(b"ab|cd\n", 0), 2);
    assert_eq!(rds_log::read_until_pipe_or_newline(b"ab|cd\n", 3), 5);
    assert_eq!(rds_log::read_until_pipe_or_newline(b"ab|cd", 3), 5);
    assert_eq!(rds_log::read_until_pipe_or_newline(b"", 0), 0);
}

#[test]
fn a_date_that_was_read_is_taken_and_one_that_was_not_is_passed_over() {
    let mut entry = LogEntry {
        timestamp: Timestamp { secs: 7, nanos: 8 },
        severity: LogLevel::Info,
        message: "m".to_string(),
        custom_fields: Vec::new(),
    };
    rds_log::with_timestamp(&mut entry, None);
    assert_eq!(entry.timestamp, Timestamp { secs: 7, nanos: 8 });
    rds_log::with_timestamp(&mut entry, Some(Timestamp { secs: 9, nanos: 1 }));
    assert_eq!(entry.timestamp, Timestamp { secs: 9, nanos: 1 });
    assert_eq!(entry.message, "m");
    assert_eq!(entry.severity, LogLevel::Info);
}

#[test]
fn a_line_with_a_date_begins_a_record_and_a_line_without_goes_on() {
    let mut done = Vec::new();
    let mut entry = LogEntry {
        timestamp: Timestamp { secs: 7, nanos: 8 },
        severity: LogLevel::Info,
        message: String::new(),
        custom_fields: Vec::new(),
    };
    assert!(!rds_log::next_record(&mut done, &mut entry, b"first line", None));
    assert!(done.is_empty());
    assert_eq!(entry.timestamp, Timestamp { secs: 7, nanos: 8 });
    assert_eq!(entry.severity, LogLevel::Info);
    let next = Timestamp { secs: 100, nanos: 0 };
    assert!(rds_log::next_record(&mut done, &mut entry, b"first line\nsecond", Some(next)));
    assert_eq!(done.len(), 1);
    assert_eq!(done[0].message, "first line\nsecond");
    assert_eq!(done[0].timestamp, Timestamp { secs: 7, nanos: 8 });
    assert_eq!(done[0].severity, LogLevel::Info);
    assert_eq!(entry.timestamp, next);
    assert_eq!(entry.severity, LogLevel::Error);
    assert_eq!(entry.message, "");
    rds_log::finish_record(&mut done, &mut entry, "last".to_string(), Timestamp::epoch());
    assert_eq!(done.len(), 2);
    assert_eq!(done[1].message, "last");
    assert_eq!(done[1].timestamp, next);
    assert_eq!(entry.timestamp, Timestamp::epoch());
}
