use sherlog::model::{LogEntry, LogLevel, LogSource, LogSourceContents, Timestamp};
use sherlog::parse::xlog::XlogSeverity;
use sherlog::parse::{scanlib_log, xlog};

fn parse(input: &str) -> Vec<LogEntry> {
    let root = LogSource { name: "x".to_string(), children: LogSourceContents::Entries(vec![]) };
    match xlog::to_log_entries(input.as_bytes(), root).children {
        LogSourceContents::Entries(entries) => entries,
        LogSourceContents::Sources(_) => panic!("expected entries"),
    }
}

#[test]
fn a_line_with_all_units() {
    let entries = parse("<T>˩637055156092730381˫<L>˩Info˫<M>˩LoggerService: Started.˫<A>˩ApplicationX˫<I>˩14016˫<C>˩System\n");
    assert_eq!(entries.len(), 1);
    assert_eq!(entries[0].timestamp, Timestamp { secs: 1569918809, nanos: 273_038_100 });
    assert_eq!(entries[0].severity, LogLevel::Info);
    assert_eq!(entries[0].message, "LoggerService: Started.");
}

#[test]
fn xlog_severity_words() {
    let expected = [
        ("AppStart", XlogSeverity::AppStart, LogLevel::Info),
        ("AppStop", XlogSeverity::AppStop, LogLevel::Info),
        ("Info", XlogSeverity::Info, LogLevel::Info),
        ("Warning", XlogSeverity::Warning, LogLevel::Warning),
        ("Error", XlogSeverity::Error, LogLevel::Error),
        ("Exception", XlogSeverity::Exception, LogLevel::Error),
        ("Debug", XlogSeverity::Debug, LogLevel::Debug),
    ];
    for (word, severity, level) in expected {
        assert_eq!(XlogSeverity::from_str(word), Some(severity));
        assert_eq!(xlog::normalize_xlog_sev(severity), level);
    }
    assert_eq!(XlogSeverity::from_str("info"), None);
    assert_eq!(XlogSeverity::from_str(""), None);
}

#[test]
fn every_line_gives_an_entry() {
    let entries = parse("<M>˩one\r\n\n<L>˩Warning˫<M>˩three\n<M>˩four");
    assert_eq!(entries.len(), 4);
    assert_eq!(entries[0].message, "one");
    assert_eq!(entries[1].message, "");
    assert_eq!(entries[1].severity, LogLevel::Error);
    assert_eq!(entries[2].severity, LogLevel::Warning);
    assert_eq!(entries[2].message, "three");
    assert_eq!(entries[3].message, "four");
    assert_eq!(parse("").len(), 0);
    assert_eq!(parse("\n").len(), 1);
}

#[test]
fn a_unit_without_separator_does_not_stop_the_line() {
    let entries = parse("garbage˫<L>˩Debug˫˫<T>˩soon˫<L>˩Loud˫<M>˩kept˩too\n");
    assert_eq!(entries.len(), 1);
    assert_eq!(entries[0].severity, LogLevel::Debug);
    assert_eq!(entries[0].timestamp, Timestamp { secs: 0, nanos: 0 });
    assert_eq!(entries[0].message, "kept˩too");
}

#[test]
fn a_carriage_return_at_the_end_of_the_input_stays() {
    let entries = parse("<M>˩last\r");
    assert_eq!(entries[0].message, "last\r");
}

#[test]
fn parse_line_reads_one_record() {
    let entry = xlog::parse_line("<L>˩Exception˫<M>˩boom".as_bytes());
    assert_eq!(entry.severity, LogLevel::Error);
    assert_eq!(entry.message, "boom");
}

#[test]
fn scanlib_logs_are_not_read() {
    let root = LogSource {
        name: "ScanLib_1".to_string(),
        children: LogSourceContents::Entries(vec![]),
    };
    let parsed = scanlib_log::to_log_entries(b"2020-12-01 15:46:19.122013 (warning) <0x00000001> [] : Foo\n", root);
    assert_eq!(parsed.name, "ScanLib_1");
    match parsed.children {
        LogSourceContents::Entries(entries) => assert!(entries.is_empty()),
        LogSourceContents::Sources(_) => panic!("expected entries"),
    }
}
