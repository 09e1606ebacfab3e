use sherlog::model::{CustomField, LogLevel, LogSource, LogSourceContents, Timestamp};
use sherlog::parse::glog;

fn empty_root(name: &str) -> LogSource {
    LogSource { name: name.to_string(), children: LogSourceContents::Entries(Vec::new()) }
}

#[test]
fn one_entry_with_timestamp_severity_and_message() {
    let root = glog::to_log_entries(b"[tq|0][s|2][m|hello]:", empty_root("root"));
    assert_eq!(root.name, "root");
    match root.children {
        LogSourceContents::Entries(entries) => {
            assert_eq!(entries.len(), 1);
            assert_eq!(entries[0].timestamp, Timestamp { secs: 0, nanos: 0 });
            assert_eq!(entries[0].severity, LogLevel::Error);
            assert_eq!(entries[0].message, "hello");
            assert!(entries[0].custom_fields.is_empty());
        }
        LogSourceContents::Sources(_) => panic!("expected entries"),
    }
}

fn entries_of(source: &LogSource) -> &Vec<sherlog::model::LogEntry> {
    match &source.children {
        LogSourceContents::Entries(entries) => entries,
        LogSourceContents::Sources(_) => panic!("expected entries in {}", source.name),
    }
}

fn sources_of(source: &LogSource) -> &Vec<LogSource> {
    match &source.children {
        LogSourceContents::Sources(sources) => sources,
        LogSourceContents::Entries(_) => panic!("expected sources in {}", source.name),
    }
}

#[test]
fn sections_parted_by_colons_and_entries_by_line_breaks() {
    let input = b"[tq|1500]:[s|3]:[m|first]\n[tq|2500]:[s|0]:[m|second]\r\n[s|5]:[m|third]\n";
    let root = glog::to_log_entries(input, empty_root("controller"));
    let entries = entries_of(&root);
    assert_eq!(entries.len(), 3);
    assert_eq!(entries[0].timestamp, Timestamp { secs: 1, nanos: 500_000_000 });
    assert_eq!(entries[0].severity, LogLevel::Warning);
    assert_eq!(entries[0].message, "first");
    assert_eq!(entries[1].timestamp, Timestamp { secs: 2, nanos: 500_000_000 });
    assert_eq!(entries[1].severity, LogLevel::Critical);
    assert_eq!(entries[1].message, "second");
    assert_eq!(entries[2].timestamp, Timestamp { secs: 0, nanos: 0 });
    assert_eq!(entries[2].severity, LogLevel::Debug);
    assert_eq!(entries[2].message, "third");
}

#[test]
fn severity_numbers_map_to_levels() {
    let expected = [
        (0u32, LogLevel::Critical),
        (1, LogLevel::Critical),
        (2, LogLevel::Error),
        (3, LogLevel::Warning),
        (4, LogLevel::Info),
        (5, LogLevel::Debug),
    ];
    for (number, level) in expected {
        let severity = glog::GlogSeverity::from_u32(number).expect("a severity");
        assert_eq!(glog::normalize_glog_sev(severity), level);
    }
    assert_eq!(glog::GlogSeverity::from_u32(6), None);
    assert_eq!(glog::GlogSeverity::from_u32(u32::MAX), None);
}

#[test]
fn malformed_values_leave_the_defaults() {
    let input = b"[tq|abc]:[s|9]:[t|12]:[n|-4]:[x|what]:[m|kept]\n";
    let root = glog::to_log_entries(input, empty_root("r"));
    let entries = entries_of(&root);
    assert_eq!(entries.len(), 1);
    assert_eq!(entries[0].timestamp, Timestamp { secs: 0, nanos: 0 });
    assert_eq!(entries[0].severity, LogLevel::Error);
    assert_eq!(entries[0].message, "kept");
    assert!(entries[0].custom_fields.is_empty());
}

#[test]
fn session_and_100ns_timestamp_are_read() {
    let input = b"[t|637287826990857502]:[n|7]:[e|12]:[m|sensor line]\n";
    let root = glog::to_log_entries(input, empty_root("r"));
    let entries = entries_of(&root);
    assert_eq!(entries.len(), 1);
    assert_eq!(entries[0].timestamp, Timestamp { secs: 1593185899, nanos: 85_750_200 });
    assert_eq!(entries[0].custom_field("SessionId"), Some(&CustomField::UInt32(7)));
    assert_eq!(entries[0].custom_field("ErrorCode"), None);
}

#[test]
fn a_value_may_hold_closing_brackets() {
    let input = b"[m|a]b]]c]\n[m|x]:y]\n";
    let root = glog::to_log_entries(input, empty_root("r"));
    let entries = entries_of(&root);
    assert_eq!(entries.len(), 2);
    assert_eq!(entries[0].message, "a]b]]c");
    assert_eq!(entries[1].message, "x]:y");
}

#[test]
fn invalid_utf8_in_a_message_is_replaced() {
    let input = b"[m|bad \xff byte]\n";
    let root = glog::to_log_entries(input, empty_root("r"));
    let entries = entries_of(&root);
    assert_eq!(entries[0].message, "bad \u{fffd} byte");
}

#[test]
fn sub_sources_are_named_after_the_message_and_sorted() {
    let input = b"[i|1]:[m|zeta: one]\n[m|plain]\n[i|2]:[m|Alpha: two]\n[i|3]:[m|no name]\n[i|1]:[m|zeta: three]\n[i|-5]:[m|: empty]\n";
    let root = glog::to_log_entries(input, empty_root("r"));
    let sources = sources_of(&root);
    let names: Vec<&str> = sources.iter().map(|s| s.name.as_str()).collect();
    assert_eq!(names, vec!["Alpha", "Unknown (-5)", "Unknown (3)", "Unknown (None)", "zeta"]);
    assert_eq!(entries_of(&sources[0]).len(), 1);
    assert_eq!(entries_of(&sources[3])[0].message, "plain");
    let zeta = entries_of(&sources[4]);
    assert_eq!(zeta.len(), 2);
    assert_eq!(zeta[0].message, "zeta: one");
    assert_eq!(zeta[1].message, "zeta: three");
}

#[test]
fn names_that_differ_in_case_only_keep_their_order() {
    let input = b"[i|1]:[m|foo: a]\n[i|1]:[m|FOO: b]\n[i|1]:[m|Foo: c]\n[i|1]:[m|bar: d]\n";
    let root = glog::to_log_entries(input, empty_root("r"));
    let names: Vec<&str> = sources_of(&root).iter().map(|s| s.name.as_str()).collect();
    assert_eq!(names, vec!["bar", "foo", "FOO", "Foo"]);
}

#[test]
fn an_entry_that_is_cut_off_is_kept() {
    let root = glog::to_log_entries(b"[s|4]:[m|cut of", empty_root("r"));
    let entries = entries_of(&root);
    assert_eq!(entries.len(), 1);
    assert_eq!(entries[0].severity, LogLevel::Info);
    assert_eq!(entries[0].message, "cut of");

    let root = glog::to_log_entries(b"[s|4]:[m|closed]", empty_root("r"));
    assert_eq!(entries_of(&root)[0].message, "closed");

    let root = glog::to_log_entries(b"[s|4]:[m|closed]\r", empty_root("r"));
    assert_eq!(entries_of(&root)[0].message, "closed");

    let root = glog::to_log_entries(b"[s|4]:[m", empty_root("r"));
    let entries = entries_of(&root);
    assert_eq!(entries.len(), 1);
    assert_eq!(entries[0].severity, LogLevel::Info);
    assert_eq!(entries[0].message, "");
}

#[test]
fn empty_input_gives_no_entries() {
    let root = glog::to_log_entries(b"", empty_root("r"));
    assert!(entries_of(&root).is_empty());
    let root = glog::to_log_entries(b"\r\n\n", empty_root("r"));
    assert!(entries_of(&root).is_empty());
}

#[test]
fn bytes_before_the_first_section_are_counted() {
    let mut parser = glog::GlogParser::new(empty_root("r"));
    for byte in b"ab\r\n c[m|x]\n" {
        parser.read_byte(*byte);
    }
    assert_eq!(parser.invalid_bytes, 4);
    let root = parser.finalize();
    assert_eq!(entries_of(&root).len(), 1);
}

#[test]
fn feeding_bytes_one_by_one_is_feeding_them_at_once() {
    let input = b"[tq|10]:[m|a]\n[tq|20]:[m|b]\n";
    let mut parser = glog::GlogParser::new(empty_root("r"));
    parser.read_bytes(&input[..7]);
    parser.read_bytes(&input[7..]);
    let split = parser.finalize();
    let whole = glog::to_log_entries(input, empty_root("r"));
    assert_eq!(entries_of(&split).len(), 2);
    assert_eq!(entries_of(&split)[1].message, entries_of(&whole)[1].message);
    assert_eq!(entries_of(&split)[1].timestamp, Timestamp { secs: 0, nanos: 20_000_000 });
}

#[test]
fn the_count_of_invalid_bytes_comes_with_the_source() {
    let (root, invalid) = glog::to_log_entries_counted(b"xy\n z[m|a]\n[m|b]\n", empty_root("r"));
    assert_eq!(invalid, 4);
    assert_eq!(entries_of(&root).len(), 2);
    let (_, invalid) = glog::to_log_entries_counted(b"[m|a]\njunk after an entry\n", empty_root("r"));
    assert_eq!(invalid, 0);
    let mut parser = glog::GlogParser::new(empty_root("r"));
    parser.read_bytes(b"##[m|kept]");
    let (root, invalid) = parser.finalize_counted();
    assert_eq!(invalid, 2);
    assert_eq!(entries_of(&root)[0].message, "kept");
}
