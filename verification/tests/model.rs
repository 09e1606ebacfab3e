use sherlog::filters::id_range;
use sherlog::log_store::LogStoreLinear;
use sherlog::model::{
    CustomField, LogEntry, LogLevel, LogSource, LogSourceContents, TimeDifference, Timestamp,
};
use sherlog::model_internal::{
    build_log_store, checked_counts, LogEntryExt, LogSourceContentsExt, LogSourceExt,
    VISIBLE_OFF_FILTER, VISIBLE_OFF_SEVERITY, VISIBLE_OFF_SOURCE, VISIBLE_ON,
};

fn entry(secs: i64, severity: LogLevel, message: &str) -> LogEntry {
    LogEntry {
        timestamp: Timestamp { secs, nanos: 0 },
        severity,
        message: message.to_string(),
        custom_fields: Vec::new(),
    }
}

fn leaf(name: &str, entries: Vec<LogEntry>) -> LogSource {
    LogSource { name: name.to_string(), children: LogSourceContents::Entries(entries) }
}

fn node(name: &str, sources: Vec<LogSource>) -> LogSource {
    LogSource { name: name.to_string(), children: LogSourceContents::Sources(sources) }
}

/// The tree that the viewer shows without a file.
fn example_tree() -> LogSource {
    node(
        "Root LogSource",
        vec![
            leaf(
                "example",
                vec![
                    entry(6, LogLevel::Critical, "TestCritical 121343245345"),
                    entry(5, LogLevel::Error, "TestError 3405834068"),
                    entry(4, LogLevel::Warning, "TestWarning 340958349068"),
                ],
            ),
            node("example2", vec![leaf("example2_1", vec![entry(1, LogLevel::Info, "i")])]),
            leaf("example3", vec![]),
            node(
                "example4",
                vec![
                    leaf("example4_1", vec![entry(3, LogLevel::Debug, "d")]),
                    leaf("example4_2", vec![entry(2, LogLevel::Trace, "t")]),
                ],
            ),
        ],
    )
}

fn collect(ext: &LogSourceExt, out: &mut Vec<(String, u32, u64)>) {
    out.push((ext.name.clone(), ext.id, ext.child_cnt));
    if let LogSourceContentsExt::Sources(sources) = &ext.children {
        for source in sources {
            collect(source, out);
        }
    }
}

#[test]
fn sources_are_numbered_in_the_order_of_the_walk() {
    let ext = LogSourceExt::from_source(example_tree());
    let mut seen = Vec::new();
    collect(&ext, &mut seen);
    let expected = vec![
        ("Root LogSource", 0, 6),
        ("example", 1, 3),
        ("example2", 2, 1),
        ("example2_1", 3, 1),
        ("example3", 4, 0),
        ("example4", 5, 2),
        ("example4_1", 6, 1),
        ("example4_2", 7, 1),
    ];
    let expected: Vec<(String, u32, u64)> =
        expected.into_iter().map(|(n, i, c)| (n.to_string(), i, c)).collect();
    assert_eq!(seen, expected);
}

#[test]
fn entries_carry_the_number_of_their_source_and_come_out_in_its_order() {
    let mut ext = LogSourceExt::from_source(example_tree());
    let mut store = Vec::new();
    build_log_store(&mut store, &mut ext);
    let ids: Vec<u32> = store.iter().map(|e| e.source_id).collect();
    assert_eq!(ids, vec![1, 1, 1, 3, 6, 7]);
    for e in &store {
        assert_eq!(e.visible, VISIBLE_ON);
        assert_eq!((e.entry_id, e.prev_offset, e.next_offset), (0, 0, 0));
    }
    assert_eq!(store[0].message, "TestCritical 121343245345");
    assert_eq!(store[0].severity, LogLevel::Critical);
    assert_eq!(store[5].timestamp, Timestamp { secs: 2, nanos: 0 });
    // The tree keeps its sources, numbers and counts, and has no entries left.
    let mut seen = Vec::new();
    collect(&ext, &mut seen);
    assert_eq!(seen.len(), 8);
    assert_eq!(seen[0], ("Root LogSource".to_string(), 0, 6));
    let mut again = Vec::new();
    build_log_store(&mut again, &mut ext);
    assert!(again.is_empty());
}

#[test]
fn a_store_of_a_tree_is_sorted_by_time() {
    let mut ext = LogSourceExt::from_source(example_tree());
    let store = LogStoreLinear::from_source_tree(&mut ext).unwrap();
    let seconds: Vec<i64> = store.store.iter().map(|e| e.timestamp.secs).collect();
    assert_eq!(seconds, vec![1, 2, 3, 4, 5, 6]);
    let ids: Vec<u32> = store.store.iter().map(|e| e.source_id).collect();
    assert_eq!(ids, vec![3, 7, 6, 1, 1, 1]);
    assert_eq!(store.entry_count, 6);
}

#[test]
fn a_source_and_all_below_it_is_one_range_of_numbers() {
    let mut ext = LogSourceExt::from_source(example_tree());
    let mut store = LogStoreLinear::from_source_tree(&mut ext).unwrap();
    store.set_visible_lines(10);
    // example4 has the number 5 and two sources below it: 5 to 7.
    store.filter_source_range(5, 7, false);
    let visible: Vec<u32> =
        store.store.iter().filter(|e| e.is_visible()).map(|e| e.source_id).collect();
    assert_eq!(visible, vec![3, 1, 1, 1]);
    store.filter_source_range(0, 7, false);
    assert_eq!(store.entry_count, 0);
    store.filter_source_range(1, 1, true);
    assert_eq!(store.entry_count, 3);
    assert!(store.store.iter().all(|e| e.is_visible() == (e.source_id == 1)));
}

#[test]
fn the_three_filters_hide_independently() {
    let mut ext = LogSourceExt::from_source(example_tree());
    let mut store = LogStoreLinear::from_source_tree(&mut ext).unwrap();
    store.set_visible_lines(10);
    store.filter_severity(LogLevel::Error, false);
    store.filter_text("Test");
    store.filter_source_range(1, 1, false);
    let masks: Vec<u8> = store.store.iter().map(|e| e.visible).collect();
    assert_eq!(
        masks,
        vec![
            VISIBLE_OFF_FILTER,
            VISIBLE_OFF_FILTER,
            VISIBLE_OFF_FILTER,
            VISIBLE_OFF_SOURCE,
            VISIBLE_OFF_SOURCE | VISIBLE_OFF_SEVERITY,
            VISIBLE_OFF_SOURCE,
        ]
    );
    assert_eq!(store.entry_count, 0);
    store.filter_source_range(1, 1, true);
    let visible: Vec<&str> = store
        .store
        .iter()
        .filter(|e| e.is_visible())
        .map(|e| e.message.as_str())
        .collect();
    assert_eq!(visible, vec!["TestWarning 340958349068", "TestCritical 121343245345"]);
    store.filter_text("");
    store.filter_severity(LogLevel::Error, true);
    assert_eq!(store.entry_count, 6);
}

#[test]
fn the_text_filter_looks_for_the_text_as_it_is() {
    let mut ext = LogSourceExt::from_source(example_tree());
    let mut store = LogStoreLinear::from_source_tree(&mut ext).unwrap();
    store.filter_text("test");
    assert_eq!(store.entry_count, 0);
    store.filter_text("3405");
    assert_eq!(store.entry_count, 1);
    store.filter_text("34");
    assert_eq!(store.entry_count, 3);
    store.filter_text("t");
    assert_eq!(store.entry_count, 4);
}

#[test]
fn runs_of_numbers() {
    assert_eq!(id_range(&[]), None);
    assert_eq!(id_range(&[7]), Some((7, 7)));
    assert_eq!(id_range(&[5, 6, 7]), Some((5, 7)));
    assert_eq!(id_range(&[5, 7]), None);
    assert_eq!(id_range(&[5, 6, 6]), None);
    assert_eq!(id_range(&[6, 5]), None);
    assert_eq!(id_range(&[u32::MAX - 1, u32::MAX]), Some((u32::MAX - 1, u32::MAX)));
    assert_eq!(id_range(&[u32::MAX, 0]), None);
}

#[test]
fn counts_of_a_tree() {
    assert_eq!(checked_counts(&example_tree()), Some((8, 6)));
    assert_eq!(checked_counts(&leaf("x", vec![])), Some((1, 0)));
    assert!(LogSourceExt::try_from_source(example_tree()).is_some());
}

#[test]
fn levels_have_names_and_ranks() {
    let levels = [
        (LogLevel::Critical, "Critical"),
        (LogLevel::Error, "Error"),
        (LogLevel::Warning, "Warning"),
        (LogLevel::Info, "Info"),
        (LogLevel::Debug, "Debug"),
        (LogLevel::Trace, "Trace"),
    ];
    for (i, (level, name)) in levels.iter().enumerate() {
        assert_eq!(level.name(), *name);
        assert_eq!(level.rank() as usize, 5 - i);
    }
    assert!(LogLevel::Critical.rank() > LogLevel::Error.rank());
}

#[test]
fn the_default_entry() {
    let entry = LogEntry::default();
    assert_eq!(entry.timestamp, Timestamp { secs: 0, nanos: 0 });
    assert_eq!(entry.timestamp, Timestamp::epoch());
    assert_eq!(entry.severity, LogLevel::Error);
    assert_eq!(entry.message, "");
    assert!(entry.custom_fields.is_empty());
}

#[test]
fn custom_fields_are_set_and_read_by_name() {
    let mut entry = LogEntry::default();
    assert_eq!(entry.custom_field("SessionId"), None);
    entry.set_custom_field("SessionId", CustomField::UInt32(3));
    entry.set_custom_field("Text", CustomField::String("x".to_string()));
    assert_eq!(entry.custom_field("SessionId"), Some(&CustomField::UInt32(3)));
    entry.set_custom_field("SessionId", CustomField::Int8(-3));
    assert_eq!(entry.custom_field("SessionId"), Some(&CustomField::Int8(-3)));
    assert_eq!(entry.custom_field("Text"), Some(&CustomField::String("x".to_string())));
    assert_eq!(entry.custom_field("sessionid"), None);
    assert_eq!(entry.custom_fields.len(), 2);
}

#[test]
fn timestamps_are_ordered_by_seconds_and_then_by_nanoseconds() {
    let a = Timestamp { secs: 1, nanos: 999_999_999 };
    let b = Timestamp { secs: 2, nanos: 0 };
    let c = Timestamp { secs: 2, nanos: 1 };
    assert!(a.before(&b) && b.before(&c) && a.before(&c));
    assert!(!b.before(&a) && !b.before(&b));
    assert!(Timestamp { secs: -1, nanos: 5 }.before(&Timestamp { secs: 0, nanos: 0 }));
}

#[test]
fn an_entry_is_visible_when_its_mask_is_empty() {
    let mut e = LogEntryExt {
        timestamp: Timestamp { secs: 0, nanos: 0 },
        severity: LogLevel::Info,
        message: String::new(),
        source_id: 0,
        visible: VISIBLE_ON,
        entry_id: 0,
        prev_offset: 0,
        next_offset: 0,
    };
    assert!(e.is_visible());
    for mask in [VISIBLE_OFF_SOURCE, VISIBLE_OFF_SEVERITY, VISIBLE_OFF_FILTER, 0x80] {
        e.visible = mask;
        assert!(!e.is_visible());
    }
}

#[test]
fn the_time_between_two_entries() {
    let anchor = Timestamp { secs: 1_000, nanos: 500_000_000 };
    let same = anchor.difference(&anchor);
    assert_eq!(
        same,
        TimeDifference { negative: false, days: 0, hours: 0, minutes: 0, seconds: 0, milliseconds: 0 }
    );
    // 2 days, 3 hours, 4 minutes, 5 seconds and 6.7 milliseconds later.
    let later = Timestamp { secs: 1_000 + 2 * 86_400 + 3 * 3_600 + 4 * 60 + 5, nanos: 506_700_000 };
    assert_eq!(
        later.difference(&anchor),
        TimeDifference { negative: false, days: 2, hours: 3, minutes: 4, seconds: 5, milliseconds: 6 }
    );
    assert_eq!(
        anchor.difference(&later),
        TimeDifference { negative: true, days: 2, hours: 3, minutes: 4, seconds: 5, milliseconds: 6 }
    );
    // Less than a millisecond earlier counts as no time, without a sign.
    let a_little_earlier = Timestamp { secs: 1_000, nanos: 499_000_001 };
    assert_eq!(
        a_little_earlier.difference(&anchor),
        TimeDifference { negative: false, days: 0, hours: 0, minutes: 0, seconds: 0, milliseconds: 0 }
    );
    let far = Timestamp { secs: i64::MAX, nanos: 999_999_999 }
        .difference(&Timestamp { secs: i64::MIN, nanos: 0 });
    assert_eq!(far.days, 213_503_982_334_601);
    assert_eq!((far.hours, far.minutes, far.seconds, far.milliseconds), (7, 0, 15, 999));
    assert!(!far.negative);
}
