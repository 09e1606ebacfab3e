use sherlog::model::{LogEntry, LogLevel, LogSource, LogSourceContents, NamedField, CustomField, Timestamp};
use sherlog::parse::sfile;
use sherlog::parse::sfile::{ArchiveMember, MemberKind};

fn member(name: &str, data: &[u8]) -> ArchiveMember {
    ArchiveMember { name: name.to_string(), data: data.to_vec() }
}

fn sources_of(source: &LogSource) -> &Vec<LogSource> {
    match &source.children {
        LogSourceContents::Sources(sources) => sources,
        LogSourceContents::Entries(_) => panic!("expected sources in {}", source.name),
    }
}

fn entries_of(source: &LogSource) -> &Vec<LogEntry> {
    match &source.children {
        LogSourceContents::Entries(entries) => entries,
        LogSourceContents::Sources(_) => panic!("expected entries in {}", source.name),
    }
}

fn names(sources: &[LogSource]) -> Vec<&str> {
    sources.iter().map(|s| s.name.as_str()).collect()
}

fn messages(source: &LogSource) -> Vec<&str> {
    entries_of(source).iter().map(|e| e.message.as_str()).collect()
}

#[test]
fn ring_buffer_slots_are_read_from_the_oldest_to_the_newest() {
    let members = vec![
        member("contr_Foo.glog", b"[tq|3000]:[m|newest]\n"),
        member("contr_Foo_1.glog", b"[tq|2000]:[m|older]\n"),
        member("contr_Foo_2.glog", b"[tq|1000]:[m|oldest]\n"),
    ];
    let tree = sfile::from_file("logs.sfile", &members);
    assert_eq!(tree.name, "logs.sfile");
    let kinds = sources_of(&tree);
    assert_eq!(names(kinds), vec!["Client", "Controller", "Sensor"]);
    let controller = sources_of(&kinds[1]);
    assert_eq!(names(controller), vec!["Foo"]);
    assert_eq!(messages(&controller[0]), vec!["oldest", "older", "newest"]);
    assert!(sources_of(&kinds[0]).is_empty());
    assert!(sources_of(&kinds[2]).is_empty());
}

#[test]
fn a_log_that_is_cut_between_two_slots_is_read_as_one_log() {
    // The entry begins in slot 1 and ends in the newest slot.
    let members = vec![
        member("contr_Hwa.glog", b"econd half]\n[m|last]\n"),
        member("contr_Hwa_1.glog", b"[m|first]\n[m|first half, s"),
    ];
    let tree = sfile::from_file("a.lfile", &members);
    let controller = sources_of(&sources_of(&tree)[1]);
    assert_eq!(messages(&controller[0]), vec!["first", "first half, second half", "last"]);
}

#[test]
fn group_names() {
    assert_eq!(sfile::get_group_name("adm_LoggerAdm_2_p"), "adm_LoggerAdm_p");
    assert_eq!(sfile::get_group_name("adm_LoggerAdm_1_p"), "adm_LoggerAdm_p");
    assert_eq!(sfile::get_group_name("adm_LoggerAdm_1_v"), "adm_LoggerAdm_v");
    assert_eq!(sfile::get_group_name("contr_FtcManager_ov"), "contr_FtcManager");
    assert_eq!(sfile::get_group_name("contr_FtcManager"), "contr_FtcManager");
    assert_eq!(sfile::get_group_name("contr_Hwa_4"), "contr_Hwa");
    assert_eq!(sfile::get_group_name("contr_Hwa"), "contr_Hwa");
    assert_eq!(sfile::get_group_name("contr_Hwa_ov_3_p"), "contr_Hwa_p");
    assert_eq!(sfile::get_group_name("contr_Hwa_3_ov"), "contr_Hwa_3");
    assert_eq!(sfile::get_group_name("contr_Hwa_-3"), "contr_Hwa_-3");
    assert_eq!(sfile::get_group_name("contr_Hwa_+3"), "contr_Hwa");
    assert_eq!(sfile::get_group_name("contr_Hwa_4294967296"), "contr_Hwa_4294967296");
    assert_eq!(sfile::get_group_name("contr_Hwa_4294967295"), "contr_Hwa");
    assert_eq!(sfile::get_group_name("_v"), "_v");
    assert_eq!(sfile::get_group_name("_7"), "");
    assert_eq!(sfile::get_group_name(""), "");
    assert_eq!(sfile::get_group_name("7"), "7");
    assert_eq!(sfile::get_group_name("größe_12_v"), "größe_v");
}

#[test]
fn members_are_read_as_their_names_say() {
    assert_eq!(sfile::classify_member("contr_Foo.glog"), MemberKind::Glog);
    assert_eq!(sfile::classify_member("some/folder/contr_Foo.glog"), MemberKind::Glog);
    assert_eq!(sfile::classify_member("App_12_System_2021-03-09-08-07-25-8527.xlog"), MemberKind::Xlog);
    assert_eq!(sfile::classify_member("RDS/rds.log"), MemberKind::Rds);
    assert_eq!(sfile::classify_member("RDS/sub/RDSAgent.log"), MemberKind::Rds);
    assert_eq!(sfile::classify_member("RDS/ScanLib_1.log"), MemberKind::ScanLib);
    assert_eq!(sfile::classify_member("RDS/ScanLib.log"), MemberKind::Rds);
    assert_eq!(sfile::classify_member("RDS/notes.txt"), MemberKind::Ignored);
    assert_eq!(sfile::classify_member("RDS/contr_Foo.glog"), MemberKind::Ignored);
    assert_eq!(sfile::classify_member("rds.log"), MemberKind::Ignored);
    assert_eq!(sfile::classify_member("rds/rds.log"), MemberKind::Ignored);
    assert_eq!(sfile::classify_member("contr_Foo.GLOG"), MemberKind::Ignored);
    assert_eq!(sfile::classify_member("contr_Foo"), MemberKind::Ignored);
    assert_eq!(sfile::classify_member(".glog"), MemberKind::Ignored);
    assert_eq!(sfile::classify_member("RDS/"), MemberKind::Ignored);
    assert_eq!(sfile::classify_member("folder.glog/"), MemberKind::Glog);
    assert_eq!(sfile::classify_member(""), MemberKind::Ignored);
    assert_eq!(sfile::classify_member(".."), MemberKind::Ignored);
    assert_eq!(sfile::classify_member("a/.."), MemberKind::Ignored);
    assert_eq!(sfile::member_stem("some/folder/contr_Foo_1.glog"), "contr_Foo_1");
    assert_eq!(sfile::member_stem("archive.tar.gz"), "archive.tar");
    assert_eq!(sfile::member_stem(".hidden"), ".hidden");
    assert_eq!(sfile::member_stem("plain"), "plain");
    assert_eq!(sfile::member_stem(""), "");
    assert_eq!(sfile::member_extension("a/b.c/d"), None);
    assert_eq!(sfile::member_extension("a/b.c/d.e"), Some("e".to_string()));
    assert_eq!(sfile::member_extension("d."), Some(String::new()));
}

#[test]
fn channels_of_client_logs() {
    assert_eq!(sfile::channel_name("App_12_System_2021-03-09-08-07-25-8527"), "System");
    assert_eq!(sfile::channel_name("My_App_12_User_2021"), "User");
    assert_eq!(sfile::channel_name("System_2021"), "System");
    assert_eq!(sfile::channel_name("nothing"), "nothing");
    assert_eq!(sfile::channel_name("_"), "");
    assert_eq!(sfile::channel_name("a__b"), "");
}

#[test]
fn client_logs_are_put_together_by_channel() {
    let members = vec![
        member("App_1_System_2021-03-09-08-07-25-8527.xlog", "<M>˩s1\n<M>˩s2\n".as_bytes()),
        member("App_1_User_2021-03-09-08-07-25-8527.xlog", "<M>˩u1\n".as_bytes()),
        member("Other_7_System_2021-03-10-08-07-25-8527.xlog", "<M>˩s3\n".as_bytes()),
        member("App_1_admin_2021-03-09-08-07-25-8527.xlog", "<M>˩a1\n".as_bytes()),
    ];
    let tree = sfile::from_file("x.sfile", &members);
    let client = sources_of(&sources_of(&tree)[0]);
    assert_eq!(names(client), vec!["admin", "System", "User"]);
    assert_eq!(messages(&client[1]), vec!["s1", "s2", "s3"]);
    assert_eq!(messages(&client[2]), vec!["u1"]);
}

#[test]
fn sources_are_sorted_into_their_kinds() {
    let members = vec![
        member("unknownthing.glog", b"[m|u]\n"),
        member("contr_Zeta.glog", b"[m|z]\n"),
        member("contr_alpha.glog", b"[m|a]\n"),
        member("axis_Motor.glog", b"[m|m]\n"),
        member("axis_Brake.glog", b"[m|b]\n"),
        member("cfm12_Laser.glog", b"[m|l]\n"),
        member("adm_LoggerAdm_1_p.glog", b"[m|p1]\n"),
        member("adm_LoggerAdm_2_p.glog", b"[m|p2]\n"),
        member("adm_LoggerAdm_1_v.glog", b"[m|v1]\n"),
        member("connectbox_Main.glog", b"[m|c]\n"),
        member("ap21_Tip.glog", b"[m|t]\n"),
        member("axisless.glog", b"[m|x]\n"),
        member("RDS/rds.log", b"2021-03-09 08:07:25|INFO|src|hello"),
        member("RDS/ScanLib_3.log", b"2020-12-01 15:46:19.122013 (warning) <0x00000001> [] : Foo\n"),
        member("readme.txt", b"nothing"),
    ];
    let tree = sfile::from_file("all.sfile", &members);
    let kinds = sources_of(&tree);
    assert_eq!(
        names(kinds),
        vec!["Client", "Controller", "Sensor", "Connect Box", "Probe", "RDS", "ScanLib", "Unknown"]
    );
    assert_eq!(names(sources_of(&kinds[1])), vec!["alpha", "Zeta"]);
    let boards = sources_of(&kinds[2]);
    assert_eq!(names(boards), vec!["adm", "axis", "cfm12"]);
    assert_eq!(names(sources_of(&boards[0])), vec!["LoggerAdm_p", "LoggerAdm_v"]);
    assert_eq!(messages(&sources_of(&boards[0])[0]), vec!["p2", "p1"]);
    assert_eq!(names(sources_of(&boards[1])), vec!["Brake", "Motor"]);
    assert_eq!(names(sources_of(&boards[2])), vec!["Laser"]);
    assert_eq!(names(sources_of(&kinds[3])), vec!["Main"]);
    assert_eq!(names(sources_of(&kinds[4])), vec!["Tip"]);
    assert_eq!(names(sources_of(&kinds[5])), vec!["rds"]);
    assert_eq!(messages(&sources_of(&kinds[5])[0]), vec!["hello"]);
    assert_eq!(names(sources_of(&kinds[6])), vec!["ScanLib_3"]);
    assert!(entries_of(&sources_of(&kinds[6])[0]).is_empty());
    assert_eq!(names(sources_of(&kinds[7])), vec!["axisless", "unknownthing"]);
}

#[test]
fn an_empty_archive_has_the_three_kinds_that_always_stand() {
    let tree = sfile::from_file("empty.sfile", &Vec::new());
    assert_eq!(names(sources_of(&tree)), vec!["Client", "Controller", "Sensor"]);
}

fn sensor_entry(secs: i64, session: Option<u32>, message: &str) -> LogEntry {
    let mut entry = LogEntry {
        timestamp: Timestamp { secs, nanos: 0 },
        severity: LogLevel::Info,
        message: message.to_string(),
        custom_fields: Vec::new(),
    };
    if let Some(session) = session {
        entry.set_custom_field("SessionId", CustomField::UInt32(session));
    }
    entry
}

fn leaf(entries: Vec<LogEntry>) -> LogSource {
    LogSource { name: "leaf".to_string(), children: LogSourceContents::Entries(entries) }
}

fn seconds(source: &LogSource) -> Vec<i64> {
    entries_of(source).iter().map(|e| e.timestamp.secs).collect()
}

#[test]
fn timestamps_before_the_clock_was_set_are_moved() {
    // The delta is 1 500 000 000 s in nanoseconds.
    let mut source = leaf(vec![
        sensor_entry(10, Some(4), "boot"),
        sensor_entry(20, Some(4), "still booting"),
        sensor_entry(30, Some(4), "Setting EtherCAT time [delta = 1500000000000000000 ns]."),
        sensor_entry(1_500_000_040, Some(4), "running"),
    ]);
    sfile::adjust_sensor_timestamps(&mut source);
    assert_eq!(seconds(&source), vec![1_500_000_010, 1_500_000_020, 30, 1_500_000_040]);
}

#[test]
fn a_correction_ends_with_its_session() {
    let mut source = leaf(vec![
        sensor_entry(5, Some(4), "session 4, before session 5"),
        sensor_entry(6, Some(5), "other session"),
        sensor_entry(7, Some(4), "session 4"),
        sensor_entry(8, None, "no session"),
        sensor_entry(9, Some(4), "cut off by the entry without session"),
        sensor_entry(10, Some(4), "ok"),
        sensor_entry(978_300_000, Some(4), "already right"),
        sensor_entry(11, Some(4), "Setting EtherCAT time [delta = 100000000000 ns]"),
        sensor_entry(12, Some(4), "after the marker"),
    ]);
    sfile::adjust_sensor_timestamps(&mut source);
    assert_eq!(seconds(&source), vec![5, 6, 7, 8, 109, 110, 978_300_000, 11, 12]);
}

#[test]
fn a_marker_that_cannot_be_read_ends_the_correction() {
    let mut source = leaf(vec![
        sensor_entry(1, Some(1), "a"),
        sensor_entry(2, Some(1), "Setting EtherCAT time [delta = soon ns]"),
        sensor_entry(3, Some(1), "b"),
        sensor_entry(4, Some(1), "Setting EtherCAT time [delta = -200 ns]."),
    ]);
    sfile::adjust_sensor_timestamps(&mut source);
    // -200 ns are -2 ticks: entry b moves, and what is before 1970 is not moved.
    assert_eq!(seconds(&source), vec![1, 2, 2, 4]);
    assert_eq!(entries_of(&source)[2].timestamp.nanos, 999_999_800);
}

#[test]
fn a_correction_that_leads_before_1970_is_left_out() {
    let mut source = leaf(vec![
        sensor_entry(1, Some(1), "a"),
        sensor_entry(4, Some(1), "Setting EtherCAT time [delta = -2000000000 ns]."),
    ]);
    sfile::adjust_sensor_timestamps(&mut source);
    assert_eq!(seconds(&source), vec![1, 4]);
}

#[test]
fn a_session_of_another_type_counts_as_none() {
    let mut odd = sensor_entry(2, None, "odd");
    odd.custom_fields.push(NamedField {
        name: "SessionId".to_string(),
        value: CustomField::UInt64(1),
    });
    let mut source = leaf(vec![
        sensor_entry(1, Some(1), "a"),
        odd,
        sensor_entry(3, Some(1), "Setting EtherCAT time [delta = 100000000000 ns]"),
    ]);
    sfile::adjust_sensor_timestamps(&mut source);
    assert_eq!(seconds(&source), vec![1, 2, 3]);
}

#[test]
fn timestamps_are_set_right_in_the_whole_tree() {
    let inner = leaf(vec![
        sensor_entry(1, Some(1), "a"),
        sensor_entry(3, Some(1), "Setting EtherCAT time [delta = 100000000000 ns]"),
    ]);
    let mut tree = LogSource {
        name: "board".to_string(),
        children: LogSourceContents::Sources(vec![
            inner,
            LogSource { name: "empty".to_string(), children: LogSourceContents::Sources(vec![]) },
        ]),
    };
    sfile::adjust_sensor_timestamps(&mut tree);
    assert_eq!(seconds(&sources_of(&tree)[0]), vec![101, 3]);
}

#[test]
fn sensor_logs_of_an_archive_are_set_right() {
    let members = vec![
        member(
            "axis_Motor.glog",
            b"[t|621355968100000000]:[n|7]:[m|early]\n[t|621355968200000000]:[n|7]:[m|Setting EtherCAT time [delta = 1600000000000000000 ns].]\n",
        ),
        member("contr_Main.glog", b"[t|621355968100000000]:[n|7]:[m|early]\n[t|621355968200000000]:[n|7]:[m|Setting EtherCAT time [delta = 1600000000000000000 ns].]\n"),
    ];
    let tree = sfile::from_file("s.sfile", &members);
    let kinds = sources_of(&tree);
    let motor = &sources_of(&sources_of(&kinds[2])[0])[0];
    assert_eq!(seconds(motor), vec![1_600_000_010, 20]);
    // The logs of the controller are left as they are.
    assert_eq!(seconds(&sources_of(&kinds[1])[0]), vec![10, 20]);
}

#[test]
fn merge_and_sort_keep_the_first_order_where_names_differ_in_case_only() {
    let mut sources = vec![
        LogSource { name: "b".to_string(), children: LogSourceContents::Entries(vec![]) },
        LogSource { name: "A".to_string(), children: LogSourceContents::Entries(vec![]) },
        LogSource { name: "a".to_string(), children: LogSourceContents::Entries(vec![]) },
        LogSource { name: "B".to_string(), children: LogSourceContents::Entries(vec![]) },
        LogSource { name: "Ä".to_string(), children: LogSourceContents::Entries(vec![]) },
        LogSource { name: "".to_string(), children: LogSourceContents::Entries(vec![]) },
    ];
    sfile::sort_sources(&mut sources);
    assert_eq!(names(&sources), vec!["", "A", "a", "b", "B", "Ä"]);
}

#[test]
fn slots_are_read_by_their_numbers_not_by_their_digits() {
    let members = vec![
        member("contr_Foo_2.glog", b"[m|two]\n"),
        member("contr_Foo_10.glog", b"[m|ten]\n"),
    ];
    let tree = sfile::from_file("logs.sfile", &members);
    let controller = sources_of(&sources_of(&tree)[1]);
    assert_eq!(names(controller), vec!["Foo"]);
    assert_eq!(messages(&controller[0]), vec!["ten", "two"]);
}

#[test]
fn a_group_is_read_from_the_greatest_slot_to_the_log_without_a_number() {
    let members = vec![
        member("adm_Log_p.glog", b"[m|none]\n"),
        member("adm_Log_9_p.glog", b"[m|9]\n"),
        member("adm_Log_100_p.glog", b"[m|100]\n"),
        member("adm_Log_ov_p.glog", b"[m|overview]\n"),
        member("adm_Log_11_p.glog", b"[m|11]\n"),
        member("adm_Log_011_p.glog", b"[m|011]\n"),
        member("adm_Log_9_v.glog", b"[m|9 in memory]\n"),
        member("adm_Log_10_v.glog", b"[m|10 in memory]\n"),
    ];
    let tree = sfile::from_file("logs.sfile", &members);
    let boards = sources_of(&sources_of(&tree)[2]);
    assert_eq!(names(boards), vec!["adm"]);
    let logs = sources_of(&boards[0]);
    assert_eq!(names(logs), vec!["Log_p", "Log_v"]);
    // Logs without a number come last, among them the name that comes last first.
    assert_eq!(messages(&logs[0]), vec!["100", "11", "011", "9", "none", "overview"]);
    assert_eq!(messages(&logs[1]), vec!["10 in memory", "9 in memory"]);
}

#[test]
fn ring_buffer_numbers_of_names() {
    assert_eq!(sfile::ring_index("contr_Foo_2"), 2);
    assert_eq!(sfile::ring_index("contr_Foo_10"), 10);
    assert_eq!(sfile::ring_index("contr_Foo"), -1);
    assert_eq!(sfile::ring_index("contr_Foo_ov"), -1);
    assert_eq!(sfile::ring_index("adm_LoggerAdm_2_p"), 2);
    assert_eq!(sfile::ring_index("adm_LoggerAdm_v"), -1);
    assert_eq!(sfile::ring_index("x_4294967295"), 4294967295);
    assert_eq!(sfile::ring_index("x_4294967296"), -1);
    assert_eq!(sfile::ring_index("x_-1"), -1);
    assert_eq!(sfile::ring_index("x_007"), 7);
    assert_eq!(sfile::ring_index("7"), -1);
    assert_eq!(sfile::ring_index(""), -1);
}

#[test]
fn the_bytes_outside_any_section_are_counted_over_the_whole_archive() {
    let members = vec![
        member("contr_A.glog", b"[m|a]\n"),
        member("contr_A_1.glog", b"x[m|older]\n"),
        member("axis_B.glog", b"xyz[m|b]\n"),
        member("contr_C.glog", b"[m|c]\ntext behind an entry\n"),
        member("RDS/rds.log", b"no record at all"),
    ];
    // One byte before the first section of A, three before that of B; what
    // follows the entry of C belongs to its last section.
    let (tree, invalid) = sfile::from_file_counted("logs.sfile", &members);
    assert_eq!(invalid, 4);
    let controller = sources_of(&sources_of(&tree)[1]);
    assert_eq!(names(controller), vec!["A", "C"]);
    assert_eq!(messages(&controller[0]), vec!["older", "a"]);
    let plain = sfile::from_file("logs.sfile", &members);
    assert_eq!(format!("{:?}", plain), format!("{:?}", tree));
    let (_, invalid) = sfile::from_file_counted("empty.sfile", &Vec::new());
    assert_eq!(invalid, 0);
}
