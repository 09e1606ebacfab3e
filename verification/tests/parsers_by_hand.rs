//! The parsers, held against parsers that are written with the readers of
//! the standard library and with the calendar library, on logs that are put
//! together from pieces.

use chrono::{DateTime, NaiveDateTime, Utc};
use sherlog::model::{LogEntry, LogLevel, LogSource, LogSourceContents, Timestamp};
use sherlog::parse::{glog, rds_log, sfile, xlog};
use std::io::BufRead;
use std::io::BufReader;
use std::io::Read;
use std::path::PathBuf;

#[derive(Debug, PartialEq, Clone)]
struct Plain {
    timestamp: Timestamp,
    severity: LogLevel,
    message: String,
    session: Option<u32>,
}

fn plain_default() -> Plain {
    Plain {
        timestamp: Timestamp { secs: 0, nanos: 0 },
        severity: LogLevel::Error,
        message: String::new(),
        session: None,
    }
}

fn of_datetime(datetime: DateTime<Utc>) -> Timestamp {
    Timestamp { secs: datetime.timestamp(), nanos: datetime.timestamp_subsec_nanos() }
}

fn of_entry(entry: &LogEntry) -> Plain {
    Plain {
        timestamp: entry.timestamp,
        severity: entry.severity,
        message: entry.message.clone(),
        session: match entry.custom_field("SessionId") {
            Some(sherlog::model::CustomField::UInt32(session)) => Some(*session),
            _ => None,
        },
    }
}

fn entries_of(source: LogSource) -> Vec<Plain> {
    match source.children {
        LogSourceContents::Entries(entries) => entries.iter().map(of_entry).collect(),
        LogSourceContents::Sources(_) => panic!("expected entries"),
    }
}

fn root() -> LogSource {
    LogSource { name: "root".to_string(), children: LogSourceContents::Entries(Vec::new()) }
}

struct Dice(u64);

fn roll(dice: &mut Dice, sides: usize) -> usize {
    dice.0 = dice.0.wrapping_mul(6364136223846793005).wrapping_add(1442695040888963407);
    ((dice.0 >> 33) % sides as u64) as usize
}

fn pick<'a>(dice: &mut Dice, pieces: &[&'a str]) -> &'a str {
    pieces[roll(dice, pieces.len())]
}

// --- the token-pipe format -------------------------------------------------

fn by_hand_rds_datetime(dt_string: &str) -> Option<DateTime<Utc>> {
    NaiveDateTime::parse_from_str(dt_string, "%Y-%m-%d %H:%M:%S%.f").ok().map(|n| n.and_utc())
}

fn by_hand_rds_severity(value: &str) -> Option<LogLevel> {
    match value {
        "critical" | "Fatal" | "FATAL" => Some(LogLevel::Critical),
        "error" | "Error" | "ERROR" => Some(LogLevel::Error),
        "warn" | "Warn" | "WARN" => Some(LogLevel::Warning),
        "info" | "Info" | "INFO" => Some(LogLevel::Info),
        "debug" | "Debug" | "DEBUG" => Some(LogLevel::Debug),
        "trace" | "Trace" | "TRACE" => Some(LogLevel::Trace),
        _ => None,
    }
}

fn by_hand_read_until_pipe_or_newline(
    mut reader: impl Read,
    buf: &mut Vec<u8>,
) -> std::io::Result<usize> {
    let mut bytes_read = 0;
    let mut byte = [0; 1];
    loop {
        match reader.read(&mut byte) {
            Ok(0) => return Ok(bytes_read),
            Err(e) => return Err(e),
            Ok(_) => {
                bytes_read += 1;
                let byte = byte[0];
                buf.push(byte);
                if byte == b'|' || byte == b'\n' {
                    return Ok(bytes_read);
                }
            }
        }
    }
}

/// Gives the entries and whether the log ends in the middle of a record,
/// before its message.
fn by_hand_rds(input: &[u8]) -> (Vec<Plain>, bool) {
    let mut cut_off = false;
    let mut log_entries = Vec::new();
    let mut bufreader = BufReader::new(input);
    let mut buf = Vec::<u8>::new();
    let mut state = 0;
    let mut log_entry = plain_default();
    loop {
        match state {
            0 => {
                let bytes_read = bufreader.read_until(b'|', &mut buf).unwrap();
                if bytes_read != 0 && buf.last() == Some(&b'|') {
                    buf.pop();
                    if let Ok(text) = std::str::from_utf8(&buf) {
                        if let Some(timestamp) = by_hand_rds_datetime(text) {
                            log_entry.timestamp = of_datetime(timestamp);
                        }
                    }
                    buf.clear();
                    state = 1;
                } else {
                    cut_off = bytes_read != 0;
                    break;
                }
            }
            1 => {
                let bytes_read = bufreader.read_until(b'|', &mut buf).unwrap();
                if bytes_read != 0 && buf.last() == Some(&b'|') {
                    buf.pop();
                    match std::str::from_utf8(&buf) {
                        Err(_) => state = 2,
                        Ok(text) => {
                            if text.trim_start().parse::<u32>().is_ok() {
                                state = 2;
                            } else if let Some(severity) = by_hand_rds_severity(text) {
                                log_entry.severity = severity;
                                state = 3;
                            } else {
                                state = 2;
                            }
                        }
                    }
                    buf.clear();
                } else {
                    cut_off = true;
                    break;
                }
            }
            2 => {
                let bytes_read = bufreader.read_until(b'|', &mut buf).unwrap();
                if bytes_read != 0 && buf.last() == Some(&b'|') {
                    buf.pop();
                    if let Ok(text) = std::str::from_utf8(&buf) {
                        if let Some(severity) = by_hand_rds_severity(text) {
                            log_entry.severity = severity;
                        }
                    }
                    buf.clear();
                    state = 3;
                } else {
                    cut_off = true;
                    break;
                }
            }
            3 => {
                let bytes_read = bufreader.read_until(b'|', &mut buf).unwrap();
                if bytes_read != 0 && buf.last() == Some(&b'|') {
                    buf.pop();
                    buf.clear();
                    state = 4;
                } else {
                    cut_off = true;
                    break;
                }
            }
            4 => {
                let bytes_read = bufreader.read_until(b'\n', &mut buf).unwrap();
                if bytes_read != 0 && buf.last() == Some(&b'\n') {
                    state = 5;
                } else {
                    log_entry.message = String::from_utf8_lossy(&buf).to_string();
                    log_entries.push(std::mem::replace(&mut log_entry, plain_default()));
                    break;
                }
            }
            _ => {
                let mut prev_size = buf.len();
                let bytes_read =
                    by_hand_read_until_pipe_or_newline(&mut bufreader, &mut buf).unwrap();
                if bytes_read != 0 && buf.last() == Some(&b'\n') {
                } else if bytes_read != 0 && buf.last() == Some(&b'|') {
                    let mut prev_last_idx = std::cmp::max(prev_size, 1) - 1;
                    let last_idx = buf.len() - 1;
                    if let Ok(dt_string) = std::str::from_utf8(&buf[prev_last_idx..last_idx]) {
                        if let Some(timestamp) = by_hand_rds_datetime(dt_string) {
                            if let Some(b'\n') = buf.get(prev_last_idx) {
                                prev_size = prev_last_idx;
                                prev_last_idx = std::cmp::max(prev_size, 1) - 1;
                            }
                            if let Some(b'\r') = buf.get(prev_last_idx) {
                                prev_size = prev_last_idx;
                            }
                            log_entry.message =
                                String::from_utf8_lossy(&buf[..prev_size]).to_string();
                            log_entries.push(std::mem::replace(&mut log_entry, plain_default()));
                            log_entry.timestamp = of_datetime(timestamp);
                            state = 1;
                            buf.clear();
                        }
                    } else {
                        state = 1;
                        buf.clear();
                    }
                } else {
                    log_entry.message = String::from_utf8_lossy(&buf).to_string();
                    log_entries.push(std::mem::replace(&mut log_entry, plain_default()));
                    break;
                }
            }
        }
    }
    (log_entries, cut_off)
}

fn rds_record(dice: &mut Dice, out: &mut Vec<u8>) {
    let dates = [
        "2021-03-09 08:07:25.852",
        "2021-03-09 08:07:26",
        "1999-12-31 23:59:59.999999999",
        "2021-13-09 08:07:26",
        "today",
        "",
        " 2021-03-10 00:00:00.5",
    ];
    let codes = ["", "", "17|", "   17|", "\u{a0}4|", " \t\u{2003}12|", "-1|", "x17|", "4294967296|", "\u{3000}\u{85}7|", "+5|", "1 7|"];
    let severities = ["INFO", "warn", "Error", "critical", "fatal", "DEBUG", "Trace", "loud", "", " info"];
    let sources = ["RDS.Core", "", "src with blanks", "ünïcödé"];
    let messages = [
        "Started",
        "",
        "with | pipe",
        "two\nlines",
        "three\r\nlines\r\nhere",
        "ends with pipe|",
        "|starts with pipe",
        "tab\there",
        "looks like 2021-03-09 08:07:25|but is none",
        "line\n2021-03-09 08:07:25 is no start",
        "bad \u{fffd} char",
        "\n",
        "\r",
    ];
    out.extend_from_slice(pick(dice, &dates).as_bytes());
    out.push(b'|');
    out.extend_from_slice(pick(dice, &codes).as_bytes());
    out.extend_from_slice(pick(dice, &severities).as_bytes());
    out.push(b'|');
    out.extend_from_slice(pick(dice, &sources).as_bytes());
    out.push(b'|');
    out.extend_from_slice(pick(dice, &messages).as_bytes());
    if roll(dice, 12) == 0 {
        out.push(0xff);
    }
    out.extend_from_slice(pick(dice, &["\n", "\r\n", "\n", "\n\n", "\r\r\n"]).as_bytes());
}

#[test]
fn token_pipe_logs_of_many_records() {
    let mut dice = Dice(7);
    for _ in 0..300 {
        let mut input = Vec::new();
        for _ in 0..roll(&mut dice, 6) + 1 {
            rds_record(&mut dice, &mut input);
        }
        if roll(&mut dice, 3) == 0 {
            // The last message ends without a line break.
            while input.last() == Some(&b'\n') || input.last() == Some(&b'\r') {
                input.pop();
            }
            if input.last() == Some(&b'|') {
                input.push(b'x');
            }
        }
        let (expected, cut_off) = by_hand_rds(&input);
        let mut found = entries_of(rds_log::to_log_entries(&input, root()));
        if cut_off {
            // A record that ends before its message is kept, without a message.
            let last = found.pop().expect("the record that is cut off");
            assert_eq!(last.message, "");
        }
        assert_eq!(found, expected, "input: {:?}", String::from_utf8_lossy(&input));
    }
}

// --- the unit-delimited format ----------------------------------------------

fn by_hand_xlog_severity(value: &str) -> Option<LogLevel> {
    match value {
        "AppStart" | "AppStop" | "Info" => Some(LogLevel::Info),
        "Warning" => Some(LogLevel::Warning),
        "Error" | "Exception" => Some(LogLevel::Error),
        "Debug" => Some(LogLevel::Debug),
        _ => None,
    }
}

fn by_hand_from_100ns(ticks: u64) -> Option<Timestamp> {
    let since_1970 = ticks.checked_sub(621_355_968_000_000_000)?;
    let secs = since_1970 / 10_000_000;
    let nanos = (since_1970 - secs * 10_000_000) as u32 * 100;
    DateTime::from_timestamp(secs as i64, nanos).map(of_datetime)
}

fn by_hand_xlog(input: &str) -> Vec<Plain> {
    let bufreader = BufReader::new(input.as_bytes());
    let mut log_entries = Vec::new();
    for line in bufreader.lines() {
        let mut log_entry = plain_default();
        for unit in line.unwrap().split('˫') {
            if let Some(offset) = unit.find('˩') {
                let unit_header = &unit[0..offset];
                let unit_value = &unit[offset + 2..];
                match unit_header {
                    "<T>" => {
                        if let Ok(ticks) = unit_value.parse::<u64>() {
                            if let Some(timestamp) = by_hand_from_100ns(ticks) {
                                log_entry.timestamp = timestamp;
                            }
                        }
                    }
                    "<L>" => {
                        if let Some(severity) = by_hand_xlog_severity(unit_value) {
                            log_entry.severity = severity;
                        }
                    }
                    "<M>" => {
                        log_entry.message = unit_value.to_string();
                    }
                    _ => {}
                }
            }
        }
        log_entries.push(log_entry);
    }
    log_entries
}

#[test]
fn unit_delimited_logs_of_many_lines() {
    let units = [
        "<T>˩637055156092730381",
        "<T>˩621355968000000000",
        "<T>˩1",
        "<T>˩18446744073709551615",
        "<T>˩18446744073709551616",
        "<T>˩+637055156092730381",
        "<T>˩ 637055156092730381",
        "<L>˩Info",
        "<L>˩Warning",
        "<L>˩Exception",
        "<L>˩AppStop",
        "<L>˩info",
        "<L>˩",
        "<M>˩LoggerService: Started.",
        "<M>˩",
        "<M>˩with ˩ inside",
        "<M>˩ünïcödé ˪ text",
        "<A>˩ApplicationX",
        "<I>˩14016",
        "no separator",
        "",
        "˩value without header",
        "<M>",
        "<T>˩12\r",
    ];
    let mut dice = Dice(11);
    for _ in 0..300 {
        let mut input = String::new();
        for _ in 0..roll(&mut dice, 5) {
            for k in 0..roll(&mut dice, 6) {
                if k > 0 {
                    input.push('˫');
                }
                input.push_str(pick(&mut dice, &units));
            }
            input.push_str(pick(&mut dice, &["\n", "\r\n", "\n", "\r\r\n"]));
        }
        if roll(&mut dice, 3) == 0 {
            input.push_str(pick(&mut dice, &units));
        }
        let expected = by_hand_xlog(&input);
        let found = entries_of(xlog::to_log_entries(input.as_bytes(), root()));
        assert_eq!(found, expected, "input: {:?}", input);
    }
}

// --- the delimited-section format -------------------------------------------

#[derive(Copy, Clone)]
enum State {
    PreSection,
    SectionKind,
    SectionValue(u8),
    SectionValuePost1(u8),
    SectionValuePost2(u8),
    SectionValuePost3(u8, usize, bool),
}

struct ByHandGlog {
    state: State,
    buf: Vec<u8>,
    log_entry: Plain,
    log_entries: Vec<Plain>,
}

fn by_hand_glog_byte(p: &mut ByHandGlog, chr: u8) {
    p.state = match p.state {
        State::PreSection => {
            if chr == b'[' {
                State::SectionKind
            } else {
                State::PreSection
            }
        }
        State::SectionKind => {
            if chr == b'|' {
                let kind = match std::str::from_utf8(&p.buf) {
                    Ok("tq") => 1,
                    Ok("s") => 2,
                    Ok("m") => 4,
                    Ok("n") => 7,
                    Ok("t") => 5,
                    _ => 0,
                };
                p.buf.clear();
                State::SectionValue(kind)
            } else {
                p.buf.push(chr);
                State::SectionKind
            }
        }
        State::SectionValue(kind) => {
            p.buf.push(chr);
            if chr == b']' {
                State::SectionValuePost1(kind)
            } else {
                State::SectionValue(kind)
            }
        }
        State::SectionValuePost1(kind) => {
            p.buf.push(chr);
            if chr == b':' {
                State::SectionValuePost3(kind, 3, false)
            } else if chr == b'\r' {
                State::SectionValuePost2(kind)
            } else if chr == b'\n' {
                State::SectionValuePost3(kind, 3, true)
            } else if chr == b']' {
                State::SectionValuePost1(kind)
            } else {
                State::SectionValue(kind)
            }
        }
        State::SectionValuePost2(kind) => {
            p.buf.push(chr);
            if chr == b'\n' {
                State::SectionValuePost3(kind, 4, true)
            } else if chr == b']' {
                State::SectionValuePost1(kind)
            } else {
                State::SectionValue(kind)
            }
        }
        State::SectionValuePost3(kind, suffix_cutoff, entry_done) => {
            p.buf.push(chr);
            if chr == b'[' {
                let value_str = String::from_utf8_lossy(&p.buf[0..p.buf.len() - suffix_cutoff]);
                match kind {
                    1 => {
                        if let Ok(ts_milli) = value_str.parse::<u64>() {
                            let secs = ts_milli / 1000;
                            let nanos = (ts_milli - secs * 1000) as u32 * 1_000_000;
                            if let Some(datetime) = DateTime::from_timestamp(secs as i64, nanos) {
                                p.log_entry.timestamp = of_datetime(datetime);
                            }
                        }
                    }
                    2 => {
                        if let Ok(number) = value_str.parse::<u32>() {
                            let level = match number {
                                0 | 1 => Some(LogLevel::Critical),
                                2 => Some(LogLevel::Error),
                                3 => Some(LogLevel::Warning),
                                4 => Some(LogLevel::Info),
                                5 => Some(LogLevel::Debug),
                                _ => None,
                            };
                            if let Some(level) = level {
                                p.log_entry.severity = level;
                            }
                        }
                    }
                    4 => p.log_entry.message = value_str.to_string(),
                    5 => {
                        if let Ok(ticks) = value_str.parse::<u64>() {
                            if let Some(timestamp) = by_hand_from_100ns(ticks) {
                                p.log_entry.timestamp = timestamp;
                            }
                        }
                    }
                    7 => {
                        if let Ok(session) = value_str.parse::<u32>() {
                            p.log_entry.session = Some(session);
                        }
                    }
                    _ => {}
                }
                if entry_done {
                    let done = std::mem::replace(&mut p.log_entry, plain_default());
                    p.log_entries.push(done);
                }
                p.buf.clear();
                State::SectionKind
            } else if chr == b']' {
                State::SectionValuePost1(kind)
            } else {
                State::SectionValue(kind)
            }
        }
    };
}

fn by_hand_glog(input: &[u8]) -> Vec<Plain> {
    let mut p = ByHandGlog {
        state: State::PreSection,
        buf: Vec::new(),
        log_entry: plain_default(),
        log_entries: Vec::new(),
    };
    for byte in input {
        by_hand_glog_byte(&mut p, *byte);
    }
    match p.state {
        State::SectionValuePost1(_) | State::SectionValuePost2(_) => {
            by_hand_glog_byte(&mut p, b'\n');
            by_hand_glog_byte(&mut p, b'[');
        }
        State::SectionValuePost3(_, _, _) => by_hand_glog_byte(&mut p, b'['),
        _ => {}
    }
    p.log_entries
}

#[test]
fn delimited_section_logs_of_many_entries() {
    let sections = [
        "[tq|1500]",
        "[tq|18446744073709551615]",
        "[tq|8210266876799999]",
        "[tq|8210266876800000]",
        "[tq|-1]",
        "[tq|]",
        "[s|0]",
        "[s|1]",
        "[s|2]",
        "[s|3]",
        "[s|4]",
        "[s|5]",
        "[s|6]",
        "[s|+4]",
        "[s| 4]",
        "[m|hello]",
        "[m|]",
        "[m|a]b]",
        "[m|a]:b]",
        "[m|a]\nb]",
        "[m|a]\r\nb]",
        "[m|a]\rb]",
        "[m|x]]]",
        "[m|\u{fc}ml\u{e4}ut]",
        "[t|637287826990857502]",
        "[t|621355967999999999]",
        "[n|7]",
        "[n|4294967295]",
        "[n|4294967296]",
        "[e|12]",
        "[x|unknown kind]",
        "[|no kind]",
        "[tq|1|2]",
    ];
    let mut dice = Dice(13);
    for _ in 0..400 {
        let mut input = Vec::new();
        input.extend_from_slice(pick(&mut dice, &["", "", "\n", "\r\n\n"]).as_bytes());
        for _ in 0..roll(&mut dice, 6) {
            for k in 0..roll(&mut dice, 5) + 1 {
                if k > 0 {
                    input.push(b':');
                }
                input.extend_from_slice(pick(&mut dice, &sections).as_bytes());
                if roll(&mut dice, 25) == 0 {
                    input.insert(input.len() - 1, 0xff);
                }
            }
            input.extend_from_slice(pick(&mut dice, &["\n", "\r\n"]).as_bytes());
        }
        let expected = by_hand_glog(&input);
        let found = entries_of(glog::to_log_entries(&input, root()));
        assert_eq!(found, expected, "input: {:?}", String::from_utf8_lossy(&input));
    }
}

// --- names -------------------------------------------------------------------

fn by_hand_group_name(s: &str) -> String {
    let mut s = s.to_string();
    let storage_type = if s.ends_with("_v") {
        "_v"
    } else if s.ends_with("_p") {
        "_p"
    } else {
        ""
    };
    s.truncate(s.len() - storage_type.len());
    if let Some(offset) = s.rfind('_') {
        if s[offset + 1..s.len()].parse::<u32>().is_ok() {
            s.truncate(offset);
        }
    }
    if s.ends_with("_ov") {
        s.truncate(s.len() - "_ov".len());
    }
    s.push_str(storage_type);
    s
}

fn name_of_pieces(dice: &mut Dice) -> String {
    let pieces = [
        "contr", "Hwa", "adm", "LoggerAdm", "axis", "ov", "v", "p", "1", "2", "10", "007", "+3",
        "-3", "4294967295", "4294967296", "", "ä", "x y", "cfm1", "connectbox", "ap21", "_",
    ];
    let mut name = String::new();
    for k in 0..roll(dice, 5) {
        if k > 0 {
            name.push('_');
        }
        name.push_str(pick(dice, &pieces));
    }
    name
}

#[test]
fn group_names_of_many_names() {
    let mut dice = Dice(17);
    for _ in 0..2000 {
        let name = name_of_pieces(&mut dice);
        assert_eq!(sfile::get_group_name(&name), by_hand_group_name(&name), "name: {:?}", name);
    }
}

fn by_hand_channel(name: &str) -> String {
    let mut pieces = name.rsplitn(4, '_');
    let _date_time = pieces.next();
    match pieces.next() {
        Some(channel) => channel.to_string(),
        None => name.to_string(),
    }
}

#[test]
fn channels_of_many_names() {
    let mut dice = Dice(19);
    for _ in 0..2000 {
        let name = name_of_pieces(&mut dice);
        assert_eq!(sfile::channel_name(&name), by_hand_channel(&name), "name: {:?}", name);
    }
}

fn by_hand_kind(name: &str) -> (sfile::MemberKind, String) {
    let outpath = PathBuf::from(name);
    let stem = outpath.file_stem().unwrap().to_string_lossy().to_string();
    let kind = if outpath.starts_with("RDS/") {
        match outpath.extension().map(|e| e.to_string_lossy().to_string()).as_deref() {
            Some("log") => {
                if stem.starts_with("ScanLib_") {
                    sfile::MemberKind::ScanLib
                } else {
                    sfile::MemberKind::Rds
                }
            }
            _ => sfile::MemberKind::Ignored,
        }
    } else {
        match outpath.extension().map(|e| e.to_string_lossy().to_string()).as_deref() {
            Some("glog") => sfile::MemberKind::Glog,
            Some("xlog") => sfile::MemberKind::Xlog,
            _ => sfile::MemberKind::Ignored,
        }
    };
    (kind, stem)
}

#[test]
fn kinds_of_many_members() {
    let folders = ["", "RDS/", "RDS/sub/", "rds/", "logs/", "a.b/", "RDSX/", "x/RDS/"];
    let stems = ["contr_Foo", "ScanLib_1", "ScanLib", "rds", "a.b", ".hidden", "Jobs.2", "ü"];
    let extensions = ["", ".glog", ".xlog", ".log", ".GLOG", ".txt", ".", ".log.bak"];
    let mut dice = Dice(23);
    for _ in 0..2000 {
        let name = format!(
            "{}{}{}",
            pick(&mut dice, &folders),
            pick(&mut dice, &stems),
            pick(&mut dice, &extensions)
        );
        let (kind, stem) = by_hand_kind(&name);
        assert_eq!(sfile::classify_member(&name), kind, "name: {:?}", name);
        assert_eq!(sfile::member_stem(&name), stem, "name: {:?}", name);
    }
}

// --- timestamps of sessions -------------------------------------------------

fn by_hand_adjust(entries: &mut Vec<Plain>) {
    let mut active_correction: Option<(u32, i64)> = None;
    for entry in entries.iter_mut().rev() {
        if let Some(session_id) = entry.session {
            if entry.message.starts_with("Setting EtherCAT time [delta = ")
                && (entry.message.ends_with(" ns].") || entry.message.ends_with(" ns]"))
            {
                let delta = entry.message.split(' ').nth(5).unwrap();
                if let Ok(delta) = delta.parse::<i64>() {
                    active_correction = Some((session_id, delta));
                } else {
                    active_correction = None;
                }
            } else if let Some((session, delta)) = active_correction {
                if session_id == session {
                    let timestamp =
                        DateTime::from_timestamp(entry.timestamp.secs, entry.timestamp.nanos)
                            .unwrap();
                    if timestamp < DateTime::from_timestamp(978_300_000, 0).unwrap() {
                        let ticks = (timestamp.timestamp() + 62_135_596_800) as i128 * 10_000_000
                            + (timestamp.timestamp_subsec_nanos() / 100) as i128
                            + (delta / 100) as i128;
                        if ticks >= 621_355_968_000_000_000 && ticks <= u64::MAX as i128 {
                            if let Some(corrected) = by_hand_from_100ns(ticks as u64) {
                                entry.timestamp = corrected;
                            }
                        }
                    }
                } else {
                    active_correction = None;
                }
            }
        } else {
            active_correction = None;
        }
    }
}

#[test]
fn timestamps_of_many_sessions() {
    let messages = [
        "boot",
        "running",
        "Setting EtherCAT time [delta = 1562060032100954112 ns].",
        "Setting EtherCAT time [delta = 1562060032100954112 ns]",
        "Setting EtherCAT time [delta = -150 ns].",
        "Setting EtherCAT time [delta = -9223372036854775808 ns]",
        "Setting EtherCAT time [delta = 9223372036854775807 ns]",
        "Setting EtherCAT time [delta = 9223372036854775808 ns]",
        "Setting EtherCAT time [delta = ns]",
        "Setting EtherCAT time [delta = 5 ms]",
        "Setting EtherCAT time [delta =  7 ns]",
        "Setting EtherCAT time [delta = 99 and more ns].",
        "setting EtherCAT time [delta = 5 ns]",
        "Setting EtherCAT time [delta = ١٢ ns]",
    ];
    let mut dice = Dice(29);
    for _ in 0..500 {
        let mut plain = Vec::new();
        let mut entries = Vec::new();
        for _ in 0..roll(&mut dice, 12) {
            let secs = [0i64, 5, 100, 978_299_999, 978_300_000, 1_600_000_000][roll(&mut dice, 6)];
            let nanos = [0u32, 99, 100, 999_999_999][roll(&mut dice, 4)];
            let session = [None, Some(1u32), Some(1), Some(2)][roll(&mut dice, 4)];
            let message = pick(&mut dice, &messages);
            plain.push(Plain {
                timestamp: Timestamp { secs, nanos },
                severity: LogLevel::Info,
                message: message.to_string(),
                session,
            });
            let mut entry = LogEntry {
                timestamp: Timestamp { secs, nanos },
                severity: LogLevel::Info,
                message: message.to_string(),
                custom_fields: Vec::new(),
            };
            if let Some(session) = session {
                entry.set_custom_field("SessionId", sherlog::model::CustomField::UInt32(session));
            }
            entries.push(entry);
        }
        let mut source =
            LogSource { name: "s".to_string(), children: LogSourceContents::Entries(entries) };
        sfile::adjust_sensor_timestamps(&mut source);
        by_hand_adjust(&mut plain);
        assert_eq!(entries_of(source), plain);
    }
}
