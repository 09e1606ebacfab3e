//! The unit-delimited format: every line is a record, its units are parted
//! by the character U+02EB, and in each unit the character U+02E9 parts the
//! header from the value.

use vstd::prelude::*;
use vstd::slice::slice_subrange;
use vstd::utf8::{decode_utf8, valid_utf8};
use crate::model::{
    default_entry, entry_views, LogEntry, LogEntryView, LogLevel, LogSource, LogSourceContents,
    LogSourceContentsView, LogSourceView,
};
use crate::parse::datetime_utils::{from_100ns, spec_from_100ns};
use crate::text::{
    find_byte, find_pair, lossy_string, parse_u64, spec_find_byte, spec_find_pair,
    spec_parse_u64, str_eq, str_from_utf8, utf8_lossy,
};

verus! {

/// The first byte of both separators in UTF-8.
pub const SEPARATOR_LEAD: u8 = 0xcb;

/// The second byte of U+02EB, which parts the units of a record.
pub const UNIT_SEPARATOR: u8 = 0xab;

/// The second byte of U+02E9, which parts header and value of a unit.
pub const HEADER_SEPARATOR: u8 = 0xa9;

/// Line feed, which ends a record.
pub const LF: u8 = 10;

/// Carriage return, which may stand before a line feed.
pub const CR: u8 = 13;

/// The header `<T>` of the unit that holds the timestamp.
pub open spec fn timestamp_header() -> Seq<u8> {
    seq![60u8, 84u8, 62u8]
}

/// The header `<L>` of the unit that holds the severity.
pub open spec fn severity_header() -> Seq<u8> {
    seq![60u8, 76u8, 62u8]
}

/// The header `<M>` of the unit that holds the message.
pub open spec fn message_header() -> Seq<u8> {
    seq![60u8, 77u8, 62u8]
}

/// The severities of the format.
#[derive(Clone, Copy, Debug, PartialEq, Eq, Structural)]
pub enum XlogSeverity {
    AppStart,
    AppStop,
    Info,
    Warning,
    Error,
    Exception,
    Debug,
}

impl XlogSeverity {
    /// The severity that a word stands for.
    pub open spec fn spec_from_str(value: Seq<char>) -> Option<XlogSeverity> {
        if value == "AppStart"@ {
            Some(XlogSeverity::AppStart)
        } else if value == "AppStop"@ {
            Some(XlogSeverity::AppStop)
        } else if value == "Info"@ {
            Some(XlogSeverity::Info)
        } else if value == "Warning"@ {
            Some(XlogSeverity::Warning)
        } else if value == "Error"@ {
            Some(XlogSeverity::Error)
        } else if value == "Exception"@ {
            Some(XlogSeverity::Exception)
        } else if value == "Debug"@ {
            Some(XlogSeverity::Debug)
        } else {
            None
        }
    }

    /// The severity that a word stands for, if it stands for one.
    pub fn from_str(value: &str) -> (r: Option<XlogSeverity>)
        ensures
            r == Self::spec_from_str(value@),
    {
        if str_eq(value, "AppStart") {
            Some(XlogSeverity::AppStart)
        } else if str_eq(value, "AppStop") {
            Some(XlogSeverity::AppStop)
        } else if str_eq(value, "Info") {
            Some(XlogSeverity::Info)
        } else if str_eq(value, "Warning") {
            Some(XlogSeverity::Warning)
        } else if str_eq(value, "Error") {
            Some(XlogSeverity::Error)
        } else if str_eq(value, "Exception") {
            Some(XlogSeverity::Exception)
        } else if str_eq(value, "Debug") {
            Some(XlogSeverity::Debug)
        } else {
            None
        }
    }
}

/// The level that a severity of the format is shown as. The start and the
/// stop of an application are shown as `Info`, an exception as `Error`.
pub open spec fn spec_normalize_xlog_sev(xlog_sev: XlogSeverity) -> LogLevel {
    match xlog_sev {
        XlogSeverity::AppStart => LogLevel::Info,
        XlogSeverity::AppStop => LogLevel::Info,
        XlogSeverity::Info => LogLevel::Info,
        XlogSeverity::Warning => LogLevel::Warning,
        XlogSeverity::Error => LogLevel::Error,
        XlogSeverity::Exception => LogLevel::Error,
        XlogSeverity::Debug => LogLevel::Debug,
    }
}

/// The level that a severity of the format is shown as.
pub fn normalize_xlog_sev(xlog_sev: XlogSeverity) -> (r: LogLevel)
    ensures
        r == spec_normalize_xlog_sev(xlog_sev),
{
    match xlog_sev {
        XlogSeverity::AppStart => LogLevel::Info,
        XlogSeverity::AppStop => LogLevel::Info,
        XlogSeverity::Info => LogLevel::Info,
        XlogSeverity::Warning => LogLevel::Warning,
        XlogSeverity::Error => LogLevel::Error,
        XlogSeverity::Exception => LogLevel::Error,
        XlogSeverity::Debug => LogLevel::Debug,
    }
}

/// The entry after the unit `unit` was read into it. A unit without a
/// separator, with a header that is not known or with a value that cannot be
/// read leaves the entry as it was.
pub open spec fn spec_apply_unit(entry: LogEntryView, unit: Seq<u8>) -> LogEntryView {
    let offset = spec_find_pair(unit, 0, SEPARATOR_LEAD, HEADER_SEPARATOR);
    if 0 <= offset && offset + 2 <= unit.len() {
        let header = unit.subrange(0, offset);
        let value = unit.subrange(offset + 2, unit.len() as int);
        if header == timestamp_header() {
            match spec_parse_u64(value) {
                Some(ticks) => match spec_from_100ns(ticks) {
                    Some(timestamp) => LogEntryView { timestamp, ..entry },
                    None => entry,
                },
                None => entry,
            }
        } else if header == severity_header() {
            if valid_utf8(value) {
                match XlogSeverity::spec_from_str(decode_utf8(value)) {
                    Some(severity) => LogEntryView {
                        severity: spec_normalize_xlog_sev(severity),
                        ..entry
                    },
                    None => entry,
                }
            } else {
                entry
            }
        } else if header == message_header() {
            LogEntryView { message: utf8_lossy(value), ..entry }
        } else {
            entry
        }
    } else {
        entry
    }
}

/// The entry after the units of `line` from `pos` on were read into it.
pub open spec fn spec_apply_units(line: Seq<u8>, pos: int, entry: LogEntryView) -> LogEntryView
    decreases line.len() - pos,
{
    if !(0 <= pos <= line.len()) {
        entry
    } else {
        let end = spec_find_pair(line, pos, SEPARATOR_LEAD, UNIT_SEPARATOR);
        let read = spec_apply_unit(entry, line.subrange(pos, end));
        if pos <= end && end + 2 <= line.len() {
            spec_apply_units(line, end + 2, read)
        } else {
            read
        }
    }
}

/// The entry that a line stands for.
pub open spec fn spec_parse_line(line: Seq<u8>) -> LogEntryView {
    spec_apply_units(line, 0, default_entry())
}

/// The entries of the lines of `bytes` from `pos` on, behind `done`. A line
/// ends with a line feed, before which a carriage return is dropped, or at
/// the end of the input.
pub open spec fn spec_lines(bytes: Seq<u8>, pos: int, done: Seq<LogEntryView>) -> Seq<
    LogEntryView,
>
    decreases bytes.len() - pos,
{
    if !(0 <= pos < bytes.len()) {
        done
    } else {
        let end = spec_find_byte(bytes, pos, LF);
        if pos <= end < bytes.len() {
            let line_end = if end > pos && bytes[end - 1] == CR {
                end - 1
            } else {
                end
            };
            spec_lines(bytes, end + 1, done.push(spec_parse_line(bytes.subrange(pos, line_end))))
        } else {
            done.push(spec_parse_line(bytes.subrange(pos, bytes.len() as int)))
        }
    }
}

/// The entries of a log in the unit-delimited format.
pub open spec fn spec_xlog_entries(bytes: Seq<u8>) -> Seq<LogEntryView> {
    spec_lines(bytes, 0, Seq::empty())
}

/// Whether `header` is `<` and `>` around the letter `letter`.
fn is_header(header: &[u8], letter: u8) -> (r: bool)
    ensures
        r == (header@ == seq![60u8, letter, 62u8]),
{
    if header.len() == 3 && header[0] == 60 && header[1] == letter && header[2] == 62 {
        assert(header@ =~= seq![60u8, letter, 62u8]);
        true
    } else {
        assert(header@ != seq![60u8, letter, 62u8]) by {
            let expected = seq![60u8, letter, 62u8];
            assert(expected.len() == 3);
            assert(expected[0] == 60 && expected[1] == letter && expected[2] == 62);
        }
        false
    }
}

/// Reads one unit into the entry.
fn apply_unit(entry: &mut LogEntry, unit: &[u8])
    ensures
        final(entry)@ == spec_apply_unit(old(entry)@, unit@),
{
    let offset = find_pair(unit, 0, SEPARATOR_LEAD, HEADER_SEPARATOR);
    if offset < unit.len() {
        let unit_header = slice_subrange(unit, 0, offset);
        let unit_value = slice_subrange(unit, offset + 2, unit.len());
        if is_header(unit_header, 84) {
            if let Some(gcom_datetime) = parse_u64(unit_value) {
                if let Some(datetime) = from_100ns(gcom_datetime) {
                    entry.timestamp = datetime;
                }
            }
        } else if is_header(unit_header, 76) {
            if let Some(text) = str_from_utf8(unit_value) {
                if let Some(xlog_sev) = XlogSeverity::from_str(text) {
                    entry.severity = normalize_xlog_sev(xlog_sev);
                }
            }
        } else if is_header(unit_header, 77) {
            entry.message = lossy_string(unit_value);
        }
    }
}

/// Reads one line, without its line break, into an entry.
pub fn parse_line(line: &[u8]) -> (r: LogEntry)
    ensures
        r@ == spec_parse_line(line@),
{
    let mut log_entry = LogEntry::default();
    let mut pos: usize = 0;
    loop
        invariant
            pos <= line.len(),
            spec_parse_line(line@) == spec_apply_units(line@, pos as int, log_entry@),
        decreases line.len() - pos,
    {
        let end = find_pair(line, pos, SEPARATOR_LEAD, UNIT_SEPARATOR);
        apply_unit(&mut log_entry, slice_subrange(line, pos, end));
        if end < line.len() {
            pos = end + 2;
        } else {
            return log_entry;
        }
    }
}

/// Reads the entries of a log in the unit-delimited format.
pub fn parse_entries(bytes: &[u8]) -> (r: Vec<LogEntry>)
    ensures
        entry_views(r@) == spec_xlog_entries(bytes@),
{
    let mut log_entries: Vec<LogEntry> = Vec::new();
    let mut pos: usize = 0;
    assert(entry_views(log_entries@) =~= Seq::<LogEntryView>::empty());
    while pos < bytes.len()
        invariant
            pos <= bytes.len(),
            spec_xlog_entries(bytes@) == spec_lines(
                bytes@,
                pos as int,
                entry_views(log_entries@),
            ),
        decreases bytes.len() - pos,
    {
        let end = find_byte(bytes, pos, LF);
        let ghost before = log_entries@;
        if end < bytes.len() {
            let line_end: usize = if end > pos && bytes[end - 1] == CR {
                end - 1
            } else {
                end
            };
            let log_entry = parse_line(slice_subrange(bytes, pos, line_end));
            log_entries.push(log_entry);
            assert(entry_views(log_entries@) =~= entry_views(before).push(log_entry@));
            pos = end + 1;
        } else {
            let log_entry = parse_line(slice_subrange(bytes, pos, bytes.len()));
            log_entries.push(log_entry);
            assert(entry_views(log_entries@) =~= entry_views(before).push(log_entry@));
            return log_entries;
        }
    }
    log_entries
}

/// Reads a whole log in the unit-delimited format into `root`.
pub fn to_log_entries(bytes: &[u8], root: LogSource) -> (r: LogSource)
    ensures
        r@ == (LogSourceView {
            name: root@.name,
            children: LogSourceContentsView::Entries(spec_xlog_entries(bytes@)),
        }),
{
    let mut root = root;
    root.children = LogSourceContents::Entries(parse_entries(bytes));
    root
}

} // verus!
