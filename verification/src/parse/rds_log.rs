//! The token-pipe format: a record is a date and time, an optional error
//! code, a severity, a log source and a message, parted by `|`. A message
//! runs over every following line that does not begin with a date and time.

use vstd::prelude::*;
use vstd::slice::slice_subrange;
use vstd::utf8::{decode_utf8, valid_utf8};
use crate::model::{
    default_entry, entry_views, LogEntry, LogEntryView, LogLevel, LogSource, LogSourceContents,
    LogSourceContentsView, LogSourceView, Timestamp,
};
use crate::parse::datetime_utils::{calendar_parse, parsed_datetime};
use crate::text::{
    find_byte, find_either, lemma_find_either, lossy_string,
    parse_u32, skip_whitespace, spec_find_byte, spec_find_either, spec_parse_u32,
    spec_skip_whitespace, str_eq, str_from_utf8, utf8_lossy,
};

verus! {

/// `|`, which ends a field.
pub const PIPE: u8 = 124;

/// Line feed, which ends a line.
pub const LF: u8 = 10;

/// Carriage return, which may stand before a line feed.
pub const CR: u8 = 13;

/// The format of the date and time of a record.
pub open spec fn rds_datetime_format() -> Seq<char> {
    "%Y-%m-%d %H:%M:%S%.f"@
}

/// The timestamp that a text in the format of the records stands for. The
/// time is taken as UTC.
pub open spec fn spec_parse_rds_datetime(text: Seq<char>) -> Option<Timestamp> {
    match parsed_datetime(text, rds_datetime_format()) {
        Some((secs, nanos)) => Some(Timestamp { secs, nanos }),
        None => None,
    }
}

/// Reads the date and time of a record.
pub fn parse_rds_datetime(dt_string: &str) -> (r: Option<Timestamp>)
    ensures
        r == spec_parse_rds_datetime(dt_string@),
{
    match calendar_parse(dt_string, "%Y-%m-%d %H:%M:%S%.f") {
        Some((secs, nanos)) => Some(Timestamp { secs, nanos }),
        None => None,
    }
}

/// The severities of the format.
#[derive(Clone, Copy, Debug, PartialEq, Eq, Structural)]
pub enum RdsLogSeverity {
    Fatal,
    Error,
    Warning,
    Info,
    Debug,
    Trace,
}

impl RdsLogSeverity {
    /// The severity that a word stands for. Each severity is written in
    /// lower case, capitalized or in upper case, and `Fatal` in lower case is
    /// `critical`.
    pub open spec fn spec_from_str(value: Seq<char>) -> Option<RdsLogSeverity> {
        if value == "critical"@ || value == "Fatal"@ || value == "FATAL"@ {
            Some(RdsLogSeverity::Fatal)
        } else if value == "error"@ || value == "Error"@ || value == "ERROR"@ {
            Some(RdsLogSeverity::Error)
        } else if value == "warn"@ || value == "Warn"@ || value == "WARN"@ {
            Some(RdsLogSeverity::Warning)
        } else if value == "info"@ || value == "Info"@ || value == "INFO"@ {
            Some(RdsLogSeverity::Info)
        } else if value == "debug"@ || value == "Debug"@ || value == "DEBUG"@ {
            Some(RdsLogSeverity::Debug)
        } else if value == "trace"@ || value == "Trace"@ || value == "TRACE"@ {
            Some(RdsLogSeverity::Trace)
        } else {
            None
        }
    }

    /// The severity that a word stands for, if it stands for one.
    pub fn from_str(value: &str) -> (r: Option<RdsLogSeverity>)
        ensures
            r == Self::spec_from_str(value@),
    {
        if str_eq(value, "critical") || str_eq(value, "Fatal") || str_eq(value, "FATAL") {
            Some(RdsLogSeverity::Fatal)
        } else if str_eq(value, "error") || str_eq(value, "Error") || str_eq(value, "ERROR") {
            Some(RdsLogSeverity::Error)
        } else if str_eq(value, "warn") || str_eq(value, "Warn") || str_eq(value, "WARN") {
            Some(RdsLogSeverity::Warning)
        } else if str_eq(value, "info") || str_eq(value, "Info") || str_eq(value, "INFO") {
            Some(RdsLogSeverity::Info)
        } else if str_eq(value, "debug") || str_eq(value, "Debug") || str_eq(value, "DEBUG") {
            Some(RdsLogSeverity::Debug)
        } else if str_eq(value, "trace") || str_eq(value, "Trace") || str_eq(value, "TRACE") {
            Some(RdsLogSeverity::Trace)
        } else {
            None
        }
    }
}

/// The level that a severity of the format is shown as.
pub open spec fn spec_normalize_rds_log_sev(rds_log_sev: RdsLogSeverity) -> LogLevel {
    match rds_log_sev {
        RdsLogSeverity::Fatal => LogLevel::Critical,
        RdsLogSeverity::Error => LogLevel::Error,
        RdsLogSeverity::Warning => LogLevel::Warning,
        RdsLogSeverity::Info => LogLevel::Info,
        RdsLogSeverity::Debug => LogLevel::Debug,
        RdsLogSeverity::Trace => LogLevel::Trace,
    }
}

/// The level that a severity of the format is shown as.
pub fn normalize_rds_log_sev(rds_log_sev: RdsLogSeverity) -> (r: LogLevel)
    ensures
        r == spec_normalize_rds_log_sev(rds_log_sev),
{
    match rds_log_sev {
        RdsLogSeverity::Fatal => LogLevel::Critical,
        RdsLogSeverity::Error => LogLevel::Error,
        RdsLogSeverity::Warning => LogLevel::Warning,
        RdsLogSeverity::Info => LogLevel::Info,
        RdsLogSeverity::Debug => LogLevel::Debug,
        RdsLogSeverity::Trace => LogLevel::Trace,
    }
}

/// What the parser expects next.
#[derive(Clone, Copy, Debug, PartialEq, Eq, Structural)]
pub enum RdsLogParserState {
    /// The date and time of the first record.
    ExpectDatetime,
    /// An error code, which some logs leave out, or the severity.
    ExpectErrcodeOrSeverity,
    ExpectSeverity,
    ExpectLogSource,
    /// The first line of the message.
    ExpectMessage,
    /// Either the date and time of the next record or one more piece of the
    /// message: the format does not mark where a message ends.
    ExpectDatetimeTentative,
}

/// The entry with another message.
pub open spec fn with_message(entry: LogEntryView, message: Seq<char>) -> LogEntryView {
    LogEntryView { message, ..entry }
}

/// The entry and the state after a field before the message was read. A
/// field that is not valid UTF-8, or that cannot be read as what it should
/// hold, leaves the entry as it was. Where a severity is expected after the
/// date and time, a number after optional white space is taken for an error
/// code and passed over, and anything that is no severity either is passed
/// over like it.
pub open spec fn spec_header_field(
    state: RdsLogParserState,
    entry: LogEntryView,
    field: Seq<u8>,
) -> (LogEntryView, RdsLogParserState) {
    match state {
        RdsLogParserState::ExpectDatetime => (
            if valid_utf8(field) {
                match spec_parse_rds_datetime(decode_utf8(field)) {
                    Some(timestamp) => LogEntryView { timestamp, ..entry },
                    None => entry,
                }
            } else {
                entry
            },
            RdsLogParserState::ExpectErrcodeOrSeverity,
        ),
        RdsLogParserState::ExpectErrcodeOrSeverity => {
            if !valid_utf8(field) {
                (entry, RdsLogParserState::ExpectSeverity)
            } else if spec_parse_u32(
                field.subrange(spec_skip_whitespace(field, 0), field.len() as int),
            ) is Some {
                (entry, RdsLogParserState::ExpectSeverity)
            } else {
                match RdsLogSeverity::spec_from_str(decode_utf8(field)) {
                    Some(severity) => (
                        LogEntryView { severity: spec_normalize_rds_log_sev(severity), ..entry },
                        RdsLogParserState::ExpectLogSource,
                    ),
                    None => (entry, RdsLogParserState::ExpectSeverity),
                }
            }
        },
        RdsLogParserState::ExpectSeverity => (
            if valid_utf8(field) {
                match RdsLogSeverity::spec_from_str(decode_utf8(field)) {
                    Some(severity) => LogEntryView {
                        severity: spec_normalize_rds_log_sev(severity),
                        ..entry
                    },
                    None => entry,
                }
            } else {
                entry
            },
            RdsLogParserState::ExpectLogSource,
        ),
        _ => (entry, RdsLogParserState::ExpectMessage),
    }
}

/// The end of a message that lies from `start` to `end` when the date and
/// time of the next record follows: a line feed at the end is cut off, and
/// then a carriage return at the end.
pub open spec fn spec_message_end(bytes: Seq<u8>, start: int, end: int) -> int {
    let without_lf = if bytes[end - 1] == LF {
        end - 1
    } else {
        end
    };
    let last = if without_lf > start {
        without_lf - 1
    } else {
        start
    };
    if bytes[last] == CR {
        last
    } else {
        without_lf
    }
}

/// The entries that the parser gives from the state `state` on, when it has
/// finished the entries `done`, holds `entry`, has read the input up to
/// `pos` and keeps the bytes from `start` on for the message.
///
/// At the end of the input the record that has begun is finished with what
/// was read of it.
pub open spec fn spec_run(
    bytes: Seq<u8>,
    state: RdsLogParserState,
    start: int,
    pos: int,
    entry: LogEntryView,
    done: Seq<LogEntryView>,
) -> Seq<LogEntryView>
    decreases bytes.len() - pos,
{
    if !(0 <= start <= pos <= bytes.len()) {
        done
    } else if state == RdsLogParserState::ExpectMessage {
        let end = spec_find_byte(bytes, pos, LF);
        if pos <= end < bytes.len() {
            spec_run(bytes, RdsLogParserState::ExpectDatetimeTentative, pos, end + 1, entry, done)
        } else {
            done.push(with_message(entry, utf8_lossy(bytes.subrange(pos, bytes.len() as int))))
        }
    } else if state == RdsLogParserState::ExpectDatetimeTentative {
        let end = spec_find_either(bytes, pos, PIPE, LF);
        if !(pos <= end < bytes.len()) || start == pos {
            done.push(with_message(entry, utf8_lossy(bytes.subrange(start, bytes.len() as int))))
        } else if bytes[end] == LF {
            spec_run(bytes, state, start, end + 1, entry, done)
        } else {
            let candidate = bytes.subrange(pos - 1, end);
            if !valid_utf8(candidate) {
                spec_run(
                    bytes,
                    RdsLogParserState::ExpectErrcodeOrSeverity,
                    end + 1,
                    end + 1,
                    entry,
                    done,
                )
            } else {
                match spec_parse_rds_datetime(decode_utf8(candidate)) {
                    Some(timestamp) => spec_run(
                        bytes,
                        RdsLogParserState::ExpectErrcodeOrSeverity,
                        end + 1,
                        end + 1,
                        LogEntryView { timestamp, ..default_entry() },
                        done.push(
                            with_message(
                                entry,
                                utf8_lossy(
                                    bytes.subrange(start, spec_message_end(bytes, start, pos)),
                                ),
                            ),
                        ),
                    ),
                    None => spec_run(bytes, state, start, end + 1, entry, done),
                }
            }
        }
    } else if pos == bytes.len() {
        if state == RdsLogParserState::ExpectDatetime {
            done
        } else {
            done.push(entry)
        }
    } else {
        let end = spec_find_byte(bytes, pos, PIPE);
        let (read, next) = spec_header_field(state, entry, bytes.subrange(pos, end));
        if pos <= end < bytes.len() {
            spec_run(bytes, next, end + 1, end + 1, read, done)
        } else {
            done.push(read)
        }
    }
}

/// The entries of a log in the token-pipe format.
pub open spec fn spec_rds_entries(bytes: Seq<u8>) -> Seq<LogEntryView> {
    spec_run(bytes, RdsLogParserState::ExpectDatetime, 0, 0, default_entry(), Seq::empty())
}

/// The first `|` or line feed at or after `from`, or the end of the input.
pub fn read_until_pipe_or_newline(bytes: &[u8], from: usize) -> (end: usize)
    requires
        from <= bytes.len(),
    ensures
        end == spec_find_either(bytes@, from as int, PIPE, LF),
        from <= end <= bytes.len(),
{
    find_either(bytes, from, PIPE, LF)
}

/// Reads a field before the message into the entry.
fn header_field(state: RdsLogParserState, entry: &mut LogEntry, field: &[u8]) -> (next:
    RdsLogParserState)
    requires
        state != RdsLogParserState::ExpectMessage,
        state != RdsLogParserState::ExpectDatetimeTentative,
    ensures
        (final(entry)@, next) == spec_header_field(state, old(entry)@, field@),
{
    let text = str_from_utf8(field);
    match state {
        RdsLogParserState::ExpectDatetime => {
            if let Some(text) = text {
                with_timestamp(entry, parse_rds_datetime(text));
            }
            RdsLogParserState::ExpectErrcodeOrSeverity
        },
        RdsLogParserState::ExpectErrcodeOrSeverity => {
            match text {
                None => RdsLogParserState::ExpectSeverity,
                Some(text) => {
                    let begin = skip_whitespace(field);
                    if parse_u32(slice_subrange(field, begin, field.len())).is_some() {
                        RdsLogParserState::ExpectSeverity
                    } else if let Some(rds_log_sev) = RdsLogSeverity::from_str(text) {
                        entry.severity = normalize_rds_log_sev(rds_log_sev);
                        RdsLogParserState::ExpectLogSource
                    } else {
                        RdsLogParserState::ExpectSeverity
                    }
                },
            }
        },
        RdsLogParserState::ExpectSeverity => {
            if let Some(text) = text {
                if let Some(rds_log_sev) = RdsLogSeverity::from_str(text) {
                    entry.severity = normalize_rds_log_sev(rds_log_sev);
                }
            }
            RdsLogParserState::ExpectLogSource
        },
        _ => RdsLogParserState::ExpectMessage,
    }
}

/// Where a message from `start` to `end` ends when the next record follows.
fn message_end(bytes: &[u8], start: usize, end: usize) -> (r: usize)
    requires
        start < end <= bytes.len(),
    ensures
        r == spec_message_end(bytes@, start as int, end as int),
        start <= r <= end,
{
    let without_lf: usize = if bytes[end - 1] == LF {
        end - 1
    } else {
        end
    };
    let last: usize = if without_lf > start {
        without_lf - 1
    } else {
        start
    };
    if bytes[last] == CR {
        last
    } else {
        without_lf
    }
}

/// The entry with the timestamp that was read for it, if one was read.
pub open spec fn spec_with_timestamp(entry: LogEntryView, parsed: Option<Timestamp>) -> LogEntryView {
    match parsed {
        Some(timestamp) => LogEntryView { timestamp, ..entry },
        None => entry,
    }
}

/// Gives the entry the timestamp that was read for it. A date and time
/// that could not be read leaves the entry as it is.
pub fn with_timestamp(entry: &mut LogEntry, parsed: Option<Timestamp>)
    ensures
        final(entry)@ == spec_with_timestamp(old(entry)@, parsed),
{
    match parsed {
        Some(timestamp) => {
            entry.timestamp = timestamp;
        },
        None => {},
    }
}

/// Ends the record that is being read with the message `message`, puts it
/// behind `done`, and begins the record of the time `timestamp`.
pub fn finish_record(
    done: &mut Vec<LogEntry>,
    entry: &mut LogEntry,
    message: String,
    timestamp: Timestamp,
)
    ensures
        entry_views(final(done)@) == entry_views(old(done)@).push(
            with_message(old(entry)@, message@),
        ),
        final(entry)@ == (LogEntryView { timestamp, ..default_entry() }),
{
    let mut finished = LogEntry::default();
    finished.timestamp = timestamp;
    std::mem::swap(entry, &mut finished);
    finished.message = message;
    done.push(finished);
    assert(entry_views(done@) =~= entry_views(old(done)@).push(finished@));
    assert(entry@ =~= (LogEntryView { timestamp, ..default_entry() }));
}

/// Decides what the beginning of a line is, of which `parsed` was read as
/// a date and time: with a date and time a new record begins, and the record
/// before it ends with the message `message`; without one the line goes on
/// with the message. Returns whether a new record has begun.
pub fn next_record(
    done: &mut Vec<LogEntry>,
    entry: &mut LogEntry,
    message: &[u8],
    parsed: Option<Timestamp>,
) -> (started: bool)
    ensures
        started == parsed is Some,
        parsed matches Some(timestamp) ==> entry_views(final(done)@) == entry_views(
            old(done)@,
        ).push(with_message(old(entry)@, utf8_lossy(message@))) && final(entry)@ == (LogEntryView {
            timestamp,
            ..default_entry()
        }),
        parsed is None ==> final(done)@ == old(done)@ && *final(entry) == *old(entry),
{
    match parsed {
        Some(timestamp) => {
            finish_record(done, entry, lossy_string(message), timestamp);
            true
        },
        None => false,
    }
}

/// Finishes `entry` with the message `message` and puts it behind `done`.
fn push_entry(done: &mut Vec<LogEntry>, entry: LogEntry, message: &[u8])
    ensures
        entry_views(final(done)@) == entry_views(old(done)@).push(
            with_message(entry@, utf8_lossy(message@)),
        ),
{
    let mut entry = entry;
    entry.message = lossy_string(message);
    done.push(entry);
    assert(entry_views(done@) =~= entry_views(old(done)@).push(entry@));
}

/// Reads the entries of a log in the token-pipe format.
pub fn parse_entries(bytes: &[u8]) -> (r: Vec<LogEntry>)
    ensures
        entry_views(r@) == spec_rds_entries(bytes@),
{
    let mut log_entries: Vec<LogEntry> = Vec::new();
    let mut log_entry = LogEntry::default();
    let mut state = RdsLogParserState::ExpectDatetime;
    let mut start: usize = 0;
    let mut pos: usize = 0;
    assert(entry_views(log_entries@) =~= Seq::<LogEntryView>::empty());
    loop
        invariant
            start <= pos <= bytes.len(),
            spec_rds_entries(bytes@) == spec_run(
                bytes@,
                state,
                start as int,
                pos as int,
                log_entry@,
                entry_views(log_entries@),
            ),
        decreases bytes.len() - pos,
    {
        match state {
            RdsLogParserState::ExpectMessage => {
                let end = find_byte(bytes, pos, LF);
                if end < bytes.len() {
                    start = pos;
                    pos = end + 1;
                    state = RdsLogParserState::ExpectDatetimeTentative;
                } else {
                    push_entry(
                        &mut log_entries,
                        log_entry,
                        slice_subrange(bytes, pos, bytes.len()),
                    );
                    return log_entries;
                }
            },
            RdsLogParserState::ExpectDatetimeTentative => {
                let end = read_until_pipe_or_newline(bytes, pos);
                proof {
                    lemma_find_either(bytes@, pos as int, PIPE, LF);
                }
                if end >= bytes.len() || start == pos {
                    push_entry(
                        &mut log_entries,
                        log_entry,
                        slice_subrange(bytes, start, bytes.len()),
                    );
                    return log_entries;
                } else if bytes[end] == LF {
                    pos = end + 1;
                } else {
                    let candidate = str_from_utf8(slice_subrange(bytes, pos - 1, end));
                    match candidate {
                        None => {
                            state = RdsLogParserState::ExpectErrcodeOrSeverity;
                            pos = end + 1;
                            start = pos;
                        },
                        Some(dt_string) => {
                            let message_end = message_end(bytes, start, pos);
                            if next_record(
                                &mut log_entries,
                                &mut log_entry,
                                slice_subrange(bytes, start, message_end),
                                parse_rds_datetime(dt_string),
                            ) {
                                state = RdsLogParserState::ExpectErrcodeOrSeverity;
                                pos = end + 1;
                                start = pos;
                            } else {
                                pos = end + 1;
                            }
                        },
                    }
                }
            },
            _ => {
                if pos == bytes.len() {
                    if state != RdsLogParserState::ExpectDatetime {
                        let ghost before = log_entries@;
                        log_entries.push(log_entry);
                        assert(entry_views(log_entries@) =~= entry_views(before).push(
                            log_entry@,
                        ));
                    }
                    return log_entries;
                }
                let end = find_byte(bytes, pos, PIPE);
                let next = header_field(state, &mut log_entry, slice_subrange(bytes, pos, end));
                if end < bytes.len() {
                    state = next;
                    pos = end + 1;
                    start = pos;
                } else {
                    let ghost before = log_entries@;
                    log_entries.push(log_entry);
                    assert(entry_views(log_entries@) =~= entry_views(before).push(log_entry@));
                    return log_entries;
                }
            },
        }
    }
}

/// Reads a whole log in the token-pipe format into `root`.
pub fn to_log_entries(bytes: &[u8], root: LogSource) -> (r: LogSource)
    ensures
        r@ == (LogSourceView {
            name: root@.name,
            children: LogSourceContentsView::Entries(spec_rds_entries(bytes@)),
        }),
{
    let mut root = root;
    root.children = LogSourceContents::Entries(parse_entries(bytes));
    root
}

} // verus!
