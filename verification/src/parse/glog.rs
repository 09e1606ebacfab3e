//! The delimited-section format: an entry is a run of sections `[kind|value]`
//! that ends with `:` or a line break.

use vstd::prelude::*;
use vstd::slice::slice_subrange;
use vstd::string::StringExecFns;
use crate::model::{
    add_to_source, default_entry, distinct_leaves, entry_views, lemma_sorted_source_views,
    lemma_view_of_sources, source_order, source_views, spec_add_to_source, CustomField,
    CustomFieldView, LogEntry, LogEntryView, LogLevel, LogSource, LogSourceContents,
    LogSourceContentsView, LogSourceView,
};
use crate::parse::datetime_utils::{
    from_100ns, from_timestamp_ms, spec_from_100ns, spec_from_timestamp_ms,
};
use crate::sorting::{is_stable_sort, stable_sort};
use crate::text::{
    chars_of, decimal_chars, decimal_text, find_chars, first_occurrence, lossy_string, parse_i32,
    parse_u32, parse_u64, spec_parse_i32, spec_parse_u32, spec_parse_u64, string_from_chars,
    utf8_lossy,
};

verus! {

/// `[`, which opens a section.
pub const SECTION_OPEN: u8 = 91;

/// `]`, which closes a section.
pub const SECTION_CLOSE: u8 = 93;

/// `|`, which parts the kind of a section from its value.
pub const KIND_END: u8 = 124;

/// `:`, which may follow a section.
pub const COLON: u8 = 58;

/// Carriage return.
pub const CR: u8 = 13;

/// Line feed.
pub const LF: u8 = 10;

/// The letter `e`, the kind of an error code.
pub const LETTER_E: u8 = 101;

/// The letter `i`, the kind of the number of a sub-source.
pub const LETTER_I: u8 = 105;

/// The letter `m`, the kind of a message.
pub const LETTER_M: u8 = 109;

/// The letter `n`, the kind of a session.
pub const LETTER_N: u8 = 110;

/// The letter `q`, with which `t` names a timestamp in milliseconds.
pub const LETTER_Q: u8 = 113;

/// The letter `s`, the kind of a severity.
pub const LETTER_S: u8 = 115;

/// The letter `t`, the kind of a timestamp in ticks of 100 ns.
pub const LETTER_T: u8 = 116;

/// What a section holds, as its kind says.
#[derive(Clone, Copy, Debug, PartialEq, Eq, Structural)]
pub enum GlogSectionKind {
    TimestampMs,
    Severity,
    LogSource,
    Message,
    Timestamp100ns,
    ErrorCode,
    SessionId,
    Unknown,
}

/// Where the parser stands between two bytes.
#[derive(Clone, Copy, Debug, PartialEq, Eq, Structural)]
pub enum GlogParserState {
    /// Before a section: `[` opens one, line breaks are skipped.
    PreSection,
    /// In the kind of a section, up to `|`.
    SectionKind,
    /// In the value of a section, up to `]`.
    SectionValue(GlogSectionKind),
    /// After a `]`: `:`, `\r` or `\n` may end the section.
    SectionValuePost1(GlogSectionKind),
    /// After `]\r`: `\n` may end the section.
    SectionValuePost2(GlogSectionKind),
    /// After a section's end: `[` confirms it. Holds the count of bytes to
    /// cut from the end of the buffer, the `[` included, and whether the
    /// entry ends with the section.
    SectionValuePost3(GlogSectionKind, usize, bool),
}

/// The severities of the format, by their numbers 0 to 5.
#[derive(Clone, Copy, Debug, PartialEq, Eq, Structural)]
pub enum GlogSeverity {
    Critical,
    Hardware,
    Error,
    Warning,
    Info,
    Unclassified,
}

impl GlogSeverity {
    /// The severity with the number `value`.
    pub open spec fn spec_from_u32(value: u32) -> Option<GlogSeverity> {
        if value == 0 {
            Some(GlogSeverity::Critical)
        } else if value == 1 {
            Some(GlogSeverity::Hardware)
        } else if value == 2 {
            Some(GlogSeverity::Error)
        } else if value == 3 {
            Some(GlogSeverity::Warning)
        } else if value == 4 {
            Some(GlogSeverity::Info)
        } else if value == 5 {
            Some(GlogSeverity::Unclassified)
        } else {
            None
        }
    }

    /// The severity with the number `value`, if there is one.
    pub fn from_u32(value: u32) -> (r: Option<GlogSeverity>)
        ensures
            r == Self::spec_from_u32(value),
    {
        match value {
            0 => Some(GlogSeverity::Critical),
            1 => Some(GlogSeverity::Hardware),
            2 => Some(GlogSeverity::Error),
            3 => Some(GlogSeverity::Warning),
            4 => Some(GlogSeverity::Info),
            5 => Some(GlogSeverity::Unclassified),
            _ => None,
        }
    }
}

/// The level that a severity of the format is shown as. The severity `Unclassified`
/// (number 5) marks output of unknown severity and is shown as `Debug`, so that dumps
/// do not pass for critical errors.
pub open spec fn spec_normalize_glog_sev(glog_sev: GlogSeverity) -> LogLevel {
    match glog_sev {
        GlogSeverity::Critical => LogLevel::Critical,
        GlogSeverity::Hardware => LogLevel::Critical,
        GlogSeverity::Error => LogLevel::Error,
        GlogSeverity::Warning => LogLevel::Warning,
        GlogSeverity::Info => LogLevel::Info,
        GlogSeverity::Unclassified => LogLevel::Debug,
    }
}

/// The level that a severity of the format is shown as.
pub fn normalize_glog_sev(glog_sev: GlogSeverity) -> (r: LogLevel)
    ensures
        r == spec_normalize_glog_sev(glog_sev),
{
    match glog_sev {
        GlogSeverity::Critical => LogLevel::Critical,
        GlogSeverity::Hardware => LogLevel::Critical,
        GlogSeverity::Error => LogLevel::Error,
        GlogSeverity::Warning => LogLevel::Warning,
        GlogSeverity::Info => LogLevel::Info,
        GlogSeverity::Unclassified => LogLevel::Debug,
    }
}

/// The kind that the name of a section stands for.
pub open spec fn spec_section_kind(name: Seq<u8>) -> GlogSectionKind {
    if name == seq![LETTER_T, LETTER_Q] {
        GlogSectionKind::TimestampMs
    } else if name == seq![LETTER_S] {
        GlogSectionKind::Severity
    } else if name == seq![LETTER_I] {
        GlogSectionKind::LogSource
    } else if name == seq![LETTER_M] {
        GlogSectionKind::Message
    } else if name == seq![LETTER_E] {
        GlogSectionKind::ErrorCode
    } else if name == seq![LETTER_N] {
        GlogSectionKind::SessionId
    } else if name == seq![LETTER_T] {
        GlogSectionKind::Timestamp100ns
    } else {
        GlogSectionKind::Unknown
    }
}

/// The kind that the name of a section stands for.
pub fn section_kind(name: &[u8]) -> (r: GlogSectionKind)
    ensures
        r == spec_section_kind(name@),
{
    if name.len() == 2 {
        if name[0] == LETTER_T && name[1] == LETTER_Q {
            assert(name@ =~= seq![LETTER_T, LETTER_Q]);
            GlogSectionKind::TimestampMs
        } else {
            assert(name@ != seq![LETTER_T, LETTER_Q]) by {
                assert(seq![LETTER_T, LETTER_Q][0] == LETTER_T);
                assert(seq![LETTER_T, LETTER_Q][1] == LETTER_Q);
            }
            GlogSectionKind::Unknown
        }
    } else if name.len() == 1 {
        let c: u8 = name[0];
        assert(name@ =~= seq![c]);
        assert(forall|d: u8| (seq![c] == seq![d]) ==> c == d) by {
            assert forall|d: u8| (seq![c] == seq![d]) implies c == d by {
                assert(seq![c][0] == seq![d][0]);
            }
        }
        if c == LETTER_S {
            GlogSectionKind::Severity
        } else if c == LETTER_I {
            GlogSectionKind::LogSource
        } else if c == LETTER_M {
            GlogSectionKind::Message
        } else if c == LETTER_E {
            GlogSectionKind::ErrorCode
        } else if c == LETTER_N {
            GlogSectionKind::SessionId
        } else if c == LETTER_T {
            GlogSectionKind::Timestamp100ns
        } else {
            GlogSectionKind::Unknown
        }
    } else {
        GlogSectionKind::Unknown
    }
}

/// The name of the custom field that holds the session of an entry.
pub open spec fn session_field() -> Seq<char> {
    "SessionId"@
}

/// A parser of the format, fed byte by byte.
#[derive(Debug)]
pub struct GlogParser {
    pub state: GlogParserState,
    /// The bytes of the kind or value that is being read.
    pub buf: Vec<u8>,
    /// The entry that is being read.
    pub log_entry: LogEntry,
    /// The number of the sub-source that the entry names, if it names one.
    pub sub_source: Option<i32>,
    /// The finished entries that named no sub-source.
    pub log_entries: Vec<LogEntry>,
    /// The sub-sources by their names, each with its finished entries, in the
    /// order in which they first occurred.
    pub log_sources: Vec<LogSource>,
    /// The count of bytes met outside any section.
    pub invalid_bytes: usize,
    /// The source that takes the entries in the end.
    pub root: LogSource,
}

/// The mathematical value of a [`GlogParser`].
#[verifier::ext_equal]
pub struct GlogParserView {
    pub state: GlogParserState,
    pub buf: Seq<u8>,
    pub log_entry: LogEntryView,
    pub sub_source: Option<i32>,
    pub log_entries: Seq<LogEntryView>,
    pub log_sources: Seq<LogSourceView>,
    pub invalid_bytes: usize,
    pub root: LogSourceView,
}

impl View for GlogParser {
    type V = GlogParserView;

    open spec fn view(&self) -> GlogParserView {
        GlogParserView {
            state: self.state,
            buf: self.buf@,
            log_entry: self.log_entry@,
            sub_source: self.sub_source,
            log_entries: entry_views(self.log_entries@),
            log_sources: source_views(self.log_sources@),
            invalid_bytes: self.invalid_bytes,
            root: self.root@,
        }
    }
}

impl GlogParserView {
    /// The buffer holds what the state says it holds, every sub-source holds
    /// entries, and no two sub-sources share a name.
    pub open spec fn wf(self) -> bool {
        &&& self.state is SectionValuePost1 ==> self.buf.len() >= 1
        &&& self.state is SectionValuePost2 ==> self.buf.len() >= 2
        &&& self.state matches GlogParserState::SectionValuePost3(_, cutoff, _) ==> 1 <= cutoff
            <= self.buf.len() + 1
        &&& distinct_leaves(self.log_sources)
    }
}

/// The state after a byte that follows a `]`.
pub open spec fn spec_after_close(kind: GlogSectionKind, chr: u8) -> GlogParserState {
    if chr == COLON {
        GlogParserState::SectionValuePost3(kind, 3, false)
    } else if chr == CR {
        GlogParserState::SectionValuePost2(kind)
    } else if chr == LF {
        GlogParserState::SectionValuePost3(kind, 3, true)
    } else if chr == SECTION_CLOSE {
        GlogParserState::SectionValuePost1(kind)
    } else {
        GlogParserState::SectionValue(kind)
    }
}

/// The entry after a section of kind `kind` with the value `value` was read
/// into it. A value that cannot be read leaves the entry as it was.
pub open spec fn spec_apply_section(entry: LogEntryView, kind: GlogSectionKind, value: Seq<u8>)
    -> LogEntryView {
    match kind {
        GlogSectionKind::TimestampMs => match spec_parse_u64(value) {
            Some(ms) => match spec_from_timestamp_ms(ms) {
                Some(timestamp) => LogEntryView { timestamp, ..entry },
                None => entry,
            },
            None => entry,
        },
        GlogSectionKind::Severity => match spec_parse_u32(value) {
            Some(number) => match GlogSeverity::spec_from_u32(number) {
                Some(severity) => LogEntryView {
                    severity: spec_normalize_glog_sev(severity),
                    ..entry
                },
                None => entry,
            },
            None => entry,
        },
        GlogSectionKind::Message => LogEntryView { message: utf8_lossy(value), ..entry },
        GlogSectionKind::Timestamp100ns => match spec_parse_u64(value) {
            Some(ticks) => match spec_from_100ns(ticks) {
                Some(timestamp) => LogEntryView { timestamp, ..entry },
                None => entry,
            },
            None => entry,
        },
        GlogSectionKind::SessionId => match spec_parse_u32(value) {
            Some(session) => LogEntryView {
                custom_fields: entry.custom_fields.insert(
                    session_field(),
                    CustomFieldView::UInt32(session),
                ),
                ..entry
            },
            None => entry,
        },
        _ => entry,
    }
}

/// The sub-source that the entry names after a section was read.
pub open spec fn spec_apply_sub_source(
    sub_source: Option<i32>,
    kind: GlogSectionKind,
    value: Seq<u8>,
) -> Option<i32> {
    if kind == GlogSectionKind::LogSource {
        match spec_parse_i32(value) {
            Some(number) => Some(number),
            None => sub_source,
        }
    } else {
        sub_source
    }
}

/// The name under which the entries of a sub-source are filed: what the
/// message holds before its first `": "`, and where that is nothing, the
/// number of the sub-source in brackets after the word `Unknown`.
pub open spec fn spec_source_name(message: Seq<char>, sub_source: i32) -> Seq<char> {
    match first_occurrence(message, seq![':', ' '], 0) {
        Some(offset) => if offset > 0 {
            message.subrange(0, offset)
        } else {
            "Unknown ("@ + decimal_text(sub_source as int) + ")"@
        },
        None => "Unknown ("@ + decimal_text(sub_source as int) + ")"@,
    }
}

/// The parser after the entry that it holds was finished.
pub open spec fn spec_finish_entry(p: GlogParserView) -> GlogParserView {
    match p.sub_source {
        Some(number) => GlogParserView {
            log_entry: default_entry(),
            sub_source: None,
            log_sources: spec_add_to_source(
                p.log_sources,
                spec_source_name(p.log_entry.message, number),
                seq![p.log_entry],
            ),
            ..p
        },
        None => GlogParserView {
            log_entry: default_entry(),
            sub_source: None,
            log_entries: p.log_entries.push(p.log_entry),
            ..p
        },
    }
}

/// The parser after a section of kind `kind` was closed whose value is the
/// first `value_len` bytes of the buffer.
pub open spec fn spec_close_section(p: GlogParserView, kind: GlogSectionKind, value_len: int)
    -> GlogParserView {
    GlogParserView {
        state: GlogParserState::SectionKind,
        buf: Seq::empty(),
        log_entry: spec_apply_section(p.log_entry, kind, p.buf.subrange(0, value_len)),
        sub_source: spec_apply_sub_source(p.sub_source, kind, p.buf.subrange(0, value_len)),
        ..p
    }
}

/// The parser after the byte `chr`.
pub open spec fn spec_read_byte(p: GlogParserView, chr: u8) -> GlogParserView {
    match p.state {
        GlogParserState::PreSection => {
            if chr == SECTION_OPEN {
                GlogParserView { state: GlogParserState::SectionKind, ..p }
            } else if chr == CR || chr == LF {
                p
            } else if p.invalid_bytes < usize::MAX {
                GlogParserView { invalid_bytes: (p.invalid_bytes + 1) as usize, ..p }
            } else {
                p
            }
        },
        GlogParserState::SectionKind => {
            if chr == KIND_END {
                GlogParserView {
                    state: GlogParserState::SectionValue(spec_section_kind(p.buf)),
                    buf: Seq::empty(),
                    ..p
                }
            } else {
                GlogParserView { buf: p.buf.push(chr), ..p }
            }
        },
        GlogParserState::SectionValue(kind) => GlogParserView {
            state: if chr == SECTION_CLOSE {
                GlogParserState::SectionValuePost1(kind)
            } else {
                GlogParserState::SectionValue(kind)
            },
            buf: p.buf.push(chr),
            ..p
        },
        GlogParserState::SectionValuePost1(kind) => {
            if chr == SECTION_OPEN {
                spec_close_section(p, kind, p.buf.len() - 1)
            } else {
                GlogParserView { state: spec_after_close(kind, chr), buf: p.buf.push(chr), ..p }
            }
        },
        GlogParserState::SectionValuePost2(kind) => GlogParserView {
            state: if chr == LF {
                GlogParserState::SectionValuePost3(kind, 4, true)
            } else if chr == SECTION_CLOSE {
                GlogParserState::SectionValuePost1(kind)
            } else {
                GlogParserState::SectionValue(kind)
            },
            buf: p.buf.push(chr),
            ..p
        },
        GlogParserState::SectionValuePost3(kind, cutoff, entry_done) => {
            if chr == SECTION_OPEN {
                let read = spec_close_section(p, kind, p.buf.len() + 1 - cutoff);
                if entry_done {
                    spec_finish_entry(read)
                } else {
                    read
                }
            } else {
                GlogParserView {
                    state: if chr == SECTION_CLOSE {
                        GlogParserState::SectionValuePost1(kind)
                    } else {
                        GlogParserState::SectionValue(kind)
                    },
                    buf: p.buf.push(chr),
                    ..p
                }
            }
        },
    }
}

/// The parser after the bytes `bytes`, read one after the other.
pub open spec fn spec_read_bytes(p: GlogParserView, bytes: Seq<u8>) -> GlogParserView
    decreases bytes.len(),
{
    if bytes.len() == 0 {
        p
    } else {
        spec_read_byte(spec_read_bytes(p, bytes.drop_last()), bytes.last())
    }
}

/// The parser before the first byte.
pub open spec fn spec_new(root: LogSourceView) -> GlogParserView {
    GlogParserView {
        state: GlogParserState::PreSection,
        buf: Seq::empty(),
        log_entry: default_entry(),
        sub_source: None,
        log_entries: Seq::empty(),
        log_sources: Seq::empty(),
        invalid_bytes: 0,
        root,
    }
}

/// The parser after the end of the input. An entry that has begun is
/// finished with what was read of it: a section that was closed is read as
/// its last, a value that was cut off is read as far as it goes, and a kind
/// that was cut off is dropped.
pub open spec fn spec_flush(p: GlogParserView) -> GlogParserView {
    match p.state {
        GlogParserState::PreSection => p,
        GlogParserState::SectionKind => spec_finish_entry(p),
        GlogParserState::SectionValue(kind) => spec_finish_entry(
            spec_close_section(p, kind, p.buf.len() as int),
        ),
        GlogParserState::SectionValuePost1(kind) => spec_finish_entry(
            spec_close_section(p, kind, p.buf.len() - 1),
        ),
        GlogParserState::SectionValuePost2(kind) => spec_finish_entry(
            spec_close_section(p, kind, p.buf.len() - 2),
        ),
        GlogParserState::SectionValuePost3(kind, cutoff, _) => spec_finish_entry(
            spec_close_section(p, kind, p.buf.len() + 1 - cutoff),
        ),
    }
}

/// The name of the source for entries without a sub-source beside entries
/// with one.
pub open spec fn unnamed_source_name() -> Seq<char> {
    "Unknown (None)"@
}

/// The sources that a parser has gathered, before they are sorted: the
/// sub-sources as they first occurred, then the source of the entries that
/// named none, if there are such entries.
pub open spec fn spec_gathered_sources(p: GlogParserView) -> Seq<LogSourceView> {
    if p.log_entries.len() > 0 {
        p.log_sources.push(
            LogSourceView {
                name: unnamed_source_name(),
                children: LogSourceContentsView::Entries(p.log_entries),
            },
        )
    } else {
        p.log_sources
    }
}

/// `r` is the source that a parser in the state `p` hands out at the end of
/// the input: the root under its name, with the entries themselves where no
/// entry named a sub-source, and else with the gathered sources, sorted
/// stably by name.
pub open spec fn spec_finalize(p: GlogParserView, r: LogSourceView) -> bool {
    let q = spec_flush(p);
    &&& r.name == q.root.name
    &&& if q.log_sources.len() == 0 {
        r.children == LogSourceContentsView::Entries(q.log_entries)
    } else {
        &&& r.children is Sources
        &&& is_stable_sort(spec_gathered_sources(q), r.children->Sources_0, source_order())
    }
}

/// The parser `ahead` is the parser `behind` with the entries `prefix`
/// finished before all that `behind` has finished. The counts of invalid
/// bytes and the roots may differ.
pub open spec fn ahead_by(
    ahead: GlogParserView,
    behind: GlogParserView,
    prefix: Seq<LogEntryView>,
) -> bool {
    &&& ahead.state == behind.state
    &&& ahead.buf == behind.buf
    &&& ahead.log_entry == behind.log_entry
    &&& ahead.sub_source == behind.sub_source
    &&& ahead.log_sources == behind.log_sources
    &&& ahead.log_entries == prefix + behind.log_entries
}

/// A parser that is ahead of another stays ahead by the same entries when
/// both finish the entry that they hold.
pub proof fn lemma_finish_entry_ahead(
    ahead: GlogParserView,
    behind: GlogParserView,
    prefix: Seq<LogEntryView>,
)
    requires
        ahead_by(ahead, behind, prefix),
    ensures
        ahead_by(spec_finish_entry(ahead), spec_finish_entry(behind), prefix),
{
    if ahead.sub_source is None {
        assert((prefix + behind.log_entries).push(ahead.log_entry) =~= prefix
            + behind.log_entries.push(behind.log_entry));
    }
}

/// A parser that is ahead of another stays ahead by the same entries when
/// both read the same byte.
pub proof fn lemma_read_byte_ahead(
    ahead: GlogParserView,
    behind: GlogParserView,
    prefix: Seq<LogEntryView>,
    chr: u8,
)
    requires
        ahead_by(ahead, behind, prefix),
    ensures
        ahead_by(spec_read_byte(ahead, chr), spec_read_byte(behind, chr), prefix),
{
    match ahead.state {
        GlogParserState::SectionValuePost1(kind) => {
            if chr == SECTION_OPEN {
                assert(ahead_by(
                    spec_close_section(ahead, kind, ahead.buf.len() - 1),
                    spec_close_section(behind, kind, behind.buf.len() - 1),
                    prefix,
                ));
            }
        },
        GlogParserState::SectionValuePost3(kind, cutoff, entry_done) => {
            if chr == SECTION_OPEN {
                let a = spec_close_section(ahead, kind, ahead.buf.len() + 1 - cutoff);
                let b = spec_close_section(behind, kind, behind.buf.len() + 1 - cutoff);
                assert(ahead_by(a, b, prefix));
                if entry_done {
                    lemma_finish_entry_ahead(a, b, prefix);
                }
            }
        },
        _ => {},
    }
}

/// A parser that is ahead of another stays ahead by the same entries when
/// both read the same bytes.
pub proof fn lemma_read_bytes_ahead(
    ahead: GlogParserView,
    behind: GlogParserView,
    prefix: Seq<LogEntryView>,
    bytes: Seq<u8>,
)
    requires
        ahead_by(ahead, behind, prefix),
    ensures
        ahead_by(spec_read_bytes(ahead, bytes), spec_read_bytes(behind, bytes), prefix),
    decreases bytes.len(),
{
    if bytes.len() > 0 {
        lemma_read_bytes_ahead(ahead, behind, prefix, bytes.drop_last());
        lemma_read_byte_ahead(
            spec_read_bytes(ahead, bytes.drop_last()),
            spec_read_bytes(behind, bytes.drop_last()),
            prefix,
            bytes.last(),
        );
    }
}

/// A parser that is ahead of another stays ahead by the same entries at the
/// end of the input.
pub proof fn lemma_flush_ahead(
    ahead: GlogParserView,
    behind: GlogParserView,
    prefix: Seq<LogEntryView>,
)
    requires
        ahead_by(ahead, behind, prefix),
    ensures
        ahead_by(spec_flush(ahead), spec_flush(behind), prefix),
{
    match ahead.state {
        GlogParserState::PreSection => {},
        GlogParserState::SectionKind => {
            lemma_finish_entry_ahead(ahead, behind, prefix);
        },
        GlogParserState::SectionValue(kind) => {
            let a = spec_close_section(ahead, kind, ahead.buf.len() as int);
            let b = spec_close_section(behind, kind, behind.buf.len() as int);
            assert(ahead_by(a, b, prefix));
            lemma_finish_entry_ahead(a, b, prefix);
        },
        GlogParserState::SectionValuePost1(kind) => {
            let a = spec_close_section(ahead, kind, ahead.buf.len() - 1);
            let b = spec_close_section(behind, kind, behind.buf.len() - 1);
            assert(ahead_by(a, b, prefix));
            lemma_finish_entry_ahead(a, b, prefix);
        },
        GlogParserState::SectionValuePost2(kind) => {
            let a = spec_close_section(ahead, kind, ahead.buf.len() - 2);
            let b = spec_close_section(behind, kind, behind.buf.len() - 2);
            assert(ahead_by(a, b, prefix));
            lemma_finish_entry_ahead(a, b, prefix);
        },
        GlogParserState::SectionValuePost3(kind, cutoff, _) => {
            let a = spec_close_section(ahead, kind, ahead.buf.len() + 1 - cutoff);
            let b = spec_close_section(behind, kind, behind.buf.len() + 1 - cutoff);
            assert(ahead_by(a, b, prefix));
            lemma_finish_entry_ahead(a, b, prefix);
        },
    }
}

/// To read bytes is to read the first of them and then the others.
pub proof fn lemma_read_bytes_first(p: GlogParserView, bytes: Seq<u8>)
    requires
        bytes.len() > 0,
    ensures
        spec_read_bytes(p, bytes) == spec_read_bytes(spec_read_byte(p, bytes[0]), bytes.drop_first()),
    decreases bytes.len(),
{
    if bytes.len() == 1 {
        assert(bytes.drop_last() =~= Seq::<u8>::empty());
        assert(bytes.drop_first() =~= Seq::<u8>::empty());
    } else {
        lemma_read_bytes_first(p, bytes.drop_last());
        assert(bytes.drop_last().drop_first() =~= bytes.drop_first().drop_last());
        assert(bytes.drop_last()[0] == bytes[0]);
        assert(bytes.drop_first().last() == bytes.last());
    }
}

/// To read two runs of bytes one after the other is to read them as one.
pub proof fn lemma_read_bytes_joined(p: GlogParserView, first: Seq<u8>, second: Seq<u8>)
    ensures
        spec_read_bytes(p, first + second) == spec_read_bytes(spec_read_bytes(p, first), second),
    decreases second.len(),
{
    if second.len() == 0 {
        assert(first + second =~= first);
    } else {
        lemma_read_bytes_joined(p, first, second.drop_last());
        assert((first + second).drop_last() =~= first + second.drop_last());
        assert((first + second).last() == second.last());
    }
}

/// A log that is read behind another log, which ends with a whole entry and
/// names no sub-source, gives the entries of the other log and then its own,
/// as if it were read alone: the logs of a group are read as one log, each
/// log's entries in its order.
pub proof fn lemma_log_read_behind_another(
    first: GlogParserView,
    root: LogSourceView,
    second: Seq<u8>,
)
    requires
        first.state matches GlogParserState::SectionValuePost3(_, _, true),
        spec_flush(first).log_sources.len() == 0,
        second.len() > 0,
        second[0] == SECTION_OPEN,
    ensures
        ahead_by(
            spec_read_bytes(first, second),
            spec_read_bytes(spec_new(root), second),
            spec_flush(first).log_entries,
        ),
        ahead_by(
            spec_flush(spec_read_bytes(first, second)),
            spec_flush(spec_read_bytes(spec_new(root), second)),
            spec_flush(first).log_entries,
        ),
{
    let prefix = spec_flush(first).log_entries;
    let ahead = spec_read_byte(first, second[0]);
    let behind = spec_read_byte(spec_new(root), second[0]);
    assert(ahead == spec_flush(first));
    assert(ahead.log_sources =~= behind.log_sources);
    assert(ahead.log_entries =~= prefix + behind.log_entries);
    assert(ahead_by(ahead, behind, prefix));
    lemma_read_bytes_first(first, second);
    lemma_read_bytes_first(spec_new(root), second);
    lemma_read_bytes_ahead(ahead, behind, prefix, second.drop_first());
    lemma_flush_ahead(
        spec_read_bytes(ahead, second.drop_first()),
        spec_read_bytes(behind, second.drop_first()),
        prefix,
    );
}

/// The entries that a log gives when it is read alone into `root` and
/// names no sub-source.
pub open spec fn spec_entries_alone(root: LogSourceView, bytes: Seq<u8>) -> Seq<LogEntryView> {
    spec_flush(spec_read_bytes(spec_new(root), bytes)).log_entries
}

/// The log ends with a whole entry, behind which a line break stands, and
/// names no sub-source.
pub open spec fn is_whole_log(root: LogSourceView, bytes: Seq<u8>) -> bool {
    &&& spec_read_bytes(spec_new(root), bytes).state matches GlogParserState::SectionValuePost3(
        _,
        _,
        true,
    )
    &&& spec_flush(spec_read_bytes(spec_new(root), bytes)).log_sources.len() == 0
}

/// Two logs that are read as one, the first of them whole and the second
/// beginning with a section and naming no sub-source, give one source with
/// the entries of the first log and then the entries of the second.
pub proof fn lemma_two_logs_as_one(
    root: LogSourceView,
    first: Seq<u8>,
    second: Seq<u8>,
    r: LogSourceView,
)
    requires
        is_whole_log(root, first),
        second.len() > 0,
        second[0] == SECTION_OPEN,
        spec_flush(spec_read_bytes(spec_new(root), second)).log_sources.len() == 0,
        spec_finalize(spec_read_bytes(spec_read_bytes(spec_new(root), first), second), r),
    ensures
        r.name == root.name,
        r.children == LogSourceContentsView::Entries(
            spec_entries_alone(root, first) + spec_entries_alone(root, second),
        ),
        spec_read_bytes(spec_new(root), first + second) == spec_read_bytes(
            spec_read_bytes(spec_new(root), first),
            second,
        ),
{
    let after_first = spec_read_bytes(spec_new(root), first);
    lemma_log_read_behind_another(after_first, root, second);
    lemma_read_bytes_joined(spec_new(root), first, second);
    lemma_root_stays(spec_new(root), first);
    lemma_root_stays(after_first, second);
}

/// Reading bytes leaves the root of a parser as it is, also at the end of
/// the input.
pub proof fn lemma_root_stays(p: GlogParserView, bytes: Seq<u8>)
    ensures
        spec_read_bytes(p, bytes).root == p.root,
        spec_flush(spec_read_bytes(p, bytes)).root == p.root,
    decreases bytes.len(),
{
    if bytes.len() > 0 {
        lemma_root_stays(p, bytes.drop_last());
    }
}

/// The name under which the entries of a sub-source are filed.
pub fn source_name(message: &str, sub_source: i32) -> (r: String)
    ensures
        r@ == spec_source_name(message@, sub_source),
{
    let chars = chars_of(message);
    let mut pattern: Vec<char> = Vec::new();
    pattern.push(':');
    pattern.push(' ');
    assert(pattern@ =~= seq![':', ' ']);
    match find_chars(chars.as_slice(), pattern.as_slice()) {
        Some(offset) => {
            if offset > 0 {
                return string_from_chars(slice_subrange(chars.as_slice(), 0, offset));
            }
        },
        None => {},
    }
    let number = decimal_chars(sub_source);
    let mut name = "Unknown (".to_owned();
    name.append(string_from_chars(number.as_slice()).as_str());
    name.append(")");
    name
}

impl GlogParser {
    /// The invariant of the parser, on its value.
    pub open spec fn wf(&self) -> bool {
        self@.wf()
    }

    /// A parser that has read nothing and files what it reads into `root`.
    pub fn new(root: LogSource) -> (r: GlogParser)
        ensures
            r@ == spec_new(root@),
            r.wf(),
    {
        let r = GlogParser {
            state: GlogParserState::PreSection,
            buf: Vec::with_capacity(512),
            log_entry: LogEntry::default(),
            sub_source: None,
            log_entries: Vec::new(),
            log_sources: Vec::new(),
            invalid_bytes: 0,
            root,
        };
        assert(r@ =~= spec_new(root@));
        r
    }

    /// Files the entry that is being read and starts a new one.
    fn finish_entry(&mut self)
        requires
            old(self).wf(),
        ensures
            final(self)@ == spec_finish_entry(old(self)@),
            final(self).wf(),
    {
        let mut log_entry = LogEntry::default();
        std::mem::swap(&mut self.log_entry, &mut log_entry);
        match self.sub_source {
            Some(sub_source) => {
                let name = source_name(log_entry.message.as_str(), sub_source);
                let mut entries: Vec<LogEntry> = Vec::new();
                entries.push(log_entry);
                assert(entry_views(entries@) =~= seq![log_entry@]);
                add_to_source(&mut self.log_sources, name, entries);
            },
            None => {
                self.log_entries.push(log_entry);
                assert(entry_views(self.log_entries@) =~= old(self)@.log_entries.push(
                    log_entry@,
                ));
            },
        }
        self.sub_source = None;
        assert(self@ =~= spec_finish_entry(old(self)@));
    }

    /// Reads one byte.
    pub fn read_byte(&mut self, chr: u8)
        requires
            old(self).wf(),
        ensures
            final(self)@ == spec_read_byte(old(self)@, chr),
            final(self).wf(),
    {
        let state = self.state;
        match state {
            GlogParserState::PreSection => {
                if chr == SECTION_OPEN {
                    self.state = GlogParserState::SectionKind;
                } else if chr == CR || chr == LF {
                } else if self.invalid_bytes < usize::MAX {
                    self.invalid_bytes = self.invalid_bytes + 1;
                }
            },
            GlogParserState::SectionKind => {
                if chr == KIND_END {
                    let kind = section_kind(self.buf.as_slice());
                    self.buf.clear();
                    self.state = GlogParserState::SectionValue(kind);
                } else {
                    self.buf.push(chr);
                }
            },
            GlogParserState::SectionValue(kind) => {
                self.buf.push(chr);
                if chr == SECTION_CLOSE {
                    self.state = GlogParserState::SectionValuePost1(kind);
                }
            },
            GlogParserState::SectionValuePost1(kind) => {
                if chr == SECTION_OPEN {
                    let value_len: usize = self.buf.len() - 1;
                    self.close_section(kind, value_len);
                    assert(self@ =~= spec_read_byte(old(self)@, chr));
                    return ;
                }
                self.buf.push(chr);
                self.state = if chr == COLON {
                    GlogParserState::SectionValuePost3(kind, 3, false)
                } else if chr == CR {
                    GlogParserState::SectionValuePost2(kind)
                } else if chr == LF {
                    GlogParserState::SectionValuePost3(kind, 3, true)
                } else if chr == SECTION_CLOSE {
                    GlogParserState::SectionValuePost1(kind)
                } else {
                    GlogParserState::SectionValue(kind)
                };
            },
            GlogParserState::SectionValuePost2(kind) => {
                self.buf.push(chr);
                self.state = if chr == LF {
                    GlogParserState::SectionValuePost3(kind, 4, true)
                } else if chr == SECTION_CLOSE {
                    GlogParserState::SectionValuePost1(kind)
                } else {
                    GlogParserState::SectionValue(kind)
                };
            },
            GlogParserState::SectionValuePost3(kind, suffix_cutoff, entry_done) => {
                if chr == SECTION_OPEN {
                    let value_len: usize = self.buf.len() - (suffix_cutoff - 1);
                    self.close_section(kind, value_len);
                    if entry_done {
                        self.finish_entry();
                    }
                } else {
                    self.buf.push(chr);
                    self.state = if chr == SECTION_CLOSE {
                        GlogParserState::SectionValuePost1(kind)
                    } else {
                        GlogParserState::SectionValue(kind)
                    };
                }
            },
        }
        assert(self@ =~= spec_read_byte(old(self)@, chr));
    }

    /// Reads every byte of `bytes`.
    pub fn read_bytes(&mut self, bytes: &[u8])
        requires
            old(self).wf(),
        ensures
            final(self)@ == spec_read_bytes(old(self)@, bytes@),
            final(self).wf(),
    {
        let mut i: usize = 0;
        assert(bytes@.subrange(0, 0) =~= Seq::<u8>::empty());
        while i < bytes.len()
            invariant
                i <= bytes.len(),
                self.wf(),
                self@ == spec_read_bytes(old(self)@, bytes@.subrange(0, i as int)),
            decreases bytes.len() - i,
        {
            assert(bytes@.subrange(0, i + 1).drop_last() =~= bytes@.subrange(0, i as int));
            self.read_byte(bytes[i]);
            i = i + 1;
        }
        assert(bytes@.subrange(0, i as int) =~= bytes@);
    }

    /// Ends the input and hands out the root with what was read.
    pub fn finalize(self) -> (r: LogSource)
        requires
            self.wf(),
        ensures
            spec_finalize(self@, r@),
    {
        let (root, _) = self.finalize_counted();
        root
    }

    /// Ends the input and hands out the root with what was read, and with
    /// it the count of the bytes that were met outside any section.
    pub fn finalize_counted(self) -> (r: (LogSource, usize))
        requires
            self.wf(),
        ensures
            spec_finalize(self@, r.0@),
            r.1 == self@.invalid_bytes,
    {
        let invalid_bytes: usize = self.invalid_bytes;
        let mut parser = self;
        match parser.state {
            GlogParserState::PreSection => {},
            GlogParserState::SectionKind => {
                parser.finish_entry();
            },
            GlogParserState::SectionValue(kind) => {
                let value_len: usize = parser.buf.len();
                parser.close_section(kind, value_len);
                parser.finish_entry();
            },
            GlogParserState::SectionValuePost1(kind) => {
                let value_len: usize = parser.buf.len() - 1;
                parser.close_section(kind, value_len);
                parser.finish_entry();
            },
            GlogParserState::SectionValuePost2(kind) => {
                let value_len: usize = parser.buf.len() - 2;
                parser.close_section(kind, value_len);
                parser.finish_entry();
            },
            GlogParserState::SectionValuePost3(kind, suffix_cutoff, _) => {
                let value_len: usize = parser.buf.len() - (suffix_cutoff - 1);
                parser.close_section(kind, value_len);
                parser.finish_entry();
            },
        }
        assert(parser@ == spec_flush(self@));
        let ghost q = parser@;
        let GlogParser { root, log_entries, log_sources, .. } = parser;
        let mut root = root;
        if log_sources.len() == 0 {
            root.children = LogSourceContents::Entries(log_entries);
            assert(root@.children =~= LogSourceContentsView::Entries(q.log_entries));
        } else {
            let mut v = log_sources;
            if log_entries.len() > 0 {
                v.push(
                    LogSource {
                        name: "Unknown (None)".to_owned(),
                        children: LogSourceContents::Entries(log_entries),
                    },
                );
            }
            assert(source_views(v@) =~= spec_gathered_sources(q));
            let ghost gathered = v@;
            stable_sort(&mut v);
            proof {
                lemma_sorted_source_views(gathered, v@);
            }
            root.children = LogSourceContents::Sources(v);
            proof {
                lemma_view_of_sources(root);
            }
        }
        (root, invalid_bytes)
    }

    /// Closes a section of kind `kind` whose value is the first `value_len`
    /// bytes of the buffer: reads the value into the entry and empties the
    /// buffer for the next section.
    fn close_section(&mut self, kind: GlogSectionKind, value_len: usize)
        requires
            old(self).wf(),
            value_len <= old(self).buf.len(),
        ensures
            final(self)@ == spec_close_section(old(self)@, kind, value_len as int),
            final(self).wf(),
    {
        let value = slice_subrange(self.buf.as_slice(), 0, value_len);
        match kind {
            GlogSectionKind::TimestampMs => {
                if let Some(ts_milli) = parse_u64(value) {
                    if let Some(datetime) = from_timestamp_ms(ts_milli) {
                        self.log_entry.timestamp = datetime;
                    }
                }
            },
            GlogSectionKind::Severity => {
                if let Some(glog_sev_u32) = parse_u32(value) {
                    if let Some(glog_sev) = GlogSeverity::from_u32(glog_sev_u32) {
                        self.log_entry.severity = normalize_glog_sev(glog_sev);
                    }
                }
            },
            GlogSectionKind::LogSource => {
                if let Some(parsed_sub_source) = parse_i32(value) {
                    self.sub_source = Some(parsed_sub_source);
                }
            },
            GlogSectionKind::Message => {
                self.log_entry.message = lossy_string(value);
            },
            GlogSectionKind::Timestamp100ns => {
                if let Some(gcom_datetime) = parse_u64(value) {
                    if let Some(datetime) = from_100ns(gcom_datetime) {
                        self.log_entry.timestamp = datetime;
                    }
                }
            },
            GlogSectionKind::ErrorCode => {},
            GlogSectionKind::SessionId => {
                if let Some(parsed_session_id) = parse_u32(value) {
                    self.log_entry.set_custom_field(
                        "SessionId",
                        CustomField::UInt32(parsed_session_id),
                    );
                }
            },
            GlogSectionKind::Unknown => {},
        }
        self.buf.clear();
        self.state = GlogParserState::SectionKind;
        assert(self@ =~= spec_close_section(old(self)@, kind, value_len as int));
    }
}

/// Reads a whole log in the delimited-section format into `root`.
pub fn to_log_entries(bytes: &[u8], root: LogSource) -> (r: LogSource)
    ensures
        spec_finalize(spec_read_bytes(spec_new(root@), bytes@), r@),
{
    let (root, _) = to_log_entries_counted(bytes, root);
    root
}

/// Reads a whole log in the delimited-section format into `root`, and
/// tells at the end how many bytes stood outside any section and were
/// passed over.
pub fn to_log_entries_counted(bytes: &[u8], root: LogSource) -> (r: (LogSource, usize))
    ensures
        spec_finalize(spec_read_bytes(spec_new(root@), bytes@), r.0@),
        r.1 == spec_read_bytes(spec_new(root@), bytes@).invalid_bytes,
{
    let mut parser = GlogParser::new(root);
    parser.read_bytes(bytes);
    parser.finalize_counted()
}

} // verus!
