//! Archives of logs: which member of an archive is read by which parser,
//! which members make one source, and where each source stands in the tree.

use vstd::prelude::*;
use vstd::slice::slice_subrange;
use crate::model::{
    add_to_source, distinct_leaves, entry_views, lemma_sorted_source_views, lemma_view_of_entries,
    lemma_view_of_sources, source_order, source_views, spec_add_to_source, CustomField,
    CustomFieldView, LogEntry, LogEntryView, LogSource, LogSourceContents, LogSourceContentsView,
    LogSourceView,
};
use crate::parse::datetime_utils::{add_offset_100ns, spec_add_offset_100ns};
use crate::parse::glog::{
    session_field, spec_finalize, spec_new, spec_read_bytes, GlogParser, GlogParserState,
    GlogParserView,
};
use crate::parse::rds_log::spec_rds_entries;
use crate::parse::xlog::spec_xlog_entries;
use crate::sorting::{is_stable_sort, order_of, sorts_stably, stable_sort, Ranked};
use crate::text::{
    chars_eq, chars_of, ends_with, find_char, last_index_of, lemma_lex_irreflexive,
    lemma_lex_total, lemma_lex_transitive, lex_less, occurs_at, parse_i64_text, parse_u32_text,
    push_chars, rfind_char, spec_ends_with, spec_find_char, spec_parse_i64_text,
    spec_parse_u32_text, starts_with, str_eq, string_from_chars,
};

verus! {

/// The suffix of the name of a log that says where the log was kept: `_v`
/// for a log in memory, `_p` for a log on flash, nothing for others.
pub open spec fn spec_storage_suffix(s: Seq<char>) -> Seq<char> {
    if spec_ends_with(s, "_v"@) {
        "_v"@
    } else if spec_ends_with(s, "_p"@) {
        "_p"@
    } else {
        Seq::empty()
    }
}

/// The name without the number of the ring buffer slot at its end: what
/// follows the last `_`, if it is a number.
pub open spec fn spec_strip_index(s: Seq<char>) -> Seq<char> {
    match last_index_of(s, '_', s.len() as int) {
        Some(offset) => if spec_parse_u32_text(s.subrange(offset + 1, s.len() as int)) is Some {
            s.subrange(0, offset)
        } else {
            s
        },
        None => s,
    }
}

/// The name without the mark `_ov` of an overview log at its end.
pub open spec fn spec_strip_overview(s: Seq<char>) -> Seq<char> {
    if spec_ends_with(s, "_ov"@) {
        s.subrange(0, s.len() - "_ov"@.len())
    } else {
        s
    }
}

/// The name of the group of a log: its name without the number of its ring
/// buffer slot and without the mark of an overview log, where it has them
/// before the suffix that says where it was kept.
pub open spec fn spec_group_name(s: Seq<char>) -> Seq<char> {
    let storage = spec_storage_suffix(s);
    let base = s.subrange(0, s.len() - storage.len());
    spec_strip_overview(spec_strip_index(base)) + storage
}

/// The name of the group of a log, from the characters of its name.
pub fn group_name_chars(s: &[char]) -> (r: Vec<char>)
    ensures
        r@ == spec_group_name(s@),
{
    let in_memory = chars_of("_v");
    let on_flash = chars_of("_p");
    let overview = chars_of("_ov");
    let storage_len: usize = if ends_with(s, in_memory.as_slice()) {
        in_memory.len()
    } else if ends_with(s, on_flash.as_slice()) {
        on_flash.len()
    } else {
        0
    };
    let ghost storage = spec_storage_suffix(s@);
    assert(storage.len() == storage_len);
    assert(storage_len <= s.len());
    let base = slice_subrange(s, 0, s.len() - storage_len);
    let mut end: usize = base.len();
    match rfind_char(base, '_') {
        Some(offset) => {
            if parse_u32_text(slice_subrange(base, offset + 1, base.len())).is_some() {
                end = offset;
            }
        },
        None => {},
    }
    let stripped = slice_subrange(base, 0, end);
    assert(stripped@ =~= spec_strip_index(base@)) by {
        assert(base@.subrange(0, base@.len() as int) =~= base@);
    }
    let end: usize = if ends_with(stripped, overview.as_slice()) {
        stripped.len() - overview.len()
    } else {
        stripped.len()
    };
    let stem = slice_subrange(stripped, 0, end);
    assert(stem@ =~= spec_strip_overview(stripped@)) by {
        assert(stripped@.subrange(0, stripped@.len() as int) =~= stripped@);
    }
    let tail = slice_subrange(s, s.len() - storage_len, s.len());
    assert(tail@ =~= storage) by {
        if storage_len > 0 {
            assert(spec_ends_with(s@, storage));
        }
    }
    let mut r: Vec<char> = Vec::new();
    push_chars(&mut r, stem);
    push_chars(&mut r, tail);
    assert(r@ =~= stem@ + tail@);
    r
}

/// The number of the ring buffer slot that the name of a log gives: the
/// number behind its last `_`, the suffix that says where the log was kept
/// left aside; or -1 for a name that gives no number.
pub open spec fn spec_ring_index(s: Seq<char>) -> int {
    let storage = spec_storage_suffix(s);
    let base = s.subrange(0, s.len() - storage.len());
    match last_index_of(base, '_', base.len() as int) {
        Some(offset) => match spec_parse_u32_text(base.subrange(offset + 1, base.len() as int)) {
            Some(index) => index as int,
            None => -1,
        },
        None => -1,
    }
}

/// A text that spells a number holds digits, after a sign at most, and ends
/// with a digit.
pub proof fn lemma_number_text(digits: Seq<char>)
    requires
        spec_parse_u32_text(digits) is Some,
    ensures
        digits.len() > 0,
        forall|i: int|
            0 <= i < digits.len() ==> (#[trigger] digits[i]) == '+' || ('0' <= digits[i] && digits[i]
                <= '9'),
        '0' <= digits[digits.len() - 1] && digits[digits.len() - 1] <= '9',
{
    let bytes = crate::text::spec_ascii_bytes(digits).unwrap();
    assert(bytes.len() == digits.len());
    let value = crate::text::decimal_value(bytes, false);
    assert(value is Some);
    assert forall|i: int| 0 <= i < digits.len() implies (#[trigger] digits[i]) == '+' || ('0'
        <= digits[i] && digits[i] <= '9') by {
        assert(bytes[i] == digits[i] as u8);
        assert((digits[i] as u32) < 128);
        vstd::utf8::char_u32_cast(digits[i], digits[i] as u32);
        if bytes[0] == 43 {
            let rest = bytes.subrange(1, bytes.len() as int);
            if i > 0 {
                assert(crate::text::is_digit(rest[i - 1]));
            }
        } else {
            assert(crate::text::is_digit(bytes[i]));
        }
    }
    let last = digits.len() - 1;
    assert(bytes[last] == digits[last] as u8);
    if bytes[0] == 43 {
        let rest = bytes.subrange(1, bytes.len() as int);
        assert(rest.len() > 0);
        assert(crate::text::is_digit(rest[last - 1]));
    } else {
        assert(crate::text::is_digit(bytes[last]));
    }
}

/// The last `c` before `end` stands at `at` where no `c` stands behind it.
pub proof fn lemma_last_index_at(s: Seq<char>, c: char, at: int, end: int)
    requires
        0 <= at < end <= s.len(),
        s[at] == c,
        forall|j: int| at < j < end ==> s[j] != c,
    ensures
        last_index_of(s, c, end) == Some(at),
    decreases end - at,
{
    if end - 1 > at {
        lemma_last_index_at(s, c, at, end - 1);
    }
}

/// A log whose name is made of a name, `_` and a number has that number
/// as the number of its ring buffer slot, and is of the group that the name
/// without the number gives.
pub proof fn lemma_indexed_name(base: Seq<char>, digits: Seq<char>)
    requires
        spec_parse_u32_text(digits) is Some,
    ensures
        spec_storage_suffix(base + seq!['_'] + digits) == Seq::<char>::empty(),
        spec_ring_index(base + seq!['_'] + digits) == spec_parse_u32_text(digits).unwrap(),
        spec_strip_index(base + seq!['_'] + digits) == base,
        spec_group_name(base + seq!['_'] + digits) == spec_strip_overview(base),
{
    let full = base + seq!['_'] + digits;
    let n = full.len() as int;
    lemma_number_text(digits);
    assert(full[n - 1] == digits[digits.len() - 1]);
    reveal_strlit("_v");
    reveal_strlit("_p");
    assert(!spec_ends_with(full, "_v"@)) by {
        if spec_ends_with(full, "_v"@) {
            assert(full.subrange(n - 2, n)[1] == "_v"@[1]);
        }
    }
    assert(!spec_ends_with(full, "_p"@)) by {
        if spec_ends_with(full, "_p"@) {
            assert(full.subrange(n - 2, n)[1] == "_p"@[1]);
        }
    }
    assert(full.subrange(0, n) =~= full);
    assert forall|j: int| base.len() < j < n implies full[j] != '_' by {
        assert(full[j] == digits[j - base.len() - 1]);
    }
    lemma_last_index_at(full, '_', base.len() as int, n);
    assert(full.subrange(base.len() as int + 1, n) =~= digits);
    assert(full.subrange(0, base.len() as int) =~= base);
    assert(spec_strip_overview(base) + Seq::<char>::empty() =~= spec_strip_overview(base));
}

/// The number of the ring buffer slot that the name of a log gives, or -1.
pub fn ring_index(s: &str) -> (r: i64)
    ensures
        r == spec_ring_index(s@),
{
    let chars = chars_of(s);
    let name = chars.as_slice();
    let in_memory = chars_of("_v");
    let on_flash = chars_of("_p");
    let storage_len: usize = if ends_with(name, in_memory.as_slice()) {
        in_memory.len()
    } else if ends_with(name, on_flash.as_slice()) {
        on_flash.len()
    } else {
        0
    };
    assert(spec_storage_suffix(name@).len() == storage_len);
    assert(storage_len <= name.len());
    let base = slice_subrange(name, 0, name.len() - storage_len);
    match rfind_char(base, '_') {
        Some(offset) => match parse_u32_text(slice_subrange(base, offset + 1, base.len())) {
            Some(index) => index as i64,
            None => -1,
        },
        None => -1,
    }
}

/// The name of the group of a log: logs of one group are read as one log.
pub fn get_group_name(s: &str) -> (r: String)
    ensures
        r@ == spec_group_name(s@),
{
    let chars = chars_of(s);
    let group = group_name_chars(chars.as_slice());
    string_from_chars(group.as_slice())
}

/// What is done with a member of an archive.
#[derive(Clone, Copy, Debug, PartialEq, Eq, Structural)]
pub enum MemberKind {
    /// A log of the scanning library: kept as a source without entries.
    ScanLib,
    /// A log in the token-pipe format.
    Rds,
    /// A log in the delimited-section format, read together with the other
    /// logs of its group.
    Glog,
    /// A log in the unit-delimited format, put together with the other logs
    /// of its channel.
    Xlog,
    /// No log.
    Ignored,
}

/// The end of a path without the slashes at its end.
pub open spec fn spec_trim_slashes(name: Seq<char>, end: int) -> int
    decreases end,
{
    if 0 < end <= name.len() && name[end - 1] == '/' {
        spec_trim_slashes(name, end - 1)
    } else {
        end
    }
}

/// The name of the file that a path leads to: what stands behind the last
/// slash, slashes at the end of the path left aside. A path that ends in
/// nothing, in `.` or in `..` leads to no file.
pub open spec fn spec_file_name(name: Seq<char>) -> Option<Seq<char>> {
    let end = spec_trim_slashes(name, name.len() as int);
    let start = match last_index_of(name, '/', end) {
        Some(slash) => slash + 1,
        None => 0,
    };
    let file = name.subrange(start, end);
    if file.len() == 0 || file == "."@ || file == ".."@ {
        None
    } else {
        Some(file)
    }
}

/// Where the extension of a file name begins: behind its last dot, if that
/// is not its first character.
pub open spec fn spec_extension_start(file: Seq<char>) -> Option<int> {
    match last_index_of(file, '.', file.len() as int) {
        Some(dot) => if dot > 0 {
            Some(dot + 1)
        } else {
            None
        },
        None => None,
    }
}

/// The name of a file without its extension.
pub open spec fn spec_file_stem(file: Seq<char>) -> Seq<char> {
    match spec_extension_start(file) {
        Some(start) => file.subrange(0, start - 1),
        None => file,
    }
}

/// The extension of the name of a file.
pub open spec fn spec_extension(file: Seq<char>) -> Option<Seq<char>> {
    match spec_extension_start(file) {
        Some(start) => Some(file.subrange(start, file.len() as int)),
        None => None,
    }
}

/// What is done with the member of the name `name`: in the folder `RDS`, a
/// file with the extension `log` is a log of the scanning library if its
/// name begins with `ScanLib_`, and a log in the token-pipe format if not;
/// elsewhere the extensions `glog` and `xlog` name the formats. All else is
/// no log.
pub open spec fn spec_classify(name: Seq<char>) -> MemberKind {
    match spec_file_name(name) {
        None => MemberKind::Ignored,
        Some(file) => {
            if occurs_at(name, "RDS/"@, 0) {
                if spec_extension(file) == Some("log"@) {
                    if occurs_at(spec_file_stem(file), "ScanLib_"@, 0) {
                        MemberKind::ScanLib
                    } else {
                        MemberKind::Rds
                    }
                } else {
                    MemberKind::Ignored
                }
            } else if spec_extension(file) == Some("glog"@) {
                MemberKind::Glog
            } else if spec_extension(file) == Some("xlog"@) {
                MemberKind::Xlog
            } else {
                MemberKind::Ignored
            }
        },
    }
}

/// The name of the source that is made of a member: the name of its file
/// without the extension, or nothing for a path that leads to no file.
pub open spec fn spec_member_stem(name: Seq<char>) -> Seq<char> {
    match spec_file_name(name) {
        Some(file) => spec_file_stem(file),
        None => Seq::empty(),
    }
}

/// The bounds of the file name in a path: `None` where the path leads to no
/// file.
fn file_name_bounds(name: &[char]) -> (r: Option<(usize, usize)>)
    ensures
        r is Some <==> spec_file_name(name@) is Some,
        r matches Some((start, end)) ==> start <= end <= name@.len() && spec_file_name(name@)
            == Some(name@.subrange(start as int, end as int)),
{
    let mut end: usize = name.len();
    while end > 0 && name[end - 1] == '/'
        invariant
            end <= name.len(),
            spec_trim_slashes(name@, name@.len() as int) == spec_trim_slashes(name@, end as int),
        decreases end,
    {
        end = end - 1;
    }
    let start: usize = match rfind_char(slice_subrange(name, 0, end), '/') {
        Some(slash) => slash + 1,
        None => 0,
    };
    proof {
        lemma_last_index_prefix(name@, '/', end as int, end as int);
    }
    let file = slice_subrange(name, start, end);
    let dot = chars_of(".");
    let dots = chars_of("..");
    if file.len() == 0 || chars_eq(file, dot.as_slice()) || chars_eq(file, dots.as_slice()) {
        None
    } else {
        Some((start, end))
    }
}

/// The last `c` before `end` is the same in a text and in what the text
/// holds before `cut`, where `end` is not behind `cut`.
pub proof fn lemma_last_index_prefix(s: Seq<char>, c: char, cut: int, end: int)
    requires
        0 <= end <= cut <= s.len(),
    ensures
        last_index_of(s.subrange(0, cut), c, end) == last_index_of(s, c, end),
    decreases end,
{
    if end > 0 && s[end - 1] != c {
        lemma_last_index_prefix(s, c, cut, end - 1);
    }
}

/// Where the extension begins in a file name.
fn extension_start(file: &[char]) -> (r: Option<usize>)
    ensures
        r is Some <==> spec_extension_start(file@) is Some,
        r matches Some(start) ==> 1 <= start <= file@.len() && spec_extension_start(file@) == Some(
            start as int,
        ),
{
    match rfind_char(file, '.') {
        Some(dot) => if dot > 0 && dot < file.len() {
            Some(dot + 1)
        } else {
            None
        },
        None => None,
    }
}

/// What is done with the member of the name `name`.
pub fn classify_member(name: &str) -> (r: MemberKind)
    ensures
        r == spec_classify(name@),
{
    let chars = chars_of(name);
    let path = chars.as_slice();
    let (start, end) = match file_name_bounds(path) {
        Some(bounds) => bounds,
        None => { return MemberKind::Ignored; },
    };
    let file = slice_subrange(path, start, end);
    let extension: Option<usize> = extension_start(file);
    let folder = chars_of("RDS/");
    if starts_with(path, folder.as_slice()) {
        let log = chars_of("log");
        match extension {
            Some(from) => {
                if chars_eq(slice_subrange(file, from, file.len()), log.as_slice()) {
                    let prefix = chars_of("ScanLib_");
                    if starts_with(slice_subrange(file, 0, from - 1), prefix.as_slice()) {
                        MemberKind::ScanLib
                    } else {
                        MemberKind::Rds
                    }
                } else {
                    MemberKind::Ignored
                }
            },
            None => MemberKind::Ignored,
        }
    } else {
        match extension {
            Some(from) => {
                let glog = chars_of("glog");
                let xlog = chars_of("xlog");
                let found = slice_subrange(file, from, file.len());
                if chars_eq(found, glog.as_slice()) {
                    MemberKind::Glog
                } else if chars_eq(found, xlog.as_slice()) {
                    MemberKind::Xlog
                } else {
                    MemberKind::Ignored
                }
            },
            None => MemberKind::Ignored,
        }
    }
}

/// The name of the source that is made of the member of the name `name`.
pub fn member_stem(name: &str) -> (r: String)
    ensures
        r@ == spec_member_stem(name@),
{
    let chars = chars_of(name);
    let path = chars.as_slice();
    match file_name_bounds(path) {
        Some((start, end)) => {
            let file = slice_subrange(path, start, end);
            match extension_start(file) {
                Some(from) => string_from_chars(slice_subrange(file, 0, from - 1)),
                None => string_from_chars(file),
            }
        },
        None => {
            let empty: Vec<char> = Vec::new();
            string_from_chars(empty.as_slice())
        },
    }
}

/// The extension of the name of the file that the path `name` leads to.
pub fn member_extension(name: &str) -> (r: Option<String>)
    ensures
        r is Some <==> (spec_file_name(name@) matches Some(file) && spec_extension(file) is Some),
        r is Some ==> r.unwrap()@ == spec_extension(spec_file_name(name@).unwrap()).unwrap(),
{
    let chars = chars_of(name);
    let path = chars.as_slice();
    match file_name_bounds(path) {
        Some((start, end)) => {
            let file = slice_subrange(path, start, end);
            match extension_start(file) {
                Some(from) => Some(string_from_chars(slice_subrange(file, from, file.len()))),
                None => None,
            }
        },
        None => None,
    }
}

/// The name of the file that the path `name` leads to, or the path itself
/// where it leads to no file.
pub fn source_name(name: &str) -> (r: String)
    ensures
        r@ == (match spec_file_name(name@) {
            Some(file) => file,
            None => name@,
        }),
{
    let chars = chars_of(name);
    let path = chars.as_slice();
    match file_name_bounds(path) {
        Some((start, end)) => string_from_chars(slice_subrange(path, start, end)),
        None => name.to_owned(),
    }
}

/// The channel of a log of a client application, whose name is made of the
/// application, the process, the channel and the time, parted by `_`: what
/// stands between the last `_` and the `_` before it, or before the last
/// `_` where there is only one, or the whole name where there is none.
pub open spec fn spec_channel_name(name: Seq<char>) -> Seq<char> {
    match last_index_of(name, '_', name.len() as int) {
        Some(last) => match last_index_of(name, '_', last) {
            Some(before) => name.subrange(before + 1, last),
            None => name.subrange(0, last),
        },
        None => name,
    }
}

/// The channel of a log of a client application.
pub fn channel_name(name: &str) -> (r: String)
    ensures
        r@ == spec_channel_name(name@),
{
    let chars = chars_of(name);
    let text = chars.as_slice();
    match rfind_char(text, '_') {
        Some(last) => {
            proof {
                lemma_last_index_prefix(name@, '_', last as int, last as int);
            }
            match rfind_char(slice_subrange(text, 0, last), '_') {
                Some(before) => string_from_chars(slice_subrange(text, before + 1, last)),
                None => string_from_chars(slice_subrange(text, 0, last)),
            }
        },
        None => {
            assert(text@.subrange(0, text@.len() as int) =~= text@);
            string_from_chars(slice_subrange(text, 0, text.len()))
        },
    }
}

/// The second before which a device cannot have been running: 2000-12-31
/// 22:00:00. A timestamp before it was taken from a clock that was not yet
/// set.
pub const CLOCK_UNSET_BEFORE_SECS: i64 = 978_300_000;

/// How the message begins that says that the clock of a session was set.
pub open spec fn marker_prefix() -> Seq<char> {
    "Setting EtherCAT time [delta = "@
}

/// The message says that the clock of a session was set: it begins with
/// `Setting EtherCAT time [delta = ` and ends with ` ns]`, with or without a
/// full stop.
pub open spec fn spec_is_clock_marker(message: Seq<char>) -> bool {
    &&& occurs_at(message, marker_prefix(), 0)
    &&& spec_ends_with(message, " ns]."@) || spec_ends_with(message, " ns]"@)
}

/// The count of nanoseconds by which the clock was set, as a message that
/// says so gives it: the number between the beginning of the message and the
/// next blank.
pub open spec fn spec_marker_delta(message: Seq<char>) -> Option<i64> {
    let start = marker_prefix().len() as int;
    spec_parse_i64_text(message.subrange(start, spec_find_char(message, start, ' ')))
}

/// The session of an entry: its custom field `SessionId`, if it holds an
/// unsigned number of 32 bits.
pub open spec fn spec_session_id(entry: LogEntryView) -> Option<u32> {
    if entry.custom_fields.contains_key(session_field()) {
        match entry.custom_fields[session_field()] {
            CustomFieldView::UInt32(session) => Some(session),
            _ => None,
        }
    } else {
        None
    }
}

/// The count of ticks of 100 ns in a count of nanoseconds, rounded towards
/// zero.
pub open spec fn spec_ticks(nanos: i64) -> i64 {
    if nanos >= 0 {
        (nanos / 100) as i64
    } else {
        (-((-nanos) / 100)) as i64
    }
}

/// The correction that is active before an entry, when the entries are gone
/// through from the last to the first and the correction `active`, of a
/// session and a count of nanoseconds, was active behind the entry. An entry
/// that says that the clock of its session was set makes that correction
/// active; an entry without a session, of another session than that of the
/// active correction, or with a count that cannot be read ends it.
pub open spec fn spec_next_correction(active: Option<(u32, i64)>, entry: LogEntryView) -> Option<
    (u32, i64),
> {
    match spec_session_id(entry) {
        None => None,
        Some(session) => {
            if spec_is_clock_marker(entry.message) {
                match spec_marker_delta(entry.message) {
                    Some(delta) => Some((session, delta)),
                    None => None,
                }
            } else {
                match active {
                    Some((active_session, _)) => if active_session == session {
                        active
                    } else {
                        None
                    },
                    None => None,
                }
            }
        },
    }
}

/// The entry under the correction that is active behind it: an entry of the
/// session of the correction whose timestamp was taken from a clock that was
/// not yet set is moved by the correction, if the moved timestamp can be
/// had. The entries that set the clock stay as they are.
pub open spec fn spec_corrected(active: Option<(u32, i64)>, entry: LogEntryView) -> LogEntryView {
    match (spec_session_id(entry), active) {
        (Some(session), Some((active_session, delta))) => {
            if !spec_is_clock_marker(entry.message) && session == active_session
                && entry.timestamp.secs < CLOCK_UNSET_BEFORE_SECS {
                match spec_add_offset_100ns(entry.timestamp, spec_ticks(delta)) {
                    Some(timestamp) => LogEntryView { timestamp, ..entry },
                    None => entry,
                }
            } else {
                entry
            }
        },
        _ => entry,
    }
}

/// The correction that is active behind entry `i`, when the entries are
/// gone through from the last to the first.
pub open spec fn spec_correction_at(entries: Seq<LogEntryView>, i: int) -> Option<(u32, i64)>
    decreases entries.len() - i,
{
    if i < -1 || i + 1 >= entries.len() {
        None
    } else {
        spec_next_correction(spec_correction_at(entries, i + 1), entries[i + 1])
    }
}

/// The entries of a source with the timestamps set right that were taken
/// before the clock of their session was set.
pub open spec fn spec_adjust_entries(entries: Seq<LogEntryView>) -> Seq<LogEntryView> {
    Seq::new(
        entries.len(),
        |i: int| spec_corrected(spec_correction_at(entries, i), entries[i]),
    )
}

/// The tree with the timestamps of the entries of every source set right.
pub open spec fn spec_adjust_source(source: LogSourceView) -> LogSourceView
    decreases source,
{
    LogSourceView {
        name: source.name,
        children: match source.children {
            LogSourceContentsView::Entries(entries) => LogSourceContentsView::Entries(
                spec_adjust_entries(entries),
            ),
            LogSourceContentsView::Sources(sources) => LogSourceContentsView::Sources(
                Seq::new(
                    sources.len(),
                    |i: int|
                        if 0 <= i < sources.len() {
                            spec_adjust_source(sources[i])
                        } else {
                            arbitrary()
                        },
                ),
            ),
        },
    }
}

/// The session of an entry.
fn session_id(entry: &LogEntry) -> (r: Option<u32>)
    ensures
        r == spec_session_id(entry@),
{
    match entry.custom_field("SessionId") {
        Some(CustomField::UInt32(session)) => Some(*session),
        _ => None,
    }
}

/// The count of ticks of 100 ns in a count of nanoseconds.
fn ticks(nanos: i64) -> (r: i64)
    ensures
        r == spec_ticks(nanos),
{
    if nanos >= 0 {
        nanos / 100
    } else if nanos == i64::MIN {
        -92_233_720_368_547_758
    } else {
        -((-nanos) / 100)
    }
}

/// Whether a message says that the clock was set, and the count that it
/// gives.
fn clock_marker(message: &str) -> (r: Option<Option<i64>>)
    ensures
        r is Some <==> spec_is_clock_marker(message@),
        r is Some ==> r.unwrap() == spec_marker_delta(message@),
{
    let chars = chars_of(message);
    let text = chars.as_slice();
    let prefix = chars_of("Setting EtherCAT time [delta = ");
    let with_stop = chars_of(" ns].");
    let without_stop = chars_of(" ns]");
    if starts_with(text, prefix.as_slice()) && (ends_with(text, with_stop.as_slice())
        || ends_with(text, without_stop.as_slice())) {
        let start: usize = prefix.len();
        let end: usize = find_char(text, start, ' ');
        Some(parse_i64_text(slice_subrange(text, start, end)))
    } else {
        None
    }
}

/// Sets right the timestamps of the entries that were taken before the
/// clock of their session was set.
fn adjust_entries(v: &mut Vec<LogEntry>)
    ensures
        entry_views(final(v)@) == spec_adjust_entries(entry_views(old(v)@)),
{
    let ghost before = entry_views(v@);
    let mut active_correction: Option<(u32, i64)> = None;
    let mut i: usize = v.len();
    while i > 0
        invariant
            i <= v@.len(),
            v@.len() == before.len(),
            active_correction == spec_correction_at(before, i - 1),
            forall|j: int| 0 <= j < i ==> (#[trigger] v@[j])@ == before[j],
            forall|j: int|
                i <= j < v@.len() ==> (#[trigger] v@[j])@ == spec_corrected(
                    spec_correction_at(before, j),
                    before[j],
                ),
        decreases i,
    {
        i = i - 1;
        let ghost entry = before[i as int];
        assert(v@[i as int]@ == entry);
        let session: Option<u32> = session_id(&v[i]);
        let marker: Option<Option<i64>> = clock_marker(v[i].message.as_str());
        match session {
            Some(session) => {
                match marker {
                    Some(delta) => {
                        active_correction = match delta {
                            Some(delta) => Some((session, delta)),
                            None => None,
                        };
                    },
                    None => {
                        match active_correction {
                            Some((active_session, delta)) => {
                                if session == active_session {
                                    if v[i].timestamp.secs < CLOCK_UNSET_BEFORE_SECS {
                                        match add_offset_100ns(v[i].timestamp, ticks(delta)) {
                                            Some(corrected_timestamp) => {
                                                v[i].timestamp = corrected_timestamp;
                                            },
                                            None => {},
                                        }
                                    }
                                } else {
                                    active_correction = None;
                                }
                            },
                            None => {},
                        }
                    },
                }
            },
            None => {
                active_correction = None;
            },
        }
        assert(v@[i as int]@ =~= spec_corrected(spec_correction_at(before, i as int), entry));
    }
    assert(entry_views(v@) =~= spec_adjust_entries(before));
}

/// Sets right, in every source of the tree, the timestamps of the entries
/// that were taken before the clock of their session was set. The entries of
/// a source are gone through from the last to the first: an entry that says
/// by how much the clock of its session was set gives the correction for the
/// entries of that session before it.
pub fn adjust_sensor_timestamps(source: &mut LogSource)
    ensures
        final(source)@ == spec_adjust_source(old(source)@),
    decreases *old(source),
{
    match &mut source.children {
        LogSourceContents::Sources(v) => {
            let ghost before = v@;
            let mut i: usize = 0;
            while i < v.len()
                invariant
                    i <= v@.len(),
                    v@.len() == before.len(),
                    old(source).children is Sources,
                    before == old(source).children->Sources_0@,
                    forall|j: int|
                        0 <= j < i ==> (#[trigger] v@[j])@ == spec_adjust_source(before[j]@),
                    forall|j: int| i <= j < v@.len() ==> #[trigger] v@[j] == before[j],
                decreases v.len() - i,
            {
                assert(v@[i as int] == old(source).children->Sources_0@[i as int]);
                adjust_sensor_timestamps(&mut v[i]);
                i = i + 1;
            }
        },
        LogSourceContents::Entries(v) => {
            adjust_entries(v);
        },
    }
    proof {
        if source.children is Sources {
            lemma_view_of_sources(*source);
            lemma_view_of_sources(*old(source));
            assert(source@.children->Sources_0 =~= spec_adjust_source(
                old(source)@,
            ).children->Sources_0);
        } else {
            lemma_view_of_entries(*source);
            lemma_view_of_entries(*old(source));
        }
    }
}

/// A member of an archive: its name, which may be a path, and what it holds.
#[derive(Debug)]
pub struct ArchiveMember {
    pub name: String,
    pub data: Vec<u8>,
}

/// The mathematical value of an [`ArchiveMember`].
pub struct ArchiveMemberView {
    pub name: Seq<char>,
    pub data: Seq<u8>,
}

impl View for ArchiveMember {
    type V = ArchiveMemberView;

    open spec fn view(&self) -> ArchiveMemberView {
        ArchiveMemberView { name: self.name@, data: self.data@ }
    }
}

/// The values of the members of an archive, one for one.
pub open spec fn member_views(members: Seq<ArchiveMember>) -> Seq<ArchiveMemberView> {
    Seq::new(members.len(), |i: int| members[i]@)
}

/// A log in the delimited-section format among the members of an archive:
/// the name of its source, the name of its group and its place in the
/// archive.
#[derive(Debug)]
pub struct ZipEntry {
    pub name: String,
    pub group_name: String,
    pub index: usize,
}

/// The mathematical value of a [`ZipEntry`].
pub struct ZipEntryView {
    pub name: Seq<char>,
    pub group_name: Seq<char>,
    pub index: usize,
}

impl View for ZipEntry {
    type V = ZipEntryView;

    open spec fn view(&self) -> ZipEntryView {
        ZipEntryView { name: self.name@, group_name: self.group_name@, index: self.index }
    }
}

/// The values of a list of logs, one for one.
pub open spec fn zip_entry_views(entries: Seq<ZipEntry>) -> Seq<ZipEntryView> {
    Seq::new(entries.len(), |i: int| entries[i]@)
}

/// Log `a` of a group is read before log `b` of the group: it has the
/// greater number of a ring buffer slot, a log without a number counting as
/// the least; and of two logs with the same number, the one whose name comes
/// last.
pub open spec fn older_slot(a: Seq<char>, b: Seq<char>) -> bool {
    spec_ring_index(a) > spec_ring_index(b) || (spec_ring_index(a) == spec_ring_index(b)
        && lex_less(b, a))
}

/// The order in which the logs of an archive are read: by the names of
/// their groups, and in a group from the greatest number of a ring buffer
/// slot to the least. A greater number names an older slot, so that a group
/// is read from its oldest log to its newest, the log without a number last.
pub open spec fn read_order() -> spec_fn(ZipEntryView, ZipEntryView) -> bool {
    |a: ZipEntryView, b: ZipEntryView|
        lex_less(a.group_name, b.group_name) || (a.group_name == b.group_name && older_slot(
            a.name,
            b.name,
        ))
}

impl Ranked for ZipEntry {
    open spec fn spec_precedes(&self, other: &Self) -> bool {
        read_order()(self@, other@)
    }

    fn precedes(&self, other: &Self) -> (r: bool) {
        let group = chars_of(self.group_name.as_str());
        let other_group = chars_of(other.group_name.as_str());
        if crate::text::chars_less(group.as_slice(), other_group.as_slice()) {
            true
        } else if chars_eq(group.as_slice(), other_group.as_slice()) {
            let slot: i64 = ring_index(self.name.as_str());
            let other_slot: i64 = ring_index(other.name.as_str());
            if slot != other_slot {
                slot > other_slot
            } else {
                let name = chars_of(self.name.as_str());
                let other_name = chars_of(other.name.as_str());
                crate::text::chars_less(other_name.as_slice(), name.as_slice())
            }
        } else {
            false
        }
    }

    proof fn lemma_irreflexive(a: &Self) {
        lemma_lex_irreflexive(a.group_name@);
        lemma_lex_irreflexive(a.name@);
    }

    proof fn lemma_transitive(a: &Self, b: &Self, c: &Self) {
        lemma_lex_irreflexive(a.group_name@);
        lemma_lex_irreflexive(b.group_name@);
        if lex_less(a.group_name@, b.group_name@) && lex_less(b.group_name@, c.group_name@) {
            lemma_lex_transitive(a.group_name@, b.group_name@, c.group_name@);
        }
        if a.group_name@ == b.group_name@ && b.group_name@ == c.group_name@ {
            if lex_less(b.name@, a.name@) && lex_less(c.name@, b.name@) {
                lemma_lex_transitive(c.name@, b.name@, a.name@);
            }
        }
    }

    proof fn lemma_ties_transitive(a: &Self, b: &Self, c: &Self) {
        lemma_lex_total(a.group_name@, b.group_name@);
        lemma_lex_total(b.group_name@, c.group_name@);
        lemma_lex_total(a.name@, b.name@);
        lemma_lex_total(b.name@, c.name@);
        lemma_lex_irreflexive(a.group_name@);
        lemma_lex_irreflexive(a.name@);
    }
}

/// Logs that are sorted are sorted as values.
pub proof fn lemma_sorted_zip_entry_views(before: Seq<ZipEntry>, after: Seq<ZipEntry>)
    requires
        is_stable_sort(before, after, order_of::<ZipEntry>()),
    ensures
        is_stable_sort(zip_entry_views(before), zip_entry_views(after), read_order()),
{
    let p = choose|p: Seq<int>| sorts_stably(before, after, p, order_of::<ZipEntry>());
    assert(sorts_stably(zip_entry_views(before), zip_entry_views(after), p, read_order())) by {
        let vb = zip_entry_views(before);
        let va = zip_entry_views(after);
        assert forall|i: int| 0 <= i < p.len() implies 0 <= #[trigger] p[i] < vb.len() && va[i]
            == vb[p[i]] by {}
        assert forall|i: int, j: int|
            #![trigger va[i], va[j]]
            0 <= i < j < va.len() implies !read_order()(va[j], va[i]) by {
            assert(!order_of::<ZipEntry>()(after[j], after[i]));
        }
        assert forall|i: int, j: int|
            #![trigger va[i], va[j]]
            0 <= i < j < va.len() && !read_order()(va[i], va[j]) implies p[i] < p[j] by {
            assert(!order_of::<ZipEntry>()(after[i], after[j]));
        }
    }
}

/// In the order in which the logs are read, the logs of one group stand
/// together, and from the greatest number of a ring buffer slot to the
/// least: the oldest log of a group is read first, and the log without a
/// number last.
pub proof fn lemma_read_oldest_first(before: Seq<ZipEntryView>, after: Seq<ZipEntryView>)
    requires
        is_stable_sort(before, after, read_order()),
    ensures
        forall|i: int, j: int|
            #![trigger after[i], after[j]]
            0 <= i < j < after.len() && after[i].group_name == after[j].group_name
                ==> spec_ring_index(after[i].name) >= spec_ring_index(after[j].name),
        forall|i: int, k: int, j: int|
            #![trigger after[i], after[k], after[j]]
            0 <= i <= k <= j < after.len() && after[i].group_name == after[j].group_name
                ==> after[k].group_name == after[i].group_name,
{
    let p = choose|p: Seq<int>| sorts_stably(before, after, p, read_order());
    assert forall|i: int, j: int|
        #![trigger after[i], after[j]]
        0 <= i < j < after.len() && after[i].group_name == after[j].group_name implies spec_ring_index(
        after[i].name,
    ) >= spec_ring_index(after[j].name) by {
        assert(!read_order()(after[j], after[i]));
    }
    assert forall|i: int, k: int, j: int|
        #![trigger after[i], after[k], after[j]]
        0 <= i <= k <= j < after.len() && after[i].group_name
            == after[j].group_name implies after[k].group_name == after[i].group_name by {
        if i < k && k < j {
            assert(!read_order()(after[k], after[i]));
            assert(!read_order()(after[j], after[k]));
            lemma_lex_total(after[k].group_name, after[i].group_name);
            if lex_less(after[i].group_name, after[k].group_name) {
                lemma_lex_irreflexive(after[i].group_name);
            }
        }
    }
}

/// What is made of the first `k` members of an archive that are of the kind
/// `kind`, in their order.
pub open spec fn spec_collect<T>(
    members: Seq<ArchiveMemberView>,
    kind: MemberKind,
    make: spec_fn(int, ArchiveMemberView) -> T,
    k: int,
) -> Seq<T>
    decreases k,
{
    if k <= 0 || k > members.len() {
        Seq::empty()
    } else if spec_classify(members[k - 1].name) == kind {
        spec_collect(members, kind, make, k - 1).push(make(k - 1, members[k - 1]))
    } else {
        spec_collect(members, kind, make, k - 1)
    }
}

/// The log in the delimited-section format that member `index` is.
pub open spec fn spec_zip_entry() -> spec_fn(int, ArchiveMemberView) -> ZipEntryView {
    |index: int, member: ArchiveMemberView|
        ZipEntryView {
            name: spec_member_stem(member.name),
            group_name: spec_group_name(spec_member_stem(member.name)),
            index: index as usize,
        }
}

/// The source that is made of a member that is a log in the token-pipe
/// format.
pub open spec fn spec_rds_source() -> spec_fn(int, ArchiveMemberView) -> LogSourceView {
    |index: int, member: ArchiveMemberView|
        LogSourceView {
            name: spec_member_stem(member.name),
            children: LogSourceContentsView::Entries(spec_rds_entries(member.data)),
        }
}

/// The source that is made of a member that is a log in the unit-delimited
/// format.
pub open spec fn spec_xlog_source() -> spec_fn(int, ArchiveMemberView) -> LogSourceView {
    |index: int, member: ArchiveMemberView|
        LogSourceView {
            name: spec_member_stem(member.name),
            children: LogSourceContentsView::Entries(spec_xlog_entries(member.data)),
        }
}

/// The source that is made of a member that is a log of the scanning
/// library.
pub open spec fn spec_scanlib_source() -> spec_fn(int, ArchiveMemberView) -> LogSourceView {
    |index: int, member: ArchiveMemberView|
        LogSourceView {
            name: spec_member_stem(member.name),
            children: LogSourceContentsView::Entries(Seq::empty()),
        }
}

/// A source of the name `name` without entries.
fn empty_source(name: String) -> (r: LogSource)
    ensures
        r@ == (LogSourceView {
            name: name@,
            children: LogSourceContentsView::Entries(Seq::empty()),
        }),
{
    let r = LogSource { name, children: LogSourceContents::Entries(Vec::new()) };
    assert(r@.children->Entries_0 =~= Seq::<LogEntryView>::empty());
    r
}

/// The logs in the delimited-section format among the members.
fn glog_files(members: &Vec<ArchiveMember>) -> (r: Vec<ZipEntry>)
    ensures
        zip_entry_views(r@) == spec_collect(
            member_views(members@),
            MemberKind::Glog,
            spec_zip_entry(),
            members@.len() as int,
        ),
        forall|j: int| 0 <= j < r@.len() ==> (#[trigger] r@[j]).index < members@.len(),
{
    let mut files: Vec<ZipEntry> = Vec::new();
    let mut i: usize = 0;
    assert(zip_entry_views(files@) =~= Seq::<ZipEntryView>::empty());
    while i < members.len()
        invariant
            i <= members@.len(),
            zip_entry_views(files@) == spec_collect(
                member_views(members@),
                MemberKind::Glog,
                spec_zip_entry(),
                i as int,
            ),
            forall|j: int| 0 <= j < files@.len() ==> (#[trigger] files@[j]).index < members@.len(),
        decreases members.len() - i,
    {
        let ghost before = files@;
        match classify_member(members[i].name.as_str()) {
            MemberKind::Glog => {
                let name = member_stem(members[i].name.as_str());
                let group_name = get_group_name(name.as_str());
                let file = ZipEntry { name, group_name, index: i };
                files.push(file);
                assert(zip_entry_views(files@) =~= zip_entry_views(before).push(file@));
            },
            _ => {},
        }
        i = i + 1;
    }
    files
}

/// The sources of the members of the kind `kind`, each read by the parser
/// of its format.
fn parse_members(members: &Vec<ArchiveMember>, kind: MemberKind) -> (r: Vec<LogSource>)
    requires
        kind == MemberKind::Rds || kind == MemberKind::Xlog || kind == MemberKind::ScanLib,
    ensures
        source_views(r@) == spec_collect(
            member_views(members@),
            kind,
            if kind == MemberKind::Rds {
                spec_rds_source()
            } else if kind == MemberKind::Xlog {
                spec_xlog_source()
            } else {
                spec_scanlib_source()
            },
            members@.len() as int,
        ),
{
    let mut sources: Vec<LogSource> = Vec::new();
    let mut i: usize = 0;
    let ghost make = if kind == MemberKind::Rds {
        spec_rds_source()
    } else if kind == MemberKind::Xlog {
        spec_xlog_source()
    } else {
        spec_scanlib_source()
    };
    assert(source_views(sources@) =~= Seq::<LogSourceView>::empty());
    while i < members.len()
        invariant
            i <= members@.len(),
            kind == MemberKind::Rds || kind == MemberKind::Xlog || kind == MemberKind::ScanLib,
            make == (if kind == MemberKind::Rds {
                spec_rds_source()
            } else if kind == MemberKind::Xlog {
                spec_xlog_source()
            } else {
                spec_scanlib_source()
            }),
            source_views(sources@) == spec_collect(member_views(members@), kind, make, i as int),
        decreases members.len() - i,
    {
        let ghost before = sources@;
        let found: MemberKind = classify_member(members[i].name.as_str());
        if found == kind {
            let root = empty_source(member_stem(members[i].name.as_str()));
            let source = match kind {
                MemberKind::Rds => crate::parse::rds_log::to_log_entries(
                    members[i].data.as_slice(),
                    root,
                ),
                MemberKind::Xlog => crate::parse::xlog::to_log_entries(
                    members[i].data.as_slice(),
                    root,
                ),
                _ => crate::parse::scanlib_log::to_log_entries(members[i].data.as_slice(), root),
            };
            sources.push(source);
            assert(source_views(sources@) =~= source_views(before).push(source@));
        }
        i = i + 1;
    }
    sources
}

/// The sources of the channels of the first `k` logs of client
/// applications: each log puts its entries to the source of its channel.
pub open spec fn spec_merge_channels(files: Seq<LogSourceView>, k: int) -> Seq<LogSourceView>
    decreases k,
{
    if k <= 0 || k > files.len() {
        Seq::empty()
    } else {
        spec_add_to_source(
            spec_merge_channels(files, k - 1),
            spec_channel_name(files[k - 1].name),
            files[k - 1].children->Entries_0,
        )
    }
}

/// Puts the logs of client applications together by their channels. The
/// channels stand in the order in which they first occur, and the entries of
/// a channel in the order of the logs.
pub fn merge_channels(files: Vec<LogSource>) -> (r: Vec<LogSource>)
    requires
        forall|i: int| 0 <= i < files@.len() ==> (#[trigger] files@[i])@.children is Entries,
    ensures
        source_views(r@) == spec_merge_channels(source_views(files@), files@.len() as int),
        distinct_leaves(source_views(r@)),
{
    let mut merged: Vec<LogSource> = Vec::new();
    let ghost all = source_views(files@);
    assert(source_views(merged@) =~= Seq::<LogSourceView>::empty());
    for file in it: files
        invariant
            it.seq() == files@,
            all == source_views(files@),
            forall|i: int| 0 <= i < files@.len() ==> (#[trigger] files@[i])@.children is Entries,
            source_views(merged@) == spec_merge_channels(all, it.index() as int),
            distinct_leaves(source_views(merged@)),
    {
        assert(file == files@[it.index() as int]);
        assert(all[it.index() as int] == file@);
        let channel = channel_name(file.name.as_str());
        proof {
            lemma_view_of_entries(file);
        }
        let entries: Vec<LogEntry> = match file.children {
            LogSourceContents::Entries(entries) => entries,
            LogSourceContents::Sources(_) => Vec::new(),
        };
        add_to_source(&mut merged, channel, entries);
    }
    merged
}

/// The source into which the group is read that begins with log `from`: it
/// has the name of the group and no entries.
pub open spec fn spec_group_root(files: Seq<ZipEntryView>, from: int) -> LogSourceView {
    LogSourceView {
        name: files[from].group_name,
        children: LogSourceContentsView::Entries(Seq::empty()),
    }
}

/// The parser of a group after it has read the logs of the group from
/// `from` up to `to`, one after the other, into a source of the name of the
/// group.
pub open spec fn spec_group_parser(
    files: Seq<ZipEntryView>,
    members: Seq<ArchiveMemberView>,
    from: int,
    to: int,
) -> GlogParserView
    decreases to - from,
{
    if to <= from {
        spec_new(spec_group_root(files, from))
    } else {
        spec_read_bytes(
            spec_group_parser(files, members, from, to - 1),
            members[files[to - 1].index as int].data,
        )
    }
}

/// The logs from `from` up to `to` are a group: they have the name of one
/// group, and the log behind them has another.
pub open spec fn is_group(files: Seq<ZipEntryView>, from: int, to: int) -> bool {
    &&& 0 <= from < to <= files.len()
    &&& forall|j: int| from <= j < to ==> (#[trigger] files[j]).group_name == files[from].group_name
    &&& to < files.len() ==> files[to].group_name != files[from].group_name
}

/// `sources` are the sources of the groups of `files` whose bounds are
/// `bounds`: source `k` is what the parser hands out that has read the logs
/// from `bounds[k]` up to `bounds[k + 1]`.
pub open spec fn groups_parsed(
    files: Seq<ZipEntryView>,
    members: Seq<ArchiveMemberView>,
    sources: Seq<LogSourceView>,
    bounds: Seq<int>,
) -> bool {
    &&& bounds.len() == sources.len() + 1
    &&& bounds[0] == 0
    &&& bounds[bounds.len() - 1] == files.len()
    &&& forall|k: int|
        0 <= k < sources.len() ==> #[trigger] group_parsed(files, members, sources, bounds, k)
}

/// Source `k` is the source of the group of `files` from `bounds[k]` up to
/// `bounds[k + 1]`.
pub open spec fn group_parsed(
    files: Seq<ZipEntryView>,
    members: Seq<ArchiveMemberView>,
    sources: Seq<LogSourceView>,
    bounds: Seq<int>,
    k: int,
) -> bool {
    &&& is_group(files, bounds[k], bounds[k + 1])
    &&& spec_finalize(spec_group_parser(files, members, bounds[k], bounds[k + 1]), sources[k])
}

/// The entries of the logs from `from` up to `to`, each read alone, one
/// log after the other.
pub open spec fn spec_group_entries(
    files: Seq<ZipEntryView>,
    members: Seq<ArchiveMemberView>,
    from: int,
    to: int,
) -> Seq<LogEntryView>
    decreases to - from,
{
    if to <= from {
        Seq::empty()
    } else {
        spec_group_entries(files, members, from, to - 1)
            + crate::parse::glog::spec_entries_alone(
            spec_group_root(files, from),
            members[files[to - 1].index as int].data,
        )
    }
}

/// Every log from `from` up to `to` is whole, begins with a section and
/// names no sub-source.
pub open spec fn whole_logs(
    files: Seq<ZipEntryView>,
    members: Seq<ArchiveMemberView>,
    from: int,
    to: int,
) -> bool {
    forall|k: int|
        from <= k < to ==> {
            let data = members[(#[trigger] files[k]).index as int].data;
            &&& crate::parse::glog::is_whole_log(spec_group_root(files, from), data)
            &&& data.len() > 0
            &&& data[0] == crate::parse::glog::SECTION_OPEN
        }
}

/// A group of whole logs is read as one log that holds the entries of its
/// logs in the order in which the logs are read, each log's entries in their
/// order.
pub proof fn lemma_group_of_whole_logs(
    files: Seq<ZipEntryView>,
    members: Seq<ArchiveMemberView>,
    from: int,
    to: int,
)
    requires
        0 <= from < to <= files.len(),
        whole_logs(files, members, from, to),
    ensures
        spec_group_parser(files, members, from, to).state matches GlogParserState::SectionValuePost3(
            _,
            _,
            true,
        ),
        crate::parse::glog::spec_flush(spec_group_parser(files, members, from, to)).log_sources.len()
            == 0,
        crate::parse::glog::spec_flush(spec_group_parser(files, members, from, to)).log_entries
            == spec_group_entries(files, members, from, to),
        crate::parse::glog::spec_flush(spec_group_parser(files, members, from, to)).root
            == spec_group_root(files, from),
    decreases to - from,
{
    let root = spec_group_root(files, from);
    let data = members[files[to - 1].index as int].data;
    assert(files[to - 1] == files[to - 1]);
    crate::parse::glog::lemma_root_stays(spec_new(root), data);
    if to == from + 1 {
        assert(spec_group_parser(files, members, from, from) == spec_new(root));
        assert(spec_group_entries(files, members, from, from) =~= Seq::<LogEntryView>::empty());
        assert(spec_group_entries(files, members, from, to) =~= crate::parse::glog::spec_entries_alone(
            root,
            data,
        ));
    } else {
        assert forall|k: int| from <= k < to - 1 implies {
            let d = members[(#[trigger] files[k]).index as int].data;
            &&& crate::parse::glog::is_whole_log(root, d)
            &&& d.len() > 0
            &&& d[0] == crate::parse::glog::SECTION_OPEN
        } by {}
        lemma_group_of_whole_logs(files, members, from, to - 1);
        let before = spec_group_parser(files, members, from, to - 1);
        crate::parse::glog::lemma_log_read_behind_another(before, root, data);
        crate::parse::glog::lemma_root_stays(before, data);
    }
}

/// The source of a group of whole logs has the name of the group and holds
/// the entries of the logs, from the log that is read first to the last.
pub proof fn lemma_group_source(
    files: Seq<ZipEntryView>,
    members: Seq<ArchiveMemberView>,
    from: int,
    to: int,
    r: LogSourceView,
)
    requires
        0 <= from < to <= files.len(),
        whole_logs(files, members, from, to),
        spec_finalize(spec_group_parser(files, members, from, to), r),
    ensures
        r.name == files[from].group_name,
        r.children == LogSourceContentsView::Entries(
            spec_group_entries(files, members, from, to),
        ),
{
    lemma_group_of_whole_logs(files, members, from, to);
}

/// Reads the group of logs that begins with log `from`. Returns its
/// source, the place of the first log behind the group, and the count of the
/// bytes of the group that stood outside any section.
fn parse_glog_group(members: &Vec<ArchiveMember>, files: &Vec<ZipEntry>, from: usize) -> (r: (
    LogSource,
    usize,
    usize,
))
    requires
        from < files@.len(),
        forall|j: int| 0 <= j < files@.len() ==> (#[trigger] files@[j]).index < members@.len(),
    ensures
        is_group(zip_entry_views(files@), from as int, r.1 as int),
        spec_finalize(
            spec_group_parser(
                zip_entry_views(files@),
                member_views(members@),
                from as int,
                r.1 as int,
            ),
            r.0@,
        ),
        r.2 == spec_group_parser(
            zip_entry_views(files@),
            member_views(members@),
            from as int,
            r.1 as int,
        ).invalid_bytes,
{
    let ghost fv = zip_entry_views(files@);
    let ghost mv = member_views(members@);
    let group_name: String = files[from].group_name.clone();
    assert(group_name@ == fv[from as int].group_name);
    let mut parser = GlogParser::new(empty_source(group_name));
    let mut j: usize = from;
    while j < files.len() && str_eq(files[j].group_name.as_str(), files[from].group_name.as_str())
        invariant
            from <= j <= files@.len(),
            from < files@.len(),
            fv == zip_entry_views(files@),
            mv == member_views(members@),
            forall|j: int| 0 <= j < files@.len() ==> (#[trigger] files@[j]).index < members@.len(),
            forall|k: int|
                from <= k < j ==> (#[trigger] fv[k]).group_name == fv[from as int].group_name,
            parser.wf(),
            parser@ == spec_group_parser(fv, mv, from as int, j as int),
        decreases files.len() - j,
    {
        assert(fv[j as int].index == files@[j as int].index);
        assert(mv[files@[j as int].index as int].data == members@[files@[j as int].index
            as int].data@);
        parser.read_bytes(members[files[j].index].data.as_slice());
        j = j + 1;
    }
    let (source, invalid_bytes) = parser.finalize_counted();
    (source, j, invalid_bytes)
}

/// The count of the bytes outside any section in the first `k` groups
/// whose bounds are `bounds`.
pub open spec fn spec_invalid_bytes(
    files: Seq<ZipEntryView>,
    members: Seq<ArchiveMemberView>,
    bounds: Seq<int>,
    k: int,
) -> int
    decreases k,
{
    if k <= 0 {
        0
    } else {
        spec_invalid_bytes(files, members, bounds, k - 1) + spec_group_parser(
            files,
            members,
            bounds[k - 1],
            bounds[k],
        ).invalid_bytes
    }
}

/// The counts of groups whose bounds agree are the same.
proof fn lemma_invalid_bytes_prefix(
    files: Seq<ZipEntryView>,
    members: Seq<ArchiveMemberView>,
    bounds: Seq<int>,
    longer: Seq<int>,
    k: int,
)
    requires
        0 <= k < bounds.len() <= longer.len(),
        forall|j: int| 0 <= j < bounds.len() ==> bounds[j] == longer[j],
    ensures
        spec_invalid_bytes(files, members, bounds, k) == spec_invalid_bytes(
            files,
            members,
            longer,
            k,
        ),
        spec_invalid_bytes(files, members, bounds, k) >= 0,
    decreases k,
{
    if k > 0 {
        lemma_invalid_bytes_prefix(files, members, bounds, longer, k - 1);
    }
}

/// Reads the logs in the delimited-section format, group by group. Returns
/// the sources of the groups, the bounds of the groups, and the count of the
/// bytes that stood outside any section, as far as it can be counted.
#[verifier::rlimit(30)]
fn parse_glog_groups(members: &Vec<ArchiveMember>, files: &Vec<ZipEntry>) -> (r: (
    Vec<LogSource>,
    Ghost<Seq<int>>,
    usize,
))
    requires
        forall|j: int| 0 <= j < files@.len() ==> (#[trigger] files@[j]).index < members@.len(),
    ensures
        groups_parsed(
            zip_entry_views(files@),
            member_views(members@),
            source_views(r.0@),
            r.1@,
        ),
        r.2 == vstd::math::min(
            spec_invalid_bytes(
                zip_entry_views(files@),
                member_views(members@),
                r.1@,
                r.0@.len() as int,
            ),
            usize::MAX as int,
        ),
{
    let ghost fv = zip_entry_views(files@);
    let ghost mv = member_views(members@);
    let mut child_sources: Vec<LogSource> = Vec::new();
    let mut invalid_bytes: usize = 0;
    let ghost mut bounds: Seq<int> = seq![0int];
    let mut i: usize = 0;
    while i < files.len()
        invariant
            i <= files@.len(),
            fv == zip_entry_views(files@),
            mv == member_views(members@),
            forall|j: int| 0 <= j < files@.len() ==> (#[trigger] files@[j]).index < members@.len(),
            bounds.len() == child_sources@.len() + 1,
            bounds[0] == 0,
            bounds[bounds.len() - 1] == i,
            forall|k: int|
                0 <= k < child_sources@.len() ==> #[trigger] group_parsed(
                    fv,
                    mv,
                    source_views(child_sources@),
                    bounds,
                    k,
                ),
            spec_invalid_bytes(fv, mv, bounds, child_sources@.len() as int) >= 0,
            invalid_bytes == vstd::math::min(
                spec_invalid_bytes(fv, mv, bounds, child_sources@.len() as int),
                usize::MAX as int,
            ),
        decreases files.len() - i,
    {
        let (source, next, invalid) = parse_glog_group(members, files, i);
        let ghost sources_before = source_views(child_sources@);
        let ghost bounds_before = bounds;
        child_sources.push(source);
        invalid_bytes = if invalid > usize::MAX - invalid_bytes {
            usize::MAX
        } else {
            invalid_bytes + invalid
        };
        proof {
            bounds = bounds.push(next as int);
            let sources = source_views(child_sources@);
            assert(sources =~= sources_before.push(source@));
            assert forall|k: int| 0 <= k < sources.len() implies #[trigger] group_parsed(
                fv,
                mv,
                sources,
                bounds,
                k,
            ) by {
                if k < sources_before.len() {
                    assert(group_parsed(fv, mv, sources_before, bounds_before, k));
                    assert(bounds[k] == bounds_before[k]);
                    assert(bounds[k + 1] == bounds_before[k + 1]);
                    assert(sources[k] == sources_before[k]);
                }
            }
            lemma_invalid_bytes_prefix(fv, mv, bounds_before, bounds, sources_before.len() as int);
            assert(bounds[sources_before.len() as int] == i);
            assert(bounds[sources_before.len() as int + 1] == next);
        }
        i = next;
    }
    assert(groups_parsed(fv, mv, source_views(child_sources@), bounds));
    (child_sources, Ghost(bounds), invalid_bytes)
}

/// The sources of an archive by their kinds, as values.
pub struct Categories {
    pub controller: Seq<LogSourceView>,
    pub sensor: Seq<LogSourceView>,
    pub connect_box: Seq<LogSourceView>,
    pub probe: Seq<LogSourceView>,
    pub unknown: Seq<LogSourceView>,
}

/// The sources of an archive by their kinds.
#[derive(Debug)]
pub struct SourceCategories {
    /// The sources of the controller.
    pub controller: Vec<LogSource>,
    /// The boards of the sensor, each with the sources of the board.
    pub sensor: Vec<LogSource>,
    pub connect_box: Vec<LogSource>,
    pub probe: Vec<LogSource>,
    pub unknown: Vec<LogSource>,
}

impl View for SourceCategories {
    type V = Categories;

    open spec fn view(&self) -> Categories {
        Categories {
            controller: source_views(self.controller@),
            sensor: source_views(self.sensor@),
            connect_box: source_views(self.connect_box@),
            probe: source_views(self.probe@),
            unknown: source_views(self.unknown@),
        }
    }
}

/// `board` is the name of a board of the sensor.
pub open spec fn is_board_name(board: Seq<char>) -> bool {
    ||| board == "axis"@
    ||| board == "sensorbase"@
    ||| board == "telescope"@
    ||| board == "trigger"@
    ||| board == "adm"@
    ||| board == "laseroven"@
    ||| board == "wfd"@
    ||| board == "dynamicadm"@
    ||| board == "icbpower"@
    ||| occurs_at(board, "cfm"@, 0)
    ||| board == "laserctl"@
    ||| board == "wlanmodule"@
}

/// The source under another name.
pub open spec fn renamed(source: LogSourceView, name: Seq<char>) -> LogSourceView {
    LogSourceView { name, children: source.children }
}

/// The sensor boards after the source `leaf` was put to the board `board`:
/// behind the sources of the last board if that is `board`, and else into a
/// new board behind the others.
pub open spec fn spec_add_to_board(
    sensor: Seq<LogSourceView>,
    board: Seq<char>,
    leaf: LogSourceView,
) -> Seq<LogSourceView> {
    if sensor.len() > 0 && sensor[sensor.len() - 1].name == board {
        sensor.update(
            sensor.len() - 1,
            LogSourceView {
                name: board,
                children: LogSourceContentsView::Sources(
                    sensor[sensor.len() - 1].children->Sources_0.push(leaf),
                ),
            },
        )
    } else {
        sensor.push(
            LogSourceView { name: board, children: LogSourceContentsView::Sources(seq![leaf]) },
        )
    }
}

/// The kinds after one more source was sorted in by its name. A name that
/// begins with `contr_` is of the controller; a name that begins with the
/// name of a sensor board and `_`, of that board; a name that begins with
/// `connectbox_` or `ap21_`, of the connect box or of the probe; and each
/// such source is named by what follows. Other sources are of unknown kind.
pub open spec fn spec_categorize_one(c: Categories, source: LogSourceView) -> Categories {
    let name = source.name;
    let split = spec_find_char(name, 0, '_');
    if occurs_at(name, "contr_"@, 0) {
        Categories {
            controller: c.controller.push(
                renamed(source, name.subrange("contr_"@.len() as int, name.len() as int)),
            ),
            ..c
        }
    } else if split < name.len() && is_board_name(name.subrange(0, split)) {
        Categories {
            sensor: spec_add_to_board(
                c.sensor,
                name.subrange(0, split),
                renamed(source, name.subrange(split + 1, name.len() as int)),
            ),
            ..c
        }
    } else if occurs_at(name, "connectbox_"@, 0) {
        Categories {
            connect_box: c.connect_box.push(
                renamed(source, name.subrange("connectbox_"@.len() as int, name.len() as int)),
            ),
            ..c
        }
    } else if occurs_at(name, "ap21_"@, 0) {
        Categories {
            probe: c.probe.push(
                renamed(source, name.subrange("ap21_"@.len() as int, name.len() as int)),
            ),
            ..c
        }
    } else {
        Categories { unknown: c.unknown.push(source), ..c }
    }
}

/// The kinds of the first `k` sources.
pub open spec fn spec_categorize(sources: Seq<LogSourceView>, k: int) -> Categories
    decreases k,
{
    if k <= 0 || k > sources.len() {
        Categories {
            controller: Seq::empty(),
            sensor: Seq::empty(),
            connect_box: Seq::empty(),
            probe: Seq::empty(),
            unknown: Seq::empty(),
        }
    } else {
        spec_categorize_one(spec_categorize(sources, k - 1), sources[k - 1])
    }
}

/// Whether `board` is the name of a board of the sensor.
fn board_name(board: &[char]) -> (r: bool)
    ensures
        r == is_board_name(board@),
{
    chars_eq(board, chars_of("axis").as_slice()) || chars_eq(
        board,
        chars_of("sensorbase").as_slice(),
    ) || chars_eq(board, chars_of("telescope").as_slice()) || chars_eq(
        board,
        chars_of("trigger").as_slice(),
    ) || chars_eq(board, chars_of("adm").as_slice()) || chars_eq(
        board,
        chars_of("laseroven").as_slice(),
    ) || chars_eq(board, chars_of("wfd").as_slice()) || chars_eq(
        board,
        chars_of("dynamicadm").as_slice(),
    ) || chars_eq(board, chars_of("icbpower").as_slice()) || starts_with(
        board,
        chars_of("cfm").as_slice(),
    ) || chars_eq(board, chars_of("laserctl").as_slice()) || chars_eq(
        board,
        chars_of("wlanmodule").as_slice(),
    )
}

/// The source under the name that the characters `name` spell.
fn rename(source: LogSource, name: &[char]) -> (r: LogSource)
    ensures
        r@ == renamed(source@, name@),
{
    let mut source = source;
    source.name = string_from_chars(name);
    source
}

/// All boards hold sources.
pub open spec fn boards_hold_sources(sensor: Seq<LogSource>) -> bool {
    forall|i: int| 0 <= i < sensor.len() ==> (#[trigger] sensor[i]).children is Sources
}

/// Puts the source `leaf` to the board of the name `board`.
fn add_to_board(sensor: &mut Vec<LogSource>, board: &[char], leaf: LogSource)
    requires
        boards_hold_sources(old(sensor)@),
    ensures
        source_views(final(sensor)@) == spec_add_to_board(
            source_views(old(sensor)@),
            board@,
            leaf@,
        ),
        boards_hold_sources(final(sensor)@),
{
    let ghost before = source_views(sensor@);
    let n: usize = sensor.len();
    let same_board: bool = n > 0 && {
        let last_name = chars_of(sensor[n - 1].name.as_str());
        chars_eq(last_name.as_slice(), board)
    };
    if same_board {
        let ghost leaves_before = old(sensor)@[n - 1].children->Sources_0@;
        assert(old(sensor)@[n - 1].children is Sources);
        match &mut sensor[n - 1].children {
            LogSourceContents::Sources(v) => {
                v.push(leaf);
            },
            LogSourceContents::Entries(_) => {},
        }
        proof {
            assert(sensor@[n - 1].children->Sources_0@ == leaves_before.push(leaf));
            assert(source_views(leaves_before.push(leaf)) =~= source_views(leaves_before).push(
                leaf@,
            ));
            lemma_view_of_sources(sensor@[n - 1]);
            lemma_view_of_sources(old(sensor)@[n - 1]);
            let updated = LogSourceView {
                name: board@,
                children: LogSourceContentsView::Sources(
                    before[n - 1].children->Sources_0.push(leaf@),
                ),
            };
            assert(sensor@[n - 1]@ == updated);
            assert forall|j: int| 0 <= j < before.len() implies source_views(sensor@)[j]
                == before.update(n - 1, updated)[j] by {
                if j != n - 1 {
                    assert(sensor@[j] == old(sensor)@[j]);
                }
            }
            assert(source_views(sensor@) =~= spec_add_to_board(before, board@, leaf@));
            assert forall|i: int| 0 <= i < sensor@.len() implies (#[trigger] sensor@[i]).children
                is Sources by {
                if i != n - 1 {
                    assert(sensor@[i] == old(sensor)@[i]);
                }
            }
        }
    } else {
        let mut leaves: Vec<LogSource> = Vec::new();
        leaves.push(leaf);
        let node = LogSource {
            name: string_from_chars(board),
            children: LogSourceContents::Sources(leaves),
        };
        proof {
            lemma_view_of_sources(node);
            assert(source_views(leaves@) =~= seq![leaf@]);
        }
        sensor.push(node);
        proof {
            assert(source_views(sensor@) =~= spec_add_to_board(before, board@, leaf@));
            assert forall|i: int| 0 <= i < sensor@.len() implies (#[trigger] sensor@[i]).children
                is Sources by {
                if i < n {
                    assert(sensor@[i] == old(sensor)@[i]);
                }
            }
        }
    }
}

/// Sorts one more source in by its name.
fn categorize_one(categories: &mut SourceCategories, source: LogSource)
    requires
        boards_hold_sources(old(categories).sensor@),
    ensures
        final(categories)@ == spec_categorize_one(old(categories)@, source@),
        boards_hold_sources(final(categories).sensor@),
{
    let chars = chars_of(source.name.as_str());
    let name = chars.as_slice();
    let controller = chars_of("contr_");
    let connect_box = chars_of("connectbox_");
    let probe = chars_of("ap21_");
    let split: usize = find_char(name, 0, '_');
    if starts_with(name, controller.as_slice()) {
        let ghost before = source_views(categories.controller@);
        let source = rename(source, slice_subrange(name, controller.len(), name.len()));
        categories.controller.push(source);
        assert(source_views(categories.controller@) =~= before.push(source@));
    } else if split < name.len() && board_name(slice_subrange(name, 0, split)) {
        let leaf = rename(source, slice_subrange(name, split + 1, name.len()));
        add_to_board(&mut categories.sensor, slice_subrange(name, 0, split), leaf);
    } else if starts_with(name, connect_box.as_slice()) {
        let ghost before = source_views(categories.connect_box@);
        let source = rename(source, slice_subrange(name, connect_box.len(), name.len()));
        categories.connect_box.push(source);
        assert(source_views(categories.connect_box@) =~= before.push(source@));
    } else if starts_with(name, probe.as_slice()) {
        let ghost before = source_views(categories.probe@);
        let source = rename(source, slice_subrange(name, probe.len(), name.len()));
        categories.probe.push(source);
        assert(source_views(categories.probe@) =~= before.push(source@));
    } else {
        let ghost before = source_views(categories.unknown@);
        categories.unknown.push(source);
        assert(source_views(categories.unknown@) =~= before.push(source@));
    }
}

/// Sorts the sources in by their names: those of the controller, of the
/// boards of the sensor, of the connect box and of the probe, and the others.
pub fn categorize(sources: Vec<LogSource>) -> (r: SourceCategories)
    ensures
        r@ == spec_categorize(source_views(sources@), sources@.len() as int),
        boards_hold_sources(r.sensor@),
{
    let mut categories = SourceCategories {
        controller: Vec::new(),
        sensor: Vec::new(),
        connect_box: Vec::new(),
        probe: Vec::new(),
        unknown: Vec::new(),
    };
    let ghost all = source_views(sources@);
    assert(categories@.controller =~= Seq::<LogSourceView>::empty());
    assert(categories@.sensor =~= Seq::<LogSourceView>::empty());
    assert(categories@.connect_box =~= Seq::<LogSourceView>::empty());
    assert(categories@.probe =~= Seq::<LogSourceView>::empty());
    assert(categories@.unknown =~= Seq::<LogSourceView>::empty());
    for source in it: sources
        invariant
            it.seq() == sources@,
            all == source_views(sources@),
            categories@ == spec_categorize(all, it.index() as int),
            boards_hold_sources(categories.sensor@),
    {
        assert(all[it.index() as int] == source@);
        categorize_one(&mut categories, source);
    }
    categories
}

/// Sorts sources by their names, whatever the case of the letters. Sources
/// whose names differ in case only keep their order.
pub fn sort_sources(sources: &mut Vec<LogSource>)
    ensures
        is_stable_sort(
            source_views(old(sources)@),
            source_views(final(sources)@),
            source_order(),
        ),
{
    let ghost before = sources@;
    stable_sort(sources);
    proof {
        lemma_sorted_source_views(before, sources@);
    }
}

/// The trees with the timestamps of their entries set right.
pub open spec fn spec_adjust_all(sources: Seq<LogSourceView>) -> Seq<LogSourceView> {
    Seq::new(sources.len(), |i: int| spec_adjust_source(sources[i]))
}

/// Sets right the timestamps in every tree of a list.
fn adjust_all(sources: &mut Vec<LogSource>)
    ensures
        source_views(final(sources)@) == spec_adjust_all(source_views(old(sources)@)),
{
    let ghost before = sources@;
    let mut i: usize = 0;
    while i < sources.len()
        invariant
            i <= sources@.len(),
            sources@.len() == before.len(),
            forall|j: int| 0 <= j < i ==> (#[trigger] sources@[j])@ == spec_adjust_source(before[j]@),
            forall|j: int| i <= j < sources@.len() ==> #[trigger] sources@[j] == before[j],
        decreases sources.len() - i,
    {
        adjust_sensor_timestamps(&mut sources[i]);
        i = i + 1;
    }
    assert(source_views(sources@) =~= spec_adjust_all(source_views(before)));
}

/// What is made of the members of an archive on the way to its tree: the
/// logs in the delimited-section format in the order in which they are
/// read, the bounds and the sources of their groups, and the sources of
/// every kind in their order under the node of the kind.
pub struct ArchiveStages {
    pub glog_order: Seq<ZipEntryView>,
    pub glog_bounds: Seq<int>,
    pub glog_sources: Seq<LogSourceView>,
    pub client: Seq<LogSourceView>,
    pub controller: Seq<LogSourceView>,
    pub sensor: Seq<LogSourceView>,
    pub connect_box: Seq<LogSourceView>,
    pub probe: Seq<LogSourceView>,
    pub rds: Seq<LogSourceView>,
    pub scanlib: Seq<LogSourceView>,
    pub unknown: Seq<LogSourceView>,
}

/// `stages` is what is made of the members `members`: the logs in the
/// delimited-section format are sorted into their reading order and read
/// group by group, and the sources of the groups are sorted in by their
/// names; the logs of client applications are put together by their
/// channels; and the sources of every kind are sorted by their names.
pub open spec fn stages_of(members: Seq<ArchiveMemberView>, stages: ArchiveStages) -> bool {
    let count = members.len() as int;
    let kinds = spec_categorize(stages.glog_sources, stages.glog_sources.len() as int);
    let client_logs = spec_collect(members, MemberKind::Xlog, spec_xlog_source(), count);
    &&& is_stable_sort(
        spec_collect(members, MemberKind::Glog, spec_zip_entry(), count),
        stages.glog_order,
        read_order(),
    )
    &&& groups_parsed(stages.glog_order, members, stages.glog_sources, stages.glog_bounds)
    &&& is_stable_sort(kinds.controller, stages.controller, source_order())
    &&& is_stable_sort(kinds.sensor, stages.sensor, source_order())
    &&& is_stable_sort(kinds.connect_box, stages.connect_box, source_order())
    &&& is_stable_sort(kinds.probe, stages.probe, source_order())
    &&& is_stable_sort(kinds.unknown, stages.unknown, source_order())
    &&& is_stable_sort(
        spec_merge_channels(client_logs, client_logs.len() as int),
        stages.client,
        source_order(),
    )
    &&& is_stable_sort(
        spec_collect(members, MemberKind::Rds, spec_rds_source(), count),
        stages.rds,
        source_order(),
    )
    &&& is_stable_sort(
        spec_collect(members, MemberKind::ScanLib, spec_scanlib_source(), count),
        stages.scanlib,
        source_order(),
    )
}

/// The node of a kind with its sources.
pub open spec fn spec_category(name: Seq<char>, sources: Seq<LogSourceView>) -> LogSourceView {
    LogSourceView { name, children: LogSourceContentsView::Sources(sources) }
}

/// The nodes with the node of a kind behind them, if the kind has sources.
pub open spec fn spec_push_category(
    nodes: Seq<LogSourceView>,
    name: Seq<char>,
    sources: Seq<LogSourceView>,
) -> Seq<LogSourceView> {
    if sources.len() > 0 {
        nodes.push(spec_category(name, sources))
    } else {
        nodes
    }
}

/// The tree of an archive: under the name of the archive stand the nodes
/// `Client`, `Controller` and `Sensor`, and behind them, where they have
/// sources, `Connect Box`, `Probe`, `RDS`, `ScanLib` and `Unknown`. The
/// timestamps of the sensor, of the connect box and of the probe are set
/// right.
pub open spec fn spec_assemble(file_name: Seq<char>, stages: ArchiveStages) -> LogSourceView {
    let always = seq![
        spec_category("Client"@, stages.client),
        spec_category("Controller"@, stages.controller),
        spec_category("Sensor"@, spec_adjust_all(stages.sensor)),
    ];
    let with_connect_box = spec_push_category(
        always,
        "Connect Box"@,
        spec_adjust_all(stages.connect_box),
    );
    let with_probe = spec_push_category(with_connect_box, "Probe"@, spec_adjust_all(stages.probe));
    let with_rds = spec_push_category(with_probe, "RDS"@, stages.rds);
    let with_scanlib = spec_push_category(with_rds, "ScanLib"@, stages.scanlib);
    let with_unknown = spec_push_category(with_scanlib, "Unknown"@, stages.unknown);
    LogSourceView { name: file_name, children: LogSourceContentsView::Sources(with_unknown) }
}

/// `tree` is the tree of the archive of the name `file_name` with the
/// members `members`.
pub open spec fn spec_archive_tree(
    file_name: Seq<char>,
    members: Seq<ArchiveMemberView>,
    tree: LogSourceView,
) -> bool {
    exists|stages: ArchiveStages|
        #[trigger] stages_of(members, stages) && tree == spec_assemble(file_name, stages)
}

/// The node of a kind with its sources.
fn category(name: &str, sources: Vec<LogSource>) -> (r: LogSource)
    ensures
        r@ == spec_category(name@, source_views(sources@)),
{
    let r = LogSource { name: name.to_owned(), children: LogSourceContents::Sources(sources) };
    proof {
        lemma_view_of_sources(r);
    }
    r
}

/// Puts the node of a kind behind the nodes, if the kind has sources.
fn push_category(nodes: &mut Vec<LogSource>, name: &str, sources: Vec<LogSource>)
    ensures
        source_views(final(nodes)@) == spec_push_category(
            source_views(old(nodes)@),
            name@,
            source_views(sources@),
        ),
{
    if sources.len() > 0 {
        let node = category(name, sources);
        nodes.push(node);
        assert(source_views(nodes@) =~= source_views(old(nodes)@).push(node@));
    }
}

/// The logs in the delimited-section format in the order in which they are
/// read.
fn glog_read_order(members: &Vec<ArchiveMember>) -> (r: Vec<ZipEntry>)
    ensures
        is_stable_sort(
            spec_collect(
                member_views(members@),
                MemberKind::Glog,
                spec_zip_entry(),
                members@.len() as int,
            ),
            zip_entry_views(r@),
            read_order(),
        ),
        forall|j: int| 0 <= j < r@.len() ==> (#[trigger] r@[j]).index < members@.len(),
{
    let mut files = glog_files(members);
    let ghost before = files@;
    stable_sort(&mut files);
    proof {
        lemma_sorted_zip_entry_views(before, files@);
        let p = choose|p: Seq<int>| sorts_stably(before, files@, p, order_of::<ZipEntry>());
        assert forall|j: int| 0 <= j < files@.len() implies (#[trigger] files@[j]).index
            < members@.len() by {
            assert(files@[j] == before[p[j]]);
        }
    }
    files
}

/// Makes the tree of the archive of the name `file_name` of its members.
///
/// Every member is read by the parser that its name calls for. The logs in
/// the delimited-section format are read group by group, a group from its
/// oldest log to its newest, and the sources of the groups are sorted in by
/// their names; the logs of client applications are put together by their
/// channels. Under the node of every kind the sources are sorted by their
/// names, and the timestamps that devices took before their clocks were set
/// are set right.
#[verifier::rlimit(30)]
pub fn from_file(file_name: &str, members: &Vec<ArchiveMember>) -> (r: LogSource)
    ensures
        spec_archive_tree(file_name@, member_views(members@), r@),
{
    let (tree, _) = from_file_counted(file_name, members);
    tree
}

/// `tree` is the tree of the archive of the name `file_name` with the
/// members `members`, and `invalid_bytes` the count of the bytes of its logs
/// in the delimited-section format that stood outside any section; a count
/// that is too great for the machine is given as the greatest count.
pub open spec fn spec_archive_tree_counted(
    file_name: Seq<char>,
    members: Seq<ArchiveMemberView>,
    tree: LogSourceView,
    invalid_bytes: usize,
) -> bool {
    exists|stages: ArchiveStages|
        #[trigger] stages_of(members, stages) && tree == spec_assemble(file_name, stages)
            && invalid_bytes == vstd::math::min(
            spec_invalid_bytes(
                stages.glog_order,
                members,
                stages.glog_bounds,
                stages.glog_sources.len() as int,
            ),
            usize::MAX as int,
        )
}

/// Makes the tree of an archive as `from_file` does, and tells at the end
/// how many bytes of its logs in the delimited-section format stood outside
/// any section and were passed over.
#[verifier::rlimit(30)]
pub fn from_file_counted(file_name: &str, members: &Vec<ArchiveMember>) -> (r: (LogSource, usize))
    ensures
        spec_archive_tree_counted(file_name@, member_views(members@), r.0@, r.1),
        spec_archive_tree(file_name@, member_views(members@), r.0@),
{
    let ghost mv = member_views(members@);
    let glog_order = glog_read_order(members);
    let (glog_sources, Ghost(glog_bounds), invalid_bytes) = parse_glog_groups(members, &glog_order);
    let ghost glog_views = source_views(glog_sources@);
    let kinds = categorize(glog_sources);
    let SourceCategories { controller, sensor, connect_box, probe, unknown } = kinds;
    let mut controller = controller;
    let mut sensor = sensor;
    let mut connect_box = connect_box;
    let mut probe = probe;
    let mut unknown = unknown;
    let client_logs = parse_members(members, MemberKind::Xlog);
    proof {
        lemma_collected_entries(mv, members@.len() as int);
        assert forall|i: int| 0 <= i < client_logs@.len() implies (#[trigger] client_logs@[i])@.children
            is Entries by {
            assert(source_views(client_logs@)[i] == client_logs@[i]@);
        }
    }
    let mut client = merge_channels(client_logs);
    let mut rds = parse_members(members, MemberKind::Rds);
    let mut scanlib = parse_members(members, MemberKind::ScanLib);
    sort_sources(&mut controller);
    sort_sources(&mut sensor);
    sort_sources(&mut client);
    sort_sources(&mut connect_box);
    sort_sources(&mut probe);
    sort_sources(&mut rds);
    sort_sources(&mut scanlib);
    sort_sources(&mut unknown);
    let ghost stages = ArchiveStages {
        glog_order: zip_entry_views(glog_order@),
        glog_bounds,
        glog_sources: glog_views,
        client: source_views(client@),
        controller: source_views(controller@),
        sensor: source_views(sensor@),
        connect_box: source_views(connect_box@),
        probe: source_views(probe@),
        rds: source_views(rds@),
        scanlib: source_views(scanlib@),
        unknown: source_views(unknown@),
    };
    assert(stages_of(mv, stages));
    adjust_all(&mut sensor);
    adjust_all(&mut connect_box);
    adjust_all(&mut probe);
    let mut sources_vec: Vec<LogSource> = Vec::new();
    let client_node = category("Client", client);
    let controller_node = category("Controller", controller);
    let sensor_node = category("Sensor", sensor);
    sources_vec.push(client_node);
    sources_vec.push(controller_node);
    sources_vec.push(sensor_node);
    assert(source_views(sources_vec@) =~= seq![client_node@, controller_node@, sensor_node@]);
    push_category(&mut sources_vec, "Connect Box", connect_box);
    push_category(&mut sources_vec, "Probe", probe);
    push_category(&mut sources_vec, "RDS", rds);
    push_category(&mut sources_vec, "ScanLib", scanlib);
    push_category(&mut sources_vec, "Unknown", unknown);
    let tree = LogSource {
        name: file_name.to_owned(),
        children: LogSourceContents::Sources(sources_vec),
    };
    proof {
        lemma_view_of_sources(tree);
        assert(tree@ == spec_assemble(file_name@, stages));
    }
    (tree, invalid_bytes)
}

/// Every source that is made of a log of a client application holds
/// entries.
pub proof fn lemma_collected_entries(members: Seq<ArchiveMemberView>, k: int)
    ensures
        forall|i: int|
            0 <= i < spec_collect(members, MemberKind::Xlog, spec_xlog_source(), k).len()
                ==> (#[trigger] spec_collect(
                members,
                MemberKind::Xlog,
                spec_xlog_source(),
                k,
            )[i]).children is Entries,
    decreases k,
{
    if 0 < k <= members.len() {
        lemma_collected_entries(members, k - 1);
    }
}

} // verus!
