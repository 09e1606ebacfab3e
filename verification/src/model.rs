//! What the parsers hand out: entries, and sources that hold entries or
//! other sources.

use vstd::prelude::*;
use crate::sorting::{is_stable_sort, order_of, sorts_stably, Ranked};
use crate::text::{
    chars_less, chars_of, lemma_lex_irreflexive, lemma_lex_total, lemma_lex_transitive, lex_less,
    lowercase, str_eq, to_lowercase,
};

verus! {

/// A point in time: whole seconds since 1970-01-01 00:00:00 UTC (leap seconds
/// not counted) and the nanoseconds since the last whole second.
///
/// Timestamps are ordered by `secs`, then by `nanos`.
#[derive(Clone, Copy, Debug, PartialEq, Eq, Structural)]
pub struct Timestamp {
    pub secs: i64,
    pub nanos: u32,
}

impl Timestamp {
    /// `self` is strictly earlier than `other`.
    pub open spec fn spec_before(self, other: Timestamp) -> bool {
        self.secs < other.secs || (self.secs == other.secs && self.nanos < other.nanos)
    }

    /// Whether `self` is strictly earlier than `other`.
    pub fn before(&self, other: &Timestamp) -> (r: bool)
        ensures
            r == self.spec_before(*other),
    {
        self.secs < other.secs || (self.secs == other.secs && self.nanos < other.nanos)
    }

    /// 1970-01-01 00:00:00.
    pub fn epoch() -> (r: Timestamp)
        ensures
            r == (Timestamp { secs: 0, nanos: 0 }),
    {
        Timestamp { secs: 0, nanos: 0 }
    }
}

/// The time from one entry to another as it is shown: a sign, whole days,
/// and the hours, minutes, seconds and milliseconds of the last day.
#[derive(Clone, Copy, Debug, PartialEq, Eq, Structural)]
pub struct TimeDifference {
    pub negative: bool,
    pub days: u64,
    pub hours: u8,
    pub minutes: u8,
    pub seconds: u8,
    pub milliseconds: u16,
}

/// The whole milliseconds from `from` to `to`, rounded towards zero;
/// negative where `to` is the earlier.
pub open spec fn spec_millis_between(from: Timestamp, to: Timestamp) -> int {
    let nanos = (to.secs - from.secs) * 1_000_000_000 + (to.nanos - from.nanos);
    if nanos >= 0 {
        nanos / 1_000_000
    } else {
        -((-nanos) / 1_000_000)
    }
}

/// A count of milliseconds as a sign, days, hours, minutes, seconds and
/// milliseconds.
pub open spec fn spec_split_millis(millis: int) -> TimeDifference {
    let size = if millis < 0 {
        -millis
    } else {
        millis
    };
    TimeDifference {
        negative: millis < 0,
        days: (size / 86_400_000) as u64,
        hours: ((size / 3_600_000) % 24) as u8,
        minutes: ((size / 60_000) % 60) as u8,
        seconds: ((size / 1000) % 60) as u8,
        milliseconds: (size % 1000) as u16,
    }
}

impl Timestamp {
    /// The time from `anchor` to `self`, in whole milliseconds and split
    /// for display.
    pub fn difference(&self, anchor: &Timestamp) -> (r: TimeDifference)
        ensures
            r == spec_split_millis(spec_millis_between(*anchor, *self)),
    {
        let nanos: i128 = (self.secs as i128 - anchor.secs as i128) * 1_000_000_000 + (
        self.nanos as i128 - anchor.nanos as i128);
        let size_nanos: u128 = if nanos < 0 {
            (-nanos) as u128
        } else {
            nanos as u128
        };
        let size: u128 = size_nanos / 1_000_000;
        assert(size <= 0xffff_ffff_ffff_ffff * 1000 + 5000);
        TimeDifference {
            negative: nanos < 0 && size > 0,
            days: (size / 86_400_000) as u64,
            hours: ((size / 3_600_000) % 24) as u8,
            minutes: ((size / 60_000) % 60) as u8,
            seconds: ((size / 1000) % 60) as u8,
            milliseconds: (size % 1000) as u16,
        }
    }
}

/// The severity of a log entry, from the most to the least severe.
#[derive(Clone, Copy, Debug, PartialEq, Eq, Structural)]
pub enum LogLevel {
    Critical,
    Error,
    Warning,
    Info,
    Debug,
    Trace,
}

impl LogLevel {
    /// The position of a level in the order of severities: `Trace` is 0,
    /// `Critical` is 5.
    pub open spec fn spec_rank(self) -> nat {
        match self {
            LogLevel::Critical => 5,
            LogLevel::Error => 4,
            LogLevel::Warning => 3,
            LogLevel::Info => 2,
            LogLevel::Debug => 1,
            LogLevel::Trace => 0,
        }
    }

    /// The position of a level in the order of severities.
    pub fn rank(&self) -> (r: u8)
        ensures
            r == self.spec_rank(),
    {
        match self {
            LogLevel::Critical => 5,
            LogLevel::Error => 4,
            LogLevel::Warning => 3,
            LogLevel::Info => 2,
            LogLevel::Debug => 1,
            LogLevel::Trace => 0,
        }
    }

    /// The name of a level as it is shown to the user.
    pub open spec fn spec_name(self) -> Seq<char> {
        match self {
            LogLevel::Critical => "Critical"@,
            LogLevel::Error => "Error"@,
            LogLevel::Warning => "Warning"@,
            LogLevel::Info => "Info"@,
            LogLevel::Debug => "Debug"@,
            LogLevel::Trace => "Trace"@,
        }
    }

    /// The name of a level as it is shown to the user.
    pub fn name(&self) -> (r: &'static str)
        ensures
            r@ == self.spec_name(),
    {
        match self {
            LogLevel::Critical => "Critical",
            LogLevel::Error => "Error",
            LogLevel::Warning => "Warning",
            LogLevel::Info => "Info",
            LogLevel::Debug => "Debug",
            LogLevel::Trace => "Trace",
        }
    }
}

/// The value of a custom field. The two floating-point variants hold the
/// IEEE 754 bit pattern of the number.
#[derive(Debug, PartialEq, Eq)]
pub enum CustomField {
    Int64(i64),
    Int32(i32),
    Int16(i16),
    Int8(i8),
    UInt64(u64),
    UInt32(u32),
    UInt16(u16),
    UInt8(u8),
    Float32(u32),
    Float64(u64),
    String(String),
}

/// The mathematical value of a [`CustomField`].
pub enum CustomFieldView {
    Int64(i64),
    Int32(i32),
    Int16(i16),
    Int8(i8),
    UInt64(u64),
    UInt32(u32),
    UInt16(u16),
    UInt8(u8),
    Float32(u32),
    Float64(u64),
    String(Seq<char>),
}

impl View for CustomField {
    type V = CustomFieldView;

    open spec fn view(&self) -> CustomFieldView {
        match self {
            CustomField::Int64(v) => CustomFieldView::Int64(*v),
            CustomField::Int32(v) => CustomFieldView::Int32(*v),
            CustomField::Int16(v) => CustomFieldView::Int16(*v),
            CustomField::Int8(v) => CustomFieldView::Int8(*v),
            CustomField::UInt64(v) => CustomFieldView::UInt64(*v),
            CustomField::UInt32(v) => CustomFieldView::UInt32(*v),
            CustomField::UInt16(v) => CustomFieldView::UInt16(*v),
            CustomField::UInt8(v) => CustomFieldView::UInt8(*v),
            CustomField::Float32(v) => CustomFieldView::Float32(*v),
            CustomField::Float64(v) => CustomFieldView::Float64(*v),
            CustomField::String(v) => CustomFieldView::String(v@),
        }
    }
}

/// One named custom field of a log entry.
#[derive(Debug)]
pub struct NamedField {
    pub name: String,
    pub value: CustomField,
}

/// The mapping from names to values that a list of named fields stands for.
/// Where a name occurs more than once, its last occurrence counts.
pub open spec fn fields_map(fields: Seq<NamedField>) -> Map<Seq<char>, CustomFieldView>
    decreases fields.len(),
{
    if fields.len() == 0 {
        Map::empty()
    } else {
        fields_map(fields.drop_last()).insert(fields.last().name@, fields.last().value@)
    }
}

/// One line of a log.
#[derive(Debug)]
pub struct LogEntry {
    pub timestamp: Timestamp,
    pub severity: LogLevel,
    pub message: String,
    /// The custom fields of the entry, read as [`fields_map`] says.
    pub custom_fields: Vec<NamedField>,
}

/// The mathematical value of a [`LogEntry`].
#[verifier::ext_equal]
pub struct LogEntryView {
    pub timestamp: Timestamp,
    pub severity: LogLevel,
    pub message: Seq<char>,
    pub custom_fields: Map<Seq<char>, CustomFieldView>,
}

impl View for LogEntry {
    type V = LogEntryView;

    open spec fn view(&self) -> LogEntryView {
        LogEntryView {
            timestamp: self.timestamp,
            severity: self.severity,
            message: self.message@,
            custom_fields: fields_map(self.custom_fields@),
        }
    }
}

impl LogEntry {
    /// The value of the custom field `name`, if the entry has one.
    pub fn custom_field(&self, name: &str) -> (r: Option<&CustomField>)
        ensures
            r is Some <==> self@.custom_fields.contains_key(name@),
            r is Some ==> r.unwrap()@ == self@.custom_fields[name@],
    {
        let mut i: usize = self.custom_fields.len();
        while i > 0
            invariant
                i <= self.custom_fields.len(),
                forall|k: int|
                    i <= k < self.custom_fields.len() ==> (#[trigger] self.custom_fields@[k]).name@
                        != name@,
            decreases i,
        {
            i = i - 1;
            if str_eq(self.custom_fields[i].name.as_str(), name) {
                proof {
                    lemma_fields_map_last(self.custom_fields@, i as int, name@);
                }
                return Some(&self.custom_fields[i].value);
            }
        }
        proof {
            lemma_fields_map_absent(self.custom_fields@, name@);
        }
        None
    }

    /// Gives the custom field `name` the value `value`, whether or not the
    /// entry had such a field.
    pub fn set_custom_field(&mut self, name: &str, value: CustomField)
        ensures
            final(self)@ == (LogEntryView {
                custom_fields: old(self)@.custom_fields.insert(name@, value@),
                ..old(self)@
            }),
    {
        let field = NamedField { name: name.to_owned(), value };
        let mut i: usize = self.custom_fields.len();
        while i > 0
            invariant
                i <= self.custom_fields.len(),
                *self == *old(self),
                field.name@ == name@,
                field.value == value,
                forall|k: int|
                    i <= k < self.custom_fields.len() ==> (#[trigger] self.custom_fields@[k]).name@
                        != name@,
            decreases i,
        {
            i = i - 1;
            if str_eq(self.custom_fields[i].name.as_str(), name) {
                proof {
                    lemma_fields_map_update(self.custom_fields@, i as int, field);
                }
                self.custom_fields[i] = field;
                assert(self.custom_fields@ =~= old(self).custom_fields@.update(i as int, field));
                return ;
            }
        }
        assert(self.custom_fields@.push(field).drop_last() =~= self.custom_fields@);
        self.custom_fields.push(field);
    }
}

/// The entry that a parser starts from: the epoch, severity `Error`, an empty
/// message and no custom fields.
pub open spec fn default_entry() -> LogEntryView {
    LogEntryView {
        timestamp: Timestamp { secs: 0, nanos: 0 },
        severity: LogLevel::Error,
        message: Seq::empty(),
        custom_fields: Map::empty(),
    }
}

impl Default for LogEntry {
    fn default() -> (r: LogEntry)
        ensures
            r@ == default_entry(),
    {
        LogEntry {
            timestamp: Timestamp { secs: 0, nanos: 0 },
            severity: LogLevel::Error,
            message: String::new(),
            custom_fields: Vec::new(),
        }
    }
}

/// The views of a list of entries, one for one.
pub open spec fn entry_views(entries: Seq<LogEntry>) -> Seq<LogEntryView> {
    Seq::new(entries.len(), |i: int| entries[i]@)
}

/// What a log source holds: other sources, or entries.
#[derive(Debug)]
pub enum LogSourceContents {
    Sources(Vec<LogSource>),
    Entries(Vec<LogEntry>),
}

/// A node of the source tree.
#[derive(Debug)]
pub struct LogSource {
    pub name: String,
    pub children: LogSourceContents,
}

/// The mathematical value of a [`LogSourceContents`].
#[verifier::ext_equal]
pub enum LogSourceContentsView {
    Sources(Seq<LogSourceView>),
    Entries(Seq<LogEntryView>),
}

/// The mathematical value of a [`LogSource`].
#[verifier::ext_equal]
pub struct LogSourceView {
    pub name: Seq<char>,
    pub children: LogSourceContentsView,
}

/// The mathematical value of a source.
pub open spec fn source_view(source: LogSource) -> LogSourceView
    decreases source,
{
    LogSourceView {
        name: source.name@,
        children: match source.children {
            LogSourceContents::Sources(v) => LogSourceContentsView::Sources(
                Seq::new(
                    v@.len(),
                    |i: int|
                        if 0 <= i < v@.len() {
                            source_view(v@[i])
                        } else {
                            arbitrary()
                        },
                ),
            ),
            LogSourceContents::Entries(v) => LogSourceContentsView::Entries(entry_views(v@)),
        },
    }
}

impl View for LogSource {
    type V = LogSourceView;

    open spec fn view(&self) -> LogSourceView {
        source_view(*self)
    }
}

/// The views of a list of sources, one for one.
pub open spec fn source_views(sources: Seq<LogSource>) -> Seq<LogSourceView> {
    Seq::new(sources.len(), |i: int| sources[i]@)
}

/// The value of a source that holds sources holds the values of those.
pub proof fn lemma_view_of_sources(source: LogSource)
    requires
        source.children is Sources,
    ensures
        source@.name == source.name@,
        source@.children == LogSourceContentsView::Sources(
            source_views(source.children->Sources_0@),
        ),
{
    let v = source.children->Sources_0;
    assert(source@.children is Sources);
    assert(source@.children->Sources_0.len() == v@.len());
    assert forall|i: int| 0 <= i < v@.len() implies source@.children->Sources_0[i] == v@[i]@ by {
        reveal_with_fuel(source_view, 2);
    }
    assert(source@.children->Sources_0 =~= source_views(v@));
}

/// The value of a source that holds entries holds the values of those.
pub proof fn lemma_view_of_entries(source: LogSource)
    requires
        source.children is Entries,
    ensures
        source@.name == source.name@,
        source@.children == LogSourceContentsView::Entries(
            entry_views(source.children->Entries_0@),
        ),
{
}

/// A source of the name `name` is among `sources`.
pub open spec fn has_source(sources: Seq<LogSourceView>, name: Seq<char>) -> bool {
    exists|k: int| 0 <= k < sources.len() && (#[trigger] sources[k]).name == name
}

/// The sources after `entries` were put to the source of the name `name`:
/// behind its entries, or into a new source behind the others.
pub open spec fn spec_add_to_source(
    sources: Seq<LogSourceView>,
    name: Seq<char>,
    entries: Seq<LogEntryView>,
) -> Seq<LogSourceView> {
    if has_source(sources, name) {
        let k = choose|k: int| 0 <= k < sources.len() && (#[trigger] sources[k]).name == name;
        sources.update(
            k,
            LogSourceView {
                name,
                children: LogSourceContentsView::Entries(
                    sources[k].children->Entries_0 + entries,
                ),
            },
        )
    } else {
        sources.push(LogSourceView { name, children: LogSourceContentsView::Entries(entries) })
    }
}

/// Every source holds entries, and no two sources share a name.
pub open spec fn distinct_leaves(sources: Seq<LogSourceView>) -> bool {
    &&& forall|i: int| 0 <= i < sources.len() ==> (#[trigger] sources[i]).children is Entries
    &&& forall|i: int, j: int|
        #![trigger sources[i], sources[j]]
        0 <= i < j < sources.len() ==> sources[i].name != sources[j].name
}

/// Puts `entries` to the source of the name `name` among `sources`: behind
/// its entries, or into a new source behind the others.
pub fn add_to_source(sources: &mut Vec<LogSource>, name: String, entries: Vec<LogEntry>)
    requires
        distinct_leaves(source_views(old(sources)@)),
    ensures
        source_views(final(sources)@) == spec_add_to_source(
            source_views(old(sources)@),
            name@,
            entry_views(entries@),
        ),
        distinct_leaves(source_views(final(sources)@)),
{
    let ghost before = source_views(sources@);
    let ghost added = entry_views(entries@);
    let mut entries = entries;
    let mut k: usize = 0;
    while k < sources.len() && !str_eq(sources[k].name.as_str(), name.as_str())
        invariant
            k <= sources@.len(),
            *sources == *old(sources),
            before == source_views(sources@),
            forall|j: int| 0 <= j < k ==> (#[trigger] before[j]).name != name@,
        decreases sources.len() - k,
    {
        k = k + 1;
    }
    if k < sources.len() {
        assert(before[k as int].name == name@);
        assert(has_source(before, name@));
        assert(before[k as int].children is Entries);
        let ghost entries_before = old(sources)@[k as int].children->Entries_0@;
        let ghost moved = entries@;
        match &mut sources[k].children {
            LogSourceContents::Entries(v) => {
                v.append(&mut entries);
            },
            LogSourceContents::Sources(_) => {},
        }
        proof {
            let found = choose|j: int|
                0 <= j < before.len() && (#[trigger] before[j]).name == name@;
            if found < k {
                assert(before[found].name != before[k as int].name);
            } else if found > k {
                assert(before[k as int].name != before[found].name);
            }
            assert(sources@[k as int].children->Entries_0@ == entries_before + moved);
            assert(entry_views(entries_before + moved) =~= entry_views(entries_before)
                + added);
            lemma_view_of_entries(sources@[k as int]);
            lemma_view_of_entries(old(sources)@[k as int]);
            let updated = LogSourceView {
                name: name@,
                children: LogSourceContentsView::Entries(before[k as int].children->Entries_0 + added),
            };
            assert(sources@[k as int]@ == updated);
            assert forall|j: int| 0 <= j < before.len() implies source_views(sources@)[j]
                == before.update(k as int, updated)[j] by {
                if j != k {
                    assert(sources@[j] == old(sources)@[j]);
                }
            }
            assert(source_views(sources@) =~= spec_add_to_source(before, name@, added));
            let after = source_views(sources@);
            assert forall|i: int, j: int|
                #![trigger after[i], after[j]]
                0 <= i < j < after.len() implies after[i].name != after[j].name by {
                assert(before[i].name != before[j].name);
            }
            assert forall|i: int| 0 <= i < after.len() implies (#[trigger] after[i]).children
                is Entries by {
                assert(before[i].children is Entries);
            }
        }
    } else {
        assert(!has_source(before, name@));
        let source = LogSource { name, children: LogSourceContents::Entries(entries) };
        proof {
            lemma_view_of_entries(source);
        }
        sources.push(source);
        proof {
            assert(source_views(sources@) =~= spec_add_to_source(before, name@, added));
            let after = source_views(sources@);
            assert forall|i: int, j: int|
                #![trigger after[i], after[j]]
                0 <= i < j < after.len() implies after[i].name != after[j].name by {
                if j < before.len() {
                    assert(before[i].name != before[j].name);
                } else {
                    assert(after[i] == before[i]);
                }
            }
            assert forall|i: int| 0 <= i < after.len() implies (#[trigger] after[i]).children
                is Entries by {
                if i < before.len() {
                    assert(before[i].children is Entries);
                }
            }
        }
    }
}

/// The order of names among siblings: by the names in lower case.
pub open spec fn name_precedes(a: Seq<char>, b: Seq<char>) -> bool {
    lex_less(lowercase(a), lowercase(b))
}

/// The order of sources among siblings: by their names, whatever the case
/// of the letters.
pub open spec fn source_order() -> spec_fn(LogSourceView, LogSourceView) -> bool {
    |a: LogSourceView, b: LogSourceView| name_precedes(a.name, b.name)
}

impl Ranked for LogSource {
    open spec fn spec_precedes(&self, other: &Self) -> bool {
        name_precedes(self.name@, other.name@)
    }

    fn precedes(&self, other: &Self) -> (r: bool) {
        let a = to_lowercase(self.name.as_str());
        let b = to_lowercase(other.name.as_str());
        let a_chars = chars_of(a.as_str());
        let b_chars = chars_of(b.as_str());
        chars_less(a_chars.as_slice(), b_chars.as_slice())
    }

    proof fn lemma_irreflexive(a: &Self) {
        lemma_lex_irreflexive(lowercase(a.name@));
    }

    proof fn lemma_transitive(a: &Self, b: &Self, c: &Self) {
        lemma_lex_transitive(lowercase(a.name@), lowercase(b.name@), lowercase(c.name@));
    }

    proof fn lemma_ties_transitive(a: &Self, b: &Self, c: &Self) {
        lemma_lex_total(lowercase(a.name@), lowercase(b.name@));
        lemma_lex_total(lowercase(b.name@), lowercase(c.name@));
        lemma_lex_irreflexive(lowercase(a.name@));
    }
}

/// Sources that are sorted are sorted as values.
pub proof fn lemma_sorted_source_views(before: Seq<LogSource>, after: Seq<LogSource>)
    requires
        is_stable_sort(before, after, order_of::<LogSource>()),
    ensures
        is_stable_sort(source_views(before), source_views(after), source_order()),
{
    let p = choose|p: Seq<int>| sorts_stably(before, after, p, order_of::<LogSource>());
    assert(sorts_stably(source_views(before), source_views(after), p, source_order())) by {
        let vb = source_views(before);
        let va = source_views(after);
        assert forall|i: int| 0 <= i < p.len() implies 0 <= #[trigger] p[i] < vb.len() && va[i]
            == vb[p[i]] by {}
        assert forall|i: int, j: int|
            #![trigger va[i], va[j]]
            0 <= i < j < va.len() implies !source_order()(va[j], va[i]) by {
            assert(!order_of::<LogSource>()(after[j], after[i]));
        }
        assert forall|i: int, j: int|
            #![trigger va[i], va[j]]
            0 <= i < j < va.len() && !source_order()(va[i], va[j]) implies p[i] < p[j] by {
            assert(!order_of::<LogSource>()(after[i], after[j]));
        }
    }
}

/// The name of a field differs from those of all fields after position `j`.
pub open spec fn last_with_name(fields: Seq<NamedField>, j: int, name: Seq<char>) -> bool {
    &&& 0 <= j < fields.len()
    &&& fields[j].name@ == name
    &&& forall|k: int| j < k < fields.len() ==> (#[trigger] fields[k]).name@ != name
}

/// A name that no field has is not in the map.
pub proof fn lemma_fields_map_absent(fields: Seq<NamedField>, name: Seq<char>)
    requires
        forall|k: int| 0 <= k < fields.len() ==> (#[trigger] fields[k]).name@ != name,
    ensures
        !fields_map(fields).contains_key(name),
    decreases fields.len(),
{
    if fields.len() > 0 {
        lemma_fields_map_absent(fields.drop_last(), name);
    }
}

/// The map gives a name the value of the last field that has it.
pub proof fn lemma_fields_map_last(fields: Seq<NamedField>, j: int, name: Seq<char>)
    requires
        last_with_name(fields, j, name),
    ensures
        fields_map(fields).contains_key(name),
        fields_map(fields)[name] == fields[j].value@,
    decreases fields.len(),
{
    if j < fields.len() - 1 {
        assert(fields.last() == fields[fields.len() - 1]);
        lemma_fields_map_last(fields.drop_last(), j, name);
    }
}

/// Replacing the last field of a name sets that name in the map.
pub proof fn lemma_fields_map_update(fields: Seq<NamedField>, j: int, field: NamedField)
    requires
        last_with_name(fields, j, field.name@),
    ensures
        fields_map(fields.update(j, field)) =~= fields_map(fields).insert(
            field.name@,
            field.value@,
        ),
    decreases fields.len(),
{
    let updated = fields.update(j, field);
    if j == fields.len() - 1 {
        assert(updated.drop_last() =~= fields.drop_last());
    } else {
        assert(fields.last() == fields[fields.len() - 1]);
        assert(updated.drop_last() =~= fields.drop_last().update(j, field));
        lemma_fields_map_update(fields.drop_last(), j, field);
    }
}

} // verus!
