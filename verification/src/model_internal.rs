//! The source tree as the store needs it: every source with a number and
//! with the count of the entries below it, every entry with the number of
//! its source and with the fields that thread the visible entries.

use vstd::prelude::*;
use crate::model::{LogEntry, LogLevel, LogSource, LogSourceContents, Timestamp};
use crate::sorting::Ranked;

verus! {

/// The mask of an entry that nothing hides.
pub const VISIBLE_ON: u8 = 0x0;

/// The bit that hides an entry whose source is switched off.
pub const VISIBLE_OFF_SOURCE: u8 = 0x1;

/// The bit that hides an entry whose severity is switched off.
pub const VISIBLE_OFF_SEVERITY: u8 = 0x2;

/// The bit that hides an entry that the text filter does not match.
pub const VISIBLE_OFF_FILTER: u8 = 0x4;

/// An entry in the store.
#[derive(Debug)]
pub struct LogEntryExt {
    pub timestamp: Timestamp,
    pub severity: LogLevel,
    pub message: String,
    /// The number of the source that the entry belongs to.
    pub source_id: u32,
    /// The reasons for which the entry is hidden, one bit each.
    pub visible: u8,
    /// The rank of the entry among the visible entries.
    pub entry_id: u32,
    /// The offset of the visible entry before this one.
    pub prev_offset: u32,
    /// The offset of the visible entry after this one.
    pub next_offset: u32,
}

impl LogEntryExt {
    /// Nothing hides the entry.
    pub open spec fn spec_is_visible(&self) -> bool {
        self.visible == VISIBLE_ON
    }

    /// Whether nothing hides the entry.
    #[verifier::when_used_as_spec(spec_is_visible)]
    pub fn is_visible(&self) -> (r: bool)
        ensures
            r == self.spec_is_visible(),
    {
        self.visible == VISIBLE_ON
    }
}

/// Entries are sorted by their timestamps.
impl Ranked for LogEntryExt {
    open spec fn spec_precedes(&self, other: &Self) -> bool {
        self.timestamp.spec_before(other.timestamp)
    }

    fn precedes(&self, other: &Self) -> (r: bool) {
        self.timestamp.before(&other.timestamp)
    }

    proof fn lemma_irreflexive(a: &Self) {
    }

    proof fn lemma_transitive(a: &Self, b: &Self, c: &Self) {
    }

    proof fn lemma_ties_transitive(a: &Self, b: &Self, c: &Self) {
    }
}

/// What a numbered source holds.
#[derive(Debug)]
pub enum LogSourceContentsExt {
    Sources(Vec<LogSourceExt>),
    Entries(Vec<LogEntryExt>),
}

/// A source with its number and the count of the entries below it.
#[derive(Debug)]
pub struct LogSourceExt {
    pub name: String,
    pub id: u32,
    pub child_cnt: u64,
    pub children: LogSourceContentsExt,
}

/// The count of the sources of a tree, its root included.
pub open spec fn source_count(source: LogSource) -> nat
    decreases source,
{
    1 + match source.children {
        LogSourceContents::Sources(v) => sources_count(v@, v@.len()),
        LogSourceContents::Entries(_) => 0,
    }
}

/// The count of the sources of the first `k` trees of a list.
pub open spec fn sources_count(v: Seq<LogSource>, k: nat) -> nat
    decreases v, k,
{
    if k == 0 || k > v.len() {
        0
    } else {
        sources_count(v, (k - 1) as nat) + source_count(v[k - 1])
    }
}

/// The count of the entries of a tree.
pub open spec fn entry_total(source: LogSource) -> nat
    decreases source,
{
    match source.children {
        LogSourceContents::Sources(v) => entries_total(v@, v@.len()),
        LogSourceContents::Entries(v) => v@.len(),
    }
}

/// The count of the entries of the first `k` trees of a list.
pub open spec fn entries_total(v: Seq<LogSource>, k: nat) -> nat
    decreases v, k,
{
    if k == 0 || k > v.len() {
        0
    } else {
        entries_total(v, (k - 1) as nat) + entry_total(v[k - 1])
    }
}

/// The entry of the store that is made of a parsed entry: visible, with the
/// number of its source, not yet ranked or threaded. Its custom fields stay
/// behind.
pub open spec fn spec_from_entry(entry: LogEntry, source_id: u32) -> LogEntryExt {
    LogEntryExt {
        timestamp: entry.timestamp,
        severity: entry.severity,
        message: entry.message,
        source_id,
        visible: VISIBLE_ON,
        entry_id: 0,
        prev_offset: 0,
        next_offset: 0,
    }
}

/// The number of child `i` where its parent has the number `id`: sources are
/// numbered in the order in which a walk meets them that visits a source
/// before its children and the children from first to last.
pub open spec fn child_id(id: Option<int>, sources: Seq<LogSource>, i: int) -> Option<int> {
    match id {
        Some(n) => Some(n + 1 + sources_count(sources, i as nat)),
        None => None,
    }
}

/// `ext` is the tree `source` with the same names, sources and entries.
/// Where `id` is given, the root has that number, the sources below it are
/// numbered after it in the order of the walk, and every entry has the number
/// of its source. Where `counted` is set, every source holds the count of the
/// entries below it.
pub open spec fn mirrors(ext: LogSourceExt, source: LogSource, id: Option<int>, counted: bool)
    -> bool
    decreases source,
{
    &&& ext.name == source.name
    &&& (id matches Some(n) ==> ext.id == n)
    &&& (counted ==> ext.child_cnt == entry_total(source))
    &&& match source.children {
        LogSourceContents::Entries(entries) => {
            &&& ext.children is Entries
            &&& ext.children->Entries_0@.len() == entries@.len()
            &&& forall|i: int|
                0 <= i < entries@.len() ==> {
                    let e = #[trigger] ext.children->Entries_0@[i];
                    &&& e == spec_from_entry(entries@[i], e.source_id)
                    &&& (id matches Some(n) ==> e.source_id == n)
                }
        },
        LogSourceContents::Sources(sources) => {
            &&& ext.children is Sources
            &&& ext.children->Sources_0@.len() == sources@.len()
            &&& forall|i: int|
                0 <= i < sources@.len() ==> mirrors(
                    #[trigger] ext.children->Sources_0@[i],
                    sources@[i],
                    child_id(id, sources@, i),
                    counted,
                )
        },
    }
}

/// A tree that is numbered and counted is the tree also when numbers or
/// counts are not looked at.
pub proof fn lemma_mirrors_weaken(ext: LogSourceExt, source: LogSource, id: Option<int>, counted: bool)
    requires
        mirrors(ext, source, id, counted),
    ensures
        mirrors(ext, source, None, counted),
        mirrors(ext, source, id, false),
        mirrors(ext, source, None, false),
    decreases source,
{
    match source.children {
        LogSourceContents::Entries(entries) => {},
        LogSourceContents::Sources(sources) => {
            assert forall|i: int| 0 <= i < sources@.len() implies mirrors(
                #[trigger] ext.children->Sources_0@[i],
                sources@[i],
                None,
                counted,
            ) && mirrors(ext.children->Sources_0@[i], sources@[i], None, false) && mirrors(
                ext.children->Sources_0@[i],
                sources@[i],
                child_id(id, sources@, i),
                false,
            ) by {
                lemma_mirrors_weaken(
                    ext.children->Sources_0@[i],
                    sources@[i],
                    child_id(id, sources@, i),
                    counted,
                );
            }
        },
    }
}

/// The counts of the first trees of a list grow with their number.
pub proof fn lemma_counts_grow(v: Seq<LogSource>, i: nat, k: nat)
    requires
        i <= k <= v.len(),
    ensures
        sources_count(v, i) <= sources_count(v, k),
        entries_total(v, i) <= entries_total(v, k),
        i < k ==> sources_count(v, i) + source_count(v[i as int]) <= sources_count(v, k),
        i < k ==> entries_total(v, i) + entry_total(v[i as int]) <= entries_total(v, k),
    decreases k - i,
{
    if i < k {
        lemma_counts_grow(v, i + 1, k);
    }
}

/// The entries of a tree in the order of the walk.
pub open spec fn flat_entries(ext: LogSourceExt) -> Seq<LogEntryExt>
    decreases ext,
{
    match ext.children {
        LogSourceContentsExt::Entries(v) => v@,
        LogSourceContentsExt::Sources(v) => flat_list(v@, v@.len()),
    }
}

/// The entries of the first `k` trees of a list in the order of the walk.
pub open spec fn flat_list(v: Seq<LogSourceExt>, k: nat) -> Seq<LogEntryExt>
    decreases v, k,
{
    if k == 0 || k > v.len() {
        Seq::empty()
    } else {
        flat_list(v, (k - 1) as nat) + flat_entries(v[k - 1])
    }
}

/// Every number in the tree, of a source or of an entry, lies from `lo` to
/// `hi`.
pub open spec fn ids_within(ext: LogSourceExt, lo: int, hi: int) -> bool
    decreases ext,
{
    &&& lo <= ext.id <= hi
    &&& match ext.children {
        LogSourceContentsExt::Entries(v) => forall|i: int|
            0 <= i < v@.len() ==> lo <= (#[trigger] v@[i]).source_id <= hi,
        LogSourceContentsExt::Sources(v) => forall|i: int|
            0 <= i < v@.len() ==> ids_within(#[trigger] v@[i], lo, hi),
    }
}

/// The numbers of the entries lie from `lo` to `hi` and never fall from one
/// entry to the next.
pub open spec fn ascending_within(entries: Seq<LogEntryExt>, lo: int, hi: int) -> bool {
    &&& forall|i: int| 0 <= i < entries.len() ==> lo <= (#[trigger] entries[i]).source_id <= hi
    &&& forall|i: int, j: int|
        #![trigger entries[i], entries[j]]
        0 <= i <= j < entries.len() ==> entries[i].source_id <= entries[j].source_id
}

/// Numbers that lie in a range lie in every wider range.
pub proof fn lemma_ids_within_wider(ext: LogSourceExt, lo: int, hi: int, lo2: int, hi2: int)
    requires
        ids_within(ext, lo, hi),
        lo2 <= lo,
        hi <= hi2,
    ensures
        ids_within(ext, lo2, hi2),
    decreases ext,
{
    match ext.children {
        LogSourceContentsExt::Entries(v) => {},
        LogSourceContentsExt::Sources(v) => {
            assert forall|i: int| 0 <= i < v@.len() implies ids_within(
                #[trigger] v@[i],
                lo2,
                hi2,
            ) by {
                lemma_ids_within_wider(v@[i], lo, hi, lo2, hi2);
            }
        },
    }
}

/// In a numbered tree the numbers of a source and of all that is below it
/// are the numbers from its own on, as many as there are sources; all that
/// is below a source has a greater number than the source; and in the order
/// of the walk the numbers of the entries never fall. So the entries of a
/// source and of its descendants are those whose numbers lie in one range.
///
/// Every source of a numbered tree is the root of a numbered tree, so this
/// holds of every source.
pub proof fn lemma_preorder_ids(ext: LogSourceExt, source: LogSource, id: int, counted: bool)
    requires
        mirrors(ext, source, Some(id), counted),
    ensures
        ext.id == id,
        source_count(source) >= 1,
        ids_within(ext, id, id + source_count(source) - 1),
        ext.children matches LogSourceContentsExt::Sources(v) ==> forall|i: int|
            0 <= i < v@.len() ==> ids_within(
                #[trigger] v@[i],
                id + 1,
                id + source_count(source) - 1,
            ),
        ascending_within(flat_entries(ext), id, id + source_count(source) - 1),
    decreases source,
{
    match source.children {
        LogSourceContents::Entries(entries) => {},
        LogSourceContents::Sources(sources) => {
            let v = ext.children->Sources_0;
            lemma_preorder_list(v@, sources@, id, counted, sources@.len());
            assert forall|i: int| 0 <= i < v@.len() implies ids_within(
                #[trigger] v@[i],
                id + 1,
                id + source_count(source) - 1,
            ) by {
                lemma_preorder_ids(v@[i], sources@[i], child_id(Some(id), sources@, i)->0, counted);
                lemma_counts_grow(sources@, i as nat, sources@.len());
                lemma_ids_within_wider(
                    v@[i],
                    id + 1 + sources_count(sources@, i as nat),
                    id + 1 + sources_count(sources@, i as nat) + source_count(sources@[i]) - 1,
                    id + 1,
                    id + source_count(source) - 1,
                );
            }
            assert forall|i: int| 0 <= i < v@.len() implies ids_within(
                #[trigger] v@[i],
                id,
                id + source_count(source) - 1,
            ) by {
                lemma_ids_within_wider(
                    v@[i],
                    id + 1,
                    id + source_count(source) - 1,
                    id,
                    id + source_count(source) - 1,
                );
            }
        },
    }
}

/// The entries of the first `k` children of a numbered source have numbers
/// after that of the source, which never fall.
pub proof fn lemma_preorder_list(
    exts: Seq<LogSourceExt>,
    sources: Seq<LogSource>,
    id: int,
    counted: bool,
    k: nat,
)
    requires
        exts.len() == sources.len(),
        k <= exts.len(),
        forall|i: int|
            0 <= i < sources.len() ==> mirrors(
                #[trigger] exts[i],
                sources[i],
                child_id(Some(id), sources, i),
                counted,
            ),
    ensures
        ascending_within(flat_list(exts, k), id + 1, id + sources_count(sources, k)),
    decreases sources, k,
{
    if k > 0 {
        let before = flat_list(exts, (k - 1) as nat);
        let last = flat_entries(exts[k - 1]);
        let first_id = id + 1 + sources_count(sources, (k - 1) as nat);
        lemma_preorder_list(exts, sources, id, counted, (k - 1) as nat);
        lemma_preorder_ids(exts[k - 1], sources[k - 1], first_id, counted);
        let all = flat_list(exts, k);
        assert(all == before + last);
        assert forall|i: int| 0 <= i < all.len() implies id + 1 <= (#[trigger] all[i]).source_id
            <= id + sources_count(sources, k) by {
            if i < before.len() {
                assert(all[i] == before[i]);
            } else {
                assert(all[i] == last[i - before.len()]);
            }
        }
        assert forall|i: int, j: int|
            #![trigger all[i], all[j]]
            0 <= i <= j < all.len() implies all[i].source_id <= all[j].source_id by {
            if j < before.len() {
                assert(all[i] == before[i] && all[j] == before[j]);
            } else if i < before.len() {
                assert(all[i] == before[i]);
                assert(all[j] == last[j - before.len()]);
            } else {
                assert(all[i] == last[i - before.len()]);
                assert(all[j] == last[j - before.len()]);
            }
        }
    }
}

/// `after` is the tree `before` without its entries: the sources, their
/// names, numbers and counts are as they were.
pub open spec fn drained(before: LogSourceExt, after: LogSourceExt) -> bool
    decreases before,
{
    &&& after.name == before.name
    &&& after.id == before.id
    &&& after.child_cnt == before.child_cnt
    &&& match before.children {
        LogSourceContentsExt::Entries(_) => after.children is Entries
            && after.children->Entries_0@.len() == 0,
        LogSourceContentsExt::Sources(v) => {
            &&& after.children is Sources
            &&& after.children->Sources_0@.len() == v@.len()
            &&& forall|i: int|
                0 <= i < v@.len() ==> drained(v@[i], #[trigger] after.children->Sources_0@[i])
        },
    }
}

/// Takes the entries out of the tree and puts them behind `store`, in the
/// order of a walk that visits the sources from first to last.
pub fn build_log_store(store: &mut Vec<LogEntryExt>, log_source: &mut LogSourceExt)
    ensures
        final(store)@ == old(store)@ + flat_entries(*old(log_source)),
        drained(*old(log_source), *final(log_source)),
    decreases *old(log_source),
{
    match &mut log_source.children {
        LogSourceContentsExt::Sources(v) => {
            let ghost before = v@;
            let mut i: usize = 0;
            assert(old(store)@ + flat_list(before, 0) =~= old(store)@);
            while i < v.len()
                invariant
                    i <= v@.len(),
                    v@.len() == before.len(),
                    old(log_source).children is Sources,
                    before == old(log_source).children->Sources_0@,
                    store@ == old(store)@ + flat_list(before, i as nat),
                    forall|j: int| 0 <= j < i ==> drained(before[j], #[trigger] v@[j]),
                    forall|j: int| i <= j < v@.len() ==> #[trigger] v@[j] == before[j],
                decreases v.len() - i,
            {
                assert(v@[i as int] == old(log_source).children->Sources_0@[i as int]);
                let ghost gathered = store@;
                build_log_store(store, &mut v[i]);
                assert(store@ =~= old(store)@ + flat_list(before, (i + 1) as nat)) by {
                    assert(gathered + flat_entries(before[i as int]) =~= old(store)@ + (flat_list(
                        before,
                        i as nat,
                    ) + flat_entries(before[i as int])));
                }
                i = i + 1;
            }
        },
        LogSourceContentsExt::Entries(v) => {
            store.append(v);
        },
    }
}

/// The counts of the sources and of the entries of a tree, where they fit
/// the numbers of sources and the counts of entries.
pub fn checked_counts(source: &LogSource) -> (r: Option<(u32, u64)>)
    ensures
        r is Some <==> source_count(*source) <= u32::MAX && entry_total(*source) <= u64::MAX,
        r matches Some((sources, entries)) ==> sources == source_count(*source) && entries
            == entry_total(*source),
    decreases *source,
{
    match &source.children {
        LogSourceContents::Sources(v) => {
            let mut sources: u32 = 1;
            let mut entries: u64 = 0;
            let mut i: usize = 0;
            while i < v.len()
                invariant
                    i <= v@.len(),
                    source.children is Sources,
                    *v == source.children->Sources_0,
                    sources == 1 + sources_count(v@, i as nat),
                    entries == entries_total(v@, i as nat),
                decreases v.len() - i,
            {
                proof {
                    lemma_counts_grow(v@, i as nat, v@.len());
                    lemma_counts_grow(v@, (i + 1) as nat, v@.len());
                }
                assert(v@[i as int] == source.children->Sources_0@[i as int]);
                match checked_counts(&v[i]) {
                    Some((child_sources, child_entries)) => {
                        if child_sources > u32::MAX - sources || child_entries > u64::MAX
                            - entries {
                            return None;
                        }
                        sources = sources + child_sources;
                        entries = entries + child_entries;
                    },
                    None => {
                        return None;
                    },
                }
                i = i + 1;
            }
            Some((sources, entries))
        },
        LogSourceContents::Entries(v) => Some((1, v.len() as u64)),
    }
}

impl LogSourceExt {
    /// Makes the numbered tree of a source tree, if the tree has no more
    /// sources than numbers of 32 bits and no more entries than a count of 64
    /// bits can hold.
    pub fn try_from_source(log_source: LogSource) -> (r: Option<LogSourceExt>)
        ensures
            r is Some <==> source_count(log_source) <= u32::MAX && entry_total(log_source)
                <= u64::MAX,
            r matches Some(ext) ==> mirrors(ext, log_source, Some(0), true),
    {
        match checked_counts(&log_source) {
            Some(_) => Some(LogSourceExt::from_source(log_source)),
            None => None,
        }
    }

    /// Makes the numbered tree of a source tree: the root gets the number 0.
    pub fn from_source(log_source: LogSource) -> (r: LogSourceExt)
        requires
            source_count(log_source) <= u32::MAX,
            entry_total(log_source) <= u64::MAX,
        ensures
            mirrors(r, log_source, Some(0), true),
        decreases log_source,
    {
        let LogSource { name, children } = log_source;
        let children = match children {
            LogSourceContents::Sources(v) => {
                let mut contents: Vec<LogSourceExt> = Vec::new();
                let ghost sources = v@;
                for source in it: v
                    invariant
                        it.seq() == sources,
                        log_source.children == LogSourceContents::Sources(v),
                        sources == v@,
                        source_count(log_source) <= u32::MAX,
                        entry_total(log_source) <= u64::MAX,
                        contents@.len() == it.index(),
                        forall|j: int|
                            0 <= j < contents@.len() ==> mirrors(
                                #[trigger] contents@[j],
                                sources[j],
                                None,
                                false,
                            ),
                {
                    proof {
                        lemma_counts_grow(sources, it.index() as nat, sources.len());
                    }
                    let child = LogSourceExt::from_source(source);
                    proof {
                        lemma_mirrors_weaken(child, source, Some(0), true);
                    }
                    contents.push(child);
                }
                LogSourceContentsExt::Sources(contents)
            },
            LogSourceContents::Entries(v) => {
                let mut contents: Vec<LogEntryExt> = Vec::new();
                let ghost entries = v@;
                for entry in it: v
                    invariant
                        it.seq() == entries,
                        contents@.len() == it.index(),
                        forall|j: int|
                            0 <= j < contents@.len() ==> #[trigger] contents@[j] == spec_from_entry(
                                entries[j],
                                0,
                            ),
                {
                    contents.push(
                        LogEntryExt {
                            timestamp: entry.timestamp,
                            severity: entry.severity,
                            message: entry.message,
                            source_id: 0,
                            visible: VISIBLE_ON,
                            entry_id: 0,
                            prev_offset: 0,
                            next_offset: 0,
                        },
                    );
                }
                LogSourceContentsExt::Entries(contents)
            },
        };
        let mut source_ext = LogSourceExt { name, id: 0, child_cnt: 0, children };
        assert(mirrors(source_ext, log_source, None, false));
        source_ext.generate_ids(Ghost(log_source), Ghost(false));
        source_ext.calc_child_cnt(Ghost(log_source), Ghost(Some(0int)));
        source_ext
    }

    /// Counts the entries below every source of the tree.
    fn calc_child_cnt(&mut self, Ghost(source): Ghost<LogSource>, Ghost(id): Ghost<Option<int>>)
        requires
            mirrors(*old(self), source, id, false),
            entry_total(source) <= u64::MAX,
        ensures
            mirrors(*final(self), source, id, true),
        decreases source,
    {
        let child_cnt: u64 = match &mut self.children {
            LogSourceContentsExt::Sources(v) => {
                let ghost sources = source.children->Sources_0@;
                let mut child_cnt: u64 = 0;
                let mut i: usize = 0;
                while i < v.len()
                    invariant
                        source.children is Sources,
                        sources == source.children->Sources_0@,
                        v@.len() == sources.len(),
                        i <= v.len(),
                        entries_total(sources, sources.len()) <= u64::MAX,
                        child_cnt == entries_total(sources, i as nat),
                        forall|j: int|
                            0 <= j < i ==> mirrors(
                                #[trigger] v@[j],
                                sources[j],
                                child_id(id, sources, j),
                                true,
                            ),
                        forall|j: int|
                            i <= j < v@.len() ==> mirrors(
                                #[trigger] v@[j],
                                sources[j],
                                child_id(id, sources, j),
                                false,
                            ),
                    decreases v.len() - i,
                {
                    proof {
                        lemma_counts_grow(sources, i as nat, sources.len());
                    }
                    v[i].calc_child_cnt(Ghost(sources[i as int]), Ghost(child_id(id, sources, i as int)));
                    child_cnt = child_cnt + v[i].child_cnt;
                    i = i + 1;
                }
                child_cnt
            },
            LogSourceContentsExt::Entries(v) => v.len() as u64,
        };
        self.child_cnt = child_cnt;
    }

    /// Numbers the sources below the root after the root, in the order of a
    /// walk that visits a source before its children, and gives every entry
    /// the number of its source. Returns the last number given.
    fn generate_ids(&mut self, Ghost(source): Ghost<LogSource>, Ghost(counted): Ghost<bool>) -> (last:
        u32)
        requires
            mirrors(*old(self), source, None, counted),
            old(self).id + source_count(source) - 1 <= u32::MAX,
        ensures
            mirrors(*final(self), source, Some(old(self).id as int), counted),
            last == old(self).id + source_count(source) - 1,
        decreases source,
    {
        let id: u32 = self.id;
        match &mut self.children {
            LogSourceContentsExt::Sources(v) => {
                let ghost sources = source.children->Sources_0@;
                let mut id_idx: u32 = id;
                let mut i: usize = 0;
                while i < v.len()
                    invariant
                        source.children is Sources,
                        sources == source.children->Sources_0@,
                        v@.len() == sources.len(),
                        i <= v.len(),
                        id + sources_count(sources, sources.len()) <= u32::MAX,
                        id_idx == id + sources_count(sources, i as nat),
                        forall|j: int|
                            0 <= j < i ==> mirrors(
                                #[trigger] v@[j],
                                sources[j],
                                child_id(Some(id as int), sources, j),
                                counted,
                            ),
                        forall|j: int|
                            i <= j < v@.len() ==> mirrors(
                                #[trigger] v@[j],
                                sources[j],
                                None,
                                counted,
                            ),
                    decreases v.len() - i,
                {
                    proof {
                        lemma_counts_grow(sources, i as nat, sources.len());
                    }
                    id_idx = id_idx + 1;
                    v[i].id = id_idx;
                    id_idx = v[i].generate_ids(Ghost(sources[i as int]), Ghost(counted));
                    i = i + 1;
                }
                id_idx
            },
            LogSourceContentsExt::Entries(v) => {
                let ghost before = v@;
                let mut i: usize = 0;
                while i < v.len()
                    invariant
                        i <= v.len(),
                        v@.len() == before.len(),
                        forall|j: int|
                            0 <= j < i ==> #[trigger] v@[j] == (LogEntryExt {
                                source_id: id,
                                ..before[j]
                            }),
                        forall|j: int| i <= j < v@.len() ==> #[trigger] v@[j] == before[j],
                    decreases v.len() - i,
                {
                    v[i].source_id = id;
                    i = i + 1;
                }
                id
            },
        }
    }
}

} // verus!
