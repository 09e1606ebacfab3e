//! The filters of the viewer: by source, by severity and by text. Each has
//! a bit of its own in the masks of the entries, so that none of them
//! shows what another hides.

use vstd::prelude::*;
use crate::filtering::{filter_matches, filtered};
use crate::log_store::LogStoreLinear;
use crate::model::LogLevel;
use crate::model_internal::{
    build_log_store, flat_entries, LogEntryExt, LogSourceExt, VISIBLE_OFF_FILTER,
    VISIBLE_OFF_SEVERITY, VISIBLE_OFF_SOURCE,
};
use crate::sorting::{is_stable_sort, order_of};
use crate::text::{first_occurrence, text_contains};

verus! {

/// The numbers are those from the first of them on, one after the other.
pub open spec fn spec_consecutive(ids: Seq<u32>) -> bool {
    forall|i: int| 0 <= i < ids.len() ==> #[trigger] ids[i] == ids[0] + i
}

/// The first and the last of a run of numbers that follow one another
/// without a gap: the numbers of a source and of all the sources below it,
/// in the order of the tree. Gives `None` for no numbers and for numbers
/// that leave a gap or stand out of order.
pub fn id_range(sources: &[u32]) -> (r: Option<(u32, u32)>)
    ensures
        r is Some <==> sources@.len() > 0 && spec_consecutive(sources@),
        r matches Some((first, last)) ==> first == sources@[0] && last == sources@[sources@.len()
            - 1],
{
    if sources.len() == 0 {
        return None;
    }
    let first: u32 = sources[0];
    let mut i: usize = 1;
    while i < sources.len()
        invariant
            1 <= i <= sources@.len(),
            first == sources@[0],
            forall|j: int| 0 <= j < i ==> #[trigger] sources@[j] == first + j,
        decreases sources.len() - i,
    {
        if sources[i - 1] == u32::MAX || sources[i] != sources[i - 1] + 1 {
            assert(!spec_consecutive(sources@)) by {
                if spec_consecutive(sources@) {
                    assert(sources@[i as int] == sources@[0] + i);
                    assert(sources@[i - 1] == sources@[0] + (i - 1));
                }
            }
            return None;
        }
        i = i + 1;
    }
    Some((first, sources[sources.len() - 1]))
}

/// Which entries belong to the sources with the numbers from `first_id` to
/// `last_id`.
pub open spec fn in_source_range(s: Seq<LogEntryExt>, first_id: u32, last_id: u32) -> Seq<bool> {
    Seq::new(s.len(), |i: int| first_id <= s[i].source_id <= last_id)
}

/// Which entries are of the severity `severity`.
pub open spec fn of_severity(s: Seq<LogEntryExt>, severity: LogLevel) -> Seq<bool> {
    Seq::new(s.len(), |i: int| s[i].severity == severity)
}

/// Which entries hold the text `text` in their messages, or do not hold it
/// where `holds` is not set.
pub open spec fn with_text(s: Seq<LogEntryExt>, text: Seq<char>, holds: bool) -> Seq<bool> {
    Seq::new(s.len(), |i: int| (first_occurrence(s[i].message@, text, 0) is Some) == holds)
}

/// All entries.
pub open spec fn all_entries(s: Seq<LogEntryExt>) -> Seq<bool> {
    Seq::new(s.len(), |i: int| true)
}

/// What the text filter makes of a store: it shows the entries that hold
/// the text and then hides those that do not, and an empty text shows all
/// entries.
pub open spec fn text_filtered(before: LogStoreLinear, text: Seq<char>, after: LogStoreLinear) -> bool {
    if text.len() == 0 {
        filtered(before, all_entries(before.store@), true, VISIBLE_OFF_FILTER, after)
    } else {
        exists|shown: LogStoreLinear|
            #[trigger] filtered(
                before,
                with_text(before.store@, text, true),
                true,
                VISIBLE_OFF_FILTER,
                shown,
            ) && filtered(
                shown,
                with_text(shown.store@, text, false),
                false,
                VISIBLE_OFF_FILTER,
                after,
            )
    }
}

impl LogStoreLinear {
    /// Shows or hides the entries of the sources with the numbers from
    /// `first_id` to `last_id`: of a source and of all the sources below it.
    pub fn filter_source_range(&mut self, first_id: u32, last_id: u32, active: bool)
        requires
            old(self).wf(),
        ensures
            final(self).wf(),
            filtered(
                *old(self),
                in_source_range(old(self).store@, first_id, last_id),
                active,
                VISIBLE_OFF_SOURCE,
                *final(self),
            ),
    {
        let in_range = |entry: &LogEntryExt| -> (r: bool)
            ensures
                r == (first_id <= entry.source_id <= last_id),
            { entry.source_id >= first_id && entry.source_id <= last_id };
        self.filter_store(&in_range, active, VISIBLE_OFF_SOURCE);
        proof {
            let matched = choose|matched: Seq<bool>|
                #[trigger] filter_matches(&in_range, old(self).store@, matched) && filtered(
                    *old(self),
                    matched,
                    active,
                    VISIBLE_OFF_SOURCE,
                    *self,
                );
            assert(matched =~= in_source_range(old(self).store@, first_id, last_id));
        }
    }

    /// Shows or hides the entries of the severity `severity`.
    pub fn filter_severity(&mut self, severity: LogLevel, active: bool)
        requires
            old(self).wf(),
        ensures
            final(self).wf(),
            filtered(
                *old(self),
                of_severity(old(self).store@, severity),
                active,
                VISIBLE_OFF_SEVERITY,
                *final(self),
            ),
    {
        let of_level = |entry: &LogEntryExt| -> (r: bool)
            ensures
                r == (entry.severity == severity),
            { entry.severity == severity };
        self.filter_store(&of_level, active, VISIBLE_OFF_SEVERITY);
        proof {
            let matched = choose|matched: Seq<bool>|
                #[trigger] filter_matches(&of_level, old(self).store@, matched) && filtered(
                    *old(self),
                    matched,
                    active,
                    VISIBLE_OFF_SEVERITY,
                    *self,
                );
            assert(matched =~= of_severity(old(self).store@, severity));
        }
    }

    /// Shows the entries whose messages hold `search_text` and hides the
    /// others. An empty text shows all entries.
    pub fn filter_text(&mut self, search_text: &str)
        requires
            old(self).wf(),
        ensures
            final(self).wf(),
            text_filtered(*old(self), search_text@, *final(self)),
    {
        if search_text.is_empty() {
            let all = |_entry: &LogEntryExt| -> (r: bool)
                ensures
                    r,
                { true };
            self.filter_store(&all, true, VISIBLE_OFF_FILTER);
            proof {
                let matched = choose|matched: Seq<bool>|
                    #[trigger] filter_matches(&all, old(self).store@, matched) && filtered(
                        *old(self),
                        matched,
                        true,
                        VISIBLE_OFF_FILTER,
                        *self,
                    );
                assert(matched =~= all_entries(old(self).store@));
            }
        } else {
            let holds = |entry: &LogEntryExt| -> (r: bool)
                ensures
                    r == (first_occurrence(entry.message@, search_text@, 0) is Some),
                { text_contains(entry.message.as_str(), search_text) };
            self.filter_store(&holds, true, VISIBLE_OFF_FILTER);
            let ghost shown = *self;
            proof {
                let matched = choose|matched: Seq<bool>|
                    #[trigger] filter_matches(&holds, old(self).store@, matched) && filtered(
                        *old(self),
                        matched,
                        true,
                        VISIBLE_OFF_FILTER,
                        *self,
                    );
                assert(matched =~= with_text(old(self).store@, search_text@, true));
            }
            let holds_not = |entry: &LogEntryExt| -> (r: bool)
                ensures
                    r == (first_occurrence(entry.message@, search_text@, 0) is None),
                { !text_contains(entry.message.as_str(), search_text) };
            self.filter_store(&holds_not, false, VISIBLE_OFF_FILTER);
            proof {
                let matched = choose|matched: Seq<bool>|
                    #[trigger] filter_matches(&holds_not, shown.store@, matched) && filtered(
                        shown,
                        matched,
                        false,
                        VISIBLE_OFF_FILTER,
                        *self,
                    );
                assert(matched =~= with_text(shown.store@, search_text@, false));
                assert(filtered(
                    *old(self),
                    with_text(old(self).store@, search_text@, true),
                    true,
                    VISIBLE_OFF_FILTER,
                    shown,
                ));
            }
        }
    }

    /// A store of the entries of a tree of sources, which are taken out of
    /// the tree: sorted by their timestamps, all of them visible. Gives
    /// `None` for more entries than offsets of 32 bits can tell apart.
    pub fn from_source_tree(root: &mut LogSourceExt) -> (r: Option<LogStoreLinear>)
        ensures
            crate::model_internal::drained(*old(root), *final(root)),
            r is Some <==> flat_entries(*old(root)).len() <= u32::MAX,
            r matches Some(store) ==> {
                &&& store.wf()
                &&& exists|sorted: Seq<LogEntryExt>|
                    #[trigger] is_stable_sort(
                        flat_entries(*old(root)),
                        sorted,
                        order_of::<LogEntryExt>(),
                    ) && store.store@ == crate::links::relinked(crate::log_store::shown(sorted))
                &&& store.entry_count == flat_entries(*old(root)).len()
                &&& store.viewport_offset == 0
            },
    {
        let mut entries: Vec<LogEntryExt> = Vec::new();
        build_log_store(&mut entries, root);
        assert(entries@ =~= flat_entries(*old(root)));
        LogStoreLinear::from_entries(entries)
    }
}

} // verus!
