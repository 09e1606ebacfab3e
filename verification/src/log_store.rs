//! The store of the flattened entries: which entries are visible, where the
//! viewport stands, and what is selected.

use std::collections::HashMap;
use std::collections::HashSet;
use vstd::prelude::*;
use crate::links::{
    entry_linked, first_visible_from, last_visible_before, lemma_nth_of_rank, lemma_nth_visible,
    lemma_relinked, lemma_same_visibility, lemma_visible_before_bound,
    lemma_visible_before_grows, linked, nth_visible, relink, relinked, visible_before,
    visible_count,
};
use crate::model_internal::{LogEntryExt, VISIBLE_ON};
use crate::sorting::{is_stable_sort, order_of, stable_sort};

verus! {

/// The store of the entries of all sources, sorted by time.
#[derive(Debug)]
pub struct LogStoreLinear {
    pub store: Vec<LogEntryExt>,
    /// The count of the visible entries.
    pub entry_count: usize,
    /// The offset of the first visible entry, or 0.
    pub first_offset: usize,
    /// The offset of the last visible entry, or 0.
    pub last_offset: usize,
    /// The offset of the entry that a change of the filters keeps in place.
    pub anchor_offset: Option<usize>,
    pub show_crit: bool,
    pub show_err: bool,
    pub show_warn: bool,
    pub show_info: bool,
    pub show_dbg: bool,
    pub show_trace: bool,
    /// The offsets that were selected one by one.
    pub selected_single: HashSet<usize>,
    /// The offsets that were taken out of the selected range.
    pub excluded_single: HashSet<usize>,
    /// The offset that was clicked last, from which a range starts.
    pub selected_single_last: Option<usize>,
    /// The selected range of offsets, both ends included.
    pub selected_range: Option<(usize, usize)>,
    pub pressed_shift: bool,
    pub pressed_ctrl: bool,
    /// The path of names of every source, by its number.
    pub log_sources: HashMap<u32, String>,
    /// The count of rows that the viewport shows.
    pub visible_lines: usize,
    /// The row under the pointer.
    pub hover_line: Option<usize>,
    /// The offset of the entry in the first row of the viewport.
    pub viewport_offset: usize,
    pub mouse_down: bool,
    pub thumb_drag: bool,
}

/// A part of a whole, as a scroll bar shows it: `numerator` of
/// `denominator` parts.
#[derive(Clone, Copy, Debug, PartialEq, Eq, Structural)]
pub struct ScrollFraction {
    pub numerator: u64,
    pub denominator: u64,
}

/// The entries with every reason to hide them taken away.
pub open spec fn shown(s: Seq<LogEntryExt>) -> Seq<LogEntryExt> {
    Seq::new(s.len(), |i: int| LogEntryExt { visible: VISIBLE_ON, ..s[i] })
}

/// The links of the entry at `i` point at entries of `s`.
pub open spec fn entry_in_bounds(s: Seq<LogEntryExt>, i: int) -> bool {
    s[i].prev_offset < s.len() && s[i].next_offset < s.len()
}

/// The links of all entries point at entries of `s`.
pub open spec fn links_in_bounds(s: Seq<LogEntryExt>) -> bool {
    forall|i: int| 0 <= i < s.len() ==> #[trigger] entry_in_bounds(s, i)
}

/// Where every entry is visible, as many are visible before an offset as
/// there are entries.
pub proof fn lemma_all_visible(s: Seq<LogEntryExt>, k: int)
    requires
        0 <= k <= s.len(),
        forall|i: int| 0 <= i < s.len() ==> (#[trigger] s[i]).is_visible(),
    ensures
        visible_before(s, k) == k,
    decreases k,
{
    if k > 0 {
        lemma_all_visible(s, k - 1);
    }
}

/// The rank that the part `numerator / denominator` of the ranks from 0 to
/// `span` is nearest to; a half counts up.
pub open spec fn spec_rank_of_fraction(span: nat, numerator: u64, denominator: u64) -> nat {
    ((2 * span * numerator + denominator) / (2 * denominator)) as nat
}

impl LogStoreLinear {
    /// The entries are at most as many as offsets of 32 bits can tell
    /// apart; the visible entries are ranked and threaded; counts and offsets
    /// are those of the entries; and the viewport and the anchor stand on
    /// entries of the store.
    pub open spec fn wf(&self) -> bool {
        let s = self.store@;
        &&& self.in_bounds()
        &&& linked(s)
        &&& self.entry_count == visible_count(s)
        &&& self.first_offset == (if first_visible_from(s, 0) < s.len() {
            first_visible_from(s, 0)
        } else {
            0
        })
        &&& self.last_offset == (if last_visible_before(s, s.len() as int) >= 0 {
            last_visible_before(s, s.len() as int)
        } else {
            0
        })
    }

    /// The entries are at most as many as offsets of 32 bits can tell
    /// apart, and the links of the entries, the viewport and the anchor point
    /// at entries of the store.
    pub open spec fn in_bounds(&self) -> bool {
        let s = self.store@;
        &&& s.len() <= u32::MAX
        &&& links_in_bounds(s)
        &&& (s.len() == 0 ==> self.viewport_offset == 0)
        &&& (s.len() > 0 ==> self.viewport_offset < s.len())
        &&& (self.anchor_offset matches Some(a) ==> a < s.len())
    }

    /// The rank of the entry in the first row of the viewport: the count of
    /// the visible entries before the viewport.
    pub open spec fn spec_viewport_rank(&self) -> nat {
        visible_before(self.store@, self.viewport_offset as int)
    }

    /// The viewport stands on a visible entry.
    pub open spec fn viewport_on_visible(&self) -> bool {
        self.store@.len() > 0 && self.store@[self.viewport_offset as int].is_visible()
    }

    /// A store without entries.
    pub fn new() -> (r: LogStoreLinear)
        ensures
            r.wf(),
            r.store@.len() == 0,
            r.anchor_offset is None,
            r.visible_lines == 0,
            r.viewport_offset == 0,
            r.selected_single@ == Set::<usize>::empty(),
            r.excluded_single@ == Set::<usize>::empty(),
            r.selected_single_last is None,
            r.selected_range is None,
            r.log_sources@ == Map::<u32, String>::empty(),
            !r.pressed_shift && !r.pressed_ctrl && !r.mouse_down && !r.thumb_drag,
            r.show_crit && r.show_err && r.show_warn && r.show_info && r.show_dbg && r.show_trace,
            r.hover_line is None,
    {
        LogStoreLinear {
            store: Vec::new(),
            entry_count: 0,
            first_offset: 0,
            last_offset: 0,
            anchor_offset: None,
            show_crit: true,
            show_err: true,
            show_warn: true,
            show_info: true,
            show_dbg: true,
            show_trace: true,
            selected_single: HashSet::new(),
            excluded_single: HashSet::new(),
            selected_single_last: None,
            selected_range: None,
            pressed_shift: false,
            pressed_ctrl: false,
            log_sources: HashMap::new(),
            visible_lines: 0,
            hover_line: None,
            viewport_offset: 0,
            mouse_down: false,
            thumb_drag: false,
        }
    }

    /// Ranks and threads the visible entries anew and counts them.
    #[verifier::rlimit(30)]
    pub(crate) fn rebuild(&mut self)
        requires
            old(self).in_bounds(),
        ensures
            final(self).store@ == relinked(old(self).store@),
            *final(self) == (LogStoreLinear {
                store: final(self).store,
                entry_count: visible_count(final(self).store@) as usize,
                first_offset: (if first_visible_from(final(self).store@, 0) < final(self).store@.len() {
                    first_visible_from(final(self).store@, 0)
                } else {
                    0
                }) as usize,
                last_offset: (if last_visible_before(
                    final(self).store@,
                    final(self).store@.len() as int,
                ) >= 0 {
                    last_visible_before(final(self).store@, final(self).store@.len() as int)
                } else {
                    0
                }) as usize,
                ..*old(self)
            }),
            final(self).wf(),
    {
        let ghost before = self.store@;
        let (entry_count, first_offset, last_offset) = relink(&mut self.store);
        self.entry_count = entry_count;
        self.first_offset = first_offset;
        self.last_offset = last_offset;
        proof {
            lemma_relinked(before);
            let s = self.store@;
            assert forall|i: int| 0 <= i < s.len() implies #[trigger] entry_in_bounds(s, i) by {
                assert(entry_in_bounds(before, i));
            }
            lemma_same_visibility(before, s, 0);
            lemma_same_visibility(before, s, s.len() as int);
        }
    }

    /// A store of the entries `entries`, sorted by their timestamps, with
    /// all of them visible and the viewport on the first. Entries of the
    /// same timestamp keep their order. Gives `None` for more entries than
    /// offsets of 32 bits can tell apart.
    #[verifier::rlimit(30)]
    pub fn from_entries(entries: Vec<LogEntryExt>) -> (r: Option<LogStoreLinear>)
        ensures
            r is Some <==> entries@.len() <= u32::MAX,
            r matches Some(store) ==> {
                &&& store.wf()
                &&& exists|sorted: Seq<LogEntryExt>|
                    #[trigger] is_stable_sort(entries@, sorted, order_of::<LogEntryExt>())
                        && store.store@ == relinked(shown(sorted))
                &&& store.entry_count == entries@.len()
                &&& store.viewport_offset == 0
                &&& store.anchor_offset is None
                &&& store.visible_lines == 0
                &&& store.selected_single@ == Set::<usize>::empty()
                &&& store.excluded_single@ == Set::<usize>::empty()
                &&& store.selected_single_last is None
                &&& store.selected_range is None
                &&& store.log_sources@ == Map::<u32, String>::empty()
            },
    {
        if entries.len() > 0xffff_ffff {
            return None;
        }
        let mut store = LogStoreLinear::new();
        let mut sorted = entries;
        stable_sort(&mut sorted);
        let ghost in_order = sorted@;
        let mut i: usize = 0;
        while i < sorted.len()
            invariant
                i <= sorted@.len(),
                sorted@.len() == in_order.len(),
                forall|j: int|
                    0 <= j < i ==> #[trigger] sorted@[j] == (LogEntryExt {
                        visible: VISIBLE_ON,
                        ..in_order[j]
                    }),
                forall|j: int| i <= j < sorted@.len() ==> #[trigger] sorted@[j] == in_order[j],
            decreases sorted.len() - i,
        {
            sorted[i].visible = VISIBLE_ON;
            i = i + 1;
        }
        assert(sorted@ =~= shown(in_order));
        let ghost all_shown = sorted@;
        let (entry_count, first_offset, last_offset) = relink(&mut sorted);
        store.store = sorted;
        store.entry_count = entry_count;
        store.first_offset = first_offset;
        store.last_offset = last_offset;
        proof {
            lemma_relinked(all_shown);
            let s = store.store@;
            assert forall|i: int| 0 <= i < s.len() implies #[trigger] entry_in_bounds(s, i) by {
                assert(s[i].is_visible());
            }
            lemma_same_visibility(all_shown, s, 0);
            lemma_same_visibility(all_shown, s, s.len() as int);
            lemma_all_visible(all_shown, all_shown.len() as int);
        }
        Some(store)
    }

    /// The offset of the visible entry that stands `rel_offset` rows below
    /// the first row of the viewport.
    pub open spec fn spec_rel_to_abs_offset(&self, rel_offset: int) -> Option<usize> {
        if self.spec_viewport_rank() + rel_offset < visible_count(self.store@) {
            Some(nth_visible(self.store@, (self.spec_viewport_rank() + rel_offset) as nat) as usize)
        } else {
            None
        }
    }

    /// The offset of the visible entry that stands `rel_offset` rows below
    /// the first row of the viewport, if there is such an entry.
    pub fn rel_to_abs_offset(&self, rel_offset: usize) -> (r: Option<usize>)
        requires
            self.wf(),
        ensures
            r == self.spec_rel_to_abs_offset(rel_offset as int),
            r matches Some(offset) ==> offset < self.store@.len() && self.store@[offset as int].is_visible()
                && self.viewport_offset <= offset,
    {
        let mut skipped: usize = 0;
        let mut offset: usize = self.viewport_offset;
        while offset < self.store.len()
            invariant
                self.viewport_offset <= offset,
                self.store@.len() > 0 ==> offset <= self.store@.len(),
                skipped <= rel_offset,
                skipped == visible_before(self.store@, offset as int) - self.spec_viewport_rank(),
            decreases self.store.len() - offset,
        {
            if self.store[offset].is_visible() {
                if skipped == rel_offset {
                    proof {
                        lemma_nth_of_rank(self.store@, offset as int);
                    }
                    return Some(offset);
                }
                skipped = skipped + 1;
            }
            offset = offset + 1;
        }
        None
    }

    /// The row of the viewport in which the entry at `abs_offset` stands.
    pub open spec fn spec_abs_to_rel_offset(&self, abs_offset: int) -> Option<usize> {
        let row = visible_before(self.store@, abs_offset) - self.spec_viewport_rank();
        if self.viewport_offset <= abs_offset < self.store@.len()
            && self.store@[abs_offset].is_visible() && row < self.visible_lines {
            Some(row as usize)
        } else {
            None
        }
    }

    /// The row of the viewport in which the entry at `abs_offset` stands, if
    /// it is visible and in the viewport.
    pub fn abs_to_rel_offset(&self, abs_offset: usize) -> (r: Option<usize>)
        requires
            self.wf(),
        ensures
            r == self.spec_abs_to_rel_offset(abs_offset as int),
    {
        let mut row: usize = 0;
        let mut offset: usize = self.viewport_offset;
        while offset < self.store.len() && row < self.visible_lines
            invariant
                self.viewport_offset <= offset,
                self.store@.len() > 0 ==> offset <= self.store@.len(),
                row <= self.visible_lines,
                row == visible_before(self.store@, offset as int) - self.spec_viewport_rank(),
                !(self.viewport_offset <= abs_offset < offset
                    && self.store@[abs_offset as int].is_visible()),
            decreases self.store.len() - offset,
        {
            if self.store[offset].is_visible() {
                if offset == abs_offset {
                    return Some(row);
                }
                row = row + 1;
            }
            offset = offset + 1;
        }
        proof {
            if self.viewport_offset <= abs_offset < self.store@.len()
                && self.store@[abs_offset as int].is_visible() {
                lemma_visible_before_grows(self.store@, offset as int, abs_offset as int);
            }
        }
        None
    }

    /// The offset of the entry that the thumb of a scroll bar points at which
    /// has gone `numerator` of the `denominator` parts of its way.
    pub open spec fn spec_percentage_to_offset(
        &self,
        numerator: u64,
        denominator: u64,
        window_size: usize,
    ) -> Option<usize> {
        if denominator == 0 || numerator > denominator {
            None
        } else if self.entry_count == 0 {
            Some(0)
        } else if window_size == 0 {
            None
        } else if window_size >= self.entry_count {
            Some(0)
        } else {
            Some(
                nth_visible(
                    self.store@,
                    spec_rank_of_fraction(
                        (self.entry_count - window_size) as nat,
                        numerator,
                        denominator,
                    ),
                ) as usize,
            )
        }
    }

    /// The offset at which the viewport of `window_size` rows stands when
    /// the thumb of the scroll bar has gone `numerator` of the `denominator`
    /// parts of its way: that of the visible entry whose rank is nearest to
    /// that part of the ranks at which a viewport can stand. Gives offset 0
    /// where no entry is visible and where all the visible entries fit into
    /// the viewport, and `None` for a part that is no part of a whole and for
    /// a viewport without rows over visible entries.
    pub fn percentage_to_offset(&self, numerator: u64, denominator: u64, window_size: usize) -> (r:
        Option<usize>)
        requires
            self.wf(),
        ensures
            r == self.spec_percentage_to_offset(numerator, denominator, window_size),
            r matches Some(offset) ==> offset == 0 || offset < self.store@.len(),
            (denominator > 0 && numerator <= denominator && (self.entry_count == 0 || (1
                <= window_size && self.entry_count <= window_size))) ==> r == Some(0usize),
    {
        if denominator == 0 || numerator > denominator {
            return None;
        }
        if self.entry_count == 0 {
            return Some(0);
        }
        if window_size == 0 {
            return None;
        }
        proof {
            lemma_visible_before_bound(self.store@, self.store@.len() as int);
        }
        if window_size >= self.entry_count {
            return Some(0);
        }
        let span: u128 = (self.entry_count - window_size) as u128;
        assert(2 * span * numerator + denominator <= 0xffff_ffff_ffff_ffff_ffff_ffff_ffff_ffff)
            by (nonlinear_arith)
            requires
                span <= 0xffff_ffff,
                numerator <= 0xffff_ffff_ffff_ffff,
                denominator <= 0xffff_ffff_ffff_ffff,
        ;
        assert(2 * span * numerator <= 2 * span * denominator) by (nonlinear_arith)
            requires
                numerator <= denominator,
                span >= 0,
        ;
        let scaled: u128 = 2 * span * (numerator as u128) + (denominator as u128);
        let entry_id: u128 = scaled / (2 * (denominator as u128));
        assert(entry_id <= span) by (nonlinear_arith)
            requires
                entry_id as int == (scaled as int) / (2 * (denominator as int)),
                scaled <= 2 * span * denominator + denominator,
                denominator > 0,
        ;
        let entry_id: usize = entry_id as usize;
        proof {
            lemma_nth_visible(self.store@, entry_id as nat);
            lemma_visible_before_bound(self.store@, nth_visible(self.store@, entry_id as nat));
        }
        let mut offset: usize = if entry_id > 0 {
            entry_id - 1
        } else {
            0
        };
        let ghost target = nth_visible(self.store@, entry_id as nat);
        while offset < self.store.len()
            invariant
                self.wf(),
                0 <= target < self.store@.len(),
                self.store@[target].is_visible(),
                visible_before(self.store@, target) == entry_id,
                offset <= target,
                self.spec_percentage_to_offset(numerator, denominator, window_size) == Some(
                    target as usize,
                ),
                target == nth_visible(self.store@, entry_id as nat),
            decreases self.store.len() - offset,
        {
            if self.store[offset].is_visible() && self.store[offset].entry_id as usize == entry_id {
                proof {
                    lemma_nth_of_rank(self.store@, offset as int);
                    assert(entry_linked(self.store@, offset as int));
                }
                return Some(offset);
            }
            proof {
                if offset == target {
                    assert(entry_linked(self.store@, offset as int));
                }
            }
            offset = offset + 1;
        }
        None
    }

    /// The part of its way that the thumb of the scroll bar has gone.
    pub open spec fn spec_scroll_percentage(&self, window_size: usize) -> ScrollFraction {
        if self.entry_count == 0 || self.entry_count <= window_size {
            ScrollFraction { numerator: 0, denominator: 1 }
        } else if self.store@[self.viewport_offset as int].entry_id > self.entry_count
            - window_size {
            ScrollFraction { numerator: 1, denominator: 1 }
        } else {
            ScrollFraction {
                numerator: self.store@[self.viewport_offset as int].entry_id as u64,
                denominator: (self.entry_count - window_size) as u64,
            }
        }
    }

    /// The part of its way that the thumb of the scroll bar has gone: the
    /// rank of the entry at the viewport, of the ranks at which a viewport of
    /// `window_size` rows can stand. It is nothing where all the visible
    /// entries fit into the viewport, and the whole where the viewport stands
    /// further down than it can be moved.
    pub fn get_scroll_percentage(&self, window_size: usize) -> (r: ScrollFraction)
        requires
            self.wf(),
        ensures
            r == self.spec_scroll_percentage(window_size),
            0 < r.denominator,
            r.numerator <= r.denominator,
    {
        if self.entry_count == 0 {
            return ScrollFraction { numerator: 0, denominator: 1 };
        }
        if self.entry_count <= window_size {
            return ScrollFraction { numerator: 0, denominator: 1 };
        }
        proof {
            lemma_visible_before_bound(self.store@, self.store@.len() as int);
        }
        let rank: u64 = self.store[self.viewport_offset].entry_id as u64;
        let span: u64 = (self.entry_count - window_size) as u64;
        if rank > span {
            return ScrollFraction { numerator: 1, denominator: 1 };
        }
        ScrollFraction { numerator: rank, denominator: span }
    }

    /// Puts the viewport where the thumb of the scroll bar points when it
    /// has gone `numerator` of the `denominator` parts of its way; at offset
    /// 0 where `percentage_to_offset` gives no offset.
    #[verifier::rlimit(30)]
    pub fn drag_thumb(&mut self, numerator: u64, denominator: u64)
        requires
            old(self).wf(),
        ensures
            final(self).wf(),
            *final(self) == (LogStoreLinear {
                viewport_offset: match old(self).spec_percentage_to_offset(
                    numerator,
                    denominator,
                    old(self).visible_lines,
                ) {
                    Some(offset) => offset,
                    None => 0,
                },
                ..*old(self)
            }),
    {
        let offset: Option<usize> = self.percentage_to_offset(
            numerator,
            denominator,
            self.visible_lines,
        );
        self.viewport_offset = match offset {
            Some(offset) => offset,
            None => 0,
        };
    }

    /// Sets the count of rows of the viewport, and keeps the viewport from
    /// standing nearer to the end of the store than it has rows: with fewer
    /// entries than rows it is put at offset 0.
    #[verifier::rlimit(30)]
    pub fn set_visible_lines(&mut self, visible_lines: usize)
        requires
            old(self).wf(),
        ensures
            final(self).wf(),
            *final(self) == (LogStoreLinear {
                visible_lines,
                viewport_offset: if old(self).store@.len() < visible_lines {
                    0
                } else if old(self).viewport_offset > old(self).store@.len() - visible_lines {
                    (old(self).store@.len() - visible_lines) as usize
                } else {
                    old(self).viewport_offset
                },
                ..*old(self)
            }),
    {
        self.visible_lines = visible_lines;
        if self.store.len() < self.visible_lines {
            self.viewport_offset = 0;
        } else if self.viewport_offset > self.store.len() - self.visible_lines {
            self.viewport_offset = self.store.len() - self.visible_lines;
        }
        assert(self.store == old(self).store);
        assert(self.in_bounds());
        assert(linked(self.store@));
    }
}

} // verus!
