//! Passing a filter over the store: the masks of the entries are changed,
//! the visible entries are ranked and threaded anew, and the viewport is put
//! where it keeps the anchor in place.

use vstd::math::{max, min};
use vstd::prelude::*;
use crate::links::{
    entry_linked, first_visible_from, last_visible_before, lemma_last_visible_before,
    lemma_nth_of_rank, lemma_nth_visible, lemma_visible_before_bound,
    lemma_visible_before_grows, nth_visible, relinked, visible_before, visible_count,
};
use crate::log_store::{entry_in_bounds, LogStoreLinear};
use crate::model_internal::LogEntryExt;
use crate::scroll::{lemma_walk_next, lemma_walk_prev, walk_next};

verus! {

/// The mask of an entry after a filter has passed: where the predicate
/// matched the entry, the bits of `mask` are taken from its mask if the
/// filter makes entries active, and put into it if not; where it did not
/// match, the mask is as it was.
pub open spec fn spec_apply_mask(visible: u8, matched: bool, active: bool, mask: u8) -> u8 {
    if !matched {
        visible
    } else if active {
        visible & !mask
    } else {
        visible | mask
    }
}

/// The entries after a filter has passed whose predicate matched the
/// entries that `matched` marks.
pub open spec fn masked(s: Seq<LogEntryExt>, matched: Seq<bool>, active: bool, mask: u8) -> Seq<
    LogEntryExt,
> {
    Seq::new(
        s.len(),
        |i: int| LogEntryExt { visible: spec_apply_mask(s[i].visible, matched[i], active, mask), ..s[i] },
    )
}

/// `matched` marks, entry by entry, what the predicate `filter` may give
/// for the entries of `s`.
pub open spec fn filter_matches<F: Fn(&LogEntryExt) -> bool>(
    filter: &F,
    s: Seq<LogEntryExt>,
    matched: Seq<bool>,
) -> bool {
    &&& matched.len() == s.len()
    &&& forall|i: int| 0 <= i < s.len() ==> filter.ensures((&s[i],), #[trigger] matched[i])
}

/// `after` is the store `before` after a filter has passed whose predicate
/// matched the entries that `matched` marks: the masks of those entries are
/// changed, the visible entries are ranked and threaded anew, the viewport
/// stands where it keeps the anchor of `before` in place, and all else is as
/// it was.
pub open spec fn filtered(
    before: LogStoreLinear,
    matched: Seq<bool>,
    active: bool,
    mask: u8,
    after: LogStoreLinear,
) -> bool {
    let s = relinked(masked(before.store@, matched, active, mask));
    &&& after.store@ == s
    &&& after == (LogStoreLinear {
        store: after.store,
        entry_count: visible_count(s) as usize,
        first_offset: (if first_visible_from(s, 0) < s.len() {
            first_visible_from(s, 0)
        } else {
            0
        }) as usize,
        last_offset: (if last_visible_before(s, s.len() as int) >= 0 {
            last_visible_before(s, s.len() as int)
        } else {
            0
        }) as usize,
        viewport_offset: spec_viewport_after(s, before.spec_anchor().0, before.spec_anchor().1)
            as usize,
        ..before
    })
}

/// The row in the middle of a viewport of `visible_lines` rows.
pub open spec fn half_window(visible_lines: usize) -> int {
    (max(visible_lines as int, 1) - 1) / 2
}

/// The offset at which the viewport stands after the entries were filtered:
/// on the visible entry that is `rel_offset` rows above the first visible
/// entry at or after `anchor`, or above the last visible entry where none
/// follows the anchor, but not above the first visible entry; and at offset
/// 0 where nothing is visible.
pub open spec fn spec_viewport_after(s: Seq<LogEntryExt>, anchor: int, rel_offset: int) -> int {
    if visible_count(s) == 0 {
        0
    } else {
        let found = first_visible_from(s, anchor);
        let rank = if found < s.len() {
            visible_before(s, found)
        } else {
            (visible_count(s) - 1) as nat
        };
        nth_visible(s, max(rank - rel_offset, 0) as nat)
    }
}

impl LogStoreLinear {
    /// The entry that a change of the filters keeps in place, and the row of
    /// the viewport in which it is kept.
    ///
    /// With an anchor, that is the anchor, in the row in which it stands, or
    /// where it is hidden, in the row before which it lies; an anchor out of
    /// the viewport is put into the middle row. Without an anchor it is the
    /// entry in the middle row, or the last visible entry where the middle
    /// row is empty; and the entry at offset 0 in the first row where fewer
    /// entries are visible than the viewport has rows or none at or after
    /// the viewport.
    pub open spec fn spec_anchor(&self) -> (int, int) {
        let s = self.store@;
        let rank = self.spec_viewport_rank();
        match self.anchor_offset {
            Some(anchor) => {
                let row = visible_before(s, anchor as int) - rank;
                if s[anchor as int].is_visible() && 0 <= row < self.visible_lines {
                    (anchor as int, row)
                } else if !s[anchor as int].is_visible() && 1 <= row < self.visible_lines
                    && visible_before(s, anchor as int) < visible_count(s) {
                    (anchor as int, row)
                } else {
                    (anchor as int, half_window(self.visible_lines))
                }
            },
            None => {
                if self.entry_count >= self.visible_lines && rank < visible_count(s) {
                    (
                        nth_visible(
                            s,
                            min(rank + half_window(self.visible_lines), visible_count(s) - 1) as nat,
                        ),
                        half_window(self.visible_lines),
                    )
                } else {
                    (0, 0)
                }
            },
        }
    }

    /// The rank of the first visible entry at or after `offset`, or the
    /// count of the visible entries where there is none.
    fn rank_from(&self, offset: usize) -> (r: usize)
        requires
            self.wf(),
            offset <= self.store@.len(),
        ensures
            r == visible_before(self.store@, offset as int),
            r <= self.entry_count,
    {
        let mut i: usize = offset;
        while i < self.store.len() && !self.store[i].is_visible()
            invariant
                offset <= i <= self.store@.len(),
                visible_before(self.store@, i as int) == visible_before(
                    self.store@,
                    offset as int,
                ),
            decreases self.store.len() - i,
        {
            i = i + 1;
        }
        proof {
            lemma_visible_before_grows(self.store@, i as int, self.store@.len() as int);
            if i < self.store@.len() {
                assert(entry_linked(self.store@, i as int));
            }
        }
        if i < self.store.len() {
            self.store[i].entry_id as usize
        } else {
            self.entry_count
        }
    }

    /// The end of a walk along the links to the next visible entries that
    /// starts at the visible entry at `from` and takes `steps` steps at most.
    fn follow_next(&self, from: usize, steps: usize) -> (r: usize)
        requires
            self.wf(),
            from < self.store@.len(),
            self.store@[from as int].is_visible(),
        ensures
            r == nth_visible(
                self.store@,
                min(
                    visible_before(self.store@, from as int) + steps,
                    visible_count(self.store@) - 1,
                ) as nat,
            ),
            r < self.store@.len(),
    {
        proof {
            lemma_walk_next(self.store@, from as int, steps as nat, 0x1_0000_0000);
            lemma_nth_of_rank(self.store@, from as int);
            lemma_visible_before_bound(self.store@, self.store@.len() as int);
        }
        let mut offset: usize = from;
        let mut left: usize = steps;
        while left > 0 && self.store[offset].next_offset as usize != offset
            invariant
                self.wf(),
                offset < self.store@.len(),
                walk_next(self.store@, from as int, steps as nat, 0x1_0000_0000) == walk_next(
                    self.store@,
                    offset as int,
                    left as nat,
                    0x1_0000_0000,
                ),
            decreases left,
        {
            assert(entry_in_bounds(self.store@, offset as int));
            offset = self.store[offset].next_offset as usize;
            left = left - 1;
        }
        offset
    }

    /// The entry that a change of the filters keeps in place, and its row.
    #[verifier::rlimit(30)]
    fn anchor_position(&self) -> (r: (usize, usize))
        requires
            self.wf(),
        ensures
            (r.0 as int, r.1 as int) == self.spec_anchor(),
            self.store@.len() > 0 ==> r.0 < self.store@.len(),
            self.store@.len() == 0 ==> r.0 == 0,
    {
        let half: usize = if self.visible_lines > 1 {
            (self.visible_lines - 1) / 2
        } else {
            0
        };
        let rank: usize = if self.store.len() > 0 {
            self.rank_from(self.viewport_offset)
        } else {
            0
        };
        proof {
            lemma_visible_before_bound(self.store@, self.store@.len() as int);
        }
        match self.anchor_offset {
            Some(anchor_offset) => {
                let anchor_rank: usize = self.rank_from(anchor_offset);
                if anchor_rank >= rank && anchor_rank - rank < self.visible_lines {
                    let row: usize = anchor_rank - rank;
                    if self.store[anchor_offset].is_visible() {
                        return (anchor_offset, row);
                    } else if row >= 1 && anchor_rank < self.entry_count {
                        return (anchor_offset, row);
                    }
                }
                (anchor_offset, half)
            },
            None => {
                if self.entry_count >= self.visible_lines && rank < self.entry_count {
                    proof {
                        lemma_nth_visible(self.store@, rank as nat);
                    }
                    let first: Option<usize> = self.rel_to_abs_offset(0);
                    match first {
                        Some(first) => {
                            proof {
                                lemma_nth_of_rank(self.store@, first as int);
                            }
                            (self.follow_next(first, half), half)
                        },
                        None => (0, 0),
                    }
                } else {
                    (0, 0)
                }
            },
        }
    }

    /// The offset of the first visible entry at or after `anchor`, or of the
    /// last visible entry where none follows.
    fn visible_at_or_after(&self, anchor: usize) -> (r: usize)
        requires
            self.wf(),
            self.entry_count > 0,
            anchor < self.store@.len(),
        ensures
            r < self.store@.len(),
            self.store@[r as int].is_visible(),
            visible_before(self.store@, r as int) == (if first_visible_from(
                self.store@,
                anchor as int,
            ) < self.store@.len() {
                visible_before(self.store@, first_visible_from(self.store@, anchor as int))
            } else {
                (visible_count(self.store@) - 1) as nat
            }),
    {
        let mut offset: usize = anchor;
        while offset < self.store.len() && !self.store[offset].is_visible()
            invariant
                anchor <= offset <= self.store@.len(),
                first_visible_from(self.store@, anchor as int) == first_visible_from(
                    self.store@,
                    offset as int,
                ),
            decreases self.store.len() - offset,
        {
            offset = offset + 1;
        }
        if offset < self.store.len() {
            offset
        } else {
            proof {
                let s = self.store@;
                lemma_last_visible_before(s, s.len() as int);
                lemma_visible_before_bound(s, s.len() as int);
            }
            self.last_offset
        }
    }

    /// Puts the viewport `rel_offset` rows above the first visible entry at
    /// or after `anchor`.
    #[verifier::rlimit(30)]
    fn reposition(&mut self, anchor: usize, rel_offset: usize)
        requires
            old(self).wf(),
            old(self).store@.len() > 0 ==> anchor < old(self).store@.len(),
        ensures
            *final(self) == (LogStoreLinear {
                viewport_offset: spec_viewport_after(
                    old(self).store@,
                    anchor as int,
                    rel_offset as int,
                ) as usize,
                ..*old(self)
            }),
            final(self).viewport_offset as int == spec_viewport_after(
                old(self).store@,
                anchor as int,
                rel_offset as int,
            ),
            final(self).wf(),
            final(self).entry_count > 0 ==> final(self).viewport_on_visible(),
    {
        if self.entry_count == 0 {
            proof {
                lemma_last_visible_before(self.store@, self.store@.len() as int);
            }
            self.viewport_offset = self.last_offset;
            return ;
        }
        proof {
            lemma_visible_before_bound(self.store@, self.store@.len() as int);
        }
        let start: usize = self.visible_at_or_after(anchor);
        self.viewport_offset = start;
        proof {
            let s = self.store@;
            lemma_walk_prev(s, start as int, rel_offset as nat);
        }
        self.scroll_up(rel_offset as u64);
    }

    /// Changes the masks of the entries that `filter` matches and leaves
    /// the others as they are: returns what `filter` gave for each entry.
    fn apply_filter<F: Fn(&LogEntryExt) -> bool>(&mut self, filter: &F, active: bool, mask: u8) -> (matched:
        Ghost<Seq<bool>>)
        requires
            forall|e: &LogEntryExt| #[trigger] filter.requires((e,)),
        ensures
            filter_matches(filter, old(self).store@, matched@),
            final(self).store@ == masked(old(self).store@, matched@, active, mask),
            *final(self) == (LogStoreLinear { store: final(self).store, ..*old(self) }),
    {
        let ghost mut matched: Seq<bool> = Seq::empty();
        let mut i: usize = 0;
        while i < self.store.len()
            invariant
                i <= self.store@.len(),
                self.store@.len() == old(self).store@.len(),
                matched.len() == i,
                forall|e: &LogEntryExt| #[trigger] filter.requires((e,)),
                forall|j: int|
                    0 <= j < i ==> filter.ensures((&old(self).store@[j],), #[trigger] matched[j]),
                forall|j: int|
                    0 <= j < i ==> #[trigger] self.store@[j] == (LogEntryExt {
                        visible: spec_apply_mask(
                            old(self).store@[j].visible,
                            matched[j],
                            active,
                            mask,
                        ),
                        ..old(self).store@[j]
                    }),
                forall|j: int|
                    i <= j < self.store@.len() ==> #[trigger] self.store@[j] == old(self).store@[j],
                *self == (LogStoreLinear { store: self.store, ..*old(self) }),
            decreases self.store.len() - i,
        {
            let hit: bool = filter(&self.store[i]);
            if hit {
                if active {
                    self.store[i].visible = self.store[i].visible & !mask;
                } else {
                    self.store[i].visible = self.store[i].visible | mask;
                }
            }
            proof {
                matched = matched.push(hit);
            }
            i = i + 1;
        }
        assert(self.store@ =~= masked(old(self).store@, matched, active, mask));
        Ghost(matched)
    }

    /// Changes the masks as the filter says, ranks and threads the visible
    /// entries anew and puts the viewport `rel_offset` rows above `anchor`.
    #[verifier::rlimit(30)]
    fn refilter<F: Fn(&LogEntryExt) -> bool>(
        &mut self,
        filter: &F,
        active: bool,
        mask: u8,
        anchor: usize,
        rel_offset: usize,
    ) -> (matched: Ghost<Seq<bool>>)
        requires
            old(self).wf(),
            old(self).store@.len() > 0 ==> anchor < old(self).store@.len(),
            forall|e: &LogEntryExt| #[trigger] filter.requires((e,)),
        ensures
            filter_matches(filter, old(self).store@, matched@),
            final(self).store@ == relinked(masked(old(self).store@, matched@, active, mask)),
            final(self).viewport_offset == spec_viewport_after(
                final(self).store@,
                anchor as int,
                rel_offset as int,
            ),
            final(self).wf(),
            final(self).entry_count > 0 ==> final(self).viewport_on_visible(),
            *final(self) == (LogStoreLinear {
                store: final(self).store,
                entry_count: final(self).entry_count,
                first_offset: final(self).first_offset,
                last_offset: final(self).last_offset,
                viewport_offset: final(self).viewport_offset,
                ..*old(self)
            }),
    {
        let Ghost(matched) = self.apply_filter(filter, active, mask);
        proof {
            let s = self.store@;
            assert forall|i: int| 0 <= i < s.len() implies #[trigger] entry_in_bounds(s, i) by {
                assert(entry_in_bounds(old(self).store@, i));
            }
        }
        self.rebuild();
        self.reposition(anchor, rel_offset);
        Ghost(matched)
    }

    /// Passes a filter over the store. Of every entry that `filter` matches,
    /// the bits of `mask` are taken from the mask if `active` is set, and
    /// put into it if not, so that the entry is hidden for the reason that
    /// `mask` stands for; entries that `filter` does not match keep their
    /// masks. Then the visible entries are ranked and threaded anew, and the
    /// viewport is put where it keeps the anchor in place.
    #[verifier::rlimit(30)]
    pub fn filter_store<F: Fn(&LogEntryExt) -> bool>(&mut self, filter: &F, active: bool, mask: u8)
        requires
            old(self).wf(),
            forall|e: &LogEntryExt| #[trigger] filter.requires((e,)),
        ensures
            final(self).wf(),
            exists|matched: Seq<bool>|
                #[trigger] filter_matches(filter, old(self).store@, matched) && filtered(
                    *old(self),
                    matched,
                    active,
                    mask,
                    *final(self),
                ),
            final(self).entry_count > 0 ==> final(self).viewport_on_visible(),
    {
        let (tmp_anchor_offset, rel_offset) = self.anchor_position();
        let Ghost(matched) = self.refilter(filter, active, mask, tmp_anchor_offset, rel_offset);
        assert(filtered(*old(self), matched, active, mask, *self));
    }
}

} // verus!
