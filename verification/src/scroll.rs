//! Moving the viewport along the links of the visible entries.

use vstd::math::{max, min};
use vstd::prelude::*;
use crate::links::{
    entry_linked, lemma_links_by_rank, lemma_nth_of_rank, lemma_nth_visible,
    lemma_visible_before_bound, lemma_visible_before_grows, linked, next_link, nth_visible,
    prev_link, visible_before, visible_count,
};
use crate::log_store::{entry_in_bounds, LogStoreLinear};
use crate::model_internal::LogEntryExt;

verus! {

/// The offset that a link walk ends at which starts at `from` and follows
/// the links to the visible entry before, `steps` times at most: it ends
/// early at an entry that links to itself.
pub open spec fn walk_prev(s: Seq<LogEntryExt>, from: int, steps: nat) -> int
    decreases steps,
{
    if steps == 0 || !(0 <= from < s.len()) || s[from].prev_offset == from {
        from
    } else {
        walk_prev(s, s[from].prev_offset as int, (steps - 1) as nat)
    }
}

/// The offset that a link walk ends at which starts at `from` and follows
/// the links to the visible entry after, `steps` times at most: it ends
/// early at an entry whose rank has reached `limit` or which links to
/// itself.
pub open spec fn walk_next(s: Seq<LogEntryExt>, from: int, steps: nat, limit: int) -> int
    decreases steps,
{
    if steps == 0 || !(0 <= from < s.len()) || s[from].entry_id >= limit || s[from].next_offset
        == from {
        from
    } else {
        walk_next(s, s[from].next_offset as int, (steps - 1) as nat, limit)
    }
}

/// From a visible entry, a walk back ends at the visible entry whose rank is
/// less by the count of steps, or at the first visible entry.
pub proof fn lemma_walk_prev(s: Seq<LogEntryExt>, from: int, steps: nat)
    requires
        linked(s),
        0 <= from < s.len(),
        s[from].is_visible(),
    ensures
        walk_prev(s, from, steps) == nth_visible(
            s,
            if visible_before(s, from) >= steps {
                (visible_before(s, from) - steps) as nat
            } else {
                0
            },
        ),
        0 <= walk_prev(s, from, steps) <= from,
        s[walk_prev(s, from, steps)].is_visible(),
    decreases steps,
{
    lemma_links_by_rank(s, from);
    lemma_nth_of_rank(s, from);
    assert(entry_linked(s, from));
    if steps > 0 && s[from].prev_offset != from {
        let before = prev_link(s, from);
        lemma_nth_visible(s, (visible_before(s, from) - 1) as nat);
        lemma_walk_prev(s, before, (steps - 1) as nat);
    } else if steps > 0 {
        if visible_before(s, from) > 0 {
            lemma_nth_visible(s, (visible_before(s, from) - 1) as nat);
            lemma_visible_before_grows(s, prev_link(s, from), from);
        }
    }
}

/// The rank at which a walk on ends that starts at the rank `rank` among
/// `count` visible entries: the rank that is greater by the count of steps,
/// but not greater than `limit` or than the last rank. From a rank at or
/// over the limit the walk does not move.
pub open spec fn walk_next_rank(rank: nat, count: nat, steps: nat, limit: int) -> nat {
    if rank >= limit {
        rank
    } else {
        min(min((rank + steps) as int, limit), count - 1) as nat
    }
}

/// From a visible entry, a walk on ends at the visible entry of the rank
/// that `walk_next_rank` gives.
pub proof fn lemma_walk_next(s: Seq<LogEntryExt>, from: int, steps: nat, limit: int)
    requires
        linked(s),
        0 <= from < s.len(),
        s[from].is_visible(),
        0 <= limit,
    ensures
        walk_next_rank(visible_before(s, from), visible_count(s), steps, limit) < visible_count(s),
        walk_next(s, from, steps, limit) == nth_visible(
            s,
            walk_next_rank(visible_before(s, from), visible_count(s), steps, limit),
        ),
        from <= walk_next(s, from, steps, limit) < s.len(),
        s[walk_next(s, from, steps, limit)].is_visible(),
    decreases steps,
{
    let rank = visible_before(s, from);
    let count = visible_count(s);
    lemma_links_by_rank(s, from);
    lemma_nth_of_rank(s, from);
    assert(entry_linked(s, from));
    assert(s[from].entry_id == rank);
    if steps == 0 || rank >= limit {
        assert(walk_next(s, from, steps, limit) == from);
        assert(walk_next_rank(rank, count, steps, limit) == rank);
    } else if rank + 1 >= count {
        assert(s[from].next_offset == from);
        assert(walk_next(s, from, steps, limit) == from);
        assert(walk_next_rank(rank, count, steps, limit) == rank);
    } else {
        let after = next_link(s, from);
        lemma_nth_visible(s, rank + 1);
        assert(after == nth_visible(s, rank + 1));
        assert(after != from) by {
            if after == from {
                assert(visible_before(s, after) == rank + 1);
            }
        }
        assert(s[from].next_offset == after);
        lemma_walk_next(s, after, (steps - 1) as nat, limit);
        assert(walk_next(s, from, steps, limit) == walk_next(
            s,
            after,
            (steps - 1) as nat,
            limit,
        ));
        assert(walk_next_rank(rank, count, steps, limit) == walk_next_rank(
            rank + 1,
            count,
            (steps - 1) as nat,
            limit,
        ));
    }
}

/// The rank of the first row of the viewport after the viewport was moved
/// by `lines` rows from the rank `rank`, where `count` entries are visible
/// and the viewport shows `window_size` rows: up to the first entry, or down
/// as far as the last row of the viewport shows the last entry. A viewport
/// that is already further down stays where it is.
pub open spec fn spec_scroll_rank(rank: nat, count: nat, lines: i64, window_size: usize) -> nat {
    if lines < 0 {
        max(rank + lines, 0) as nat
    } else if count <= window_size {
        rank
    } else {
        walk_next_rank(rank, count, lines as nat, count - window_size)
    }
}

/// A viewport that stands at the first entry does not move up, and one
/// whose last row shows the last entry does not move down; and moving down
/// never takes the last row of the viewport past the last entry.
pub proof fn lemma_scroll_boundary(rank: nat, count: nat, lines: i64, window_size: usize)
    requires
        rank < count,
    ensures
        lines < 0 && rank == 0 ==> spec_scroll_rank(rank, count, lines, window_size) == rank,
        lines >= 0 && rank + window_size >= count ==> spec_scroll_rank(
            rank,
            count,
            lines,
            window_size,
        ) == rank,
        lines >= 0 && rank + 1 == count ==> spec_scroll_rank(rank, count, lines, window_size)
            == rank,
        lines >= 0 && rank + window_size <= count ==> spec_scroll_rank(
            rank,
            count,
            lines,
            window_size,
        ) + window_size <= count,
        spec_scroll_rank(rank, count, lines, window_size) < count,
{
}

impl LogStoreLinear {
    /// The offset at which the viewport stands after it was moved by `lines`
    /// rows: the end of a walk along the links of the entries.
    pub open spec fn spec_scroll(&self, lines: i64, window_size: usize) -> int {
        if self.entry_count == 0 {
            self.viewport_offset as int
        } else if lines < 0 {
            walk_prev(self.store@, self.viewport_offset as int, (-lines) as nat)
        } else if self.entry_count <= window_size {
            self.viewport_offset as int
        } else {
            walk_next(
                self.store@,
                self.viewport_offset as int,
                lines as nat,
                self.entry_count - window_size,
            )
        }
    }

    /// Where the viewport stands on a visible entry, moving it is moving
    /// its rank: it stands on the visible entry of the rank that
    /// `spec_scroll_rank` gives, and it has moved if that rank is another.
    pub proof fn lemma_scroll_by_rank(self, lines: i64, window_size: usize)
        requires
            self.wf(),
            self.viewport_on_visible(),
        ensures
            self.spec_viewport_rank() < self.entry_count,
            spec_scroll_rank(
                self.spec_viewport_rank(),
                self.entry_count as nat,
                lines,
                window_size,
            ) < self.entry_count,
            self.spec_scroll(lines, window_size) == nth_visible(
                self.store@,
                spec_scroll_rank(
                    self.spec_viewport_rank(),
                    self.entry_count as nat,
                    lines,
                    window_size,
                ),
            ),
            0 <= self.spec_scroll(lines, window_size) < self.store@.len(),
            self.store@[self.spec_scroll(lines, window_size)].is_visible(),
            visible_before(self.store@, self.spec_scroll(lines, window_size)) == spec_scroll_rank(
                self.spec_viewport_rank(),
                self.entry_count as nat,
                lines,
                window_size,
            ),
            (self.spec_scroll(lines, window_size) != self.viewport_offset) == (spec_scroll_rank(
                self.spec_viewport_rank(),
                self.entry_count as nat,
                lines,
                window_size,
            ) != self.spec_viewport_rank()),
    {
        let s = self.store@;
        let from = self.viewport_offset as int;
        let rank = self.spec_viewport_rank();
        lemma_nth_of_rank(s, from);
        if lines < 0 {
            lemma_walk_prev(s, from, (-lines) as nat);
        } else if self.entry_count > window_size {
            lemma_walk_next(s, from, lines as nat, self.entry_count - window_size);
        }
        let target = spec_scroll_rank(rank, self.entry_count as nat, lines, window_size);
        lemma_nth_visible(s, target);
    }

    /// A viewport that stands on the first visible entry is not moved up,
    /// and one whose last row shows the last visible entry is not moved down;
    /// and moving the viewport down never takes its last row past the last
    /// visible entry.
    pub proof fn lemma_scroll_extremes(self, lines: i64, window_size: usize)
        requires
            self.wf(),
            self.viewport_on_visible(),
        ensures
            lines < 0 && self.spec_viewport_rank() == 0 ==> self.spec_scroll(lines, window_size)
                == self.viewport_offset,
            lines >= 0 && self.spec_viewport_rank() + window_size >= self.entry_count
                ==> self.spec_scroll(lines, window_size) == self.viewport_offset,
            lines >= 0 && self.spec_viewport_rank() + window_size <= self.entry_count
                ==> visible_before(self.store@, self.spec_scroll(lines, window_size))
                + window_size <= self.entry_count,
    {
        self.lemma_scroll_by_rank(lines, window_size);
        lemma_scroll_boundary(
            self.spec_viewport_rank(),
            self.entry_count as nat,
            lines,
            window_size,
        );
    }

    /// Moves the viewport up by `steps` rows at most.
    #[verifier::rlimit(30)]
    pub(crate) fn scroll_up(&mut self, steps: u64)
        requires
            old(self).wf(),
            old(self).store@.len() > 0,
        ensures
            *final(self) == (LogStoreLinear {
                viewport_offset: walk_prev(
                    old(self).store@,
                    old(self).viewport_offset as int,
                    steps as nat,
                ) as usize,
                ..*old(self)
            }),
            final(self).wf(),
    {
        let mut abs_lines: u64 = steps;
        while abs_lines > 0 && self.store[self.viewport_offset].prev_offset as usize
            != self.viewport_offset
            invariant
                self.wf(),
                self.store@.len() > 0,
                *self == (LogStoreLinear { viewport_offset: self.viewport_offset, ..*old(self) }),
                walk_prev(self.store@, old(self).viewport_offset as int, steps as nat)
                    == walk_prev(self.store@, self.viewport_offset as int, abs_lines as nat),
            decreases abs_lines,
        {
            assert(entry_in_bounds(self.store@, self.viewport_offset as int));
            self.viewport_offset = self.store[self.viewport_offset].prev_offset as usize;
            abs_lines = abs_lines - 1;
        }
    }

    /// Moves the viewport down by `steps` rows at most, and not beyond the
    /// rank `limit`.
    #[verifier::rlimit(30)]
    pub(crate) fn scroll_down(&mut self, steps: u64, limit: usize)
        requires
            old(self).wf(),
            old(self).store@.len() > 0,
        ensures
            *final(self) == (LogStoreLinear {
                viewport_offset: walk_next(
                    old(self).store@,
                    old(self).viewport_offset as int,
                    steps as nat,
                    limit as int,
                ) as usize,
                ..*old(self)
            }),
            final(self).wf(),
    {
        let mut abs_lines: u64 = steps;
        while abs_lines > 0 && limit > self.store[self.viewport_offset].entry_id as usize
            && self.store[self.viewport_offset].next_offset as usize != self.viewport_offset
            invariant
                self.wf(),
                self.store@.len() > 0,
                *self == (LogStoreLinear { viewport_offset: self.viewport_offset, ..*old(self) }),
                walk_next(
                    self.store@,
                    old(self).viewport_offset as int,
                    steps as nat,
                    limit as int,
                ) == walk_next(
                    self.store@,
                    self.viewport_offset as int,
                    abs_lines as nat,
                    limit as int,
                ),
            decreases abs_lines,
        {
            assert(entry_in_bounds(self.store@, self.viewport_offset as int));
            self.viewport_offset = self.store[self.viewport_offset].next_offset as usize;
            abs_lines = abs_lines - 1;
        }
    }

    /// Moves the viewport by `lines` rows, up where `lines` is negative, in
    /// a viewport of `window_size` rows. Returns whether the viewport has
    /// moved.
    #[verifier::rlimit(30)]
    pub fn scroll(&mut self, lines: i64, window_size: usize) -> (changed: bool)
        requires
            old(self).wf(),
        ensures
            *final(self) == (LogStoreLinear {
                viewport_offset: old(self).spec_scroll(lines, window_size) as usize,
                ..*old(self)
            }),
            final(self).wf(),
            changed == (final(self).viewport_offset != old(self).viewport_offset),
            old(self).viewport_on_visible() ==> {
                &&& final(self).viewport_on_visible()
                &&& final(self).spec_viewport_rank() == spec_scroll_rank(
                    old(self).spec_viewport_rank(),
                    old(self).entry_count as nat,
                    lines,
                    window_size,
                )
                &&& changed == (final(self).spec_viewport_rank() != old(self).spec_viewport_rank())
            },
    {
        proof {
            lemma_visible_before_bound(self.store@, self.store@.len() as int);
            if self.viewport_on_visible() {
                self.lemma_scroll_by_rank(lines, window_size);
            }
        }
        let ghost target = self.spec_scroll(lines, window_size);
        if self.entry_count == 0 {
            return false;
        }
        let viewport_offset_old: usize = self.viewport_offset;
        if lines < 0 {
            let steps: u64 = if lines == i64::MIN {
                0x8000_0000_0000_0000
            } else {
                (-lines) as u64
            };
            self.scroll_up(steps);
        } else {
            if self.entry_count <= window_size {
                return false;
            }
            self.scroll_down(lines as u64, self.entry_count - window_size);
        }
        viewport_offset_old != self.viewport_offset
    }
}

} // verus!
