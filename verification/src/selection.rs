//! What a click into the viewport selects, and what moves the viewport
//! besides scrolling.

use vstd::prelude::*;
use crate::log_store::LogStoreLinear;

verus! {

broadcast use vstd::std_specs::hash::group_hash_axioms;

/// The set with `x` put in if it was not in it, and taken out if it was.
pub open spec fn toggled(set: Set<usize>, x: usize) -> Set<usize> {
    if set.contains(x) {
        set.remove(x)
    } else {
        set.insert(x)
    }
}

/// The range from the pivot of a selection to the clicked offset, its lower
/// end first.
pub open spec fn spec_range_to(pivot: usize, clicked: usize) -> (usize, usize) {
    if pivot < clicked {
        (pivot, clicked)
    } else {
        (clicked, pivot)
    }
}

/// What is selected in a store.
pub struct SelectionView {
    pub selected_single: Set<usize>,
    pub excluded_single: Set<usize>,
    pub selected_single_last: Option<usize>,
    pub selected_range: Option<(usize, usize)>,
}

/// The selection after a click on the entry at `clicked`, or beside all
/// entries where `clicked` is `None`.
///
/// Without a modifier key the click selects the entry alone, and a click
/// beside the entries selects nothing. With the control key the click takes
/// the entry into the single selection or out of it, and if it lies in the
/// selected range, out of the range or back into it. With the shift key the
/// click selects the range from the entry clicked last to this one, in place
/// of the single selection, which stays beside the range if the control key
/// is down too.
pub open spec fn spec_click(
    before: SelectionView,
    shift: bool,
    ctrl: bool,
    clicked: Option<usize>,
) -> SelectionView {
    match clicked {
        Some(offset) => {
            if !shift && !ctrl {
                SelectionView {
                    selected_single: Set::<usize>::empty().insert(offset),
                    excluded_single: Set::empty(),
                    selected_single_last: Some(offset),
                    selected_range: None,
                }
            } else if !shift {
                SelectionView {
                    selected_single: toggled(before.selected_single, offset),
                    excluded_single: match before.selected_range {
                        Some((low, high)) => if low <= offset <= high {
                            toggled(before.excluded_single, offset)
                        } else {
                            before.excluded_single
                        },
                        None => before.excluded_single,
                    },
                    selected_single_last: Some(offset),
                    selected_range: before.selected_range,
                }
            } else {
                let pivot = match before.selected_single_last {
                    Some(last) => last,
                    None => 0,
                };
                SelectionView {
                    selected_single: if ctrl {
                        before.selected_single
                    } else {
                        Set::empty()
                    },
                    excluded_single: Set::empty(),
                    selected_single_last: if ctrl {
                        Some(offset)
                    } else {
                        before.selected_single_last
                    },
                    selected_range: Some(spec_range_to(pivot, offset)),
                }
            }
        },
        None => {
            if !shift && !ctrl {
                SelectionView {
                    selected_single: Set::empty(),
                    excluded_single: Set::empty(),
                    selected_single_last: before.selected_single_last,
                    selected_range: None,
                }
            } else {
                before
            }
        },
    }
}

impl LogStoreLinear {
    /// What is selected.
    pub open spec fn selection(&self) -> SelectionView {
        SelectionView {
            selected_single: self.selected_single@,
            excluded_single: self.excluded_single@,
            selected_single_last: self.selected_single_last,
            selected_range: self.selected_range,
        }
    }

    /// The entry at `offset` is selected: it is selected singly or lies in
    /// the selected range, and was not taken out of the range.
    pub open spec fn spec_is_selected(&self, offset: usize) -> bool {
        &&& self.selected_single@.contains(offset) || (self.selected_range matches Some(
            (low, high),
        ) && low <= offset <= high)
        &&& !self.excluded_single@.contains(offset)
    }

    /// Whether the entry at `offset` is selected.
    pub fn is_selected(&self, offset: usize) -> (r: bool)
        ensures
            r == self.spec_is_selected(offset),
    {
        let in_range: bool = match self.selected_range {
            Some((low, high)) => low <= offset && offset <= high,
            None => false,
        };
        (self.selected_single.contains(&offset) || in_range) && !self.excluded_single.contains(
            &offset,
        )
    }

    /// Changes the selection as a click on the entry at `clicked` does.
    fn select(&mut self, clicked: Option<usize>)
        ensures
            final(self).selection() == spec_click(
                old(self).selection(),
                old(self).pressed_shift,
                old(self).pressed_ctrl,
                clicked,
            ),
            *final(self) == (LogStoreLinear {
                selected_single: final(self).selected_single,
                excluded_single: final(self).excluded_single,
                selected_single_last: final(self).selected_single_last,
                selected_range: final(self).selected_range,
                ..*old(self)
            }),
    {
        match clicked {
            Some(clicked_line_val) => {
                if !self.pressed_shift && !self.pressed_ctrl {
                    self.selected_single.clear();
                    self.excluded_single.clear();
                    self.selected_range = None;
                    self.selected_single.insert(clicked_line_val);
                    self.selected_single_last = clicked;
                } else if !self.pressed_shift && self.pressed_ctrl {
                    if !self.selected_single.insert(clicked_line_val) {
                        self.selected_single.remove(&clicked_line_val);
                    }
                    if let Some((pivot, clicked_line_old)) = self.selected_range {
                        if pivot <= clicked_line_val && clicked_line_old >= clicked_line_val {
                            if !self.excluded_single.insert(clicked_line_val) {
                                self.excluded_single.remove(&clicked_line_val);
                            }
                        }
                    }
                    self.selected_single_last = clicked;
                } else {
                    let pivot: usize = match self.selected_single_last {
                        Some(last) => last,
                        None => 0,
                    };
                    if pivot < clicked_line_val {
                        self.selected_range = Some((pivot, clicked_line_val));
                    } else {
                        self.selected_range = Some((clicked_line_val, pivot));
                    }
                    if self.pressed_shift && self.pressed_ctrl {
                        self.selected_single_last = clicked;
                    } else {
                        self.selected_single.clear();
                    }
                    self.excluded_single.clear();
                }
            },
            None => {
                if !self.pressed_shift && !self.pressed_ctrl {
                    self.selected_single.clear();
                    self.excluded_single.clear();
                    self.selected_range = None;
                }
            },
        }
        assert(self.selection().selected_single =~= spec_click(
            old(self).selection(),
            old(self).pressed_shift,
            old(self).pressed_ctrl,
            clicked,
        ).selected_single);
        assert(self.selection().excluded_single =~= spec_click(
            old(self).selection(),
            old(self).pressed_shift,
            old(self).pressed_ctrl,
            clicked,
        ).excluded_single);
    }

    /// Takes a click into row `line` of the viewport: the entry in that row
    /// becomes the anchor and is selected as the modifier keys say. A click
    /// into a row below the last row of the viewport does nothing. Returns
    /// whether the anchor has changed.
    pub fn click_line(&mut self, line: usize) -> (redraw: bool)
        requires
            old(self).wf(),
        ensures
            final(self).wf(),
            line >= old(self).visible_lines ==> *final(self) == *old(self) && !redraw,
            line < old(self).visible_lines ==> {
                &&& final(self).selection() == spec_click(
                    old(self).selection(),
                    old(self).pressed_shift,
                    old(self).pressed_ctrl,
                    old(self).spec_rel_to_abs_offset(line as int),
                )
                &&& final(self).anchor_offset == old(self).spec_rel_to_abs_offset(line as int)
                &&& redraw == (final(self).anchor_offset != old(self).anchor_offset)
                &&& *final(self) == (LogStoreLinear {
                    selected_single: final(self).selected_single,
                    excluded_single: final(self).excluded_single,
                    selected_single_last: final(self).selected_single_last,
                    selected_range: final(self).selected_range,
                    anchor_offset: final(self).anchor_offset,
                    ..*old(self)
                })
            },
    {
        if line >= self.visible_lines {
            return false;
        }
        let clicked_line: Option<usize> = self.rel_to_abs_offset(line);
        self.select(clicked_line);
        let redraw: bool = match (clicked_line, self.anchor_offset) {
            (Some(clicked), Some(anchor)) => clicked != anchor,
            (None, None) => false,
            _ => true,
        };
        if redraw {
            self.anchor_offset = clicked_line;
        }
        redraw
    }
}

} // verus!
