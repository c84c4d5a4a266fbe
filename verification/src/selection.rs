//! The current choice and the visible window over a candidate list.
//!
//! A [`Selection`] does not hold the candidates. Every operation is told how
//! many there are and how many slots the window has, so that the rules can be
//! stated for every list length and every window size.

use vstd::prelude::*;

verus! {

/// A turn of the mouse wheel.
#[derive(Clone, Copy, Debug, PartialEq, Eq, Structural)]
pub enum Wheel {
    /// Towards the start of the list.
    Up,
    /// Towards the end of the list.
    Down,
}

/// The index of the current candidate and that of the first visible one.
#[derive(Clone, Copy, Debug, PartialEq, Eq, Structural)]
pub struct Selection {
    pub selected_index: usize,
    pub display_start_index: usize,
}

/// The largest index at which a window of `max_entries` slots may start over
/// `len` candidates: `len - max_entries`, or 0 where the list fits the window.
pub open spec fn last_start(len: int, max_entries: int) -> int {
    if len > max_entries {
        len - max_entries
    } else {
        0
    }
}

/// Where a move by `delta` from `selected` ends among `len` candidates. A
/// target inside the list is taken as it is. One past either end wraps round:
/// to the first candidate when moving forward, to the last when moving back.
pub open spec fn moved_index(selected: int, delta: int, len: int) -> int {
    let target = selected + delta;
    if 0 <= target < len {
        target
    } else if delta > 0 {
        0
    } else {
        len - 1
    }
}

/// Where the window starts once it has been brought back over `selected`. A
/// selection above the window becomes its first slot, one below it its last
/// slot, and a visible one leaves the window where it is.
pub open spec fn anchored_start(selected: int, start: int, max_entries: int) -> int {
    if selected < start {
        selected
    } else if selected >= start + max_entries {
        selected - (max_entries - 1)
    } else {
        start
    }
}

/// Where the window starts after one turn of the wheel: one slot further in
/// the wheel's direction, unless it already stands at that end of its range.
pub open spec fn scrolled_start(start: int, wheel: Wheel, len: int, max_entries: int) -> int {
    match wheel {
        Wheel::Up => if start > 0 {
            start - 1
        } else {
            start
        },
        Wheel::Down => if start < last_start(len, max_entries) {
            start + 1
        } else {
            start
        },
    }
}

impl Selection {
    /// The selection is a candidate's index (0 for the empty list), and the
    /// window starts no later than the last place where it is still full.
    pub open spec fn valid(self, len: int, max_entries: int) -> bool {
        &&& 0 <= len
        &&& if len == 0 {
            self.selected_index == 0
        } else {
            self.selected_index < len
        }
        &&& self.display_start_index <= last_start(len, max_entries)
    }

    /// The current candidate lies inside the window.
    pub open spec fn visible(self, max_entries: int) -> bool {
        self.display_start_index <= self.selected_index < self.display_start_index + max_entries
    }

    /// The selection for a candidate list that has just been replaced: its
    /// first entry, shown in the first slot.
    pub fn reset() -> (r: Selection)
        ensures
            r.selected_index == 0,
            r.display_start_index == 0,
            forall|len: int, max_entries: int| 0 <= len ==> r.valid(len, max_entries),
            forall|max_entries: int| max_entries >= 1 ==> r.visible(max_entries),
    {
        Selection { selected_index: 0, display_start_index: 0 }
    }

    /// Moves the selection by `delta` among `len` candidates, wrapping round at
    /// either end, and brings the window back over it. Nothing moves in an
    /// empty list.
    pub fn move_by(&mut self, delta: isize, len: usize, max_entries: usize)
        requires
            old(self).valid(len as int, max_entries as int),
            max_entries >= 1,
        ensures
            len == 0 ==> *final(self) == *old(self),
            len > 0 ==> final(self).selected_index == moved_index(
                old(self).selected_index as int,
                delta as int,
                len as int,
            ),
            len > 0 ==> final(self).display_start_index == anchored_start(
                final(self).selected_index as int,
                old(self).display_start_index as int,
                max_entries as int,
            ),
            final(self).valid(len as int, max_entries as int),
            len > 0 ==> final(self).visible(max_entries as int),
    {
        if len == 0 {
            return ;
        }
        let selected: usize = self.selected_index;
        let next: usize = if delta > 0 {
            let step: usize = delta as usize;
            if step < len - selected {
                selected + step
            } else {
                0
            }
        } else if delta < 0 {
            let short: usize = (-(delta + 1)) as usize;
            if short < selected {
                selected - short - 1
            } else {
                len - 1
            }
        } else {
            selected
        };
        self.selected_index = next;
        let start: usize = self.display_start_index;
        if next < start {
            self.display_start_index = next;
        } else if next - start >= max_entries {
            self.display_start_index = next - (max_entries - 1);
        }
    }

    /// Turns the wheel by one slot. Only the window moves, and only inside its
    /// range: the selection stays, even where that takes it out of sight.
    pub fn scroll(&mut self, wheel: Wheel, len: usize, max_entries: usize)
        requires
            old(self).valid(len as int, max_entries as int),
        ensures
            final(self).selected_index == old(self).selected_index,
            final(self).display_start_index == scrolled_start(
                old(self).display_start_index as int,
                wheel,
                len as int,
                max_entries as int,
            ),
            final(self).valid(len as int, max_entries as int),
    {
        match wheel {
            Wheel::Up => {
                if self.display_start_index > 0 {
                    self.display_start_index = self.display_start_index - 1;
                }
            },
            Wheel::Down => {
                let last: usize = if len > max_entries {
                    len - max_entries
                } else {
                    0
                };
                if self.display_start_index < last {
                    self.display_start_index = self.display_start_index + 1;
                }
            },
        }
    }
}

/// A move takes the selection to a candidate and leaves it in sight, from
/// whatever place a valid selection and window had before.
pub proof fn lemma_move_keeps_selection_in_window(
    selected: int,
    start: int,
    delta: int,
    len: int,
    max_entries: int,
)
    requires
        0 <= selected < len,
        0 <= start <= last_start(len, max_entries),
        max_entries >= 1,
    ensures
        ({
            let next = moved_index(selected, delta, len);
            let anchor = anchored_start(next, start, max_entries);
            &&& 0 <= next < len
            &&& 0 <= anchor <= last_start(len, max_entries)
            &&& anchor <= next < anchor + max_entries
        }),
{
}

/// Moving forward from the last candidate arrives at the first, and moving
/// back from the first arrives at the last.
pub proof fn lemma_move_wraps_round(len: int)
    requires
        len > 0,
    ensures
        moved_index(len - 1, 1, len) == 0,
        moved_index(0, -1, len) == len - 1,
{
}

/// The wheel never leaves the window's range and never changes the selection's
/// place; it may leave the selection out of sight.
pub proof fn lemma_scroll_stays_in_range(start: int, wheel: Wheel, len: int, max_entries: int)
    requires
        0 <= len,
        0 <= start <= last_start(len, max_entries),
    ensures
        0 <= scrolled_start(start, wheel, len, max_entries) <= last_start(len, max_entries),
{
}

/// Where the candidates fit the window, the window starts at the first of
/// them and every candidate is in sight.
pub proof fn lemma_short_list_is_all_visible(s: Selection, len: int, max_entries: int)
    requires
        s.valid(len, max_entries),
        0 < len <= max_entries,
    ensures
        s.display_start_index == 0,
        s.visible(max_entries),
{
}

} // verus!
