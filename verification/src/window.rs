//! Viewport windowing: which part of a list is visible, and on which row
//! of that part the cursor stands.

use core::ops::Range;
use vstd::prelude::*;

verus! {

/// The number of entries that the picker shows at once.
pub const MAX_SIZE: usize = 7;

/// A visible range `[start, end)` of a list and the row of the cursor
/// within it.
pub struct Window {
    pub start: int,
    pub end: int,
    pub highlight: int,
}

/// The window on a list of `total` entries, `capacity` of them visible at
/// most, when the cursor is on entry `selected`.  A list that fits is shown
/// whole.  Otherwise the cursor stays on the middle row, except near the
/// two ends of the list, where the window stops at the end.
pub open spec fn window_of(selected: int, capacity: int, total: int) -> Window {
    let half = capacity / 2;
    if total <= capacity {
        Window { start: 0, end: total, highlight: selected }
    } else if selected <= half {
        Window { start: 0, end: capacity, highlight: selected }
    } else if selected >= total - half {
        Window { start: total - capacity, end: total, highlight: selected - (total - capacity) }
    } else {
        Window { start: selected - half, end: selected - half + capacity, highlight: half }
    }
}

/// The smaller of two integers.
pub open spec fn min_of(a: int, b: int) -> int {
    if a <= b {
        a
    } else {
        b
    }
}

/// Computes the visible range and the highlighted row for the cursor
/// position `selected` in a list of `total` entries shown `capacity` at a
/// time.  Defined for every input, an empty list included.
pub fn calculate_table(selected: usize, capacity: usize, total: usize) -> (res: (Range<usize>, usize))
    ensures
        res.0.start == window_of(selected as int, capacity as int, total as int).start,
        res.0.end == window_of(selected as int, capacity as int, total as int).end,
        res.1 == window_of(selected as int, capacity as int, total as int).highlight,
{
    let half: usize = capacity / 2;
    if total <= capacity {
        (0..total, selected)
    } else if selected <= half {
        (0..capacity, selected)
    } else if selected >= total - half {
        (total - capacity..total, selected - (total - capacity))
    } else {
        (selected - half..selected - half + capacity, half)
    }
}

/// The window lies within the list and shows as many entries as fit.
pub proof fn lemma_window_bounds(selected: int, capacity: int, total: int)
    requires
        total >= 0,
        capacity > 0,
        0 <= selected < (if total > 1 { total } else { 1 }),
    ensures
        0 <= window_of(selected, capacity, total).start,
        window_of(selected, capacity, total).start <= window_of(selected, capacity, total).end,
        window_of(selected, capacity, total).end <= total,
        window_of(selected, capacity, total).end - window_of(selected, capacity, total).start
            == min_of(total, capacity),
{
}

/// In a list that is not empty the highlighted row is a row of the window,
/// and it is the row of the selected entry.
pub proof fn lemma_window_contains(selected: int, capacity: int, total: int)
    requires
        total > 0,
        capacity > 0,
        0 <= selected < total,
    ensures
        0 <= window_of(selected, capacity, total).highlight,
        window_of(selected, capacity, total).highlight < window_of(selected, capacity, total).end
            - window_of(selected, capacity, total).start,
        window_of(selected, capacity, total).start + window_of(selected, capacity, total).highlight
            == selected,
{
}

/// Away from both ends of a list that does not fit, the cursor is on the
/// middle row exactly.
pub proof fn lemma_window_centered(selected: int, capacity: int, total: int)
    requires
        capacity >= 0,
        total > capacity,
        capacity / 2 < selected < total - capacity / 2,
    ensures
        window_of(selected, capacity, total).highlight == capacity / 2,
{
}

/// Near the top the window starts at the first entry; near the bottom it
/// ends at the last one.
pub proof fn lemma_window_clamped(selected: int, capacity: int, total: int)
    requires
        total >= 0,
        capacity >= 0,
        selected >= 0,
    ensures
        selected < capacity / 2 ==> window_of(selected, capacity, total).start == 0,
        selected >= total - capacity / 2 ==> window_of(selected, capacity, total).end == total,
{
}

/// The window on an empty list is empty.
pub proof fn lemma_window_empty(selected: int, capacity: int)
    requires
        capacity >= 0,
    ensures
        window_of(selected, capacity, 0).start == window_of(selected, capacity, 0).end,
{
}

} // verus!
