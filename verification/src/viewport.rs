//! The scroll offsets of the viewport: how far a command moves one, and where
//! it stops.

use vstd::prelude::*;

verus! {

/// How far one scroll command moves an offset.
pub const SCROLL_STEP: usize = 2;

/// The largest offset that a view of `line_count` lines allows: that of its
/// last line, and 0 where it has no line.
pub open spec fn max_scroll(line_count: nat) -> nat {
    if line_count == 0 {
        0
    } else {
        (line_count - 1) as nat
    }
}

/// An offset, brought back to the largest one allowed where it lies beyond.
pub open spec fn clamped(offset: nat, line_count: nat) -> nat {
    if offset > max_scroll(line_count) {
        max_scroll(line_count)
    } else {
        offset
    }
}

/// An offset after one scroll command down or to the right.
pub open spec fn forward(offset: nat, line_count: nat) -> nat {
    clamped((offset + SCROLL_STEP) as nat, line_count)
}

/// An offset after one scroll command up or to the left: a step less, or 0
/// where it is less than a step, and in any case within the view.
pub open spec fn back(offset: nat, line_count: nat) -> nat {
    clamped(
        if offset < SCROLL_STEP {
            0
        } else {
            (offset - SCROLL_STEP) as nat
        },
        line_count,
    )
}

/// An offset after `times` scroll commands down or to the right.
pub open spec fn forward_times(offset: nat, line_count: nat, times: nat) -> nat
    decreases times,
{
    if times == 0 {
        offset
    } else {
        forward(forward_times(offset, line_count, (times - 1) as nat), line_count)
    }
}

/// An offset after `times` scroll commands up or to the left.
pub open spec fn back_times(offset: nat, line_count: nat, times: nat) -> nat
    decreases times,
{
    if times == 0 {
        offset
    } else {
        back(back_times(offset, line_count, (times - 1) as nat), line_count)
    }
}

/// However often one scrolls down, the offset does not pass the last line:
/// from within the view it goes up by a step at a time until it stands at
/// the last line, and there it stays.
pub proof fn lemma_forward_stops_at_last_line(offset: nat, line_count: nat, times: nat)
    ensures
        times > 0 ==> forward_times(offset, line_count, times) <= max_scroll(line_count),
        times > 0 && line_count > 0 ==> forward_times(offset, line_count, times) <= line_count
            - 1,
        offset <= max_scroll(line_count) ==> forward_times(offset, line_count, times) == if offset
            + times * SCROLL_STEP <= max_scroll(line_count) {
            (offset + times * SCROLL_STEP) as nat
        } else {
            max_scroll(line_count)
        },
    decreases times,
{
    if times > 0 {
        lemma_forward_stops_at_last_line(offset, line_count, (times - 1) as nat);
    }
}

/// However often one scrolls up, the offset does not fall below 0: from
/// within the view it comes down by a step at a time until it stands at 0,
/// and there it stays.
pub proof fn lemma_back_stops_at_first_line(offset: nat, line_count: nat, times: nat)
    ensures
        0 <= back_times(offset, line_count, times),
        times > 0 ==> back_times(offset, line_count, times) <= max_scroll(line_count),
        offset <= max_scroll(line_count) ==> back_times(offset, line_count, times) == if offset
            >= times * SCROLL_STEP {
            (offset - times * SCROLL_STEP) as nat
        } else {
            0
        },
    decreases times,
{
    if times > 0 {
        lemma_back_stops_at_first_line(offset, line_count, (times - 1) as nat);
    }
}

/// The largest offset that a view of `line_count` lines allows.
pub fn max_scroll_of(line_count: usize) -> (max: usize)
    ensures
        max == max_scroll(line_count as nat),
{
    line_count.saturating_sub(1)
}

/// Brings an offset back into a view of `line_count` lines.
pub fn clamp_scroll(offset: usize, line_count: usize) -> (kept: usize)
    ensures
        kept == clamped(offset as nat, line_count as nat),
        kept <= max_scroll(line_count as nat),
{
    let max = max_scroll_of(line_count);
    if offset > max {
        max
    } else {
        offset
    }
}

/// Moves an offset one step down or to the right, not past the last line.
pub fn scroll_forward(offset: usize, line_count: usize) -> (moved: usize)
    ensures
        moved == forward(offset as nat, line_count as nat),
        moved <= max_scroll(line_count as nat),
{
    clamp_scroll(offset.saturating_add(SCROLL_STEP), line_count)
}

/// Moves an offset one step up or to the left, not below 0.
pub fn scroll_back(offset: usize, line_count: usize) -> (moved: usize)
    ensures
        moved == back(offset as nat, line_count as nat),
        moved <= max_scroll(line_count as nat),
{
    clamp_scroll(offset.saturating_sub(SCROLL_STEP), line_count)
}

} // verus!
