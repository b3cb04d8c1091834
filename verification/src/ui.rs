//! The decision logic of the break overlay.
//!
//! During a break the overlay counts key presses toward an early end and
//! ticks a clock toward the scheduled end; whichever arrives first ends the
//! break. The windows, labels and event plumbing live outside the core;
//! this module holds the overlay's state and every transition of it.

use vstd::prelude::*;

verus! {

/// The overlay's state during one break: how many key presses remain
/// before the break ends early, and whether the break has ended.
pub struct OverlayState {
    pub presses_remaining: u64,
    pub ended: bool,
}

impl OverlayState {
    /// A fresh overlay for one break, ending after `presses` key presses.
    pub fn new(presses: u64) -> (r: OverlayState)
        ensures
            r.presses_remaining == presses,
            !r.ended,
    {
        OverlayState { presses_remaining: presses, ended: false }
    }
}

/// End the break.
pub fn end_break(state: &mut OverlayState)
    ensures
        final(state).ended,
        final(state).presses_remaining == old(state).presses_remaining,
{
    state.ended = true;
}

/// Count one key press toward ending the break early: the counter drops by
/// one (never below zero), and reaching zero ends the break.
pub fn decrement_presses_remaining(state: &mut OverlayState)
    ensures
        final(state).presses_remaining == (if old(state).presses_remaining > 0 {
            (old(state).presses_remaining - 1) as u64
        } else {
            0u64
        }),
        final(state).ended == (old(state).ended || final(state).presses_remaining == 0),
{
    if state.presses_remaining > 0 {
        state.presses_remaining = state.presses_remaining - 1;
    }
    if state.presses_remaining == 0 {
        end_break(state);
    }
}

/// One tick of the overlay's clock: while the break still has time left,
/// report how much remains so it can be displayed; once the full break
/// length has elapsed, end the break.
pub fn overlay_tick(state: &mut OverlayState, break_length_ms: u64, elapsed_ms: u64) -> (r:
    Option<u64>)
    ensures
        elapsed_ms <= break_length_ms ==> r == Some((break_length_ms - elapsed_ms) as u64)
            && *final(state) == *old(state),
        elapsed_ms > break_length_ms ==> r is None && final(state).ended
            && final(state).presses_remaining == old(state).presses_remaining,
{
    if elapsed_ms <= break_length_ms {
        Some(break_length_ms - elapsed_ms)
    } else {
        end_break(state);
        None
    }
}

} // verus!
