//! Gesture accumulators for the show-all and show-desktop transitions.
//!
//! Each gesture is a state machine with states idle (`settled == false`)
//! and active (`settled == true`). Drag deltas arrive in per-mille units
//! and accumulate into a raw counter; the derived progress clamps the
//! counter into `0 ..= 1000`. When the gesture ends, hysteresis thresholds
//! decide the settled state: an idle gesture engages at 10% progress or
//! more, an active gesture stays engaged at 90% or more, and the counter
//! snaps to 0 or 1000 accordingly.

use vstd::prelude::*;

verus! {

/// Full progress of a gesture, in per-mille units.
pub const GESTURE_FULL: i64 = 1000;

/// An idle gesture that ends at or above this progress settles on.
pub const GESTURE_ON_THRESHOLD: i64 = 100;

/// An active gesture that ends below this progress settles off.
pub const GESTURE_OFF_THRESHOLD: i64 = 900;

/// Duration of the eased transition applied when a show-all gesture ends,
/// in milliseconds.
pub const SHOW_ALL_TRANSITION_MS: u64 = 200;

/// Duration of the eased transition applied when a show-desktop gesture
/// ends, in milliseconds.
pub const SHOW_DESKTOP_TRANSITION_MS: u64 = 500;

/// One gesture accumulator: the raw per-mille counter and the settled flag.
#[derive(Clone, Copy, Debug, PartialEq, Eq, Structural)]
pub struct GestureState {
    pub counter: i64,
    pub settled: bool,
}

/// Signed addition saturating at the `i64` range.
pub open spec fn sat_add_i64(a: int, b: int) -> int {
    if a + b > i64::MAX {
        i64::MAX as int
    } else if a + b < i64::MIN {
        i64::MIN as int
    } else {
        a + b
    }
}

/// Derived progress: the raw counter clamped into `0 ..= 1000`.
pub open spec fn progress_of(counter: int) -> int {
    if counter < 0 {
        0
    } else if counter > 1000 {
        1000
    } else {
        counter
    }
}

/// How one gesture update transforms the state: accumulate the delta, and
/// on an end event snap the counter to 0 or 1000 by the hysteresis rule.
pub open spec fn gesture_update_post(
    pre: GestureState,
    delta: int,
    end_gesture: bool,
    post: GestureState,
) -> bool {
    let moved = sat_add_i64(pre.counter as int, delta);
    if end_gesture {
        if (pre.settled && moved >= GESTURE_OFF_THRESHOLD) || (!pre.settled && moved
            >= GESTURE_ON_THRESHOLD) {
            post == (GestureState { counter: GESTURE_FULL, settled: true })
        } else {
            post == (GestureState { counter: 0, settled: false })
        }
    } else {
        post == (GestureState { counter: moved as i64, settled: pre.settled })
    }
}

impl GestureState {
    pub open spec fn is_idle(self) -> bool {
        self.counter == 0 && !self.settled
    }

    pub fn new() -> (s: GestureState)
        ensures
            s.is_idle(),
    {
        GestureState { counter: 0, settled: false }
    }

    /// Accumulate one drag delta; on `end_gesture` apply the hysteresis
    /// rule. Returns the derived progress of the new state.
    pub fn update(&mut self, delta: i64, end_gesture: bool) -> (progress: i64)
        ensures
            gesture_update_post(*old(self), delta as int, end_gesture, *final(self)),
            progress == progress_of(final(self).counter as int),
            0 <= progress <= 1000,
            end_gesture ==> progress == final(self).counter,
    {
        let moved: i64 = if delta >= 0 {
            if self.counter > i64::MAX - delta {
                i64::MAX
            } else {
                self.counter + delta
            }
        } else {
            if self.counter < i64::MIN - delta {
                i64::MIN
            } else {
                self.counter + delta
            }
        };
        if end_gesture {
            let threshold: i64 = if self.settled {
                GESTURE_OFF_THRESHOLD
            } else {
                GESTURE_ON_THRESHOLD
            };
            if moved >= threshold {
                self.counter = GESTURE_FULL;
                self.settled = true;
            } else {
                self.counter = 0;
                self.settled = false;
            }
        } else {
            self.counter = moved;
        }
        if self.counter < 0 {
            0
        } else if self.counter > 1000 {
            1000
        } else {
            self.counter
        }
    }
}

/// Gesture hysteresis: when a gesture ends, an idle gesture settles on
/// exactly when the accumulated progress reached the 10% threshold, and an
/// active gesture stays on exactly when it kept the 90% threshold; either
/// way the counter snaps to full or to zero.
pub proof fn lemma_gesture_hysteresis(pre: GestureState, delta: int, post: GestureState)
    requires
        gesture_update_post(pre, delta, true, post),
    ensures
        !pre.settled ==> (post.settled <==> sat_add_i64(pre.counter as int, delta)
            >= GESTURE_ON_THRESHOLD),
        pre.settled ==> (post.settled <==> sat_add_i64(pre.counter as int, delta)
            >= GESTURE_OFF_THRESHOLD),
        post.counter == if post.settled {
            GESTURE_FULL as int
        } else {
            0
        },
{
}

} // verus!
