//! When the overlay window lets the mouse through. Outside the settings the
//! overlay is click-through, and the style is set again at most every
//! `CLICK_THROUGH_REFRESH_MS`; in the settings it takes clicks. Finding the
//! window and changing its style is done around the library.

use vstd::prelude::*;
use crate::clock::{elapsed_millis, instant_now};

verus! {

/// Least time between two settings of the click-through style, in milliseconds.
pub const CLICK_THROUGH_REFRESH_MS: u128 = 500;

/// What to do to the overlay window's style.
#[derive(Debug, Clone, Copy, PartialEq, Eq, Structural)]
pub enum ClickThroughAction {
    /// Leave it as it is.
    Keep,
    /// Make the window click-through.
    MakeClickThrough,
    /// Make the window take clicks.
    RemoveClickThrough,
}

/// When click-through was last set.
pub struct ClickThroughTimer {
    last: Option<std::time::Instant>,
}

/// The decision, given whether the settings are open and how long ago
/// click-through was last set (`None`: never).
pub open spec fn click_through_spec(is_settings: bool, since_last_ms: Option<u128>) -> ClickThroughAction {
    if is_settings {
        ClickThroughAction::RemoveClickThrough
    } else {
        match since_last_ms {
            None => ClickThroughAction::MakeClickThrough,
            Some(ms) => if ms > CLICK_THROUGH_REFRESH_MS {
                ClickThroughAction::MakeClickThrough
            } else {
                ClickThroughAction::Keep
            },
        }
    }
}

/// The decision for given inputs (see `click_through_spec`).
pub fn click_through_decision(is_settings: bool, since_last_ms: Option<u128>) -> (r: ClickThroughAction)
    ensures
        r == click_through_spec(is_settings, since_last_ms),
{
    if is_settings {
        ClickThroughAction::RemoveClickThrough
    } else {
        match since_last_ms {
            None => ClickThroughAction::MakeClickThrough,
            Some(ms) => if ms > CLICK_THROUGH_REFRESH_MS {
                ClickThroughAction::MakeClickThrough
            } else {
                ClickThroughAction::Keep
            },
        }
    }
}

impl ClickThroughTimer {
    /// Whether click-through was ever set.
    pub closed spec fn ever_set(self) -> bool {
        self.last is Some
    }

    /// A timer for which click-through was never set.
    pub fn new() -> (t: Self)
        ensures
            !t.ever_set(),
    {
        ClickThroughTimer { last: None }
    }
}

/// Decides what to do to the overlay window now: in the settings, make it
/// take clicks; otherwise make it click-through when that was never done or
/// was done more than `CLICK_THROUGH_REFRESH_MS` ago (and note the time), else
/// keep it. Reads the clock.
pub fn apply_click_through_mode(is_settings: bool, timer: &mut ClickThroughTimer) -> (r:
    ClickThroughAction)
    ensures
        is_settings ==> r == ClickThroughAction::RemoveClickThrough,
        !is_settings && !old(timer).ever_set() ==> r == ClickThroughAction::MakeClickThrough,
        !is_settings ==> r != ClickThroughAction::RemoveClickThrough,
        r == ClickThroughAction::MakeClickThrough ==> final(timer).ever_set(),
        r != ClickThroughAction::MakeClickThrough ==> final(timer).ever_set() == old(
            timer,
        ).ever_set(),
{
    let since = if is_settings {
        None
    } else {
        match &timer.last {
            Some(t) => Some(elapsed_millis(t)),
            None => None,
        }
    };
    let r = click_through_decision(is_settings, since);
    if r == ClickThroughAction::MakeClickThrough {
        timer.last = Some(instant_now());
    }
    r
}

} // verus!
