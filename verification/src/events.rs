//! Routing of keyboard-extension notifications.
//!
//! The dispatch loop classifies each keyboard-extension event into one of two
//! re-synchronization paths: a layout-invalidating notification forces a full
//! remap (wildcard ungrab, then keymap rebuild, then grab pass, in that
//! order), while a plain modifier/group state change only folds a delta into
//! the live state -- no grab churn.

use vstd::prelude::*;

use crate::keyboard::StateDelta;

verus! {

/// A keyboard-extension notification, reduced to what the routing decision
/// reads.
#[derive(Clone, Copy, Debug, PartialEq, Eq, Structural)]
pub enum XkbEvent {
    /// A "new keyboard" notification; `keycodes_changed` tells whether its
    /// change set includes the keycode range.
    NewKeyboard { keycodes_changed: bool },
    /// A keymap "map notify" notification.
    MapNotify,
    /// An incremental modifier/group state change.
    StateNotify(StateDelta),
    /// Any other keyboard-extension event.
    Other,
}

/// What the dispatch loop must do with a keyboard-extension event.
#[derive(Clone, Copy, Debug, PartialEq, Eq, Structural)]
pub enum XkbAction {
    /// Rebuild the keymap and state, then ungrab everything with the one
    /// wildcard request and run a fresh grab pass: the rebuild must stand
    /// between the ungrab and the grab, or keycode resolution uses the
    /// stale keymap.
    Remap,
    /// Fold the delta into the live state; nothing else.
    ApplyState(StateDelta),
    /// Nothing to do.
    Ignore,
}

/// The routing decision: a new-keyboard notification remaps only when its
/// change set includes keycodes; a map notify always remaps; a state notify
/// only updates the live state; everything else is ignored.
pub open spec fn spec_route(ev: XkbEvent) -> XkbAction {
    match ev {
        XkbEvent::NewKeyboard { keycodes_changed } => if keycodes_changed {
            XkbAction::Remap
        } else {
            XkbAction::Ignore
        },
        XkbEvent::MapNotify => XkbAction::Remap,
        XkbEvent::StateNotify(delta) => XkbAction::ApplyState(delta),
        XkbEvent::Other => XkbAction::Ignore,
    }
}

/// Classify a keyboard-extension event into the action the dispatch loop
/// performs for it.
pub fn route_xkb_event(ev: &XkbEvent) -> (a: XkbAction)
    ensures
        a == spec_route(*ev),
{
    match ev {
        XkbEvent::NewKeyboard { keycodes_changed } => {
            if *keycodes_changed {
                XkbAction::Remap
            } else {
                XkbAction::Ignore
            }
        },
        XkbEvent::MapNotify => XkbAction::Remap,
        XkbEvent::StateNotify(delta) => XkbAction::ApplyState(*delta),
        XkbEvent::Other => XkbAction::Ignore,
    }
}

} // verus!
