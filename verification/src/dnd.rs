//! Drag-and-drop action negotiation: pick the action to perform from the
//! set a source offers and the action the target prefers.

use vstd::prelude::*;

verus! {

/// A set of drag-and-drop actions. `mov` stands for the move action.
#[derive(Clone, Copy, Debug, PartialEq, Eq, Structural)]
pub struct DndActionSet {
    pub copy: bool,
    pub mov: bool,
    pub ask: bool,
}

/// The empty action set: nothing will happen.
pub open spec fn no_action() -> DndActionSet {
    DndActionSet { copy: false, mov: false, ask: false }
}

pub open spec fn copy_only() -> DndActionSet {
    DndActionSet { copy: true, mov: false, ask: false }
}

pub open spec fn move_only() -> DndActionSet {
    DndActionSet { copy: false, mov: true, ask: false }
}

pub open spec fn ask_only() -> DndActionSet {
    DndActionSet { copy: false, mov: false, ask: true }
}

/// A preference is actionable only when it names exactly one action.
pub open spec fn is_single_action(s: DndActionSet) -> bool {
    ||| s == copy_only()
    ||| s == move_only()
    ||| s == ask_only()
}

/// Every action of `a` is also in `b`.
pub open spec fn action_subset(a: DndActionSet, b: DndActionSet) -> bool {
    &&& (a.copy ==> b.copy)
    &&& (a.mov ==> b.mov)
    &&& (a.ask ==> b.ask)
}

/// Choose the drag-and-drop action: a valid (single) preferred action
/// that the source offers wins; otherwise fall back to ask, then copy,
/// then move; with nothing on offer, no action.
pub fn action_choice(available: DndActionSet, preferred: DndActionSet) -> (r: DndActionSet)
    ensures
        r == if is_single_action(preferred) && action_subset(preferred, available) {
            preferred
        } else if available.ask {
            ask_only()
        } else if available.copy {
            copy_only()
        } else if available.mov {
            move_only()
        } else {
            no_action()
        },
{
    let single = (preferred.copy && !preferred.mov && !preferred.ask) || (!preferred.copy
        && preferred.mov && !preferred.ask) || (!preferred.copy && !preferred.mov && preferred.ask);
    let contained = (!preferred.copy || available.copy) && (!preferred.mov || available.mov) && (
    !preferred.ask || available.ask);
    if single && contained {
        preferred
    } else if available.ask {
        DndActionSet { copy: false, mov: false, ask: true }
    } else if available.copy {
        DndActionSet { copy: true, mov: false, ask: false }
    } else if available.mov {
        DndActionSet { copy: false, mov: true, ask: false }
    } else {
        DndActionSet { copy: false, mov: false, ask: false }
    }
}

} // verus!
