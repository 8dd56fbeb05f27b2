use workspace_core::dnd::DndActionSet;
use workspace_core::dnd::action_choice;

fn set(copy: bool, mov: bool, ask: bool) -> DndActionSet {
    DndActionSet { copy, mov, ask }
}

#[test]
fn valid_preferred_action_wins() {
    let available = set(true, true, false);
    let preferred = set(true, false, false);
    assert_eq!(action_choice(available, preferred), preferred);
}

#[test]
fn compound_preference_falls_back_to_ask() {
    let available = set(true, true, true);
    let preferred = set(true, true, false);
    assert_eq!(action_choice(available, preferred), set(false, false, true));
}

#[test]
fn unavailable_preference_falls_back_in_order() {
    // preferred ask, but only copy and move are on offer: copy wins
    let available = set(true, true, false);
    let preferred = set(false, false, true);
    assert_eq!(action_choice(available, preferred), set(true, false, false));
    // only move on offer
    let available = set(false, true, false);
    assert_eq!(action_choice(available, preferred), set(false, true, false));
}

#[test]
fn empty_offer_yields_no_action() {
    let available = set(false, false, false);
    let preferred = set(false, true, false);
    assert_eq!(action_choice(available, preferred), set(false, false, false));
}
