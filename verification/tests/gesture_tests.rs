use workspace_core::gesture::GestureState;

fn settled_on() -> GestureState {
    let mut g = GestureState::new();
    g.update(1000, false);
    g.update(0, true);
    assert!(g.settled);
    assert_eq!(g.counter, 1000);
    g
}

#[test]
fn idle_state_starts_off() {
    let g = GestureState::new();
    assert!(!g.settled);
    assert_eq!(g.counter, 0);
}

#[test]
fn end_gesture_at_ten_percent_turns_on() {
    let mut g = GestureState::new();
    let progress = g.update(100, true);
    assert!(g.settled);
    assert_eq!(g.counter, 1000);
    assert_eq!(progress, 1000);
}

#[test]
fn end_gesture_just_under_ten_percent_stays_off() {
    let mut g = GestureState::new();
    let progress = g.update(99, true);
    assert!(!g.settled);
    assert_eq!(g.counter, 0);
    assert_eq!(progress, 0);
}

#[test]
fn end_gesture_at_ninety_percent_stays_on() {
    let mut g = settled_on();
    g.update(-100, true);
    assert!(g.settled);
    assert_eq!(g.counter, 1000);
}

#[test]
fn end_gesture_just_under_ninety_percent_turns_off() {
    let mut g = settled_on();
    g.update(-101, true);
    assert!(!g.settled);
    assert_eq!(g.counter, 0);
}

#[test]
fn mid_gesture_accumulates_without_settling() {
    let mut g = GestureState::new();
    assert_eq!(g.update(500, false), 500);
    assert!(!g.settled);
    assert_eq!(g.update(-200, false), 300);
    assert_eq!(g.counter, 300);
    assert!(!g.settled);
}

#[test]
fn progress_clamps_but_counter_runs_free() {
    let mut g = GestureState::new();
    let progress = g.update(2300, false);
    assert_eq!(progress, 1000);
    assert_eq!(g.counter, 2300);
    let progress = g.update(-4000, false);
    assert_eq!(progress, 0);
    assert_eq!(g.counter, -1700);
}
