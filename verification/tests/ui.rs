use break_time::ui::{decrement_presses_remaining, end_break, overlay_tick, OverlayState};

#[test]
fn a_fresh_overlay_has_not_ended() {
    let state = OverlayState::new(3);
    assert_eq!(state.presses_remaining, 3);
    assert!(!state.ended);
}

#[test]
fn end_break_ends_the_overlay() {
    let mut state = OverlayState::new(3);
    end_break(&mut state);
    assert!(state.ended);
    assert_eq!(state.presses_remaining, 3);
}

#[test]
fn presses_count_down_to_an_early_end() {
    let mut state = OverlayState::new(2);
    decrement_presses_remaining(&mut state);
    assert_eq!(state.presses_remaining, 1);
    assert!(!state.ended);
    decrement_presses_remaining(&mut state);
    assert_eq!(state.presses_remaining, 0);
    assert!(state.ended);
}

#[test]
fn presses_never_go_below_zero() {
    let mut state = OverlayState::new(0);
    decrement_presses_remaining(&mut state);
    assert_eq!(state.presses_remaining, 0);
    assert!(state.ended);
}

#[test]
fn ticking_inside_the_break_reports_the_remaining_time() {
    let mut state = OverlayState::new(3);
    assert_eq!(overlay_tick(&mut state, 20_000, 500), Some(19_500));
    assert!(!state.ended);
    assert_eq!(overlay_tick(&mut state, 20_000, 20_000), Some(0));
    assert!(!state.ended);
}

#[test]
fn ticking_past_the_break_ends_it() {
    let mut state = OverlayState::new(3);
    assert_eq!(overlay_tick(&mut state, 20_000, 20_001), None);
    assert!(state.ended);
    assert_eq!(state.presses_remaining, 3);
}
