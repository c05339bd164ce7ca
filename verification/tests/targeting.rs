use rust_arpg::targeting::TargetState;

#[test]
fn nothing_is_targeted_at_first() {
    let state = TargetState::default();
    assert_eq!(state.hovered, None);
    assert_eq!(state.targeted, None);
    assert_eq!(state.displayed(), None);
}

#[test]
fn clicking_locks_on_to_the_hovered_enemy() {
    let mut state = TargetState { hovered: Some(7), targeted: Some(3) };
    assert!(state.click());
    assert_eq!(state.targeted, Some(7));
    state.hovered = None;
    assert!(!state.click());
    assert_eq!(state.targeted, None);
}

#[test]
fn the_panel_prefers_the_hovered_enemy() {
    let state = TargetState { hovered: Some(7), targeted: Some(3) };
    assert_eq!(state.displayed(), Some(7));
    let state = TargetState { hovered: None, targeted: Some(3) };
    assert_eq!(state.displayed(), Some(3));
    assert!(state.is_highlighted(3));
    assert!(!state.is_highlighted(7));
}

#[test]
fn forgotten_enemies_leave_no_reference() {
    let mut state = TargetState { hovered: Some(7), targeted: Some(7) };
    state.forget(7);
    assert_eq!(state, TargetState { hovered: None, targeted: None });
    let mut state = TargetState { hovered: Some(7), targeted: Some(3) };
    state.forget(3);
    assert_eq!(state, TargetState { hovered: Some(7), targeted: None });
    state.forget(3);
    assert_eq!(state, TargetState { hovered: Some(7), targeted: None });
    state.clear();
    assert_eq!(state, TargetState::default());
}

#[test]
fn hover_refresh_follows_the_pointer_and_sight() {
    let mut state = TargetState { hovered: Some(1), targeted: Some(3) };
    state.refresh_hover(true, true, false, Some(9));
    assert_eq!(state, TargetState { hovered: Some(9), targeted: Some(3) });
    state.refresh_hover(true, false, false, None);
    assert_eq!(state, TargetState { hovered: None, targeted: None });
    let mut state = TargetState { hovered: Some(1), targeted: Some(3) };
    state.refresh_hover(true, true, true, Some(9));
    assert_eq!(state, TargetState { hovered: None, targeted: Some(3) });
    state.refresh_hover(false, true, false, Some(9));
    assert_eq!(state, TargetState::default());
}
