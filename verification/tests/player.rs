use rust_arpg::player::resolve_attack_input;

#[test]
fn ground_click_does_not_arm_mouse_attack_without_target() {
    assert_eq!(resolve_attack_input(false, true, true, false, false), (false, false));
}

#[test]
fn targeted_click_arms_mouse_attack() {
    assert_eq!(resolve_attack_input(true, true, true, false, false), (true, true));
}

#[test]
fn gamepad_trigger_attacks_without_a_target() {
    assert_eq!(resolve_attack_input(false, false, false, true, false), (true, false));
    assert_eq!(resolve_attack_input(false, false, false, false, true), (false, true));
}
