use rust_arpg::hud::{stick_menu_input, ButtonInteraction, ButtonShade, PauseMenuAction, PauseMenuState};

#[test]
fn pause_menu_starts_closed_on_resume() {
    let menu = PauseMenuState::default();
    assert!(!menu.open);
    assert_eq!(menu.selected(), PauseMenuAction::Resume);
}

#[test]
fn toggling_opens_and_closes_with_resume_selected() {
    let mut menu = PauseMenuState::default();
    menu.toggle();
    assert!(menu.open);
    menu.select_next();
    assert_eq!(menu.selected(), PauseMenuAction::RestartLevel);
    menu.toggle();
    assert!(!menu.open);
    assert_eq!(menu.selected(), PauseMenuAction::Resume);
    menu.toggle();
    assert!(menu.open);
    assert_eq!(menu.selected(), PauseMenuAction::Resume);
}

#[test]
fn toggle_requests_are_ignored_after_game_over() {
    let mut menu = PauseMenuState::default();
    menu.handle_toggle_request(true, true);
    assert!(!menu.open);
    menu.handle_toggle_request(false, false);
    assert!(!menu.open);
    menu.handle_toggle_request(false, true);
    assert!(menu.open);
}

#[test]
fn navigation_wraps_in_both_directions() {
    let mut menu = PauseMenuState::default();
    menu.navigate(true, false);
    assert_eq!(menu.selected(), PauseMenuAction::Resume);
    menu.open();
    menu.navigate(true, false);
    assert_eq!(menu.selected(), PauseMenuAction::Quit);
    menu.navigate(false, true);
    assert_eq!(menu.selected(), PauseMenuAction::Resume);
    menu.navigate(true, true);
    assert_eq!(menu.selected(), PauseMenuAction::Quit);
    for _ in 0..3 {
        menu.select_next();
    }
    assert_eq!(menu.selected(), PauseMenuAction::Quit);
    menu.select_previous();
    menu.select_next();
    assert_eq!(menu.selected(), PauseMenuAction::Quit);
}

#[test]
fn confirm_activates_the_selection_of_an_open_menu() {
    let mut menu = PauseMenuState::default();
    assert_eq!(menu.confirmed_action(true), None);
    menu.open();
    menu.select_previous();
    assert_eq!(menu.confirmed_action(false), None);
    assert_eq!(menu.confirmed_action(true), Some(PauseMenuAction::Quit));
}

#[test]
fn pointer_hover_selects_and_press_activates() {
    let mut menu = PauseMenuState::default();
    let buttons = vec![
        (ButtonInteraction::Pressed, PauseMenuAction::Quit),
        (ButtonInteraction::Hovered, PauseMenuAction::RestartLevel),
        (ButtonInteraction::Untouched, PauseMenuAction::Resume),
    ];
    assert_eq!(menu.apply_button_interactions(&buttons), None);
    assert_eq!(menu.selected(), PauseMenuAction::Resume);
    menu.open();
    assert_eq!(menu.apply_button_interactions(&buttons), Some(PauseMenuAction::Quit));
    assert_eq!(menu.selected(), PauseMenuAction::RestartLevel);
    let idle = vec![(ButtonInteraction::Untouched, PauseMenuAction::Quit)];
    assert_eq!(menu.apply_button_interactions(&idle), None);
    assert_eq!(menu.selected(), PauseMenuAction::RestartLevel);
}

#[test]
fn buttons_shade_selection_over_hover() {
    let mut menu = PauseMenuState::default();
    assert_eq!(menu.button_shade(PauseMenuAction::Resume, true), ButtonShade::Idle);
    menu.open();
    assert_eq!(menu.button_shade(PauseMenuAction::Resume, false), ButtonShade::Selected);
    assert_eq!(menu.button_shade(PauseMenuAction::Quit, true), ButtonShade::Hovered);
    assert_eq!(menu.button_shade(PauseMenuAction::Quit, false), ButtonShade::Idle);
}

#[test]
fn the_stick_moves_the_selection_once_per_tilt() {
    // A fresh tilt up moves up, and the stick then counts as held.
    assert_eq!(stick_menu_input(true, true, true, true), (true, false, false));
    // Still held: nothing more.
    assert_eq!(stick_menu_input(true, false, true, true), (false, false, false));
    // Back to the centre: released again.
    assert_eq!(stick_menu_input(true, false, false, true), (false, false, true));
    assert_eq!(stick_menu_input(true, true, true, false), (false, true, false));
    // A closed menu ignores the stick.
    assert_eq!(stick_menu_input(false, true, true, true), (false, false, true));
}
