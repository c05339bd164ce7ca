//! The pause menu: whether it is open, which entry is selected, and how input moves it.

use vstd::prelude::*;

verus! {

/// An entry of the pause menu.
#[derive(Clone, Copy, Debug, PartialEq, Eq, Structural)]
pub enum PauseMenuAction {
    Resume,
    RestartLevel,
    Quit,
}

/// The entry above `action`, wrapping from the first to the last.
pub open spec fn previous_action(action: PauseMenuAction) -> PauseMenuAction {
    match action {
        PauseMenuAction::Resume => PauseMenuAction::Quit,
        PauseMenuAction::RestartLevel => PauseMenuAction::Resume,
        PauseMenuAction::Quit => PauseMenuAction::RestartLevel,
    }
}

/// The entry below `action`, wrapping from the last to the first.
pub open spec fn next_action(action: PauseMenuAction) -> PauseMenuAction {
    match action {
        PauseMenuAction::Resume => PauseMenuAction::RestartLevel,
        PauseMenuAction::RestartLevel => PauseMenuAction::Quit,
        PauseMenuAction::Quit => PauseMenuAction::Resume,
    }
}

/// What a menu button reports of the pointer this frame.
#[derive(Clone, Copy, Debug, PartialEq, Eq, Structural)]
pub enum ButtonInteraction {
    Pressed,
    Hovered,
    Untouched,
}

/// How a menu button is drawn: as the selected entry, under the pointer, or idle.
#[derive(Clone, Copy, Debug, PartialEq, Eq, Structural)]
pub enum ButtonShade {
    Selected,
    Hovered,
    Idle,
}

/// Whether the pause menu is open, and which entry is selected.
#[derive(Debug)]
pub struct PauseMenuState {
    pub open: bool,
    selected: PauseMenuAction,
}

impl View for PauseMenuState {
    type V = (bool, PauseMenuAction);

    closed spec fn view(&self) -> (bool, PauseMenuAction) {
        (self.open, self.selected)
    }
}

/// The selection after the interactions of `buttons` (each a button's interaction and its
/// entry): a hovered or pressed button becomes the selection, the last one winning.
pub open spec fn selection_after(selected: PauseMenuAction, buttons: Seq<(ButtonInteraction, PauseMenuAction)>) -> PauseMenuAction
    decreases buttons.len(),
{
    if buttons.len() == 0 {
        selected
    } else {
        let (interaction, action) = buttons.last();
        match interaction {
            ButtonInteraction::Untouched => selection_after(selected, buttons.drop_last()),
            _ => action,
        }
    }
}

/// The entry of the last pressed button among `buttons`, if any was pressed.
pub open spec fn pressed_action(buttons: Seq<(ButtonInteraction, PauseMenuAction)>) -> Option<PauseMenuAction>
    decreases buttons.len(),
{
    if buttons.len() == 0 {
        None
    } else {
        let (interaction, action) = buttons.last();
        match interaction {
            ButtonInteraction::Pressed => Some(action),
            _ => pressed_action(buttons.drop_last()),
        }
    }
}

/// The selection follows the last button the pointer touched, wherever it stands in the
/// list: with no hovered or pressed button it stays as it was; otherwise it is the entry of
/// the last hovered or pressed button, untouched buttons after it changing nothing.
pub proof fn selection_follows_last_touched_button(
    selected: PauseMenuAction,
    buttons: Seq<(ButtonInteraction, PauseMenuAction)>,
)
    ensures
        (forall|j: int| 0 <= j < buttons.len() ==> (#[trigger] buttons[j]).0 == ButtonInteraction::Untouched)
            ==> selection_after(selected, buttons) == selected,
        forall|i: int|
            0 <= i < buttons.len() && (#[trigger] buttons[i]).0 != ButtonInteraction::Untouched && (forall|
                j: int,
            |
                i < j < buttons.len() ==> (#[trigger] buttons[j]).0 == ButtonInteraction::Untouched)
                ==> selection_after(selected, buttons) == buttons[i].1,
    decreases buttons.len(),
{
    if buttons.len() > 0 {
        let rest = buttons.drop_last();
        selection_follows_last_touched_button(selected, rest);
        assert forall|j: int| 0 <= j < rest.len() implies rest[j] == buttons[j] by {}
        let n = buttons.len() - 1;
        if buttons[n].0 == ButtonInteraction::Untouched {
            assert forall|i: int|
                0 <= i < buttons.len() && (#[trigger] buttons[i]).0 != ButtonInteraction::Untouched && (
                forall|j: int| i < j < buttons.len() ==> (#[trigger] buttons[j]).0 == ButtonInteraction::Untouched)
                    implies selection_after(selected, buttons) == buttons[i].1 by {
                assert(i < n);
                assert(rest[i] == buttons[i]);
                assert forall|j: int| i < j < rest.len() implies (#[trigger] rest[j]).0
                    == ButtonInteraction::Untouched by {
                    assert(rest[j] == buttons[j]);
                }
            }
            if forall|j: int| 0 <= j < buttons.len() ==> (#[trigger] buttons[j]).0 == ButtonInteraction::Untouched {
                assert forall|j: int| 0 <= j < rest.len() implies (#[trigger] rest[j]).0
                    == ButtonInteraction::Untouched by {
                    assert(rest[j] == buttons[j]);
                }
            }
        } else {
            assert forall|i: int|
                0 <= i < buttons.len() && (#[trigger] buttons[i]).0 != ButtonInteraction::Untouched && (
                forall|j: int| i < j < buttons.len() ==> (#[trigger] buttons[j]).0 == ButtonInteraction::Untouched)
                    implies selection_after(selected, buttons) == buttons[i].1 by {
                if i < n {
                    assert(buttons[n].0 == ButtonInteraction::Untouched);
                }
            }
        }
    }
}

/// The action returned is that of the last pressed button, wherever it stands in the list:
/// none when no button was pressed, hovered and untouched buttons after it changing nothing.
#[verifier::spinoff_prover]
#[verifier::rlimit(40)]
pub proof fn action_follows_last_pressed_button(buttons: Seq<(ButtonInteraction, PauseMenuAction)>)
    ensures
        (forall|j: int| 0 <= j < buttons.len() ==> (#[trigger] buttons[j]).0 != ButtonInteraction::Pressed)
            ==> pressed_action(buttons) is None,
        forall|i: int|
            0 <= i < buttons.len() && (#[trigger] buttons[i]).0 == ButtonInteraction::Pressed && (forall|
                j: int,
            |
                i < j < buttons.len() ==> (#[trigger] buttons[j]).0 != ButtonInteraction::Pressed)
                ==> pressed_action(buttons) == Some(buttons[i].1),
    decreases buttons.len(),
{
    if buttons.len() > 0 {
        let rest = buttons.drop_last();
        action_follows_last_pressed_button(rest);
        assert forall|j: int| 0 <= j < rest.len() implies rest[j] == buttons[j] by {}
        let n = buttons.len() - 1;
        if buttons[n].0 != ButtonInteraction::Pressed {
            assert forall|i: int|
                0 <= i < buttons.len() && (#[trigger] buttons[i]).0 == ButtonInteraction::Pressed && (
                forall|j: int| i < j < buttons.len() ==> (#[trigger] buttons[j]).0 != ButtonInteraction::Pressed)
                    implies pressed_action(buttons) == Some(buttons[i].1) by {
                assert(i < n);
                assert(rest[i] == buttons[i]);
                assert forall|j: int| i < j < rest.len() implies (#[trigger] rest[j]).0
                    != ButtonInteraction::Pressed by {
                    assert(rest[j] == buttons[j]);
                }
            }
            if forall|j: int| 0 <= j < buttons.len() ==> (#[trigger] buttons[j]).0 != ButtonInteraction::Pressed {
                assert forall|j: int| 0 <= j < rest.len() implies (#[trigger] rest[j]).0
                    != ButtonInteraction::Pressed by {
                    assert(rest[j] == buttons[j]);
                }
            }
        } else {
            assert forall|i: int|
                0 <= i < buttons.len() && (#[trigger] buttons[i]).0 == ButtonInteraction::Pressed && (
                forall|j: int| i < j < buttons.len() ==> (#[trigger] buttons[j]).0 != ButtonInteraction::Pressed)
                    implies pressed_action(buttons) == Some(buttons[i].1) by {
                if i < n {
                    assert(buttons[n].0 != ButtonInteraction::Pressed);
                }
            }
        }
    }
}

/// Handling the buttons in two batches, one after the other, selects what handling them all
/// at once does.
pub proof fn selection_composes(
    selected: PauseMenuAction,
    first: Seq<(ButtonInteraction, PauseMenuAction)>,
    second: Seq<(ButtonInteraction, PauseMenuAction)>,
)
    ensures
        selection_after(selected, first + second) == selection_after(selection_after(selected, first), second),
        pressed_action(first + second) == match pressed_action(second) {
            Some(action) => Some(action),
            None => pressed_action(first),
        },
    decreases second.len(),
{
    if second.len() == 0 {
        assert(first + second =~= first);
    } else {
        let rest = second.drop_last();
        selection_composes(selected, first, rest);
        assert((first + second).drop_last() =~= first + rest);
        assert((first + second).last() == second.last());
    }
}

/// The menu after a toggle: open if it was closed and the other way round, with Resume
/// selected.
pub open spec fn toggled(menu: (bool, PauseMenuAction)) -> (bool, PauseMenuAction) {
    (!menu.0, PauseMenuAction::Resume)
}

impl Default for PauseMenuState {
    /// Closed, with Resume selected.
    fn default() -> (state: Self)
        ensures
            state@ == (false, PauseMenuAction::Resume),
    {
        Self { open: false, selected: PauseMenuAction::Resume }
    }
}

impl PauseMenuState {
    /// The selected entry.
    pub fn selected(&self) -> (action: PauseMenuAction)
        ensures
            action == self@.1,
    {
        self.selected
    }

    /// Opens the menu with Resume selected.
    pub fn open(&mut self)
        ensures
            final(self)@ == (true, PauseMenuAction::Resume),
    {
        self.open = true;
        self.selected = PauseMenuAction::Resume;
    }

    /// Closes the menu and resets the selection to Resume.
    pub fn close(&mut self)
        ensures
            final(self)@ == (false, PauseMenuAction::Resume),
    {
        self.open = false;
        self.selected = PauseMenuAction::Resume;
    }

    /// Opens a closed menu or closes an open one; either way Resume is selected.
    pub fn toggle(&mut self)
        ensures
            final(self)@ == toggled(old(self)@),
    {
        if self.open {
            self.close();
        } else {
            self.open();
        }
    }

    /// Moves the selection up, wrapping around.
    pub fn select_previous(&mut self)
        ensures
            final(self)@ == (old(self)@.0, previous_action(old(self)@.1)),
    {
        self.selected = match self.selected {
            PauseMenuAction::Resume => PauseMenuAction::Quit,
            PauseMenuAction::RestartLevel => PauseMenuAction::Resume,
            PauseMenuAction::Quit => PauseMenuAction::RestartLevel,
        };
    }

    /// Moves the selection down, wrapping around.
    pub fn select_next(&mut self)
        ensures
            final(self)@ == (old(self)@.0, next_action(old(self)@.1)),
    {
        self.selected = match self.selected {
            PauseMenuAction::Resume => PauseMenuAction::RestartLevel,
            PauseMenuAction::RestartLevel => PauseMenuAction::Quit,
            PauseMenuAction::Quit => PauseMenuAction::Resume,
        };
    }

    /// A request to open or close the menu (Escape or a gamepad's Start): ignored once
    /// the game is over.
    pub fn handle_toggle_request(&mut self, game_over: bool, pressed: bool)
        ensures
            final(self)@ == if !game_over && pressed {
                toggled(old(self)@)
            } else {
                old(self)@
            },
    {
        if game_over {
            return;
        }
        if pressed {
            self.toggle();
        }
    }

    /// Moves the selection of an open menu: up when `up` is asked, else down when `down`
    /// is; a closed menu ignores navigation.
    pub fn navigate(&mut self, up: bool, down: bool)
        ensures
            final(self)@ == if !old(self)@.0 {
                old(self)@
            } else if up {
                (true, previous_action(old(self)@.1))
            } else if down {
                (true, next_action(old(self)@.1))
            } else {
                old(self)@
            },
    {
        if !self.open {
            return;
        }
        if up {
            self.select_previous();
        } else if down {
            self.select_next();
        }
    }

    /// The entry a confirm press activates: the selection of an open menu.
    pub fn confirmed_action(&self, confirm: bool) -> (action: Option<PauseMenuAction>)
        ensures
            action == if self@.0 && confirm { Some(self@.1) } else { None },
    {
        if self.open && confirm {
            Some(self.selected)
        } else {
            None
        }
    }

    /// Applies this frame's pointer interactions with the menu buttons, in order: hovering
    /// or pressing a button selects its entry, and the entry of the last pressed button is
    /// returned for activation. A closed menu ignores the pointer.
    pub fn apply_button_interactions(
        &mut self,
        buttons: &Vec<(ButtonInteraction, PauseMenuAction)>,
    ) -> (action: Option<PauseMenuAction>)
        ensures
            old(self)@.0 ==> final(self)@ == (true, selection_after(old(self)@.1, buttons@))
                && action == pressed_action(buttons@),
            !old(self)@.0 ==> final(self)@ == old(self)@ && action is None,
    {
        if !self.open {
            return None;
        }
        let mut action_to_execute: Option<PauseMenuAction> = None;
        let mut k: usize = 0;
        while k < buttons.len()
            invariant
                k <= buttons@.len(),
                self@.0,
                self@.1 == selection_after(old(self)@.1, buttons@.take(k as int)),
                action_to_execute == pressed_action(buttons@.take(k as int)),
            decreases buttons@.len() - k,
        {
            let (interaction, button_action) = buttons[k];
            proof {
                assert(buttons@.take(k + 1).drop_last() =~= buttons@.take(k as int));
                assert(buttons@.take(k + 1).last() == (interaction, button_action));
            }
            match interaction {
                ButtonInteraction::Hovered => {
                    self.selected = button_action;
                },
                ButtonInteraction::Pressed => {
                    self.selected = button_action;
                    action_to_execute = Some(button_action);
                },
                ButtonInteraction::Untouched => {},
            }
            k += 1;
        }
        assert(buttons@.take(buttons@.len() as int) =~= buttons@);
        action_to_execute
    }

    /// How the button of `button` is drawn: as selected in an open menu, else as hovered
    /// in an open menu, else idle.
    pub fn button_shade(&self, button: PauseMenuAction, hovered: bool) -> (shade: ButtonShade)
        ensures
            shade == if self@.0 && self@.1 == button {
                ButtonShade::Selected
            } else if self@.0 && hovered {
                ButtonShade::Hovered
            } else {
                ButtonShade::Idle
            },
    {
        if self.open && self.selected == button {
            ButtonShade::Selected
        } else if self.open && hovered {
            ButtonShade::Hovered
        } else {
            ButtonShade::Idle
        }
    }
}

/// What the stick does to the pause menu this frame: `(up, down, released)`. While the
/// menu is open, a tilt past half way (`tilted`) moves the selection once, up when the stick
/// points up, and the stick must come back (`released`) before it moves the selection
/// again; the third value is whether it has come back, for the next frame. A closed menu
/// ignores the stick and counts it as released.
pub fn stick_menu_input(menu_open: bool, released: bool, tilted: bool, pointing_up: bool) -> (input: (
    bool,
    bool,
    bool,
))
    ensures
        input.0 == (menu_open && tilted && released && pointing_up),
        input.1 == (menu_open && tilted && released && !pointing_up),
        input.2 == (!menu_open || !tilted),
{
    if !menu_open {
        return (false, false, true);
    }
    let up = tilted && released && pointing_up;
    let down = tilted && released && !pointing_up;
    (up, down, !tilted)
}

/// Moving the selection down undoes moving it up, and the other way round.
pub proof fn select_next_undoes_select_previous(action: PauseMenuAction)
    ensures
        next_action(previous_action(action)) == action,
        previous_action(next_action(action)) == action,
{
}

/// The menu has three entries: moving the selection three times in one direction comes
/// back to where it started, and no single move stays in place.
pub proof fn selection_cycles_through_three_entries(action: PauseMenuAction)
    ensures
        next_action(next_action(next_action(action))) == action,
        previous_action(previous_action(previous_action(action))) == action,
        next_action(action) != action,
        previous_action(action) != action,
{
}

/// Toggling the menu twice leaves it open or closed as it was, with Resume selected.
pub proof fn toggling_twice_restores_open_state(menu: (bool, PauseMenuAction))
    ensures
        toggled(toggled(menu)) == (menu.0, PauseMenuAction::Resume),
{
}

} // verus!
