//! How mouse and gamepad input arm the player's attack.

use vstd::prelude::*;

verus! {

/// Whether an attack is pressed this frame and whether it is held, from the mouse and the
/// gamepad: the mouse only attacks while an enemy is locked on (a click on the ground moves
/// the player instead), the gamepad's trigger always does.
pub fn resolve_attack_input(
    mouse_target_locked: bool,
    mouse_pressed: bool,
    mouse_held: bool,
    gamepad_pressed: bool,
    gamepad_held: bool,
) -> (input: (bool, bool))
    ensures
        input.0 == ((mouse_target_locked && mouse_pressed) || gamepad_pressed),
        input.1 == ((mouse_target_locked && mouse_held) || gamepad_held),
{
    let mouse_attack_pressed = mouse_target_locked && mouse_pressed;
    let mouse_attack_held = mouse_target_locked && mouse_held;
    (mouse_attack_pressed || gamepad_pressed, mouse_attack_held || gamepad_held)
}

} // verus!
