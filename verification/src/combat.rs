//! Hit points, damage rolls and whether the game is running.

use vstd::prelude::*;

use crate::rng::{draw, draw_below, elapsed_seed, seeded_state, state_after_draw_below, advanced_state, SplitMix64};

verus! {

/// Whether the game is over: set when the player dies, cleared on respawn.
pub struct GameOver(pub bool);

impl Default for GameOver {
    fn default() -> (game_over: Self)
        ensures
            !game_over.0,
    {
        GameOver(false)
    }
}

/// Whether gameplay systems run this frame: the game is not over, the pause menu (if there
/// is one) is closed, and no rest transition (if there is one) is in progress.
pub fn game_running(
    game_over: bool,
    pause_menu_open: Option<bool>,
    rest_transition_active: Option<bool>,
) -> (running: bool)
    ensures
        running == (!game_over && pause_menu_open != Some(true) && rest_transition_active != Some(
            true,
        )),
{
    let pause_closed = match pause_menu_open {
        Some(open) => !open,
        None => true,
    };
    let not_resting = match rest_transition_active {
        Some(active) => !active,
        None => true,
    };
    !game_over && pause_closed && not_resting
}

/// The health points of a player or an enemy.
#[derive(Clone, Copy, Debug)]
pub struct HitPoints {
    pub current: i32,
    pub max: i32,
}

/// The damage a hit of `damage` deals to `current` points of health: none for a negative
/// hit, and never more than what is left.
pub open spec fn applied_damage(current: int, damage: int) -> int {
    let requested = if damage > 0 { damage } else { 0 };
    if requested < current { requested } else { current }
}

impl HitPoints {
    /// Full health out of `max`.
    pub fn new(max: i32) -> (hp: Self)
        ensures
            hp.current == max,
            hp.max == max,
    {
        Self { current: max, max }
    }

    /// Takes a hit of `damage` and returns the damage actually dealt.
    pub fn apply_damage(&mut self, damage: i32) -> (applied: i32)
        ensures
            applied == applied_damage(old(self).current as int, damage as int),
            final(self).current == old(self).current - applied,
            final(self).max == old(self).max,
    {
        let requested = if damage > 0 { damage } else { 0 };
        let applied = if requested < self.current { requested } else { self.current };
        self.current -= applied;
        applied
    }

    pub fn is_dead(&self) -> (dead: bool)
        ensures
            dead == (self.current <= 0),
    {
        self.current <= 0
    }

    pub fn heal_to_full(&mut self)
        ensures
            final(self).current == old(self).max,
            final(self).max == old(self).max,
    {
        self.current = self.max;
    }
}

/// Damage is clamped to the health that remains: a hit on a living target with health
/// `current` deals between nothing and `current`, all of `damage` when that much is left,
/// and leaves a living target dead exactly when the hit is at least its remaining health.
pub proof fn damage_clamps_to_remaining_health(current: int, damage: int)
    requires
        current >= 0,
    ensures
        0 <= applied_damage(current, damage) <= current,
        damage >= 0 && damage <= current ==> applied_damage(current, damage) == damage,
        current > 0 ==> ((current - applied_damage(current, damage) <= 0) == (damage >= current)),
{
}

/// The generator behind damage rolls and chance checks.
pub struct DamageRng(pub SplitMix64);

impl Default for DamageRng {
    /// A generator seeded from the system clock, as `SplitMix64::from_entropy`.
    fn default() -> (rng: Self)
        ensures
            exists|reading: Option<u128>| rng.0@ == seeded_state(#[trigger] elapsed_seed(reading)),
            rng.0@ != 0,
    {
        DamageRng(SplitMix64::default())
    }
}

impl DamageRng {
    /// Light attack: 1-3 damage.
    pub fn roll_light(&mut self) -> (damage: i32)
        ensures
            damage == draw_below(old(self).0@, 3) + 1,
            1 <= damage <= 3,
            final(self).0@ == state_after_draw_below(old(self).0@, 3),
    {
        self.0.next_usize(3) as i32 + 1
    }

    /// Heavy attack: 4-8 damage.
    pub fn roll_heavy(&mut self) -> (damage: i32)
        ensures
            damage == draw_below(old(self).0@, 5) + 4,
            4 <= damage <= 8,
            final(self).0@ == state_after_draw_below(old(self).0@, 5),
    {
        self.0.next_usize(5) as i32 + 4
    }

    /// Roll a probability in thousandths, `0..1000`, for chance checks.
    pub fn roll_permille(&mut self) -> (permille: u64)
        ensures
            permille == draw(old(self).0@) % 1000,
            permille < 1000,
            final(self).0@ == advanced_state(old(self).0@),
    {
        self.0.next_u64() % 1000
    }
}

} // verus!
