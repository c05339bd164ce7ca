//! Which enemy is under the pointer and which one the player has locked on to.

use vstd::prelude::*;

verus! {

/// The enemy under the pointer (`hovered`) and the one the player has locked on to
/// (`targeted`), by entity id.
#[derive(Clone, Copy, Debug, PartialEq, Eq, Structural)]
pub struct TargetState {
    pub hovered: Option<u64>,
    pub targeted: Option<u64>,
}

/// `state` with every reference to `entity` dropped.
pub open spec fn forgotten(state: TargetState, entity: u64) -> TargetState {
    TargetState {
        hovered: if state.hovered == Some(entity) { None } else { state.hovered },
        targeted: if state.targeted == Some(entity) { None } else { state.targeted },
    }
}

impl Default for TargetState {
    /// Nothing hovered, nothing targeted.
    fn default() -> (state: Self)
        ensures
            state.hovered is None,
            state.targeted is None,
    {
        TargetState { hovered: None, targeted: None }
    }
}

impl TargetState {
    /// Drops every reference to `entity`, for an enemy that died or went out of sight.
    pub fn forget(&mut self, entity: u64)
        ensures
            *final(self) == forgotten(*old(self), entity),
    {
        if self.targeted == Some(entity) {
            self.targeted = None;
        }
        if self.hovered == Some(entity) {
            self.hovered = None;
        }
    }

    /// Drops both the hovered and the targeted enemy.
    pub fn clear(&mut self)
        ensures
            final(self).hovered is None,
            final(self).targeted is None,
    {
        self.hovered = None;
        self.targeted = None;
    }

    /// The enemy whose name and health the target panel shows: the hovered one, else the
    /// targeted one.
    pub fn displayed(&self) -> (entity: Option<u64>)
        ensures
            entity == if self.hovered is Some { self.hovered } else { self.targeted },
    {
        match self.hovered {
            Some(entity) => Some(entity),
            None => self.targeted,
        }
    }

    /// Whether `entity` glows as hovered or targeted.
    pub fn is_highlighted(&self, entity: u64) -> (highlighted: bool)
        ensures
            highlighted == (self.hovered == Some(entity) || self.targeted == Some(entity)),
    {
        self.hovered == Some(entity) || self.targeted == Some(entity)
    }

    /// The refresh of the frame: with no player, nothing stays hovered or targeted;
    /// otherwise the target is dropped when it went out of sight (`target_in_sight` says
    /// whether it is still visible from the player), and the hovered enemy becomes
    /// `picked`, the one under the pointer, unless the pause menu is open.
    pub fn refresh_hover(
        &mut self,
        player_present: bool,
        target_in_sight: bool,
        menu_open: bool,
        picked: Option<u64>,
    )
        ensures
            !player_present ==> final(self).hovered is None && final(self).targeted is None,
            player_present ==> final(self).targeted == if target_in_sight {
                old(self).targeted
            } else {
                None
            },
            player_present ==> final(self).hovered == if menu_open { None } else { picked },
    {
        if !player_present {
            self.clear();
            return;
        }
        if self.targeted.is_some() && !target_in_sight {
            self.targeted = None;
        }
        self.hovered = None;
        if menu_open {
            return;
        }
        self.hovered = picked;
    }

    /// A click of the left button: locks on to the hovered enemy and returns `true`, or,
    /// with nothing hovered, drops the target and returns `false`.
    pub fn click(&mut self) -> (locked: bool)
        ensures
            locked == old(self).hovered is Some,
            final(self).hovered == old(self).hovered,
            final(self).targeted == old(self).hovered,
    {
        match self.hovered {
            Some(hovered) => {
                self.targeted = Some(hovered);
                true
            },
            None => {
                self.targeted = None;
                false
            },
        }
    }
}

/// After an enemy is forgotten, nothing refers to it any more, references to other
/// enemies are kept, and forgetting it again changes nothing.
pub proof fn forgotten_entities_are_neither_hovered_nor_targeted(state: TargetState, entity: u64, other: u64)
    requires
        other != entity,
    ensures
        forgotten(state, entity).hovered != Some(entity),
        forgotten(state, entity).targeted != Some(entity),
        state.hovered == Some(other) ==> forgotten(state, entity).hovered == Some(other),
        state.targeted == Some(other) ==> forgotten(state, entity).targeted == Some(other),
        forgotten(forgotten(state, entity), entity) == forgotten(state, entity),
{
}

} // verus!
