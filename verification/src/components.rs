//! Optional capabilities an entity may carry.

use vstd::prelude::*;

verus! {

/// What happens to an entity when its hit points are used up.
#[derive(Clone, Copy, Debug, PartialEq, Eq, Structural)]
pub enum DeathCallback {
    Player,
    Monster,
}

/// The combat capability: hit points, attack and defence values, and the
/// transform applied on death.
#[derive(Clone, Copy, Debug, PartialEq, Eq, Structural)]
pub struct Fighter {
    pub max_hp: i32,
    pub hp: i32,
    pub defense: i32,
    pub power: i32,
    pub on_death: DeathCallback,
}

/// Marker for entities that act on their own during the monsters' phase.
#[derive(Clone, Copy, Debug, PartialEq, Eq, Structural)]
pub struct Ai;

/// Mathematical model of a [`Fighter`]: the same record over unbounded integers.
pub struct FighterView {
    pub max_hp: int,
    pub hp: int,
    pub defense: int,
    pub power: int,
    pub on_death: DeathCallback,
}

impl View for Fighter {
    type V = FighterView;

    open spec fn view(&self) -> FighterView {
        FighterView {
            max_hp: self.max_hp as int,
            hp: self.hp as int,
            defense: self.defense as int,
            power: self.power as int,
            on_death: self.on_death,
        }
    }
}

} // verus!
