//! Combat: damage, attacks and what becomes of an entity that dies.

use crate::colors::dark_red;
use crate::components::{DeathCallback, Fighter, FighterView};
use crate::objects::{Object, ObjectView};
use vstd::prelude::*;
use vstd::string::StringExecFns;

verus! {

/// What an attack did.
#[derive(Clone, Copy, Debug, PartialEq, Eq, Structural)]
pub enum AttackOutcome {
    /// The target was hit for this many hit points.
    Hit { damage: i32 },
    /// The attack was too weak to hurt the target.
    NoEffect,
}

/// The outcome of an attack of `attacker` on `target`.
pub open spec fn outcome_of(attacker: ObjectView, target: ObjectView) -> AttackOutcome {
    if attack_damage(attacker, target) > 0 {
        AttackOutcome::Hit { damage: attack_damage(attacker, target) as i32 }
    } else {
        AttackOutcome::NoEffect
    }
}

/// An attack that took place during a turn: who attacked whom, by their
/// slots in the entity list, and what it did.
#[derive(Clone, Copy, Debug, PartialEq, Eq, Structural)]
pub struct AttackReport {
    pub attacker: usize,
    pub target: usize,
    pub outcome: AttackOutcome,
}

/// The report of an attack of the entity in slot `attacker` on the entity in
/// slot `target`.
pub open spec fn report_of(objects: Seq<ObjectView>, attacker: int, target: int) -> AttackReport {
    AttackReport {
        attacker: attacker as usize,
        target: target as usize,
        outcome: outcome_of(objects[attacker], objects[target]),
    }
}

/// The player after death: a corpse to look at, otherwise unchanged.
pub open spec fn player_corpse(o: ObjectView) -> ObjectView {
    ObjectView { char: '%', color: dark_red(), ..o }
}

/// A monster after death: a corpse that blocks nothing, cannot fight or act,
/// and is named after what it was.
pub open spec fn monster_corpse(o: ObjectView) -> ObjectView {
    ObjectView {
        char: '%',
        color: dark_red(),
        blocks: false,
        fighter: None,
        ai: None,
        name: "corpse of "@ + o.name,
        ..o
    }
}

/// The entity after the death transform `policy`.
pub open spec fn dead(o: ObjectView, policy: DeathCallback) -> ObjectView {
    match policy {
        DeathCallback::Player => player_corpse(o),
        DeathCallback::Monster => monster_corpse(o),
    }
}

/// The entity after taking `damage`.
///
/// An entity that cannot fight is not affected. Otherwise damage above zero
/// is taken off the hit points, and an entity that is alive and left with no
/// hit points dies: it is marked as not alive and transformed as its fighter
/// asks.
pub open spec fn damaged(o: ObjectView, damage: int) -> ObjectView {
    match o.fighter {
        None => o,
        Some(f) => {
            let hp = if damage > 0 {
                f.hp - damage
            } else {
                f.hp
            };
            let hurt = ObjectView { fighter: Some(FighterView { hp, ..f }), ..o };
            if hp <= 0 && o.alive {
                dead(ObjectView { alive: false, ..hurt }, f.on_death)
            } else {
                hurt
            }
        },
    }
}

/// The attack value of an entity: the power of its fighter, or zero.
pub open spec fn power_of(o: ObjectView) -> int {
    match o.fighter {
        Some(f) => f.power,
        None => 0,
    }
}

/// The defence value of an entity: the defense of its fighter, or zero.
pub open spec fn defense_of(o: ObjectView) -> int {
    match o.fighter {
        Some(f) => f.defense,
        None => 0,
    }
}

/// The damage of an attack of `attacker` on `target`, before it is asked
/// whether the attack has any effect.
pub open spec fn attack_damage(attacker: ObjectView, target: ObjectView) -> int {
    power_of(attacker) - defense_of(target)
}

/// The target after an attack of `attacker`: damaged if the damage is above
/// zero, untouched otherwise.
pub open spec fn attacked(attacker: ObjectView, target: ObjectView) -> ObjectView {
    if attack_damage(attacker, target) > 0 {
        damaged(target, attack_damage(attacker, target))
    } else {
        target
    }
}

/// Whether taking `damage` keeps the hit points of `o` within machine range.
pub open spec fn damage_fits(o: ObjectView, damage: int) -> bool {
    o.fighter matches Some(f) ==> damage > 0 ==> f.hp - damage >= i32::MIN
}

/// Whether an attack of `attacker` on `target` stays within machine range.
pub open spec fn attack_fits(attacker: ObjectView, target: ObjectView) -> bool {
    &&& i32::MIN <= attack_damage(attacker, target) <= i32::MAX
    &&& damage_fits(target, attack_damage(attacker, target))
}

/// The death transform of the player: the entity turns into a corpse to look
/// at. It keeps its name and its capabilities.
pub fn player_death(player: &mut Object)
    ensures
        final(player)@ == player_corpse(old(player)@),
{
    player.char = '%';
    player.color = dark_red();
}

/// The death transform of a monster: the entity turns into a corpse that no
/// longer blocks, fights or acts, and `"corpse of "` is put before its name.
pub fn monster_death(monster: &mut Object)
    ensures
        final(monster)@ == monster_corpse(old(monster)@),
{
    monster.char = '%';
    monster.color = dark_red();
    monster.blocks = false;
    monster.fighter = None;
    monster.ai = None;
    let mut name = String::from_str("corpse of ");
    name.append(monster.name.as_str());
    monster.name = name;
}

impl DeathCallback {
    /// Applies this death transform to `object`.
    pub fn callback(self, object: &mut Object)
        ensures
            final(object)@ == dead(old(object)@, self),
    {
        match self {
            DeathCallback::Player => player_death(object),
            DeathCallback::Monster => monster_death(object),
        }
    }
}

impl Object {
    /// Takes `damage` hit points off this entity and lets it die if none are
    /// left, as [`damaged`] says.
    pub fn take_damage(&mut self, damage: i32)
        requires
            damage_fits(old(self)@, damage as int),
        ensures
            final(self)@ == damaged(old(self)@, damage as int),
    {
        match self.fighter {
            Some(fighter) => {
                let hp = if damage > 0 {
                    fighter.hp - damage
                } else {
                    fighter.hp
                };
                self.fighter = Some(Fighter { hp, ..fighter });
                if hp <= 0 && self.alive {
                    self.alive = false;
                    fighter.on_death.callback(self);
                }
            },
            None => {},
        }
    }

    /// Attacks `target`, which must be able to fight: the damage is this
    /// entity's power, or zero if it cannot fight itself, less the target's
    /// defense. Damage above zero is dealt to the target; any other attack
    /// has no effect.
    pub fn attack(&mut self, target: &mut Object) -> (outcome: AttackOutcome)
        requires
            old(target)@.fighter is Some,
            attack_fits(old(self)@, old(target)@),
        ensures
            *final(self) == *old(self),
            final(target)@ == attacked(old(self)@, old(target)@),
            outcome == outcome_of(old(self)@, old(target)@),
    {
        let power = match self.fighter {
            Some(f) => f.power,
            None => 0,
        };
        let defense = match target.fighter {
            Some(f) => f.defense,
            None => 0,
        };
        let damage = power - defense;
        if damage > 0 {
            target.take_damage(damage);
            AttackOutcome::Hit { damage }
        } else {
            AttackOutcome::NoEffect
        }
    }
}

/// Damage does nothing to an entity that cannot fight.
pub proof fn lemma_damage_needs_fighter(o: ObjectView, damage: int)
    requires
        o.fighter is None,
    ensures
        damaged(o, damage) == o,
{
}

/// Damage never heals: an entity that can still fight afterwards has no
/// more hit points than before, out of the same maximum, so hit points that
/// were within the maximum stay within it.
pub proof fn lemma_damage_never_heals(o: ObjectView, damage: int)
    requires
        damaged(o, damage).fighter is Some,
    ensures
        o.fighter is Some,
        damaged(o, damage).fighter->0.hp <= o.fighter->0.hp,
        damaged(o, damage).fighter->0.max_hp == o.fighter->0.max_hp,
        o.fighter->0.hp <= o.fighter->0.max_hp ==> damaged(o, damage).fighter->0.hp <= damaged(
            o,
            damage,
        ).fighter->0.max_hp,
{
}

/// Damage to an entity that is not alive can only lower its hit points: it
/// is not transformed again.
pub proof fn lemma_dead_stay_as_they_are(o: ObjectView, damage: int)
    requires
        !o.alive,
    ensures
        damaged(o, damage) == (ObjectView { fighter: damaged(o, damage).fighter, ..o }),
        damaged(o, damage).fighter is Some <==> o.fighter is Some,
{
}

/// A monster dies once. The blow that kills it puts `"corpse of "` before
/// its name, and no damage dealt to the corpse changes anything about it.
pub proof fn lemma_monster_dies_once(o: ObjectView, killing: int, later: int, last: int)
    requires
        o.alive,
        o.fighter matches Some(f) && f.on_death == DeathCallback::Monster && killing > 0 && f.hp
            <= killing,
    ensures
        ({
            let corpse = damaged(o, killing);
            &&& !corpse.alive
            &&& corpse.fighter is None
            &&& corpse.name == "corpse of "@ + o.name
            &&& damaged(corpse, later) == corpse
            &&& damaged(damaged(corpse, later), last) == corpse
        }),
{
}

} // verus!
