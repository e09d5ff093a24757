//! The monsters' reflex behaviour: a monster that is in the field of view
//! walks up to the player and attacks when it stands next to it.

use crate::actions::{
    in_order, lemma_change_keeps_order, move_towards, moved_towards, mut_two, unit_step,
};
use crate::combat::{attack_fits, attacked, report_of, AttackReport};
use crate::fov::FovMap;
use crate::grid::Grid;
use crate::objects::{views, Object, ObjectView};
use crate::PLAYER;
use vstd::prelude::*;

verus! {

/// The square of the Euclidean distance between two entities.
pub open spec fn distance_squared(a: ObjectView, b: ObjectView) -> int {
    (b.x - a.x) * (b.x - a.x) + (b.y - a.y) * (b.y - a.y)
}

impl Object {
    /// The square of the Euclidean distance from this entity to `other`.
    pub fn distance_squared_to(&self, other: &Object) -> (d: i128)
        ensures
            d == distance_squared(self@, other@),
    {
        let dx: i128 = other.x as i128 - self.x as i128;
        let dy: i128 = other.y as i128 - self.y as i128;
        assert(0 <= dx * dx <= 0x1_0000_0000_0000_0000) by (nonlinear_arith)
            requires
                -0x1_0000_0000 <= dx <= 0x1_0000_0000,
        ;
        assert(0 <= dy * dy <= 0x1_0000_0000_0000_0000) by (nonlinear_arith)
            requires
                -0x1_0000_0000 <= dy <= 0x1_0000_0000,
        ;
        dx * dx + dy * dy
    }
}

/// Whether an attack can still hurt `o`: it can fight and has hit points
/// left.
pub open spec fn can_be_hit(o: ObjectView) -> bool {
    o.fighter matches Some(f) && f.hp > 0
}

/// The entities after the monster in slot `id` has taken its turn.
///
/// A monster that is not visible does nothing. A visible monster at a
/// distance of two or more from the player takes one step towards it; a
/// nearer one attacks the player if an attack can still hurt it.
pub open spec fn ai_acted(map: Grid, objects: Seq<ObjectView>, id: int, visible: bool) -> Seq<
    ObjectView,
> {
    let monster = objects[id];
    let player = objects[PLAYER as int];
    if !visible {
        objects
    } else if distance_squared(monster, player) >= 4 {
        moved_towards(map, objects, id, player.x, player.y)
    } else if can_be_hit(player) {
        objects.update(PLAYER as int, attacked(monster, player))
    } else {
        objects
    }
}

/// The attack the monster in slot `id` makes in its turn, if any.
pub open spec fn ai_attack(objects: Seq<ObjectView>, id: int, visible: bool) -> Option<
    AttackReport,
> {
    if visible && distance_squared(objects[id], objects[PLAYER as int]) < 4 && can_be_hit(
        objects[PLAYER as int],
    ) {
        Some(report_of(objects, id, PLAYER as int))
    } else {
        None
    }
}

/// Whether the monster in slot `id` can take its turn: if it would step, the
/// cell it would reach lies on the map; if it would attack, it is not the
/// player itself and the attack stays within machine range.
pub open spec fn ai_can_act(map: Grid, objects: Seq<ObjectView>, id: int, visible: bool) -> bool {
    let monster = objects[id];
    let player = objects[PLAYER as int];
    &&& 0 <= id < objects.len()
    &&& objects.len() > PLAYER
    &&& visible ==> if distance_squared(monster, player) >= 4 {
        map.in_bounds(
            monster.x + unit_step(player.x - monster.x, player.y - monster.y),
            monster.y + unit_step(player.y - monster.y, player.x - monster.x),
        )
    } else {
        can_be_hit(player) ==> id != PLAYER && attack_fits(monster, player)
    }
}

/// Lets the monster in slot `monster_id` take its turn, as [`ai_acted`]
/// says, where the monster counts as visible if the cell it stands on is in
/// the field of view. Returns the attack, if one was made.
pub fn ai_take_turn(monster_id: usize, map: &Grid, objects: &mut [Object], fov_map: &FovMap) -> (attack:
    Option<AttackReport>)
    requires
        map.wf(),
        fov_map.wf(),
        monster_id < old(objects)@.len(),
        fov_map.in_bounds(
            old(objects)@[monster_id as int].x as int,
            old(objects)@[monster_id as int].y as int,
        ),
        ai_can_act(
            *map,
            views(old(objects)@),
            monster_id as int,
            fov_map.visible_at(
                old(objects)@[monster_id as int].x as int,
                old(objects)@[monster_id as int].y as int,
            ),
        ),
    ensures
        views(final(objects)@) == ai_acted(
            *map,
            views(old(objects)@),
            monster_id as int,
            fov_map.visible_at(
                old(objects)@[monster_id as int].x as int,
                old(objects)@[monster_id as int].y as int,
            ),
        ),
        attack == ai_attack(
            views(old(objects)@),
            monster_id as int,
            fov_map.visible_at(
                old(objects)@[monster_id as int].x as int,
                old(objects)@[monster_id as int].y as int,
            ),
        ),
        in_order(*map, views(old(objects)@)) ==> in_order(*map, views(final(objects)@)),
{
    let (monster_x, monster_y) = objects[monster_id].pos();
    if fov_map.is_in_fov(monster_x, monster_y) {
        if objects[monster_id].distance_squared_to(&objects[PLAYER]) >= 4 {
            let (player_x, player_y) = objects[PLAYER].pos();
            move_towards(monster_id, player_x, player_y, map, objects);
            None
        } else {
            let player_has_hp = match objects[PLAYER].fighter {
                Some(f) => f.hp > 0,
                None => false,
            };
            if player_has_hp {
                let (monster, player) = mut_two(monster_id, PLAYER, objects);
                let outcome = monster.attack(player);
                assert(views(objects@) =~= views(old(objects)@).update(
                    PLAYER as int,
                    attacked(old(objects)@[monster_id as int]@, old(objects)@[PLAYER as int]@),
                ));
                proof {
                    let before = views(old(objects)@);
                    if in_order(*map, before) {
                        lemma_change_keeps_order(
                            *map,
                            before,
                            PLAYER as int,
                            attacked(before[monster_id as int], before[PLAYER as int]),
                        );
                    }
                }
                Some(AttackReport { attacker: monster_id, target: PLAYER, outcome })
            } else {
                None
            }
        }
    } else {
        None
    }
}

} // verus!
