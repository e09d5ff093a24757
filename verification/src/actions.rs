//! What an entity can do on the map: the collision test, steps, and the
//! player's move or attack.

use crate::combat::{attack_fits, attacked, report_of, AttackReport};
use crate::grid::Grid;
use crate::objects::{views, Object, ObjectView};
use crate::PLAYER;
use vstd::prelude::*;

verus! {

/// Hands out two distinct elements of `items` for mutation at the same time.
pub fn mut_two<T>(first_index: usize, second_index: usize, items: &mut [T]) -> (pair: (
    &mut T,
    &mut T,
))
    requires
        first_index != second_index,
        first_index < old(items)@.len(),
        second_index < old(items)@.len(),
    ensures
        *pair.0 == old(items)@[first_index as int],
        *pair.1 == old(items)@[second_index as int],
        final(items)@ == old(items)@.update(first_index as int, *final(pair.0)).update(
            second_index as int,
            *final(pair.1),
        ),
{
    let split = if first_index > second_index {
        first_index
    } else {
        second_index
    };
    let (first_slice, second_slice) = items.split_at_mut(split);
    if first_index < second_index {
        (&mut first_slice[first_index], &mut second_slice[0])
    } else {
        (&mut second_slice[0], &mut first_slice[second_index])
    }
}

/// Whether an entity that blocks stands on `(x, y)`.
pub open spec fn occupied(objects: Seq<ObjectView>, x: int, y: int) -> bool {
    exists|i: int|
        0 <= i < objects.len() && (#[trigger] objects[i]).blocks && objects[i].x == x && objects[i].y
            == y
}

/// Whether nothing can step onto `(x, y)`: the tile there is blocked, or an
/// entity that blocks stands on it.
pub open spec fn blocked_at(map: Grid, objects: Seq<ObjectView>, x: int, y: int) -> bool {
    map.tile_at(x, y).blocked || occupied(objects, x, y)
}

/// Whether `(x, y)` is blocked, by the map or by an entity.
pub fn is_blocked(x: i32, y: i32, map: &Grid, objects: &[Object]) -> (blocked: bool)
    requires
        map.wf(),
        map.in_bounds(x as int, y as int),
    ensures
        blocked == blocked_at(*map, views(objects@), x as int, y as int),
{
    if map.get(x, y).blocked {
        return true;
    }
    let mut i: usize = 0;
    while i < objects.len()
        invariant
            i <= objects@.len(),
            forall|k: int|
                0 <= k < i ==> !((#[trigger] views(objects@)[k]).blocks && views(objects@)[k].x == x
                    && views(objects@)[k].y == y),
        decreases objects@.len() - i,
    {
        if objects[i].blocks && objects[i].x == x && objects[i].y == y {
            assert(views(objects@)[i as int].blocks);
            return true;
        }
        i += 1;
    }
    false
}

/// The entities after the one in slot `id` has tried to step by `(dx, dy)`:
/// it stands on the new cell unless that cell is blocked, in which case
/// nothing has changed.
pub open spec fn moved_by(map: Grid, objects: Seq<ObjectView>, id: int, dx: int, dy: int) -> Seq<
    ObjectView,
> {
    if blocked_at(map, objects, objects[id].x + dx, objects[id].y + dy) {
        objects
    } else {
        objects.update(
            id,
            ObjectView { x: objects[id].x + dx, y: objects[id].y + dy, ..objects[id] },
        )
    }
}

/// Whether the entities stand in good order on the map: every entity that
/// blocks stands on floor, and no two entities that block share a cell.
pub open spec fn in_order(map: Grid, objects: Seq<ObjectView>) -> bool {
    &&& forall|i: int|
        0 <= i < objects.len() && (#[trigger] objects[i]).blocks ==> map.is_floor(
            objects[i].x,
            objects[i].y,
        )
    &&& forall|i: int, j: int|
        #![trigger objects[i], objects[j]]
        0 <= i < j < objects.len() && objects[i].blocks && objects[j].blocks ==> objects[i].x
            != objects[j].x || objects[i].y != objects[j].y
}

/// A step keeps the entities in good order: nothing ever steps onto a wall
/// or onto an entity that blocks.
pub proof fn lemma_step_keeps_order(map: Grid, objects: Seq<ObjectView>, id: int, dx: int, dy: int)
    requires
        in_order(map, objects),
        0 <= id < objects.len(),
        map.in_bounds(objects[id].x + dx, objects[id].y + dy),
    ensures
        in_order(map, moved_by(map, objects, id, dx, dy)),
{
    let x = objects[id].x + dx;
    let y = objects[id].y + dy;
    let moved = moved_by(map, objects, id, dx, dy);
    if !blocked_at(map, objects, x, y) {
        assert forall|i: int| 0 <= i < moved.len() && (#[trigger] moved[i]).blocks implies map.is_floor(
            moved[i].x,
            moved[i].y,
        ) by {
            if i != id {
                assert(objects[i].blocks);
            }
        }
        assert forall|i: int, j: int|
            #![trigger moved[i], moved[j]]
            0 <= i < j < moved.len() && moved[i].blocks && moved[j].blocks implies moved[i].x
            != moved[j].x || moved[i].y != moved[j].y by {
            if i == id {
                assert(objects[j].blocks);
            } else if j == id {
                assert(objects[i].blocks);
            } else {
                assert(objects[i].blocks && objects[j].blocks);
            }
        }
    }
}

/// Changing an entity without moving it or making it block keeps the
/// entities in good order. This is what damage and death do.
pub proof fn lemma_change_keeps_order(
    map: Grid,
    objects: Seq<ObjectView>,
    id: int,
    changed: ObjectView,
)
    requires
        in_order(map, objects),
        0 <= id < objects.len(),
        changed.x == objects[id].x,
        changed.y == objects[id].y,
        changed.blocks ==> objects[id].blocks,
    ensures
        in_order(map, objects.update(id, changed)),
{
    let after = objects.update(id, changed);
    assert forall|i: int| 0 <= i < after.len() && (#[trigger] after[i]).blocks implies map.is_floor(
        after[i].x,
        after[i].y,
    ) by {
        assert(objects[i].blocks);
    }
    assert forall|i: int, j: int|
        #![trigger after[i], after[j]]
        0 <= i < j < after.len() && after[i].blocks && after[j].blocks implies after[i].x
        != after[j].x || after[i].y != after[j].y by {
        assert(objects[i].blocks && objects[j].blocks);
    }
}

/// Moves the entity in slot `id` by `(dx, dy)` unless the cell it would
/// reach is blocked, in which case nothing happens.
pub fn move_by(id: usize, dx: i32, dy: i32, map: &Grid, objects: &mut [Object])
    requires
        id < old(objects)@.len(),
        map.wf(),
        map.in_bounds(old(objects)@[id as int].x + dx, old(objects)@[id as int].y + dy),
    ensures
        views(final(objects)@) == moved_by(
            *map,
            views(old(objects)@),
            id as int,
            dx as int,
            dy as int,
        ),
        blocked_at(
            *map,
            views(old(objects)@),
            old(objects)@[id as int].x + dx,
            old(objects)@[id as int].y + dy,
        ) ==> final(objects)@ == old(objects)@,
        in_order(*map, views(old(objects)@)) ==> in_order(*map, views(final(objects)@)),
{
    proof {
        map.lemma_size_bounds();
        if in_order(*map, views(objects@)) {
            lemma_step_keeps_order(*map, views(objects@), id as int, dx as int, dy as int);
        }
    }
    let (x, y) = objects[id].pos();
    if !is_blocked(x + dx, y + dy, map, objects) {
        objects[id].set_pos(x + dx, y + dy);
        assert(views(objects@) =~= moved_by(
            *map,
            views(old(objects)@),
            id as int,
            dx as int,
            dy as int,
        ));
    }
}

/// One coordinate of the unit step towards a target that lies `d` cells away
/// along this axis and `other` cells away along the other: `d` divided by
/// the Euclidean distance to the target and rounded to the nearest integer.
///
/// The quotient is at least one half exactly when `d` is positive and twice
/// `d` is at least the distance, that is when `4 * d * d >= d * d + other *
/// other`; a quotient of exactly one half does not occur among integers.
pub open spec fn unit_step(d: int, other: int) -> int {
    if d > 0 && 4 * d * d >= d * d + other * other {
        1
    } else if d < 0 && 4 * d * d >= d * d + other * other {
        -1
    } else {
        0
    }
}

fn unit_step_of(d: i64, other: i64) -> (step: i32)
    requires
        -0x1_0000_0000 <= d <= 0x1_0000_0000,
        -0x1_0000_0000 <= other <= 0x1_0000_0000,
    ensures
        step == unit_step(d as int, other as int),
{
    let d_wide = d as i128;
    let other_wide = other as i128;
    assert(0 <= d_wide * d_wide <= 0x1_0000_0000_0000_0000) by (nonlinear_arith)
        requires
            -0x1_0000_0000 <= d_wide <= 0x1_0000_0000,
    ;
    assert(0 <= other_wide * other_wide <= 0x1_0000_0000_0000_0000) by (nonlinear_arith)
        requires
            -0x1_0000_0000 <= other_wide <= 0x1_0000_0000,
    ;
    let d_squared: i128 = d_wide * d_wide;
    let other_squared: i128 = other_wide * other_wide;
    assert(4 * d * d == 4 * (d * d)) by (nonlinear_arith);
    if d > 0 && 4 * d_squared >= d_squared + other_squared {
        1
    } else if d < 0 && 4 * d_squared >= d_squared + other_squared {
        -1
    } else {
        0
    }
}

/// The entities after the one in slot `id` has tried to take one step
/// towards `(target_x, target_y)`.
pub open spec fn moved_towards(
    map: Grid,
    objects: Seq<ObjectView>,
    id: int,
    target_x: int,
    target_y: int,
) -> Seq<ObjectView> {
    let dx = target_x - objects[id].x;
    let dy = target_y - objects[id].y;
    moved_by(map, objects, id, unit_step(dx, dy), unit_step(dy, dx))
}

/// Moves the entity in slot `id` one step towards `(target_x, target_y)`: by
/// one cell or none along each axis, straight at the target and without
/// regard to what is in the way. If the cell it would reach is blocked,
/// nothing happens.
pub fn move_towards(id: usize, target_x: i32, target_y: i32, map: &Grid, objects: &mut [Object])
    requires
        id < old(objects)@.len(),
        map.wf(),
        map.in_bounds(
            old(objects)@[id as int].x + unit_step(
                target_x - old(objects)@[id as int].x,
                target_y - old(objects)@[id as int].y,
            ),
            old(objects)@[id as int].y + unit_step(
                target_y - old(objects)@[id as int].y,
                target_x - old(objects)@[id as int].x,
            ),
        ),
    ensures
        views(final(objects)@) == moved_towards(
            *map,
            views(old(objects)@),
            id as int,
            target_x as int,
            target_y as int,
        ),
        in_order(*map, views(old(objects)@)) ==> in_order(*map, views(final(objects)@)),
{
    let dx: i64 = target_x as i64 - objects[id].x as i64;
    let dy: i64 = target_y as i64 - objects[id].y as i64;
    let step_x = unit_step_of(dx, dy);
    let step_y = unit_step_of(dy, dx);
    move_by(id, step_x, step_y, map, objects);
}

/// Whether the entity in slot `i` can fight and stands on `(x, y)`.
pub open spec fn is_fighter_at(objects: Seq<ObjectView>, i: int, x: int, y: int) -> bool {
    0 <= i < objects.len() && objects[i].fighter is Some && objects[i].x == x && objects[i].y == y
}

/// Whether `i` is the first slot with an entity that can fight and stands on
/// `(x, y)`.
pub open spec fn is_first_fighter_at(objects: Seq<ObjectView>, i: int, x: int, y: int) -> bool {
    is_fighter_at(objects, i, x, y) && forall|j: int| 0 <= j < i ==> !is_fighter_at(objects, j, x, y)
}

/// The first slot with an entity that can fight and stands on `(x, y)`, if
/// there is one.
pub open spec fn first_fighter_at(objects: Seq<ObjectView>, x: int, y: int) -> Option<int> {
    if exists|i: int| is_first_fighter_at(objects, i, x, y) {
        Some(choose|i: int| is_first_fighter_at(objects, i, x, y))
    } else {
        None
    }
}

/// Finds the first entity that can fight and stands on `(x, y)`.
pub fn find_fighter_at(objects: &[Object], x: i32, y: i32) -> (found: Option<usize>)
    ensures
        match found {
            Some(i) => first_fighter_at(views(objects@), x as int, y as int) == Some(i as int),
            None => first_fighter_at(views(objects@), x as int, y as int) is None,
        },
        found matches Some(i) ==> i < objects@.len(),
{
    let mut i: usize = 0;
    while i < objects.len()
        invariant
            i <= objects@.len(),
            forall|j: int| 0 <= j < i ==> !is_fighter_at(views(objects@), j, x as int, y as int),
        decreases objects@.len() - i,
    {
        if objects[i].fighter.is_some() && objects[i].x == x && objects[i].y == y {
            proof {
                let objs = views(objects@);
                assert(is_first_fighter_at(objs, i as int, x as int, y as int));
                let chosen = choose|k: int| is_first_fighter_at(objs, k, x as int, y as int);
                assert(is_first_fighter_at(objs, chosen, x as int, y as int));
                if chosen < i {
                    assert(!is_fighter_at(objs, chosen, x as int, y as int));
                }
                if i < chosen {
                    assert(!is_fighter_at(objs, i as int, x as int, y as int));
                }
            }
            return Some(i);
        }
        i += 1;
    }
    proof {
        let objs = views(objects@);
        assert forall|k: int| !is_first_fighter_at(objs, k, x as int, y as int) by {
            if is_fighter_at(objs, k, x as int, y as int) {
                assert(!is_fighter_at(objs, k, x as int, y as int));
            }
        }
    }
    None
}

/// The entities after the player has tried to step by `(dx, dy)`: if an
/// entity that can fight stands on the cell the player would reach, the
/// first such entity has been attacked and nobody has moved; otherwise the
/// player has moved as [`moved_by`] says.
pub open spec fn player_acted(map: Grid, objects: Seq<ObjectView>, dx: int, dy: int) -> Seq<
    ObjectView,
> {
    let x = objects[PLAYER as int].x + dx;
    let y = objects[PLAYER as int].y + dy;
    match first_fighter_at(objects, x, y) {
        Some(target) => objects.update(target, attacked(objects[PLAYER as int], objects[target])),
        None => moved_by(map, objects, PLAYER as int, dx, dy),
    }
}

/// The attack the player makes when trying to step by `(dx, dy)`, if any.
pub open spec fn player_attack(objects: Seq<ObjectView>, dx: int, dy: int) -> Option<AttackReport> {
    let x = objects[PLAYER as int].x + dx;
    let y = objects[PLAYER as int].y + dy;
    match first_fighter_at(objects, x, y) {
        Some(target) => Some(report_of(objects, PLAYER as int, target)),
        None => None,
    }
}

/// Whether the player can try to step by `(dx, dy)`: the cell it would reach
/// has machine-sized coordinates, and either the first entity there that can
/// fight is not the player itself and can be attacked within machine range,
/// or no entity there can fight and the cell lies on the map.
pub open spec fn player_can_act(map: Grid, objects: Seq<ObjectView>, dx: int, dy: int) -> bool {
    let x = objects[PLAYER as int].x + dx;
    let y = objects[PLAYER as int].y + dy;
    &&& objects.len() > PLAYER
    &&& i32::MIN <= x <= i32::MAX
    &&& i32::MIN <= y <= i32::MAX
    &&& match first_fighter_at(objects, x, y) {
        Some(target) => target != PLAYER && attack_fits(objects[PLAYER as int], objects[target]),
        None => map.in_bounds(x, y),
    }
}

/// Lets the player step by `(dx, dy)`, or attack instead: if an entity that
/// can fight stands on the cell the player would reach, the player attacks
/// the first such entity and stays; otherwise the player moves unless the
/// cell is blocked. Returns the attack, if one was made.
pub fn player_move_or_attack(dx: i32, dy: i32, map: &Grid, objects: &mut [Object]) -> (attack:
    Option<AttackReport>)
    requires
        map.wf(),
        player_can_act(*map, views(old(objects)@), dx as int, dy as int),
    ensures
        views(final(objects)@) == player_acted(*map, views(old(objects)@), dx as int, dy as int),
        attack == player_attack(views(old(objects)@), dx as int, dy as int),
        in_order(*map, views(old(objects)@)) ==> in_order(*map, views(final(objects)@)),
{
    let x = objects[PLAYER].x + dx;
    let y = objects[PLAYER].y + dy;
    let target_id = find_fighter_at(objects, x, y);
    match target_id {
        Some(target_id) => {
            let (player, target) = mut_two(PLAYER, target_id, objects);
            let outcome = player.attack(target);
            assert(views(objects@) =~= player_acted(
                *map,
                views(old(objects)@),
                dx as int,
                dy as int,
            ));
            proof {
                let before = views(old(objects)@);
                if in_order(*map, before) {
                    lemma_change_keeps_order(
                        *map,
                        before,
                        target_id as int,
                        attacked(before[PLAYER as int], before[target_id as int]),
                    );
                }
            }
            Some(AttackReport { attacker: PLAYER, target: target_id, outcome })
        },
        None => {
            move_by(PLAYER, dx, dy, map, objects);
            None
        },
    }
}

} // verus!
