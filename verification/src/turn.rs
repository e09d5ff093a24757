//! The turn engine: one key press is one turn, in which the player acts
//! first and, if that cost a turn, every monster acts once.

use crate::actions::{
    first_fighter_at, in_order, is_first_fighter_at, player_acted, player_attack, player_can_act,
    player_move_or_attack, unit_step,
};
use crate::ai::{ai_acted, ai_attack, ai_can_act, ai_take_turn, distance_squared};
use crate::combat::{
    attack_damage, attack_fits, attacked, defense_of, power_of, AttackReport,
};
use crate::fov::FovMap;
use crate::generation::{generated, is_monster, MapConfig};
use crate::grid::Grid;
use crate::layout::lemma_center_inside;
use crate::objects::{views, Object, ObjectView, Rect};
use crate::PLAYER;
use vstd::prelude::*;

verus! {

/// What a key press amounted to.
#[derive(Clone, Copy, Debug, PartialEq, Eq, Structural)]
pub enum PlayerAction {
    /// The player moved or attacked; the monsters get their turn.
    TookTurn,
    /// Nothing happened in the dungeon.
    DidntTakeTurn,
    /// The player asked to leave the game.
    Exit,
}

/// The keys the game tells apart.
#[derive(Clone, Copy, Debug, PartialEq, Eq, Structural)]
pub enum KeyCode {
    Up,
    Down,
    Left,
    Right,
    Enter,
    Escape,
    Other,
}

/// A key press: the key, and whether Alt was held down.
#[derive(Clone, Copy, Debug, PartialEq, Eq, Structural)]
pub struct Key {
    pub code: KeyCode,
    pub alt: bool,
}

/// What the player can ask for with a key press.
#[derive(Clone, Copy, Debug, PartialEq, Eq, Structural)]
pub enum Command {
    MoveUp,
    MoveDown,
    MoveLeft,
    MoveRight,
    ToggleDisplayMode,
    Quit,
}

/// The command a key press stands for, if any: the arrow keys move, Enter
/// with Alt toggles the display mode, Escape quits.
pub open spec fn command_of(key: Key) -> Option<Command> {
    match key.code {
        KeyCode::Up => Some(Command::MoveUp),
        KeyCode::Down => Some(Command::MoveDown),
        KeyCode::Left => Some(Command::MoveLeft),
        KeyCode::Right => Some(Command::MoveRight),
        KeyCode::Enter => if key.alt {
            Some(Command::ToggleDisplayMode)
        } else {
            None
        },
        KeyCode::Escape => Some(Command::Quit),
        KeyCode::Other => None,
    }
}

/// The command `key` stands for, if any.
pub fn key_command(key: Key) -> (command: Option<Command>)
    ensures
        command == command_of(key),
{
    match key.code {
        KeyCode::Up => Some(Command::MoveUp),
        KeyCode::Down => Some(Command::MoveDown),
        KeyCode::Left => Some(Command::MoveLeft),
        KeyCode::Right => Some(Command::MoveRight),
        KeyCode::Enter => if key.alt {
            Some(Command::ToggleDisplayMode)
        } else {
            None
        },
        KeyCode::Escape => Some(Command::Quit),
        KeyCode::Other => None,
    }
}

/// The step a key press asks the player to take, if it asks for one.
pub open spec fn step_of(key: Key) -> Option<(int, int)> {
    match command_of(key) {
        Some(Command::MoveUp) => Some((0, -1)),
        Some(Command::MoveDown) => Some((0, 1)),
        Some(Command::MoveLeft) => Some((-1, 0)),
        Some(Command::MoveRight) => Some((1, 0)),
        _ => None,
    }
}

/// What `key` amounts to: a step costs a living player a turn, quitting
/// leaves the game, and nothing else happens in the dungeon.
pub open spec fn action_of(objects: Seq<ObjectView>, key: Key) -> PlayerAction {
    if step_of(key) is Some && objects[PLAYER as int].alive {
        PlayerAction::TookTurn
    } else if command_of(key) == Some(Command::Quit) {
        PlayerAction::Exit
    } else {
        PlayerAction::DidntTakeTurn
    }
}

/// The entities after `key` has been handled: a living player has tried the
/// step the key asks for; any other key press leaves everything as it was.
pub open spec fn key_handled(map: Grid, objects: Seq<ObjectView>, key: Key) -> Seq<ObjectView> {
    match step_of(key) {
        Some((dx, dy)) => if objects[PLAYER as int].alive {
            player_acted(map, objects, dx, dy)
        } else {
            objects
        },
        None => objects,
    }
}

/// The attack made while `key` was handled, if any.
pub open spec fn key_attack(objects: Seq<ObjectView>, key: Key) -> Option<AttackReport> {
    match step_of(key) {
        Some((dx, dy)) => if objects[PLAYER as int].alive {
            player_attack(objects, dx, dy)
        } else {
            None
        },
        None => None,
    }
}

/// Whether `key` can be handled: there is a player, and if it is alive and
/// the key asks for a step, the player can try that step.
pub open spec fn key_can_be_handled(map: Grid, objects: Seq<ObjectView>, key: Key) -> bool {
    &&& objects.len() > PLAYER
    &&& objects[PLAYER as int].alive ==> match step_of(key) {
        Some((dx, dy)) => player_can_act(map, objects, dx, dy),
        None => true,
    }
}

/// Handles a key press: an arrow key lets a living player step or attack in
/// that direction, which takes a turn; Escape leaves the game; everything
/// else, the toggling of the display mode included, changes nothing in the
/// dungeon and takes no turn. Returns what the key press amounted to and the
/// attack the player made, if any.
pub fn handle_keys(key: Key, map: &Grid, objects: &mut [Object]) -> (handled: (
    PlayerAction,
    Option<AttackReport>,
))
    requires
        map.wf(),
        key_can_be_handled(*map, views(old(objects)@), key),
    ensures
        handled.0 == action_of(views(old(objects)@), key),
        handled.1 == key_attack(views(old(objects)@), key),
        views(final(objects)@) == key_handled(*map, views(old(objects)@), key),
        step_of(key) is None ==> final(objects)@ == old(objects)@,
        in_order(*map, views(old(objects)@)) ==> in_order(*map, views(final(objects)@)),
{
    let player_alive = objects[PLAYER].alive;
    match (key_command(key), player_alive) {
        (Some(Command::MoveUp), true) => {
            let attack = player_move_or_attack(0, -1, map, objects);
            (PlayerAction::TookTurn, attack)
        },
        (Some(Command::MoveDown), true) => {
            let attack = player_move_or_attack(0, 1, map, objects);
            (PlayerAction::TookTurn, attack)
        },
        (Some(Command::MoveLeft), true) => {
            let attack = player_move_or_attack(-1, 0, map, objects);
            (PlayerAction::TookTurn, attack)
        },
        (Some(Command::MoveRight), true) => {
            let attack = player_move_or_attack(1, 0, map, objects);
            (PlayerAction::TookTurn, attack)
        },
        (Some(Command::ToggleDisplayMode), _) => (PlayerAction::DidntTakeTurn, None),
        (Some(Command::Quit), _) => (PlayerAction::Exit, None),
        _ => (PlayerAction::DidntTakeTurn, None),
    }
}

/// Whether the monster `o` is in the field of view.
pub open spec fn seen(fov: FovMap, o: ObjectView) -> bool {
    fov.visible_at(o.x, o.y)
}

/// The entities after those in the slots from `from` up to `until` have had
/// their turn, one after the other: an entity with the behaviour marker acts
/// as [`ai_acted`] says, on the entities as the earlier ones left them; any
/// other entity is passed over.
pub open spec fn monsters_acted(
    map: Grid,
    fov: FovMap,
    objects: Seq<ObjectView>,
    from: int,
    until: int,
) -> Seq<ObjectView>
    decreases until - from,
{
    if from >= until {
        objects
    } else if objects[from].ai is Some {
        monsters_acted(
            map,
            fov,
            ai_acted(map, objects, from, seen(fov, objects[from])),
            from + 1,
            until,
        )
    } else {
        monsters_acted(map, fov, objects, from + 1, until)
    }
}

/// The attacks made while the entities in the slots from `from` up to
/// `until` had their turn, in the order in which they were made.
pub open spec fn monsters_attacks(
    map: Grid,
    fov: FovMap,
    objects: Seq<ObjectView>,
    from: int,
    until: int,
) -> Seq<AttackReport>
    decreases until - from,
{
    if from >= until {
        Seq::empty()
    } else if objects[from].ai is Some {
        let rest = monsters_attacks(
            map,
            fov,
            ai_acted(map, objects, from, seen(fov, objects[from])),
            from + 1,
            until,
        );
        match ai_attack(objects, from, seen(fov, objects[from])) {
            Some(attack) => seq![attack] + rest,
            None => rest,
        }
    } else {
        monsters_attacks(map, fov, objects, from + 1, until)
    }
}

/// Whether the monsters can take their turns.
///
/// The player is not itself driven by the behaviour marker. The outer edge
/// of the map is blocked, the field of view has the size of the map, and
/// every entity with the marker stands inside the map, so that no step leads
/// off it. The damage of an attack of any such entity on the player is of
/// machine size.
pub open spec fn monsters_can_act(map: Grid, fov: FovMap, objects: Seq<ObjectView>) -> bool {
    &&& objects.len() > PLAYER
    &&& objects[PLAYER as int].ai is None
    &&& map.enclosed()
    &&& fov.spec_width() == map.spec_width()
    &&& fov.spec_height() == map.spec_height()
    &&& forall|i: int|
        0 <= i < objects.len() && (#[trigger] objects[i]).ai is Some ==> {
            &&& map.inside(objects[i].x, objects[i].y)
            &&& i32::MIN <= attack_damage(objects[i], objects[PLAYER as int]) <= i32::MAX
        }
}

/// A unit step changes a coordinate by one at most.
pub proof fn lemma_unit_step_is_small(d: int, other: int)
    ensures
        -1 <= unit_step(d, other) <= 1,
{
}

/// Where the monsters can take their turns, each entity with the behaviour
/// marker can take its own.
pub proof fn lemma_monster_can_act(map: Grid, fov: FovMap, objects: Seq<Object>, id: int)
    requires
        monsters_can_act(map, fov, views(objects)),
        0 <= id < objects.len(),
        objects[id].ai is Some,
    ensures
        ai_can_act(map, views(objects), id, seen(fov, objects[id]@)),
        fov.in_bounds(objects[id].x as int, objects[id].y as int),
{
    let objs = views(objects);
    let monster = objs[id];
    let player = objs[PLAYER as int];
    assert(monster.ai is Some);
    assert(map.inside(monster.x, monster.y));
    lemma_unit_step_is_small(player.x - monster.x, player.y - monster.y);
    lemma_unit_step_is_small(player.y - monster.y, player.x - monster.x);
    assert(player == objects[PLAYER as int]@);
}

/// The turn of one monster leaves the others able to take theirs.
pub proof fn lemma_monsters_can_still_act(
    map: Grid,
    fov: FovMap,
    before: Seq<Object>,
    after: Seq<Object>,
    id: int,
)
    requires
        map.wf(),
        monsters_can_act(map, fov, views(before)),
        0 <= id < before.len(),
        before[id].ai is Some,
        views(after) == ai_acted(map, views(before), id, seen(fov, before[id]@)),
    ensures
        monsters_can_act(map, fov, views(after)),
{
    let old_objs = views(before);
    let new_objs = views(after);
    let monster = old_objs[id];
    let player = old_objs[PLAYER as int];
    let visible = seen(fov, before[id]@);
    assert(monster.ai is Some);
    assert(map.inside(monster.x, monster.y));
    lemma_unit_step_is_small(player.x - monster.x, player.y - monster.y);
    lemma_unit_step_is_small(player.y - monster.y, player.x - monster.x);
    assert(new_objs.len() == old_objs.len());
    assert forall|i: int| 0 <= i < new_objs.len() && (#[trigger] new_objs[i]).ai is Some implies {
        &&& map.inside(new_objs[i].x, new_objs[i].y)
        &&& i32::MIN <= attack_damage(new_objs[i], new_objs[PLAYER as int]) <= i32::MAX
    } by {
        assert(new_objs[i] == after[i]@);
        assert(new_objs[PLAYER as int] == after[PLAYER as int]@);
        assert(old_objs[i] == before[i]@);
        if visible && distance_squared(monster, player) >= 4 {
            let x = monster.x + unit_step(player.x - monster.x, player.y - monster.y);
            let y = monster.y + unit_step(player.y - monster.y, player.x - monster.x);
            if i == id && new_objs[i] != old_objs[i] {
                assert(map.is_floor(x, y));
            } else {
                assert(old_objs[i].ai is Some);
            }
        } else {
            assert(i != PLAYER);
            assert(new_objs[i] == old_objs[i]);
        }
    }
}

/// Gives every entity with the behaviour marker its turn, in the order of
/// the slots, as [`ai_take_turn`] does. Returns the attacks that were made, in
/// the order in which they were made.
pub fn monsters_take_turns(map: &Grid, objects: &mut [Object], fov_map: &FovMap) -> (attacks: Vec<
    AttackReport,
>)
    requires
        map.wf(),
        fov_map.wf(),
        monsters_can_act(*map, *fov_map, views(old(objects)@)),
    ensures
        views(final(objects)@) == monsters_acted(
            *map,
            *fov_map,
            views(old(objects)@),
            0,
            old(objects)@.len() as int,
        ),
        attacks@ == monsters_attacks(
            *map,
            *fov_map,
            views(old(objects)@),
            0,
            old(objects)@.len() as int,
        ),
        monsters_can_act(*map, *fov_map, views(final(objects)@)),
        in_order(*map, views(old(objects)@)) ==> in_order(*map, views(final(objects)@)),
{
    let mut attacks: Vec<AttackReport> = Vec::new();
    let count = objects.len();
    let mut id: usize = 0;
    while id < count
        invariant
            id <= count,
            count == objects@.len(),
            count == old(objects)@.len(),
            map.wf(),
            fov_map.wf(),
            monsters_can_act(*map, *fov_map, views(objects@)),
            in_order(*map, views(old(objects)@)) ==> in_order(*map, views(objects@)),
            monsters_acted(*map, *fov_map, views(objects@), id as int, count as int)
                == monsters_acted(*map, *fov_map, views(old(objects)@), 0, count as int),
            attacks@ + monsters_attacks(*map, *fov_map, views(objects@), id as int, count as int)
                == monsters_attacks(*map, *fov_map, views(old(objects)@), 0, count as int),
        decreases count - id,
    {
        let ghost before = objects@;
        let ghost earlier = attacks@;
        if objects[id].ai.is_some() {
            proof {
                lemma_monster_can_act(*map, *fov_map, before, id as int);
            }
            let attack = ai_take_turn(id, map, objects, fov_map);
            match attack {
                Some(attack) => {
                    attacks.push(attack);
                },
                None => {},
            }
            proof {
                lemma_monsters_can_still_act(*map, *fov_map, before, objects@, id as int);
                let rest = monsters_attacks(
                    *map,
                    *fov_map,
                    views(objects@),
                    id as int + 1,
                    count as int,
                );
                if attack is Some {
                    assert(attacks@ + rest =~= earlier + (seq![attack->0] + rest));
                }
            }
        }
        id += 1;
    }
    proof {
        assert(attacks@ + Seq::<AttackReport>::empty() =~= attacks@);
    }
    attacks
}

/// What a turn amounted to, and the attacks made in it: first the player's,
/// if any, then the monsters' in the order in which they were made.
pub struct TurnReport {
    pub action: PlayerAction,
    pub attacks: Vec<AttackReport>,
}

/// Whether the monsters act in the turn that `key` starts: the key press
/// took a turn and the player is alive after it.
pub open spec fn monsters_follow(map: Grid, objects: Seq<ObjectView>, key: Key) -> bool {
    action_of(objects, key) == PlayerAction::TookTurn && key_handled(
        map,
        objects,
        key,
    )[PLAYER as int].alive
}

/// The entities after the turn that `key` starts: the key press has been
/// handled, and if the monsters follow, each has had its turn.
pub open spec fn turn_played(map: Grid, fov: FovMap, objects: Seq<ObjectView>, key: Key) -> Seq<
    ObjectView,
> {
    let handled = key_handled(map, objects, key);
    if monsters_follow(map, objects, key) {
        monsters_acted(map, fov, handled, 0, handled.len() as int)
    } else {
        handled
    }
}

/// The attacks made in the turn that `key` starts.
pub open spec fn turn_attacks(map: Grid, fov: FovMap, objects: Seq<ObjectView>, key: Key) -> Seq<
    AttackReport,
> {
    let handled = key_handled(map, objects, key);
    let first = match key_attack(objects, key) {
        Some(attack) => seq![attack],
        None => Seq::empty(),
    };
    if monsters_follow(map, objects, key) {
        first + monsters_attacks(map, fov, handled, 0, handled.len() as int)
    } else {
        first
    }
}

/// Whether a turn can be played.
///
/// The monsters can take their turns, as [`monsters_can_act`] says. The
/// player stands inside the map, and an attack of the player on any other
/// entity that can fight stays within machine range.
pub open spec fn turn_ready(map: Grid, fov: FovMap, objects: Seq<ObjectView>) -> bool {
    &&& monsters_can_act(map, fov, objects)
    &&& map.inside(objects[PLAYER as int].x, objects[PLAYER as int].y)
    &&& forall|i: int|
        0 <= i < objects.len() && i != PLAYER && (#[trigger] objects[i]).fighter is Some
            ==> attack_fits(objects[PLAYER as int], objects[i])
}

fn power_or_zero(object: &Object) -> (power: i64)
    ensures
        power == power_of(object@),
{
    match object.fighter {
        Some(f) => f.power as i64,
        None => 0,
    }
}

fn defense_or_zero(object: &Object) -> (defense: i64)
    ensures
        defense == defense_of(object@),
{
    match object.fighter {
        Some(f) => f.defense as i64,
        None => 0,
    }
}

fn attack_is_safe(attacker: &Object, target: &Object) -> (safe: bool)
    ensures
        safe == attack_fits(attacker@, target@),
{
    let damage = power_or_zero(attacker) - defense_or_zero(target);
    if damage < i32::MIN as i64 || damage > i32::MAX as i64 {
        return false;
    }
    match target.fighter {
        Some(f) => damage <= 0 || f.hp as i64 - damage >= i32::MIN as i64,
        None => true,
    }
}

fn stands_inside(object: &Object, map: &Grid) -> (inside: bool)
    requires
        map.wf(),
    ensures
        inside == map.inside(object.x as int, object.y as int),
{
    0 < object.x && object.x < map.width() - 1 && 0 < object.y && object.y < map.height() - 1
}

/// Tests [`turn_ready`].
pub fn is_turn_ready(map: &Grid, objects: &[Object], fov_map: &FovMap) -> (ready: bool)
    requires
        map.wf(),
        fov_map.wf(),
    ensures
        ready == turn_ready(*map, *fov_map, views(objects@)),
{
    if objects.len() == 0 {
        return false;
    }
    let player = &objects[PLAYER];
    assert(views(objects@)[PLAYER as int] == player@);
    if player.ai.is_some() || !map.is_enclosed() || fov_map.width() != map.width()
        || fov_map.height() != map.height() || !stands_inside(player, map) {
        return false;
    }
    let mut i: usize = 0;
    while i < objects.len()
        invariant
            i <= objects@.len(),
            objects@.len() > PLAYER,
            map.wf(),
            *player == objects@[PLAYER as int],
            forall|k: int|
                0 <= k < i && (#[trigger] views(objects@)[k]).ai is Some ==> {
                    &&& map.inside(views(objects@)[k].x, views(objects@)[k].y)
                    &&& i32::MIN <= attack_damage(views(objects@)[k], player@) <= i32::MAX
                },
            forall|k: int|
                0 <= k < i && k != PLAYER && (#[trigger] views(objects@)[k]).fighter is Some
                    ==> attack_fits(player@, views(objects@)[k]),
        decreases objects@.len() - i,
    {
        let object = &objects[i];
        assert(views(objects@)[i as int] == object@);
        if object.ai.is_some() {
            let damage = power_or_zero(object) - defense_or_zero(player);
            if !stands_inside(object, map) || damage < i32::MIN as i64 || damage > i32::MAX as i64 {
                return false;
            }
        }
        if i != PLAYER && object.fighter.is_some() && !attack_is_safe(player, object) {
            return false;
        }
        i += 1;
    }
    true
}

/// Where a turn can be played, every key can be handled.
pub proof fn lemma_ready_for_key(map: Grid, fov: FovMap, objects: Seq<Object>, key: Key)
    requires
        map.wf(),
        turn_ready(map, fov, views(objects)),
    ensures
        key_can_be_handled(map, views(objects), key),
{
    let objs = views(objects);
    let player = objs[PLAYER as int];
    assert(player == objects[PLAYER as int]@);
    map.lemma_size_bounds();
    if player.alive && step_of(key) is Some {
        let (dx, dy) = step_of(key)->0;
        let x = player.x + dx;
        let y = player.y + dy;
        assert(map.inside(player.x, player.y));
        assert(map.in_bounds(x, y));
        match first_fighter_at(objs, x, y) {
            Some(target) => {
                assert(is_first_fighter_at(objs, target, x, y));
                assert(objs[target].fighter is Some);
                assert(target != PLAYER);
                assert(attack_fits(player, objs[target]));
            },
            None => {},
        }
        assert(player_can_act(map, objs, dx, dy));
    }
}

/// Where a turn can be played, the monsters can take their turns once the
/// key has been handled.
pub proof fn lemma_monsters_can_act_after_key(
    map: Grid,
    fov: FovMap,
    before: Seq<Object>,
    after: Seq<Object>,
    key: Key,
)
    requires
        turn_ready(map, fov, views(before)),
        views(after) == key_handled(map, views(before), key),
    ensures
        monsters_can_act(map, fov, views(after)),
{
    let old_objs = views(before);
    let new_objs = views(after);
    let player = old_objs[PLAYER as int];
    if player.alive && step_of(key) is Some {
        let (dx, dy) = step_of(key)->0;
        let x = player.x + dx;
        let y = player.y + dy;
        assert(new_objs == player_acted(map, old_objs, dx, dy));
        match first_fighter_at(old_objs, x, y) {
            Some(target) => {
                assert(is_first_fighter_at(old_objs, target, x, y));
                assert(target != PLAYER);
                assert forall|i: int|
                    0 <= i < new_objs.len() && (#[trigger] new_objs[i]).ai is Some implies {
                    &&& map.inside(new_objs[i].x, new_objs[i].y)
                    &&& i32::MIN <= attack_damage(new_objs[i], new_objs[PLAYER as int]) <= i32::MAX
                } by {
                    assert(old_objs[i].ai is Some);
                }
            },
            None => {
                assert forall|i: int|
                    0 <= i < new_objs.len() && (#[trigger] new_objs[i]).ai is Some implies {
                    &&& map.inside(new_objs[i].x, new_objs[i].y)
                    &&& i32::MIN <= attack_damage(new_objs[i], new_objs[PLAYER as int]) <= i32::MAX
                } by {
                    assert(i != PLAYER);
                    assert(old_objs[i].ai is Some);
                }
            },
        }
    }
}

/// A freshly generated dungeon with at least one room is ready for a turn,
/// provided that the player is not driven by the behaviour marker and is
/// not so weak or so feeble that a fight with a seeded monster leaves
/// machine range, and that the entities that were there before generation,
/// the player aside, have no behaviour marker and can be attacked by the
/// player within machine range.
pub proof fn lemma_generated_is_ready(
    config: MapConfig,
    map: Grid,
    rooms: Seq<Rect>,
    fov: FovMap,
    before: Seq<ObjectView>,
    after: Seq<ObjectView>,
)
    requires
        generated(config, map, rooms, before, after),
        rooms.len() > 0,
        before.len() > PLAYER,
        before[PLAYER as int].ai is None,
        i32::MIN + 5 <= defense_of(before[PLAYER as int]) <= i32::MAX,
        i32::MIN + 1 <= power_of(before[PLAYER as int]) <= i32::MAX,
        forall|i: int|
            PLAYER < i < before.len() ==> (#[trigger] before[i]).ai is None && (before[i].fighter
                is Some ==> attack_fits(before[PLAYER as int], before[i])),
        fov.spec_width() == map.spec_width(),
        fov.spec_height() == map.spec_height(),
    ensures
        turn_ready(map, fov, after),
{
    let player = after[PLAYER as int];
    let first = rooms[0];
    lemma_center_inside(first);
    assert(first.fits(&map) && first.proper());
    assert(first.interior(player.x, player.y));
    assert(map.is_floor(player.x, player.y));
    assert forall|i: int| 0 <= i < after.len() && (#[trigger] after[i]).ai is Some implies {
        &&& map.inside(after[i].x, after[i].y)
        &&& i32::MIN <= attack_damage(after[i], player) <= i32::MAX
    } by {
        if i < before.len() {
            if i > PLAYER {
                assert(after[i] == before[i]);
            }
        } else {
            assert(is_monster(after[i]));
            let k = choose|k: int|
                1 <= k < rooms.len() && (#[trigger] rooms[k]).interior(after[i].x, after[i].y);
            assert(map.is_floor(after[i].x, after[i].y));
        }
    }
    assert forall|i: int|
        0 <= i < after.len() && i != PLAYER && (#[trigger] after[i]).fighter is Some implies attack_fits(
        player,
        after[i],
    ) by {
        if i < before.len() {
            assert(after[i] == before[i]);
        } else {
            assert(is_monster(after[i]));
        }
    }
}

/// A key press that asks for no step costs no turn: nothing in the dungeon
/// changes, no attack is made and the monsters do not act. This holds in
/// particular of the key that toggles the display mode.
pub proof fn lemma_no_step_no_turn(map: Grid, fov: FovMap, objects: Seq<ObjectView>, key: Key)
    requires
        step_of(key) is None,
    ensures
        turn_played(map, fov, objects, key) == objects,
        turn_attacks(map, fov, objects, key) == Seq::<AttackReport>::empty(),
        action_of(objects, key) != PlayerAction::TookTurn,
        !monsters_follow(map, objects, key),
        command_of(key) == Some(Command::ToggleDisplayMode) ==> action_of(objects, key)
            == PlayerAction::DidntTakeTurn,
{
}

/// The key that toggles the display mode asks for no step.
pub proof fn lemma_toggle_is_no_step(key: Key)
    requires
        command_of(key) == Some(Command::ToggleDisplayMode),
    ensures
        step_of(key) is None,
{
}

/// Plays the turn that `key` starts: the key press is handled as
/// [`handle_keys`] does, and if that took a turn and the player is alive, the
/// monsters take their turns as [`monsters_take_turns`] does. Leaving the
/// game and key presses that take no turn give the monsters no turn.
pub fn play_turn(key: Key, map: &Grid, objects: &mut [Object], fov_map: &FovMap) -> (report:
    TurnReport)
    requires
        map.wf(),
        fov_map.wf(),
        turn_ready(*map, *fov_map, views(old(objects)@)),
    ensures
        report.action == action_of(views(old(objects)@), key),
        report.attacks@ == turn_attacks(*map, *fov_map, views(old(objects)@), key),
        views(final(objects)@) == turn_played(*map, *fov_map, views(old(objects)@), key),
        step_of(key) is None ==> final(objects)@ == old(objects)@,
        monsters_can_act(*map, *fov_map, views(final(objects)@)),
        in_order(*map, views(old(objects)@)) ==> in_order(*map, views(final(objects)@)),
{
    proof {
        lemma_ready_for_key(*map, *fov_map, objects@, key);
    }
    let (action, attack) = handle_keys(key, map, objects);
    proof {
        lemma_monsters_can_act_after_key(*map, *fov_map, old(objects)@, objects@, key);
    }
    let mut attacks: Vec<AttackReport> = Vec::new();
    match attack {
        Some(attack) => {
            attacks.push(attack);
        },
        None => {},
    }
    assert(attacks@ =~= match key_attack(views(old(objects)@), key) {
        Some(attack) => seq![attack],
        None => Seq::empty(),
    });
    match action {
        PlayerAction::TookTurn => {
            if objects[PLAYER].alive {
                let mut later = monsters_take_turns(map, objects, fov_map);
                attacks.append(&mut later);
            }
        },
        _ => {},
    }
    TurnReport { action, attacks }
}

} // verus!
