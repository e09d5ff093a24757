use roguelike::actions::find_fighter_at;
use roguelike::colors::white;
use roguelike::combat::{AttackOutcome, AttackReport};
use roguelike::components::{Ai, DeathCallback, Fighter};
use roguelike::generation::spawn_monster;
use roguelike::grid::Grid;
use roguelike::objects::{Object, Rect, Tile};
use roguelike::{
    create_room, is_blocked, move_by, move_towards, mut_two, player_move_or_attack, PLAYER,
};

fn arena() -> Grid {
    let mut map = Grid::new(12, 12);
    create_room(&Rect::new(0, 0, 11, 11), &mut map);
    map
}

fn hero(x: i32, y: i32) -> Object {
    let mut player = Object::new(x, y, '@', white(), "player", true, true);
    player.fighter = Some(Fighter {
        max_hp: 30,
        hp: 30,
        defense: 2,
        power: 5,
        on_death: DeathCallback::Player,
    });
    player
}

fn positions(objects: &[Object]) -> Vec<(i32, i32)> {
    objects.iter().map(|o| o.pos()).collect()
}

#[test]
fn walls_are_blocked() {
    let map = arena();
    let objects = vec![hero(5, 5)];
    for i in 0..12 {
        assert!(is_blocked(i, 0, &map, &objects));
        assert!(is_blocked(i, 11, &map, &objects));
        assert!(is_blocked(0, i, &map, &objects));
        assert!(is_blocked(11, i, &map, &objects));
    }
}

#[test]
fn free_floor_is_not_blocked() {
    let map = arena();
    let objects = vec![hero(5, 5)];
    for x in 1..11 {
        for y in 1..11 {
            assert_eq!(is_blocked(x, y, &map, &objects), (x, y) == (5, 5));
        }
    }
    assert!(!is_blocked(3, 3, &map, &[]));
}

#[test]
fn only_blocking_entities_block_a_cell() {
    let map = arena();
    let corpse = Object::new(4, 4, '%', white(), "corpse of orc", false, false);
    let guard = Object::new(6, 6, 'g', white(), "guard", true, true);
    let objects = vec![hero(5, 5), corpse, guard];
    assert!(!is_blocked(4, 4, &map, &objects));
    assert!(is_blocked(6, 6, &map, &objects));
    assert!(is_blocked(5, 5, &map, &objects));
    assert!(!is_blocked(6, 4, &map, &objects));
    assert!(!is_blocked(4, 6, &map, &objects));
}

#[test]
fn blocking_entity_on_a_wall_cell_is_blocked_too() {
    let map = arena();
    let objects = vec![hero(0, 0)];
    assert!(is_blocked(0, 0, &map, &objects));
}

#[test]
fn tile_that_blocks_sight_but_not_movement_is_free() {
    let mut map = arena();
    map.set(3, 3, Tile { blocked: false, block_sight: true, explored: false });
    map.set(4, 4, Tile { blocked: true, block_sight: false, explored: false });
    assert!(!is_blocked(3, 3, &map, &[]));
    assert!(is_blocked(4, 4, &map, &[]));
}

#[test]
fn move_by_steps_onto_free_floor() {
    let map = arena();
    let mut objects = vec![hero(5, 5), spawn_monster(8, 8, true)];
    move_by(PLAYER, 1, 0, &map, &mut objects);
    assert_eq!(positions(&objects), vec![(6, 5), (8, 8)]);
    move_by(1, -2, -4, &map, &mut objects);
    assert_eq!(positions(&objects), vec![(6, 5), (6, 4)]);
    move_by(1, 0, 1, &map, &mut objects);
    assert_eq!(positions(&objects), vec![(6, 5), (6, 4)]);
}

#[test]
fn move_by_into_a_wall_does_nothing() {
    let map = arena();
    let mut objects = vec![hero(1, 1)];
    move_by(PLAYER, -1, 0, &map, &mut objects);
    assert_eq!(objects[PLAYER].pos(), (1, 1));
    move_by(PLAYER, 0, -1, &map, &mut objects);
    assert_eq!(objects[PLAYER].pos(), (1, 1));
    move_by(PLAYER, -1, -1, &map, &mut objects);
    assert_eq!(objects[PLAYER].pos(), (1, 1));
}

#[test]
fn move_by_onto_a_blocking_entity_does_nothing() {
    let map = arena();
    let mut objects = vec![hero(5, 5), spawn_monster(6, 5, true)];
    move_by(PLAYER, 1, 0, &map, &mut objects);
    assert_eq!(positions(&objects), vec![(5, 5), (6, 5)]);
    move_by(1, -1, 0, &map, &mut objects);
    assert_eq!(positions(&objects), vec![(5, 5), (6, 5)]);
}

#[test]
fn move_by_onto_a_corpse_succeeds() {
    let map = arena();
    let corpse = Object::new(6, 5, '%', white(), "corpse of orc", false, false);
    let mut objects = vec![hero(5, 5), corpse];
    move_by(PLAYER, 1, 0, &map, &mut objects);
    assert_eq!(positions(&objects), vec![(6, 5), (6, 5)]);
}

#[test]
fn move_by_of_nothing_stays_blocked_by_itself() {
    let map = arena();
    let mut objects = vec![hero(5, 5)];
    move_by(PLAYER, 0, 0, &map, &mut objects);
    assert_eq!(objects[PLAYER].pos(), (5, 5));
}

#[test]
fn move_never_ends_on_a_blocked_cell() {
    let mut map = arena();
    map.set(4, 5, Tile::wall());
    map.set(5, 4, Tile::wall());
    for dx in -2..3 {
        for dy in -2..3 {
            let mut objects = vec![hero(5, 5), spawn_monster(6, 6, false)];
            let target = (5 + dx, 5 + dy);
            let blocked = is_blocked(target.0, target.1, &map, &objects);
            move_by(PLAYER, dx, dy, &map, &mut objects);
            if blocked {
                assert_eq!(objects[PLAYER].pos(), (5, 5));
            } else {
                assert_eq!(objects[PLAYER].pos(), target);
            }
            assert_eq!(objects[1].pos(), (6, 6));
        }
    }
}

#[test]
fn move_towards_takes_a_unit_step() {
    let map = arena();
    let cases = [
        ((9, 5), (6, 5)),
        ((1, 5), (4, 5)),
        ((5, 9), (5, 6)),
        ((5, 1), (5, 4)),
        ((9, 9), (6, 6)),
        ((1, 1), (4, 4)),
        ((9, 1), (6, 4)),
        ((10, 7), (6, 5)),
        ((6, 8), (5, 6)),
        ((8, 7), (6, 6)),
        ((2, 10), (4, 6)),
        ((7, 10), (5, 6)),
        ((8, 10), (6, 6)),
        ((5, 5), (5, 5)),
    ];
    for (target, expected) in cases {
        let mut objects = vec![hero(1, 1), spawn_monster(5, 5, true)];
        objects[0].blocks = false;
        move_towards(1, target.0, target.1, &map, &mut objects);
        assert_eq!(objects[1].pos(), expected);
    }
}

#[test]
fn move_towards_agrees_with_rounding_the_normalised_vector() {
    let mut map = Grid::new(60, 60);
    create_room(&Rect::new(0, 0, 59, 59), &mut map);
    for tx in 1..59 {
        for ty in 1..59 {
            let mut objects = vec![spawn_monster(30, 30, true)];
            move_towards(0, tx, ty, &map, &mut objects);
            let (dx, dy) = ((tx - 30) as f32, (ty - 30) as f32);
            let distance = (dx * dx + dy * dy).sqrt();
            let expected = (30 + (dx / distance).round() as i32, 30 + (dy / distance).round() as i32);
            assert_eq!(objects[0].pos(), expected);
        }
    }
}

#[test]
fn move_towards_is_stopped_by_what_is_in_the_way() {
    let mut map = arena();
    map.set(6, 5, Tile::wall());
    let mut objects = vec![hero(9, 5), spawn_monster(5, 5, true)];
    move_towards(1, 9, 5, &map, &mut objects);
    assert_eq!(objects[1].pos(), (5, 5));
    let mut objects = vec![hero(6, 6), spawn_monster(5, 5, true)];
    move_towards(1, 6, 6, &map, &mut objects);
    assert_eq!(objects[1].pos(), (5, 5));
}

#[test]
fn move_towards_a_far_target_does_not_overflow() {
    let map = arena();
    let mut objects = vec![spawn_monster(5, 5, true)];
    move_towards(0, i32::MAX, i32::MIN, &map, &mut objects);
    assert_eq!(objects[0].pos(), (6, 4));
    move_towards(0, i32::MIN, 5, &map, &mut objects);
    assert_eq!(objects[0].pos(), (5, 4));
}

#[test]
fn mut_two_hands_out_both_elements() {
    let mut items = vec![10, 20, 30, 40];
    {
        let (a, b) = mut_two(0, 3, &mut items);
        assert_eq!((*a, *b), (10, 40));
        *a += 1;
        *b += 2;
    }
    assert_eq!(items, vec![11, 20, 30, 42]);
    {
        let (a, b) = mut_two(2, 1, &mut items);
        assert_eq!((*a, *b), (30, 20));
        std::mem::swap(a, b);
    }
    assert_eq!(items, vec![11, 30, 20, 42]);
}

#[test]
fn find_fighter_at_finds_the_first_fighter_on_the_cell() {
    let corpse = Object::new(6, 5, '%', white(), "corpse of orc", false, false);
    let objects = vec![hero(5, 5), corpse, spawn_monster(6, 5, true), spawn_monster(6, 5, false)];
    assert_eq!(find_fighter_at(&objects, 6, 5), Some(2));
    assert_eq!(find_fighter_at(&objects, 5, 5), Some(0));
    assert_eq!(find_fighter_at(&objects, 5, 6), None);
    assert_eq!(find_fighter_at(&[], 0, 0), None);
}

#[test]
fn player_moves_when_nobody_is_in_the_way() {
    let map = arena();
    let mut objects = vec![hero(5, 5), spawn_monster(8, 8, true)];
    assert_eq!(player_move_or_attack(0, -1, &map, &mut objects), None);
    assert_eq!(positions(&objects), vec![(5, 4), (8, 8)]);
    assert_eq!(objects[1].fighter.unwrap().hp, 10);
}

#[test]
fn player_attacks_instead_of_moving() {
    let map = arena();
    let mut objects = vec![hero(5, 5), spawn_monster(6, 5, true)];
    let attack = player_move_or_attack(1, 0, &map, &mut objects);
    assert_eq!(
        attack,
        Some(AttackReport { attacker: PLAYER, target: 1, outcome: AttackOutcome::Hit { damage: 5 } })
    );
    assert_eq!(positions(&objects), vec![(5, 5), (6, 5)]);
    assert_eq!(objects[1].fighter.unwrap().hp, 5);
    assert_eq!(objects[0].fighter.unwrap().hp, 30);
    let attack = player_move_or_attack(1, 0, &map, &mut objects);
    assert_eq!(attack.unwrap().outcome, AttackOutcome::Hit { damage: 5 });
    assert_eq!(objects[1].name, "corpse of orc");
    assert!(!objects[1].alive);
    assert_eq!(player_move_or_attack(1, 0, &map, &mut objects), None);
    assert_eq!(positions(&objects), vec![(6, 5), (6, 5)]);
}

#[test]
fn player_attack_without_effect_is_reported() {
    let map = arena();
    let mut tank = spawn_monster(5, 6, false);
    tank.fighter = Some(Fighter { max_hp: 9, hp: 9, defense: 5, power: 1, on_death: DeathCallback::Monster });
    let mut objects = vec![hero(5, 5), tank];
    let attack = player_move_or_attack(0, 1, &map, &mut objects);
    assert_eq!(
        attack,
        Some(AttackReport { attacker: PLAYER, target: 1, outcome: AttackOutcome::NoEffect })
    );
    assert_eq!(objects[1].fighter.unwrap().hp, 9);
    assert_eq!(positions(&objects), vec![(5, 5), (5, 6)]);
}

#[test]
fn player_attacks_a_fighter_that_does_not_block() {
    let map = arena();
    let mut wisp = spawn_monster(4, 5, true);
    wisp.blocks = false;
    let mut objects = vec![hero(5, 5), wisp];
    assert!(player_move_or_attack(-1, 0, &map, &mut objects).is_some());
    assert_eq!(objects[PLAYER].pos(), (5, 5));
    assert_eq!(objects[1].fighter.unwrap().hp, 5);
}

#[test]
fn player_is_stopped_by_a_blocker_that_cannot_fight() {
    let map = arena();
    let statue = Object::new(5, 4, 'S', white(), "statue", true, false);
    let mut objects = vec![hero(5, 5), statue];
    assert_eq!(player_move_or_attack(0, -1, &map, &mut objects), None);
    assert_eq!(objects[PLAYER].pos(), (5, 5));
    assert_eq!(objects[1].ai, None::<Ai>);
}

#[test]
fn player_attacks_the_first_of_two_fighters_on_a_cell() {
    let map = arena();
    let mut objects = vec![hero(5, 5), spawn_monster(6, 5, false), spawn_monster(6, 5, true)];
    let attack = player_move_or_attack(1, 0, &map, &mut objects).unwrap();
    assert_eq!(attack.target, 1);
    assert_eq!(attack.outcome, AttackOutcome::Hit { damage: 4 });
    assert_eq!(objects[1].fighter.unwrap().hp, 12);
    assert_eq!(objects[2].fighter.unwrap().hp, 10);
}

#[test]
fn squared_distance_is_exact() {
    let a = hero(5, 5);
    assert_eq!(a.distance_squared_to(&hero(5, 5)), 0);
    assert_eq!(a.distance_squared_to(&hero(6, 5)), 1);
    assert_eq!(a.distance_squared_to(&hero(6, 6)), 2);
    assert_eq!(a.distance_squared_to(&hero(5, 3)), 4);
    assert_eq!(a.distance_squared_to(&hero(2, 9)), 25);
    assert_eq!(hero(2, 9).distance_squared_to(&a), 25);
    let far = hero(i32::MAX, i32::MIN);
    let near = hero(i32::MIN, i32::MAX);
    let side = (1i128 << 32) - 1;
    assert_eq!(far.distance_squared_to(&near), 2 * side * side);
}

#[test]
fn steps_keep_blockers_apart_and_on_floor() {
    let mut map = arena();
    map.set(5, 3, Tile::wall());
    let mut objects = vec![
        hero(5, 5),
        spawn_monster(5, 4, true),
        spawn_monster(6, 5, false),
        Object::new(4, 5, '%', white(), "corpse of orc", false, false),
    ];
    let steps = [(0, -1), (1, 0), (-1, 0), (0, 1), (1, 1), (-1, -1), (0, -2), (2, 0)];
    for round in 0..40 {
        let id = round % 3;
        let (dx, dy) = steps[(round * 5 + 3) % steps.len()];
        let (x, y) = objects[id].pos();
        if x + dx < 0 || y + dy < 0 || x + dx > 11 || y + dy > 11 {
            continue;
        }
        move_by(id, dx, dy, &map, &mut objects);
        for (i, object) in objects.iter().enumerate() {
            if object.blocks {
                assert!(!map.get(object.x, object.y).blocked);
                for other in &objects[i + 1..] {
                    assert!(!other.blocks || other.pos() != object.pos());
                }
            }
        }
    }
}
