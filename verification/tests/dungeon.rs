use roguelike::colors::{darker_green, desaturated_green, white};
use roguelike::components::{Ai, DeathCallback, Fighter};
use roguelike::generation::{generate, place_monsters, spawn_monster, MapConfig};
use roguelike::grid::Grid;
use roguelike::layout::{add_room, intersects_any, place_room};
use roguelike::objects::{Object, Rect, Tile};
use roguelike::{
    create_h_tunnel, create_room, create_v_tunnel, make_map, place_objects, MAP_HEIGHT, MAP_WIDTH,
    MAX_ROOMS, MAX_ROOM_MONSTERS, PLAYER,
};

fn player_at(x: i32, y: i32) -> Object {
    let mut player = Object::new(x, y, '@', white(), "player", true, true);
    player.fighter = Some(Fighter {
        max_hp: 30,
        hp: 30,
        defense: 2,
        power: 5,
        on_death: DeathCallback::Player,
    });
    player
}

fn floor_cells(map: &Grid) -> Vec<(i32, i32)> {
    let mut cells = Vec::new();
    for x in 0..map.width() {
        for y in 0..map.height() {
            if !map.get(x, y).blocked {
                cells.push((x, y));
            }
        }
    }
    cells
}

fn reachable_from(map: &Grid, start: (i32, i32)) -> Vec<Vec<bool>> {
    let mut seen = vec![vec![false; map.height() as usize]; map.width() as usize];
    if map.get(start.0, start.1).blocked {
        return seen;
    }
    let mut stack = vec![start];
    seen[start.0 as usize][start.1 as usize] = true;
    while let Some((x, y)) = stack.pop() {
        for (dx, dy) in [(1, 0), (-1, 0), (0, 1), (0, -1)] {
            let (nx, ny) = (x + dx, y + dy);
            if nx < 0 || ny < 0 || nx >= map.width() || ny >= map.height() {
                continue;
            }
            if !map.get(nx, ny).blocked && !seen[nx as usize][ny as usize] {
                seen[nx as usize][ny as usize] = true;
                stack.push((nx, ny));
            }
        }
    }
    seen
}

fn check_dungeon(config: &MapConfig, map: &Grid, rooms: &[Rect], objects: &[Object], before: usize) {
    assert_eq!(map.width(), config.width);
    assert_eq!(map.height(), config.height);
    assert!(rooms.len() as i32 <= config.max_rooms);
    if config.max_rooms > 0 {
        assert!(!rooms.is_empty());
    }
    for x in 0..map.width() {
        for y in 0..map.height() {
            let tile = map.get(x, y);
            assert!(tile == Tile::wall() || tile == Tile::empty());
            if x == 0 || y == 0 || x == map.width() - 1 || y == map.height() - 1 {
                assert!(tile.blocked);
            }
        }
    }
    for (i, room) in rooms.iter().enumerate() {
        assert!(0 <= room.x1 && room.x2 < config.width);
        assert!(0 <= room.y1 && room.y2 < config.height);
        let (w, h) = (room.x2 - room.x1, room.y2 - room.y1);
        assert!(config.room_min_size <= w && w <= config.room_max_size);
        assert!(config.room_min_size <= h && h <= config.room_max_size);
        for x in room.x1 + 1..room.x2 {
            for y in room.y1 + 1..room.y2 {
                assert!(!map.get(x, y).blocked);
            }
        }
        for other in &rooms[i + 1..] {
            assert!(!room.intersects_with(other));
            assert!(!other.intersects_with(room));
        }
    }
    if let Some(first) = rooms.first() {
        assert_eq!(objects[PLAYER].pos(), first.center());
        let seen = reachable_from(map, first.center());
        for (x, y) in floor_cells(map) {
            assert!(seen[x as usize][y as usize]);
        }
        for room in rooms {
            let from_room = reachable_from(map, room.center());
            assert_eq!(from_room, seen);
        }
    } else {
        assert!(floor_cells(map).is_empty());
    }
    assert!(objects.len() >= before);
    let limit = config.max_room_monsters as usize * rooms.len().saturating_sub(1);
    assert!(objects.len() - before <= limit);
    for monster in &objects[before..] {
        let (x, y) = monster.pos();
        assert!(rooms[1..].iter().any(|r| r.x1 < x && x < r.x2 && r.y1 < y && y < r.y2));
        assert!(!map.get(x, y).blocked);
        assert!(monster.blocks && monster.alive);
        assert_eq!(monster.ai, Some(Ai));
        let fighter = monster.fighter.unwrap();
        if monster.name == "orc" {
            assert_eq!(monster.char, 'o');
            assert_eq!(monster.color, desaturated_green());
            assert_eq!(
                fighter,
                Fighter { max_hp: 10, hp: 10, defense: 0, power: 3, on_death: DeathCallback::Monster }
            );
        } else {
            assert_eq!(monster.name, "troll");
            assert_eq!(monster.char, 'T');
            assert_eq!(monster.color, darker_green());
            assert_eq!(
                fighter,
                Fighter { max_hp: 16, hp: 16, defense: 1, power: 4, on_death: DeathCallback::Monster }
            );
        }
    }
}

#[test]
fn new_grid_is_all_walls() {
    let map = Grid::new(7, 5);
    assert_eq!((map.width(), map.height()), (7, 5));
    for x in 0..7 {
        for y in 0..5 {
            assert_eq!(map.get(x, y), Tile::wall());
        }
    }
    assert!(map.is_enclosed());
}

#[test]
fn empty_grid_has_no_cells() {
    let map = Grid::new(0, 0);
    assert_eq!((map.width(), map.height()), (0, 0));
    assert!(map.is_enclosed());
}

#[test]
fn set_replaces_one_tile() {
    let mut map = Grid::new(4, 4);
    let tile = Tile { blocked: false, block_sight: true, explored: true };
    map.set(2, 1, tile);
    for x in 0..4 {
        for y in 0..4 {
            let expected = if (x, y) == (2, 1) { tile } else { Tile::wall() };
            assert_eq!(map.get(x, y), expected);
        }
    }
}

#[test]
fn floor_on_the_edge_breaks_the_enclosure() {
    for (x, y) in [(0, 2), (5, 2), (3, 0), (3, 4), (0, 0), (5, 4)] {
        let mut map = Grid::new(6, 5);
        map.set(x, y, Tile::empty());
        assert!(!map.is_enclosed());
    }
    let mut map = Grid::new(6, 5);
    map.set(1, 1, Tile::empty());
    map.set(4, 3, Tile::empty());
    assert!(map.is_enclosed());
}

#[test]
fn create_room_carves_the_interior_only() {
    let mut map = Grid::new(12, 10);
    let room = Rect::new(2, 3, 5, 4);
    create_room(&room, &mut map);
    for x in 0..12 {
        for y in 0..10 {
            let inside = 2 < x && x < 7 && 3 < y && y < 7;
            let expected = if inside { Tile::empty() } else { Tile::wall() };
            assert_eq!(map.get(x, y), expected);
        }
    }
    assert_eq!(floor_cells(&map).len(), 12);
}

#[test]
fn create_room_resets_explored_tiles_inside() {
    let mut map = Grid::new(8, 8);
    map.set(3, 3, Tile { blocked: true, block_sight: true, explored: true });
    map.set(0, 0, Tile { blocked: true, block_sight: true, explored: true });
    create_room(&Rect::new(1, 1, 4, 4), &mut map);
    assert_eq!(map.get(3, 3), Tile::empty());
    assert!(map.get(0, 0).explored);
}

#[test]
fn room_without_interior_carves_nothing() {
    let mut map = Grid::new(8, 8);
    create_room(&Rect::new(2, 2, 1, 5), &mut map);
    create_room(&Rect::new(2, 2, 5, 1), &mut map);
    create_room(&Rect::new(2, 2, 0, 0), &mut map);
    create_room(&Rect { x1: 5, y1: 5, x2: 1, y2: 1 }, &mut map);
    assert!(floor_cells(&map).is_empty());
}

#[test]
fn h_tunnel_includes_both_ends() {
    let mut map = Grid::new(10, 6);
    create_h_tunnel(2, 6, 3, &mut map);
    assert_eq!(floor_cells(&map), vec![(2, 3), (3, 3), (4, 3), (5, 3), (6, 3)]);
}

#[test]
fn h_tunnel_runs_either_way() {
    let mut forward = Grid::new(10, 6);
    create_h_tunnel(1, 8, 2, &mut forward);
    let mut backward = Grid::new(10, 6);
    create_h_tunnel(8, 1, 2, &mut backward);
    assert_eq!(floor_cells(&forward), floor_cells(&backward));
    assert_eq!(floor_cells(&forward).len(), 8);
}

#[test]
fn v_tunnel_includes_both_ends() {
    let mut map = Grid::new(6, 10);
    create_v_tunnel(7, 4, 2, &mut map);
    assert_eq!(floor_cells(&map), vec![(2, 4), (2, 5), (2, 6), (2, 7)]);
}

#[test]
fn tunnel_of_one_cell() {
    let mut map = Grid::new(6, 6);
    create_h_tunnel(3, 3, 2, &mut map);
    assert_eq!(floor_cells(&map), vec![(3, 2)]);
    create_v_tunnel(4, 4, 1, &mut map);
    assert_eq!(floor_cells(&map), vec![(1, 4), (3, 2)]);
}

#[test]
fn intersects_any_looks_at_every_room() {
    let rooms = vec![Rect::new(0, 0, 4, 4), Rect::new(10, 10, 4, 4), Rect::new(20, 0, 4, 4)];
    assert!(intersects_any(&Rect::new(22, 2, 5, 5), &rooms));
    assert!(intersects_any(&Rect::new(4, 4, 2, 2), &rooms));
    assert!(!intersects_any(&Rect::new(5, 5, 4, 4), &rooms));
    assert!(!intersects_any(&Rect::new(0, 0, 4, 4), &Vec::new()));
}

#[test]
fn first_room_receives_the_player() {
    let mut map = Grid::new(30, 20);
    let mut rooms = Vec::new();
    let mut objects = vec![player_at(25, 15), spawn_monster(1, 1, true)];
    let room = Rect::new(3, 2, 8, 6);
    assert!(add_room(&room, true, &mut rooms, &mut map, &mut objects));
    assert_eq!(rooms, vec![room]);
    assert_eq!(objects[PLAYER].pos(), (7, 5));
    assert_eq!(objects[PLAYER].name, "player");
    assert_eq!(objects[PLAYER].fighter.unwrap().hp, 30);
    assert_eq!(objects[1].pos(), (1, 1));
    assert_eq!(floor_cells(&map).len(), 7 * 5);
    assert!(!map.get(7, 5).blocked);
}

#[test]
fn second_attempt_rejected_third_accepted() {
    let mut map = Grid::new(MAP_WIDTH, MAP_HEIGHT);
    let mut rooms = Vec::new();
    let mut objects = vec![player_at(40, 25)];
    let first = Rect::new(5, 5, 10, 10);
    let second = Rect::new(10, 10, 10, 10);
    let third = Rect::new(30, 20, 10, 10);
    assert!(add_room(&first, true, &mut rooms, &mut map, &mut objects));
    let cells_after_first = floor_cells(&map);
    assert!(!add_room(&second, true, &mut rooms, &mut map, &mut objects));
    assert_eq!(floor_cells(&map), cells_after_first);
    assert_eq!(rooms, vec![first]);
    assert!(add_room(&third, true, &mut rooms, &mut map, &mut objects));
    assert_eq!(rooms, vec![first, third]);
    assert_eq!(objects.len(), 1);
    assert_eq!(objects[PLAYER].pos(), first.center());
    assert_eq!(objects[PLAYER].pos(), (10, 10));

    for x in 0..MAP_WIDTH {
        for y in 0..MAP_HEIGHT {
            let in_first = 5 < x && x < 15 && 5 < y && y < 15;
            let in_third = 30 < x && x < 40 && 20 < y && y < 30;
            let in_tunnel = (y == 10 && 10 <= x && x <= 35) || (x == 35 && 10 <= y && y <= 25);
            let expected = if in_first || in_third || in_tunnel { Tile::empty() } else { Tile::wall() };
            assert_eq!(map.get(x, y), expected);
        }
    }
    assert_eq!(floor_cells(&map).len(), 193);
    let seen = reachable_from(&map, first.center());
    assert!(seen[35][25]);
    assert!(floor_cells(&map).iter().all(|&(x, y)| seen[x as usize][y as usize]));
}

#[test]
fn corridor_can_start_along_the_column() {
    let mut map = Grid::new(MAP_WIDTH, MAP_HEIGHT);
    let mut rooms = Vec::new();
    let mut objects = vec![player_at(40, 25)];
    let first = Rect::new(5, 5, 10, 10);
    let next = Rect::new(30, 20, 10, 10);
    place_room(&first, false, &mut rooms, &mut map, &mut objects);
    place_room(&next, false, &mut rooms, &mut map, &mut objects);
    assert!(!map.get(10, 25).blocked);
    assert!(map.get(35, 10).blocked);
    for y in 10..=25 {
        assert!(!map.get(10, y).blocked);
    }
    for x in 10..=35 {
        assert!(!map.get(x, 25).blocked);
    }
    assert_eq!(floor_cells(&map).len(), 193);
    assert_eq!(objects[PLAYER].pos(), (10, 10));
}

#[test]
fn corridor_leads_back_to_a_room_on_the_left() {
    let mut map = Grid::new(40, 30);
    let mut rooms = Vec::new();
    let mut objects = vec![player_at(0, 0)];
    let first = Rect::new(25, 18, 6, 6);
    let next = Rect::new(2, 2, 6, 6);
    assert!(add_room(&first, true, &mut rooms, &mut map, &mut objects));
    assert!(add_room(&next, true, &mut rooms, &mut map, &mut objects));
    assert_eq!(first.center(), (28, 21));
    assert_eq!(next.center(), (5, 5));
    for x in 5..=28 {
        assert!(!map.get(x, 21).blocked);
    }
    for y in 5..=21 {
        assert!(!map.get(5, y).blocked);
    }
    assert_eq!(objects[PLAYER].pos(), (28, 21));
    let seen = reachable_from(&map, (28, 21));
    assert!(seen[5][5]);
}

#[test]
fn place_room_does_not_ask_about_intersections() {
    let mut map = Grid::new(30, 30);
    let mut rooms = Vec::new();
    let mut objects = vec![player_at(0, 0)];
    let first = Rect::new(2, 2, 8, 8);
    let overlapping = Rect::new(6, 6, 8, 8);
    place_room(&first, true, &mut rooms, &mut map, &mut objects);
    place_room(&overlapping, true, &mut rooms, &mut map, &mut objects);
    assert_eq!(rooms, vec![first, overlapping]);
    assert!(!map.get(13, 13).blocked);
    assert_eq!(objects[PLAYER].pos(), (6, 6));
}

#[test]
fn spawn_monster_makes_an_orc_or_a_troll() {
    let orc = spawn_monster(4, 9, true);
    assert_eq!(orc.pos(), (4, 9));
    assert_eq!(orc.char, 'o');
    assert_eq!(orc.color, desaturated_green());
    assert_eq!(orc.name, "orc");
    assert!(orc.blocks && orc.alive);
    assert_eq!(
        orc.fighter,
        Some(Fighter { max_hp: 10, hp: 10, defense: 0, power: 3, on_death: DeathCallback::Monster })
    );
    assert_eq!(orc.ai, Some(Ai));
    let troll = spawn_monster(-1, 0, false);
    assert_eq!(troll.pos(), (-1, 0));
    assert_eq!(troll.char, 'T');
    assert_eq!(troll.color, darker_green());
    assert_eq!(troll.name, "troll");
    assert!(troll.blocks && troll.alive);
    assert_eq!(
        troll.fighter,
        Some(Fighter { max_hp: 16, hp: 16, defense: 1, power: 4, on_death: DeathCallback::Monster })
    );
    assert_eq!(troll.ai, Some(Ai));
}

#[test]
fn place_objects_appends_monsters_inside_the_room() {
    let room = Rect::new(10, 20, 6, 4);
    for _ in 0..200 {
        let mut objects = vec![player_at(1, 1)];
        place_objects(&room, &mut objects);
        assert!(objects.len() <= 1 + MAX_ROOM_MONSTERS as usize);
        assert_eq!(objects[0].pos(), (1, 1));
        assert_eq!(objects[0].name, "player");
        for monster in &objects[1..] {
            let (x, y) = monster.pos();
            assert!(10 < x && x < 16 && 20 < y && y < 24);
            assert!(monster.name == "orc" || monster.name == "troll");
        }
    }
}

#[test]
fn place_monsters_with_a_limit_of_zero_adds_nothing() {
    let mut objects = vec![player_at(1, 1)];
    for _ in 0..50 {
        place_monsters(&Rect::new(0, 0, 5, 5), 0, &mut objects);
    }
    assert_eq!(objects.len(), 1);
}

#[test]
fn monster_draws_vary() {
    let room = Rect::new(0, 0, 30, 30);
    let mut counts = [false; 6];
    let mut columns = std::collections::BTreeSet::new();
    let mut rows = std::collections::BTreeSet::new();
    let (mut orcs, mut trolls) = (0, 0);
    for _ in 0..400 {
        let mut objects = Vec::new();
        place_monsters(&room, 5, &mut objects);
        counts[objects.len()] = true;
        for monster in &objects {
            columns.insert(monster.x);
            rows.insert(monster.y);
            if monster.name == "orc" {
                orcs += 1;
            } else {
                trolls += 1;
            }
        }
    }
    assert!(counts.iter().all(|&seen| seen));
    assert!(columns.len() > 10 && rows.len() > 10);
    assert!(columns.iter().all(|&x| 0 < x && x < 30));
    assert!(orcs > trolls && trolls > 0);
}

#[test]
fn generation_without_attempts_leaves_everything_in_place() {
    let config = MapConfig {
        width: 20,
        height: 15,
        room_min_size: 3,
        room_max_size: 5,
        max_rooms: 0,
        max_room_monsters: 2,
    };
    assert!(config.is_valid());
    let mut objects = vec![player_at(9, 9)];
    let (map, rooms) = generate(&config, &mut objects);
    assert!(rooms.is_empty());
    assert_eq!(objects.len(), 1);
    assert_eq!(objects[PLAYER].pos(), (9, 9));
    assert!(floor_cells(&map).is_empty());
    check_dungeon(&config, &map, &rooms, &objects, 1);
    let mut nobody = Vec::new();
    let (map, rooms) = generate(&config, &mut nobody);
    assert!(rooms.is_empty() && nobody.is_empty());
    assert_eq!((map.width(), map.height()), (20, 15));
}

#[test]
fn generation_with_one_attempt_accepts_it() {
    let config = MapConfig {
        width: 20,
        height: 15,
        room_min_size: 3,
        room_max_size: 5,
        max_rooms: 1,
        max_room_monsters: 4,
    };
    for _ in 0..50 {
        let mut objects = vec![player_at(0, 0)];
        let (map, rooms) = generate(&config, &mut objects);
        assert_eq!(rooms.len(), 1);
        assert_eq!(objects.len(), 1);
        check_dungeon(&config, &map, &rooms, &objects, 1);
    }
}

#[test]
fn generated_dungeons_are_well_laid() {
    let config = MapConfig {
        width: 40,
        height: 30,
        room_min_size: 2,
        room_max_size: 8,
        max_rooms: 25,
        max_room_monsters: 3,
    };
    assert!(config.is_valid());
    for _ in 0..40 {
        let mut objects = vec![player_at(0, 0), Object::new(3, 3, '!', white(), "potion", false, false)];
        let (map, rooms) = generate(&config, &mut objects);
        assert_eq!(objects[1].pos(), (3, 3));
        assert_eq!(objects[1].name, "potion");
        check_dungeon(&config, &map, &rooms, &objects, 2);
    }
}

#[test]
fn generation_draws_vary() {
    let config = MapConfig {
        width: 60,
        height: 40,
        room_min_size: 3,
        room_max_size: 9,
        max_rooms: 12,
        max_room_monsters: 0,
    };
    let mut corners = std::collections::BTreeSet::new();
    let mut sizes = std::collections::BTreeSet::new();
    let (mut row_first, mut column_first) = (0, 0);
    for _ in 0..60 {
        let mut objects = vec![player_at(0, 0)];
        let (map, rooms) = generate(&config, &mut objects);
        assert_eq!(objects.len(), 1);
        for room in &rooms {
            corners.insert((room.x1, room.y1));
            sizes.insert((room.x2 - room.x1, room.y2 - room.y1));
        }
        if rooms.len() >= 2 {
            let (from, to) = (rooms[0].center(), rooms[1].center());
            let along_row = !map.get(to.0, from.1).blocked;
            let along_column = !map.get(from.0, to.1).blocked;
            assert!(along_row || along_column);
            if along_row && !along_column {
                row_first += 1;
            }
            if along_column && !along_row {
                column_first += 1;
            }
        }
    }
    assert!(corners.len() > 50);
    assert!(sizes.len() > 10);
    assert!(corners.iter().any(|&(x, _)| x != 0));
    assert!(corners.iter().any(|&(_, y)| y != 0));
    assert!(sizes.iter().any(|&(w, _)| w != 3));
    assert!(row_first > 0 && column_first > 0);
}

#[test]
fn standard_map_has_the_standard_size() {
    let config = MapConfig::standard();
    assert!(config.is_valid());
    assert_eq!(config.width, MAP_WIDTH);
    assert_eq!(config.height, MAP_HEIGHT);
    assert_eq!(config.max_rooms, MAX_ROOMS);
    assert_eq!(config.max_room_monsters, MAX_ROOM_MONSTERS);
    let mut objects = vec![player_at(40, 25)];
    let map = make_map(&mut objects);
    assert_eq!((map.width(), map.height()), (80, 45));
    assert!(map.is_enclosed());
    let (x, y) = objects[PLAYER].pos();
    assert!(!map.get(x, y).blocked);
    let seen = reachable_from(&map, (x, y));
    for (fx, fy) in floor_cells(&map) {
        assert!(seen[fx as usize][fy as usize]);
    }
    for monster in &objects[1..] {
        assert!(!map.get(monster.x, monster.y).blocked);
        assert!(monster.name == "orc" || monster.name == "troll");
    }
    assert!(floor_cells(&map).len() >= 81);
}

#[test]
fn invalid_configurations_are_recognised() {
    let good = MapConfig {
        width: 20,
        height: 15,
        room_min_size: 2,
        room_max_size: 5,
        max_rooms: 3,
        max_room_monsters: 0,
    };
    assert!(good.is_valid());
    assert!(!MapConfig { room_min_size: 1, ..good }.is_valid());
    assert!(!MapConfig { room_min_size: 6, ..good }.is_valid());
    assert!(!MapConfig { width: 5, ..good }.is_valid());
    assert!(!MapConfig { height: 5, ..good }.is_valid());
    assert!(!MapConfig { max_rooms: -1, ..good }.is_valid());
    assert!(!MapConfig { max_room_monsters: -1, ..good }.is_valid());
    assert!(!MapConfig { max_room_monsters: i32::MAX, ..good }.is_valid());
    assert!(MapConfig { width: 6, height: 6, ..good }.is_valid());
}
