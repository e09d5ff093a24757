//! Random generation of a dungeon: rooms are drawn and tried one by one, and
//! monsters are seeded into every accepted room after the first.

use crate::colors::{darker_green, desaturated_green};
use crate::components::{Ai, DeathCallback, Fighter, FighterView};
use crate::dice::{random_bool, random_range, random_ratio};
use crate::grid::Grid;
use crate::layout::{
    intersects_any, laid_out, lemma_room_added_laid_out, place_room, well_laid,
};
use crate::objects::{views, Object, ObjectView, Rect};
use crate::{MAP_HEIGHT, MAP_WIDTH, MAX_ROOMS, MAX_ROOM_MONSTERS, PLAYER, ROOM_MAX_SIZE, ROOM_MIN_SIZE};
use vstd::prelude::*;

verus! {

/// The parameters of map generation.
#[derive(Clone, Copy, Debug, PartialEq, Eq, Structural)]
pub struct MapConfig {
    /// Width of the map.
    pub width: i32,
    /// Height of the map.
    pub height: i32,
    /// Smallest width and height of a room.
    pub room_min_size: i32,
    /// Largest width and height of a room.
    pub room_max_size: i32,
    /// How many candidate rooms are drawn.
    pub max_rooms: i32,
    /// Largest number of monsters seeded into one room.
    pub max_room_monsters: i32,
}

impl MapConfig {
    /// Whether generation can run with these parameters: rooms have an
    /// interior, every room size leaves at least one position on the map, and
    /// the two counts are not negative.
    pub open spec fn valid(&self) -> bool {
        &&& 2 <= self.room_min_size <= self.room_max_size
        &&& self.room_max_size < self.width
        &&& self.room_max_size < self.height
        &&& 0 <= self.max_rooms
        &&& 0 <= self.max_room_monsters < i32::MAX
    }

    /// The parameters of the standard map, as a value for contracts.
    pub open spec fn spec_standard() -> MapConfig {
        MapConfig {
            width: MAP_WIDTH,
            height: MAP_HEIGHT,
            room_min_size: ROOM_MIN_SIZE,
            room_max_size: ROOM_MAX_SIZE,
            max_rooms: MAX_ROOMS,
            max_room_monsters: MAX_ROOM_MONSTERS,
        }
    }

    /// The parameters of the standard map.
    #[verifier::when_used_as_spec(spec_standard)]
    pub fn standard() -> (config: MapConfig)
        ensures
            config == MapConfig::spec_standard(),
            config.valid(),
    {
        MapConfig {
            width: MAP_WIDTH,
            height: MAP_HEIGHT,
            room_min_size: ROOM_MIN_SIZE,
            room_max_size: ROOM_MAX_SIZE,
            max_rooms: MAX_ROOMS,
            max_room_monsters: MAX_ROOM_MONSTERS,
        }
    }

    /// Tests [`MapConfig::valid`].
    pub fn is_valid(&self) -> (b: bool)
        ensures
            b == self.valid(),
    {
        2 <= self.room_min_size && self.room_min_size <= self.room_max_size && self.room_max_size
            < self.width && self.room_max_size < self.height && 0 <= self.max_rooms && 0
            <= self.max_room_monsters && self.max_room_monsters < i32::MAX
    }

    /// Whether `room` has a width and a height these parameters allow.
    pub open spec fn allows(&self, room: Rect) -> bool {
        &&& self.room_min_size <= room.x2 - room.x1 <= self.room_max_size
        &&& self.room_min_size <= room.y2 - room.y1 <= self.room_max_size
    }
}

/// The common, weaker monster, standing on `(x, y)`.
pub open spec fn orc_at(x: int, y: int) -> ObjectView {
    ObjectView {
        x,
        y,
        char: 'o',
        color: desaturated_green(),
        name: "orc"@,
        blocks: true,
        alive: true,
        fighter: Some(
            FighterView { max_hp: 10, hp: 10, defense: 0, power: 3, on_death: DeathCallback::Monster },
        ),
        ai: Some(Ai),
    }
}

/// The rare, stronger monster, standing on `(x, y)`.
pub open spec fn troll_at(x: int, y: int) -> ObjectView {
    ObjectView {
        x,
        y,
        char: 'T',
        color: darker_green(),
        name: "troll"@,
        blocks: true,
        alive: true,
        fighter: Some(
            FighterView { max_hp: 16, hp: 16, defense: 1, power: 4, on_death: DeathCallback::Monster },
        ),
        ai: Some(Ai),
    }
}

/// Whether `o` is a freshly seeded monster of one of the two kinds.
pub open spec fn is_monster(o: ObjectView) -> bool {
    o == orc_at(o.x, o.y) || o == troll_at(o.x, o.y)
}

/// A fresh monster on `(x, y)`: the common kind if `common` holds, the rare
/// kind otherwise.
pub fn spawn_monster(x: i32, y: i32, common: bool) -> (monster: Object)
    ensures
        monster@ == (if common {
            orc_at(x as int, y as int)
        } else {
            troll_at(x as int, y as int)
        }),
{
    if common {
        let mut orc = Object::new(x, y, 'o', desaturated_green(), "orc", true, true);
        orc.fighter = Some(
            Fighter { max_hp: 10, hp: 10, defense: 0, power: 3, on_death: DeathCallback::Monster },
        );
        orc.ai = Some(Ai);
        orc
    } else {
        let mut troll = Object::new(x, y, 'T', darker_green(), "troll", true, true);
        troll.fighter = Some(
            Fighter { max_hp: 16, hp: 16, defense: 1, power: 4, on_death: DeathCallback::Monster },
        );
        troll.ai = Some(Ai);
        troll
    }
}

/// Whether the entities from index `start` on are fresh monsters standing
/// inside `room`.
pub open spec fn seeded_in(objects: Seq<ObjectView>, start: int, room: Rect) -> bool {
    forall|i: int|
        start <= i < objects.len() ==> is_monster(#[trigger] objects[i]) && room.interior(
            objects[i].x,
            objects[i].y,
        )
}

/// Seeds a random number of monsters, at most `max_monsters`, into `room`.
///
/// Each monster stands on a random cell inside the room and is of the common
/// kind four times out of five. The monsters are appended to `objects`; the
/// entities already there are not touched.
pub fn place_monsters(room: &Rect, max_monsters: i32, objects: &mut Vec<Object>)
    requires
        room.x1 + 1 < room.x2,
        room.y1 + 1 < room.y2,
        0 <= max_monsters < i32::MAX,
    ensures
        old(objects)@.len() <= final(objects)@.len() <= old(objects)@.len() + max_monsters,
        final(objects)@.subrange(0, old(objects)@.len() as int) == old(objects)@,
        seeded_in(views(final(objects)@), old(objects)@.len() as int, *room),
{
    let num_monsters = random_range(0, max_monsters + 1);
    let mut n: i32 = 0;
    while n < num_monsters
        invariant
            0 <= n <= num_monsters <= max_monsters,
            room.x1 + 1 < room.x2,
            room.y1 + 1 < room.y2,
            objects@.len() == old(objects)@.len() + n,
            objects@.subrange(0, old(objects)@.len() as int) == old(objects)@,
            seeded_in(views(objects@), old(objects)@.len() as int, *room),
        decreases num_monsters - n,
    {
        let x = random_range(room.x1 + 1, room.x2);
        let y = random_range(room.y1 + 1, room.y2);
        let monster = spawn_monster(x, y, random_ratio(4, 5));
        let ghost earlier = objects@;
        objects.push(monster);
        proof {
            assert(objects@.subrange(0, old(objects)@.len() as int) =~= earlier.subrange(
                0,
                old(objects)@.len() as int,
            ));
            assert forall|i: int| old(objects)@.len() <= i < objects@.len() implies is_monster(
                #[trigger] views(objects@)[i],
            ) && room.interior(views(objects@)[i].x, views(objects@)[i].y) by {
                if i < earlier.len() {
                    assert(views(objects@)[i] == views(earlier)[i]);
                }
            }
        }
        n += 1;
    }
}

/// Seeds a random number of monsters, at most [`MAX_ROOM_MONSTERS`], into
/// `room`, as [`place_monsters`] does.
pub fn place_objects(room: &Rect, objects: &mut Vec<Object>)
    requires
        room.x1 + 1 < room.x2,
        room.y1 + 1 < room.y2,
    ensures
        old(objects)@.len() <= final(objects)@.len() <= old(objects)@.len() + MAX_ROOM_MONSTERS,
        final(objects)@.subrange(0, old(objects)@.len() as int) == old(objects)@,
        seeded_in(views(final(objects)@), old(objects)@.len() as int, *room),
{
    place_monsters(room, MAX_ROOM_MONSTERS, objects)
}

/// Whether `(x, y)` lies inside one of `rooms` other than the first.
pub open spec fn in_later_room(rooms: Seq<Rect>, x: int, y: int) -> bool {
    exists|k: int| 1 <= k < rooms.len() && (#[trigger] rooms[k]).interior(x, y)
}

/// The largest number of monsters that `rooms` accepted rooms can hold when
/// no room receives more than `max_room_monsters` and the first receives
/// none.
pub open spec fn monster_limit(rooms: int, max_room_monsters: int) -> int {
    if rooms > 0 {
        (rooms - 1) * max_room_monsters
    } else {
        0
    }
}

/// What holds of every outcome of generation with the parameters `config`,
/// for the map, the accepted rooms in the order of acceptance, and the
/// entities `before` and `after`.
///
/// The layout is well laid and has the size asked for. No more rooms were
/// accepted than candidates drawn, at least one if any was drawn, and each
/// has an allowed size. The player stands on the center of the first room,
/// or where it stood if there is no room. All other entities that were there
/// are as they were, and behind them stand the seeded monsters, each inside
/// a room other than the first.
pub open spec fn generated(
    config: MapConfig,
    map: Grid,
    rooms: Seq<Rect>,
    before: Seq<ObjectView>,
    after: Seq<ObjectView>,
) -> bool {
    &&& well_laid(map, rooms)
    &&& map.spec_width() == config.width
    &&& map.spec_height() == config.height
    &&& rooms.len() <= config.max_rooms
    &&& config.max_rooms > 0 ==> rooms.len() > 0
    &&& forall|i: int| 0 <= i < rooms.len() ==> config.allows(#[trigger] rooms[i])
    &&& before.len() <= after.len() <= before.len() + monster_limit(
        rooms.len() as int,
        config.max_room_monsters as int,
    )
    &&& rooms.len() > 0 ==> after[PLAYER as int] == (ObjectView {
        x: rooms[0].spec_center().0,
        y: rooms[0].spec_center().1,
        ..before[PLAYER as int]
    })
    &&& rooms.len() == 0 ==> after =~= before
    &&& forall|i: int| PLAYER < i < before.len() ==> #[trigger] after[i] == before[i]
    &&& forall|i: int|
        before.len() <= i < after.len() ==> is_monster(#[trigger] after[i]) && in_later_room(
            rooms,
            after[i].x,
            after[i].y,
        )
}

/// Generates a dungeon with the parameters `config`.
///
/// Starting from a map of walls, `config.max_rooms` candidate rooms are drawn
/// at random, each with a random size within the allowed range and a random
/// position at which it fits the map. A candidate that intersects an accepted
/// room is dropped; every other candidate is placed as [`place_room`] says,
/// with a random choice between the two corridors, and then, unless it is the
/// first room, seeded with monsters as [`place_monsters`] says.
///
/// Returns the map and the accepted rooms in the order of acceptance.
pub fn generate(config: &MapConfig, objects: &mut Vec<Object>) -> (dungeon: (Grid, Vec<Rect>))
    requires
        config.valid(),
        config.max_rooms > 0 ==> old(objects)@.len() > PLAYER,
    ensures
        generated(*config, dungeon.0, dungeon.1@, views(old(objects)@), views(final(objects)@)),
        exists|turns: Seq<bool>| #[trigger] laid_out(dungeon.0, dungeon.1@, turns),
{
    let mut map = Grid::new(config.width, config.height);
    let mut rooms: Vec<Rect> = Vec::new();
    let ghost before = views(objects@);
    let ghost mut turns: Seq<bool> = Seq::empty();
    let mut attempt: i32 = 0;
    while attempt < config.max_rooms
        invariant
            config.valid(),
            0 <= attempt <= config.max_rooms,
            config.max_rooms > 0 ==> objects@.len() > PLAYER,
            before.len() == old(objects)@.len(),
            before == views(old(objects)@),
            rooms@.len() <= attempt,
            attempt > 0 ==> rooms@.len() > 0,
            laid_out(map, rooms@, turns),
            generated(
                MapConfig { max_rooms: attempt, ..*config },
                map,
                rooms@,
                before,
                views(objects@),
            ),
        decreases config.max_rooms - attempt,
    {
        let w = random_range(config.room_min_size, config.room_max_size + 1);
        let h = random_range(config.room_min_size, config.room_max_size + 1);
        let x = random_range(0, config.width - w);
        let y = random_range(0, config.height - h);
        let new_room = Rect::new(x, y, w, h);
        if !intersects_any(&new_room, &rooms) {
            let first = rooms.is_empty();
            let horizontal_first = if first {
                true
            } else {
                random_bool()
            };
            let ghost earlier_rooms = rooms@;
            let ghost earlier_map = map;
            let ghost placed = views(objects@);
            place_room(&new_room, horizontal_first, &mut rooms, &mut map, objects.as_mut_slice());
            proof {
                lemma_room_added_laid_out(
                    earlier_map,
                    map,
                    earlier_rooms,
                    turns,
                    new_room,
                    horizontal_first,
                );
                turns = turns.push(horizontal_first);
            }
            let ghost spawned_objects = views(objects@);
            if !first {
                place_monsters(&new_room, config.max_room_monsters, objects);
            }
            proof {
                let after = views(objects@);
                let k = earlier_rooms.len() as int;
                assert(rooms@[k] == new_room);
                assert forall|i: int| 0 <= i < spawned_objects.len() implies after[i]
                    == spawned_objects[i] by {
                    assert(objects@.subrange(0, spawned_objects.len() as int)[i] == objects@[i]);
                }
                assert forall|i: int| before.len() <= i < after.len() implies is_monster(
                    #[trigger] after[i],
                ) && in_later_room(rooms@, after[i].x, after[i].y) by {
                    if i < placed.len() {
                        assert(after[i] == placed[i]);
                        let r = choose|r: int|
                            1 <= r < earlier_rooms.len() && (#[trigger] earlier_rooms[r]).interior(
                                placed[i].x,
                                placed[i].y,
                            );
                        assert(rooms@[r].interior(after[i].x, after[i].y));
                    } else {
                        assert(rooms@[k].interior(after[i].x, after[i].y));
                    }
                }
                assert(after.len() <= before.len() + monster_limit(
                    rooms@.len() as int,
                    config.max_room_monsters as int,
                )) by (nonlinear_arith)
                    requires
                        placed.len() <= before.len() + monster_limit(
                            k,
                            config.max_room_monsters as int,
                        ),
                        rooms@.len() == k + 1,
                        k >= 0,
                        config.max_room_monsters >= 0,
                        k == 0 ==> after.len() == placed.len(),
                        after.len() <= placed.len() + config.max_room_monsters,
                {
                }
            }
        }
        attempt += 1;
    }
    (map, rooms)
}

/// Whether `map` and the entities `after` are an outcome of generation with
/// the parameters `config` from the entities `before`: some rooms and some
/// choice of corridors give the map as [`laid_out`] says, and [`generated`]
/// holds of them.
pub open spec fn is_generated(
    config: MapConfig,
    map: Grid,
    before: Seq<ObjectView>,
    after: Seq<ObjectView>,
) -> bool {
    exists|rooms: Seq<Rect>, turns: Seq<bool>| #[trigger]
        laid_out(map, rooms, turns) && generated(config, map, rooms, before, after)
}

/// Generates the standard dungeon, as [`generate`] does with
/// [`MapConfig::standard`], and returns its map.
pub fn make_map(objects: &mut Vec<Object>) -> (map: Grid)
    requires
        old(objects)@.len() > PLAYER,
    ensures
        is_generated(MapConfig::standard(), map, views(old(objects)@), views(final(objects)@)),
{
    let config = MapConfig::standard();
    let (map, rooms) = generate(&config, objects);
    proof {
        let turns = choose|turns: Seq<bool>| #[trigger] laid_out(map, rooms@, turns);
        assert(laid_out(map, rooms@, turns) && generated(
            MapConfig::standard(),
            map,
            rooms@,
            views(old(objects)@),
            views(objects@),
        ));
    }
    map
}

} // verus!
