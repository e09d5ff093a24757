//! Laying out a dungeon room by room: acceptance of a candidate room, the
//! corridor to its predecessor, and the properties every layout built this
//! way has.

use crate::carve::{create_h_tunnel, create_room, create_v_tunnel, in_h_tunnel, in_v_tunnel};
use crate::grid::Grid;
use crate::objects::{views, Object, ObjectView, Rect, Tile};
use crate::reach::{
    all_floor_reachable_from, connected, floor_kept, lemma_column_connected, lemma_connected_mono,
    lemma_connected_sym, lemma_connected_trans, lemma_row_connected,
};
use crate::PLAYER;
use vstd::prelude::*;

verus! {

impl Rect {
    /// Whether the rectangle, border included, lies on the map.
    pub open spec fn fits(&self, map: &Grid) -> bool {
        &&& 0 <= self.x1 <= self.x2 < map.spec_width()
        &&& 0 <= self.y1 <= self.y2 < map.spec_height()
    }

    /// Whether the rectangle is at least two cells wide and high, so that it
    /// has an interior and its center lies in it.
    pub open spec fn proper(&self) -> bool {
        self.x1 + 2 <= self.x2 && self.y1 + 2 <= self.y2
    }
}

/// Whether `room` intersects one of `rooms`.
pub open spec fn overlaps_any(room: Rect, rooms: Seq<Rect>) -> bool {
    exists|i: int| 0 <= i < rooms.len() && room.intersects(&#[trigger] rooms[i])
}

/// Whether `(x, y)` lies on the L-shaped corridor between `from` and `to`:
/// either along the row of `from` and then the column of `to`, or along the
/// column of `from` and then the row of `to`.
pub open spec fn in_corridor(
    from: (int, int),
    to: (int, int),
    horizontal_first: bool,
    x: int,
    y: int,
) -> bool {
    if horizontal_first {
        in_h_tunnel(from.0, to.0, from.1, x, y) || in_v_tunnel(from.1, to.1, to.0, x, y)
    } else {
        in_v_tunnel(from.1, to.1, from.0, x, y) || in_h_tunnel(from.0, to.0, to.1, x, y)
    }
}

/// Whether accepting `room` after `rooms` turns `(x, y)` into floor: the
/// cell lies inside the room, or on the corridor from the center of the last
/// room to the center of the new one.
pub open spec fn newly_carved(
    rooms: Seq<Rect>,
    room: Rect,
    horizontal_first: bool,
    x: int,
    y: int,
) -> bool {
    ||| room.interior(x, y)
    ||| rooms.len() > 0 && in_corridor(
        rooms.last().spec_center(),
        room.spec_center(),
        horizontal_first,
        x,
        y,
    )
}

/// Whether `after` is `before` with `room` accepted after `rooms`: the newly
/// carved cells are floor and every other tile is as it was.
pub open spec fn room_added(
    before: Grid,
    after: Grid,
    rooms: Seq<Rect>,
    room: Rect,
    horizontal_first: bool,
) -> bool {
    &&& after.wf()
    &&& after.same_size(&before)
    &&& forall|x: int, y: int|
        before.in_bounds(x, y) ==> #[trigger] after.tile_at(x, y) == (if newly_carved(
            rooms,
            room,
            horizontal_first,
            x,
            y,
        ) {
            Tile::empty()
        } else {
            before.tile_at(x, y)
        })
}

/// Whether `(x, y)` is carved when the room in slot `k` of `rooms` is
/// accepted: the cell lies inside that room, or on the corridor from the room
/// before it, whose shape `turns[k]` gives.
pub open spec fn carved_with(rooms: Seq<Rect>, turns: Seq<bool>, k: int, x: int, y: int) -> bool {
    ||| rooms[k].interior(x, y)
    ||| k > 0 && in_corridor(rooms[k - 1].spec_center(), rooms[k].spec_center(), turns[k], x, y)
}

/// Whether `(x, y)` is carved by accepting `rooms` one after the other, with
/// the corridors shaped as `turns` says.
pub open spec fn is_carved(rooms: Seq<Rect>, turns: Seq<bool>, x: int, y: int) -> bool {
    exists|k: int| 0 <= k < rooms.len() && #[trigger] carved_with(rooms, turns, k, x, y)
}

/// Whether `map` is the dungeon that accepting `rooms` one after the other
/// makes of a map of walls, with the corridors shaped as `turns` says: the
/// carved cells are pristine floor and all others pristine wall.
pub open spec fn laid_out(map: Grid, rooms: Seq<Rect>, turns: Seq<bool>) -> bool {
    &&& map.wf()
    &&& turns.len() == rooms.len()
    &&& forall|x: int, y: int|
        map.in_bounds(x, y) ==> #[trigger] map.tile_at(x, y) == (if is_carved(rooms, turns, x, y) {
            Tile::empty()
        } else {
            Tile::wall()
        })
}

/// Accepting one more room extends a laid-out dungeon by that room and its
/// corridor.
pub proof fn lemma_room_added_laid_out(
    before: Grid,
    after: Grid,
    rooms: Seq<Rect>,
    turns: Seq<bool>,
    room: Rect,
    horizontal_first: bool,
)
    requires
        laid_out(before, rooms, turns),
        room_added(before, after, rooms, room, horizontal_first),
    ensures
        laid_out(after, rooms.push(room), turns.push(horizontal_first)),
{
    let grown = rooms.push(room);
    let longer = turns.push(horizontal_first);
    let last = rooms.len() as int;
    assert forall|x: int, y: int| after.in_bounds(x, y) implies #[trigger] after.tile_at(x, y) == (
    if is_carved(grown, longer, x, y) {
        Tile::empty()
    } else {
        Tile::wall()
    }) by {
        assert(before.in_bounds(x, y));
        assert(carved_with(grown, longer, last, x, y) == newly_carved(
            rooms,
            room,
            horizontal_first,
            x,
            y,
        ));
        assert forall|k: int| 0 <= k < last implies carved_with(grown, longer, k, x, y)
            == carved_with(rooms, turns, k, x, y) by {}
        if is_carved(rooms, turns, x, y) {
            let k = choose|k: int| 0 <= k < rooms.len() && #[trigger] carved_with(rooms, turns, k, x, y);
            assert(carved_with(grown, longer, k, x, y));
        }
        if is_carved(grown, longer, x, y) {
            let k = choose|k: int|
                0 <= k < grown.len() && #[trigger] carved_with(grown, longer, k, x, y);
            if k < last {
                assert(carved_with(rooms, turns, k, x, y));
            }
        }
    }
}

/// The entities after the player, if this is the first room, has been put on
/// the center of `room`.
pub open spec fn spawned(objects: Seq<ObjectView>, rooms: Seq<Rect>, room: Rect) -> Seq<
    ObjectView,
> {
    if rooms.len() == 0 {
        objects.update(
            PLAYER as int,
            ObjectView { x: room.spec_center().0, y: room.spec_center().1, ..objects[PLAYER as int] },
        )
    } else {
        objects
    }
}

/// What holds of every map and list of accepted rooms that generation
/// produces.
///
/// The rooms lie on the map, have an interior and do not intersect one
/// another. Every tile is a pristine wall or floor tile, the outer edge of
/// the map is wall, and the interior of every room is floor. Every floor cell
/// can be reached from the center of the first room; without rooms there is no
/// floor at all.
pub open spec fn well_laid(map: Grid, rooms: Seq<Rect>) -> bool {
    &&& map.wf()
    &&& map.enclosed()
    &&& forall|x: int, y: int|
        map.in_bounds(x, y) ==> #[trigger] map.tile_at(x, y) == Tile::wall() || map.tile_at(x, y)
            == Tile::empty()
    &&& forall|i: int| 0 <= i < rooms.len() ==> (#[trigger] rooms[i]).fits(&map) && rooms[i].proper()
    &&& forall|i: int, j: int|
        #![trigger rooms[i], rooms[j]]
        0 <= i < j < rooms.len() ==> !rooms[i].intersects(&rooms[j])
    &&& forall|i: int, x: int, y: int|
        #![trigger rooms[i].interior(x, y)]
        0 <= i < rooms.len() && rooms[i].interior(x, y) ==> map.is_floor(x, y)
    &&& rooms.len() == 0 ==> forall|x: int, y: int| !#[trigger] map.is_floor(x, y)
    &&& rooms.len() > 0 ==> all_floor_reachable_from(map, rooms[0].spec_center())
}

/// The center of a rectangle with ordered corners lies in the rectangle, and
/// strictly inside it when the rectangle has an interior.
pub proof fn lemma_center_inside(room: Rect)
    requires
        room.x1 <= room.x2,
        room.y1 <= room.y2,
    ensures
        room.covers(room.spec_center().0, room.spec_center().1),
        room.proper() ==> room.interior(room.spec_center().0, room.spec_center().1),
{
}

/// Any two cells inside a room whose interior is floor are connected.
pub proof fn lemma_room_connected(map: Grid, room: Rect, a: (int, int), b: (int, int))
    requires
        forall|x: int, y: int| room.interior(x, y) ==> #[trigger] map.is_floor(x, y),
        room.interior(a.0, a.1),
        room.interior(b.0, b.1),
    ensures
        connected(map, a, b),
{
    assert forall|x: int| (a.0 <= x <= b.0 || b.0 <= x <= a.0) implies #[trigger] map.is_floor(
        x,
        a.1,
    ) by {
        assert(room.interior(x, a.1));
    }
    lemma_row_connected(map, a.0, b.0, a.1);
    assert forall|y: int| (a.1 <= y <= b.1 || b.1 <= y <= a.1) implies #[trigger] map.is_floor(
        b.0,
        y,
    ) by {
        assert(room.interior(b.0, y));
    }
    lemma_column_connected(map, a.1, b.1, b.0);
    lemma_connected_trans(map, a, (b.0, a.1), b);
}

/// Every cell of a corridor whose cells are floor is connected to the cell
/// the corridor starts from.
pub proof fn lemma_corridor_connected(
    map: Grid,
    from: (int, int),
    to: (int, int),
    horizontal_first: bool,
    x: int,
    y: int,
)
    requires
        forall|i: int, j: int|
            in_corridor(from, to, horizontal_first, i, j) ==> #[trigger] map.is_floor(i, j),
        in_corridor(from, to, horizontal_first, x, y),
    ensures
        connected(map, from, (x, y)),
{
    if horizontal_first {
        if in_h_tunnel(from.0, to.0, from.1, x, y) {
            assert forall|i: int| (from.0 <= i <= x || x <= i <= from.0) implies #[trigger] map.is_floor(
                i,
                from.1,
            ) by {
                assert(in_corridor(from, to, horizontal_first, i, from.1));
            }
            lemma_row_connected(map, from.0, x, from.1);
        } else {
            assert forall|i: int| (from.0 <= i <= to.0 || to.0 <= i <= from.0) implies #[trigger] map.is_floor(
                i,
                from.1,
            ) by {
                assert(in_corridor(from, to, horizontal_first, i, from.1));
            }
            lemma_row_connected(map, from.0, to.0, from.1);
            assert forall|j: int| (from.1 <= j <= y || y <= j <= from.1) implies #[trigger] map.is_floor(
                to.0,
                j,
            ) by {
                assert(in_corridor(from, to, horizontal_first, to.0, j));
            }
            lemma_column_connected(map, from.1, y, to.0);
            lemma_connected_trans(map, from, (to.0, from.1), (x, y));
        }
    } else {
        if in_v_tunnel(from.1, to.1, from.0, x, y) {
            assert forall|j: int| (from.1 <= j <= y || y <= j <= from.1) implies #[trigger] map.is_floor(
                from.0,
                j,
            ) by {
                assert(in_corridor(from, to, horizontal_first, from.0, j));
            }
            lemma_column_connected(map, from.1, y, from.0);
        } else {
            assert forall|j: int| (from.1 <= j <= to.1 || to.1 <= j <= from.1) implies #[trigger] map.is_floor(
                from.0,
                j,
            ) by {
                assert(in_corridor(from, to, horizontal_first, from.0, j));
            }
            lemma_column_connected(map, from.1, to.1, from.0);
            assert forall|i: int| (from.0 <= i <= x || x <= i <= from.0) implies #[trigger] map.is_floor(
                i,
                to.1,
            ) by {
                assert(in_corridor(from, to, horizontal_first, i, to.1));
            }
            lemma_row_connected(map, from.0, x, to.1);
            lemma_connected_trans(map, from, (from.0, to.1), (x, y));
        }
    }
}

/// Accepting a proper room that fits the map and intersects no accepted room
/// keeps the layout well laid.
pub proof fn lemma_room_added_well_laid(
    before: Grid,
    after: Grid,
    rooms: Seq<Rect>,
    room: Rect,
    horizontal_first: bool,
)
    requires
        well_laid(before, rooms),
        room.fits(&before),
        room.proper(),
        !overlaps_any(room, rooms),
        room_added(before, after, rooms, room, horizontal_first),
    ensures
        well_laid(after, rooms.push(room)),
{
    let grown = rooms.push(room);
    let center = room.spec_center();
    lemma_center_inside(room);
    if rooms.len() > 0 {
        lemma_center_inside(rooms.last());
        assert(rooms.last().fits(&before) && rooms.last().proper());
    }
    // What is floor afterwards: what was floor before, and what was carved.
    assert forall|x: int, y: int| newly_carved(rooms, room, horizontal_first, x, y) implies 0 < x
        < before.spec_width() - 1 && 0 < y < before.spec_height() - 1 by {}
    assert forall|x: int, y: int| #[trigger]
        after.is_floor(x, y) <==> (before.is_floor(x, y) || newly_carved(
            rooms,
            room,
            horizontal_first,
            x,
            y,
        )) by {
        if before.in_bounds(x, y) {
            assert(after.tile_at(x, y) == (if newly_carved(rooms, room, horizontal_first, x, y) {
                Tile::empty()
            } else {
                before.tile_at(x, y)
            }));
        }
    }
    assert(floor_kept(before, after));
    assert(after.enclosed());
    assert forall|x: int, y: int| after.in_bounds(x, y) implies #[trigger] after.tile_at(x, y)
        == Tile::wall() || after.tile_at(x, y) == Tile::empty() by {
        assert(before.in_bounds(x, y));
        assert(before.tile_at(x, y) == Tile::wall() || before.tile_at(x, y) == Tile::empty());
    }
    assert forall|i: int| 0 <= i < grown.len() implies (#[trigger] grown[i]).fits(&after)
        && grown[i].proper() by {
        if i < rooms.len() {
            assert(rooms[i].fits(&before));
        }
    }
    assert forall|i: int, j: int|
        #![trigger grown[i], grown[j]]
        0 <= i < j < grown.len() implies !grown[i].intersects(&grown[j]) by {
        if j < rooms.len() {
            assert(!rooms[i].intersects(&rooms[j]));
        } else {
            assert(!room.intersects(&rooms[i]));
        }
    }
    assert forall|i: int, x: int, y: int|
        #![trigger grown[i].interior(x, y)]
        0 <= i < grown.len() && grown[i].interior(x, y) implies after.is_floor(x, y) by {
        if i < rooms.len() {
            assert(rooms[i].interior(x, y));
            assert(before.is_floor(x, y));
        }
    }
    let origin = grown[0].spec_center();
    assert forall|x: int, y: int| #[trigger] after.is_floor(x, y) implies connected(
        after,
        origin,
        (x, y),
    ) by {
        assert forall|i: int, j: int| room.interior(i, j) implies #[trigger] after.is_floor(i, j) by {
            assert(newly_carved(rooms, room, horizontal_first, i, j));
        }
        if rooms.len() == 0 {
            assert(!before.is_floor(x, y));
            assert(room.interior(x, y));
            lemma_room_connected(after, room, center, (x, y));
        } else {
            let from = rooms.last().spec_center();
            assert(rooms.last().interior(from.0, from.1));
            assert(before.is_floor(from.0, from.1));
            assert(connected(before, origin, from));
            lemma_connected_mono(before, after, origin, from);
            assert forall|i: int, j: int|
                in_corridor(from, center, horizontal_first, i, j) implies #[trigger] after.is_floor(
                i,
                j,
            ) by {
                assert(newly_carved(rooms, room, horizontal_first, i, j));
            }
            if before.is_floor(x, y) {
                assert(connected(before, origin, (x, y)));
                lemma_connected_mono(before, after, origin, (x, y));
            } else if in_corridor(from, center, horizontal_first, x, y) {
                lemma_corridor_connected(after, from, center, horizontal_first, x, y);
                lemma_connected_trans(after, origin, from, (x, y));
            } else {
                assert(room.interior(x, y));
                assert(in_corridor(from, center, horizontal_first, center.0, center.1));
                lemma_corridor_connected(after, from, center, horizontal_first, center.0, center.1);
                lemma_connected_trans(after, origin, from, center);
                lemma_room_connected(after, room, center, (x, y));
                lemma_connected_trans(after, origin, center, (x, y));
            }
        }
    }
}

/// Whether `room` intersects one of the rooms accepted so far.
pub fn intersects_any(room: &Rect, rooms: &Vec<Rect>) -> (b: bool)
    ensures
        b == overlaps_any(*room, rooms@),
{
    let mut i: usize = 0;
    while i < rooms.len()
        invariant
            i <= rooms.len(),
            forall|k: int| 0 <= k < i ==> !room.intersects(&#[trigger] rooms@[k]),
        decreases rooms.len() - i,
    {
        if room.intersects_with(&rooms[i]) {
            return true;
        }
        i += 1;
    }
    false
}

/// Adds `new_room` to the dungeon without asking whether it intersects an
/// accepted room.
///
/// The interior of the room is carved. The first room receives the player on
/// its center; every later room is joined to the room accepted before it by
/// an L-shaped corridor between the two centers, which runs along the row of
/// the earlier center first when `horizontal_first` holds and along its
/// column first otherwise.
pub fn place_room(
    new_room: &Rect,
    horizontal_first: bool,
    rooms: &mut Vec<Rect>,
    map: &mut Grid,
    objects: &mut [Object],
)
    requires
        old(map).wf(),
        new_room.fits(old(map)),
        forall|i: int| 0 <= i < old(rooms)@.len() ==> (#[trigger] old(rooms)@[i]).fits(old(map)),
        old(objects)@.len() > PLAYER,
    ensures
        final(rooms)@ == old(rooms)@.push(*new_room),
        room_added(*old(map), *final(map), old(rooms)@, *new_room, horizontal_first),
        views(final(objects)@) == spawned(views(old(objects)@), old(rooms)@, *new_room),
        well_laid(*old(map), old(rooms)@) && new_room.proper() && !overlaps_any(
            *new_room,
            old(rooms)@,
        ) ==> well_laid(*final(map), final(rooms)@),
{
    let ghost before = *map;
    proof {
        lemma_center_inside(*new_room);
    }
    let (new_x, new_y) = new_room.center();
    create_room(new_room, map);
    if rooms.is_empty() {
        objects[PLAYER].set_pos(new_x, new_y);
        assert(views(objects@) =~= spawned(views(old(objects)@), rooms@, *new_room));
    } else {
        let previous = rooms[rooms.len() - 1];
        proof {
            assert(previous == rooms@.last());
            assert(previous.fits(&before));
            lemma_center_inside(previous);
        }
        let (prev_x, prev_y) = previous.center();
        if horizontal_first {
            create_h_tunnel(prev_x, new_x, prev_y, map);
            create_v_tunnel(prev_y, new_y, new_x, map);
        } else {
            create_v_tunnel(prev_y, new_y, prev_x, map);
            create_h_tunnel(prev_x, new_x, new_y, map);
        }
    }
    proof {
        assert(room_added(before, *map, rooms@, *new_room, horizontal_first));
        if well_laid(before, rooms@) && new_room.proper() && !overlaps_any(*new_room, rooms@) {
            lemma_room_added_well_laid(before, *map, rooms@, *new_room, horizontal_first);
        }
    }
    rooms.push(*new_room);
}

/// Tries to add `new_room` to the dungeon: a room that intersects an accepted
/// room is turned down and nothing changes; any other room is placed as
/// [`place_room`] says.
pub fn add_room(
    new_room: &Rect,
    horizontal_first: bool,
    rooms: &mut Vec<Rect>,
    map: &mut Grid,
    objects: &mut [Object],
) -> (accepted: bool)
    requires
        old(map).wf(),
        new_room.fits(old(map)),
        forall|i: int| 0 <= i < old(rooms)@.len() ==> (#[trigger] old(rooms)@[i]).fits(old(map)),
        old(objects)@.len() > PLAYER,
    ensures
        accepted == !overlaps_any(*new_room, old(rooms)@),
        !accepted ==> *final(map) == *old(map) && final(rooms)@ == old(rooms)@ && final(objects)@
            == old(objects)@,
        accepted ==> final(rooms)@ == old(rooms)@.push(*new_room),
        accepted ==> room_added(*old(map), *final(map), old(rooms)@, *new_room, horizontal_first),
        accepted ==> views(final(objects)@) == spawned(views(old(objects)@), old(rooms)@, *new_room),
        well_laid(*old(map), old(rooms)@) && new_room.proper() ==> well_laid(
            *final(map),
            final(rooms)@,
        ),
{
    if intersects_any(new_room, rooms) {
        false
    } else {
        place_room(new_room, horizontal_first, rooms, map, objects);
        true
    }
}

/// In a well-laid dungeon, whatever can be reached from the center of the
/// first room can be reached from the center of every room.
pub proof fn lemma_reachable_from_every_room(map: Grid, rooms: Seq<Rect>, k: int, x: int, y: int)
    requires
        well_laid(map, rooms),
        0 <= k < rooms.len(),
        connected(map, rooms[0].spec_center(), (x, y)),
    ensures
        connected(map, rooms[k].spec_center(), (x, y)),
{
    let origin = rooms[0].spec_center();
    let center = rooms[k].spec_center();
    lemma_center_inside(rooms[k]);
    assert(rooms[k].fits(&map) && rooms[k].proper());
    assert(rooms[k].interior(center.0, center.1));
    assert(map.is_floor(center.0, center.1));
    assert(connected(map, origin, center));
    lemma_connected_sym(map, origin, center);
    lemma_connected_trans(map, center, origin, (x, y));
}

/// In a well-laid dungeon with at least one room, any two floor cells are
/// connected.
pub proof fn lemma_floor_connected(map: Grid, rooms: Seq<Rect>, a: (int, int), b: (int, int))
    requires
        well_laid(map, rooms),
        map.is_floor(a.0, a.1),
        map.is_floor(b.0, b.1),
    ensures
        connected(map, a, b),
{
    let origin = rooms[0].spec_center();
    assert(connected(map, origin, (a.0, a.1)));
    assert(connected(map, origin, (b.0, b.1)));
    lemma_connected_sym(map, origin, a);
    lemma_connected_trans(map, a, origin, b);
}

} // verus!
