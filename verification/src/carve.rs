//! Carving floor into a map: room interiors and straight tunnels.

use crate::grid::Grid;
use crate::objects::{Rect, Tile};
use vstd::prelude::*;

verus! {

/// Whether `(x, y)` lies on the horizontal line at height `ty` between the
/// columns `x1` and `x2`, ends included, whichever of the two is smaller.
pub open spec fn in_h_tunnel(x1: int, x2: int, ty: int, x: int, y: int) -> bool {
    y == ty && (x1 <= x <= x2 || x2 <= x <= x1)
}

/// Whether `(x, y)` lies on the vertical line at column `tx` between the
/// rows `y1` and `y2`, ends included, whichever of the two is smaller.
pub open spec fn in_v_tunnel(y1: int, y2: int, tx: int, x: int, y: int) -> bool {
    x == tx && (y1 <= y <= y2 || y2 <= y <= y1)
}

/// Turns the interior of `room` into floor. The border of the room and every
/// cell outside it keep their tiles.
pub fn create_room(room: &Rect, map: &mut Grid)
    requires
        old(map).wf(),
        forall|x: int, y: int| #[trigger] room.interior(x, y) ==> old(map).in_bounds(x, y),
    ensures
        final(map).wf(),
        final(map).same_size(old(map)),
        forall|x: int, y: int|
            old(map).in_bounds(x, y) ==> #[trigger] final(map).tile_at(x, y) == (if room.interior(
                x,
                y,
            ) {
                Tile::empty()
            } else {
                old(map).tile_at(x, y)
            }),
{
    if room.x1 >= room.x2 || room.y1 >= room.y2 {
        return ;
    }
    let ghost before = *map;
    let mut x: i32 = room.x1 + 1;
    while x < room.x2
        invariant
            room.x1 < x <= room.x2,
            room.y1 < room.y2,
            map.wf(),
            map.same_size(&before),
            before.wf(),
            forall|i: int, j: int| #[trigger] room.interior(i, j) ==> before.in_bounds(i, j),
            forall|i: int, j: int|
                before.in_bounds(i, j) ==> #[trigger] map.tile_at(i, j) == (if room.interior(i, j)
                    && i < x {
                    Tile::empty()
                } else {
                    before.tile_at(i, j)
                }),
        decreases room.x2 - x,
    {
        let mut y: i32 = room.y1 + 1;
        while y < room.y2
            invariant
                room.x1 < x < room.x2,
                room.y1 < y <= room.y2,
                map.wf(),
                map.same_size(&before),
                before.wf(),
                forall|i: int, j: int| #[trigger] room.interior(i, j) ==> before.in_bounds(i, j),
                forall|i: int, j: int|
                    before.in_bounds(i, j) ==> #[trigger] map.tile_at(i, j) == (if room.interior(
                        i,
                        j,
                    ) && (i < x || (i == x && j < y)) {
                        Tile::empty()
                    } else {
                        before.tile_at(i, j)
                    }),
            decreases room.y2 - y,
        {
            assert(room.interior(x as int, y as int));
            map.set(x, y, Tile::empty());
            y += 1;
        }
        x += 1;
    }
}

/// Turns the cells of row `y` between the columns `x1` and `x2` into floor,
/// both ends included.
pub fn create_h_tunnel(x1: i32, x2: i32, y: i32, map: &mut Grid)
    requires
        old(map).wf(),
        old(map).in_bounds(x1 as int, y as int),
        old(map).in_bounds(x2 as int, y as int),
    ensures
        final(map).wf(),
        final(map).same_size(old(map)),
        forall|i: int, j: int|
            old(map).in_bounds(i, j) ==> #[trigger] final(map).tile_at(i, j) == (if in_h_tunnel(
                x1 as int,
                x2 as int,
                y as int,
                i,
                j,
            ) {
                Tile::empty()
            } else {
                old(map).tile_at(i, j)
            }),
{
    let ghost before = *map;
    proof {
        before.lemma_size_bounds();
    }
    let low = if x1 < x2 { x1 } else { x2 };
    let high = if x1 < x2 { x2 } else { x1 };
    let mut x: i32 = low;
    while x <= high
        invariant
            low <= x <= high + 1,
            high < i32::MAX,
            low == (if x1 < x2 { x1 } else { x2 }),
            high == (if x1 < x2 { x2 } else { x1 }),
            map.wf(),
            map.same_size(&before),
            before.in_bounds(x1 as int, y as int),
            before.in_bounds(x2 as int, y as int),
            forall|i: int, j: int|
                before.in_bounds(i, j) ==> #[trigger] map.tile_at(i, j) == (if in_h_tunnel(
                    x1 as int,
                    x2 as int,
                    y as int,
                    i,
                    j,
                ) && i < x {
                    Tile::empty()
                } else {
                    before.tile_at(i, j)
                }),
        decreases high + 1 - x,
    {
        map.set(x, y, Tile::empty());
        x += 1;
    }
}

/// Turns the cells of column `x` between the rows `y1` and `y2` into floor,
/// both ends included.
pub fn create_v_tunnel(y1: i32, y2: i32, x: i32, map: &mut Grid)
    requires
        old(map).wf(),
        old(map).in_bounds(x as int, y1 as int),
        old(map).in_bounds(x as int, y2 as int),
    ensures
        final(map).wf(),
        final(map).same_size(old(map)),
        forall|i: int, j: int|
            old(map).in_bounds(i, j) ==> #[trigger] final(map).tile_at(i, j) == (if in_v_tunnel(
                y1 as int,
                y2 as int,
                x as int,
                i,
                j,
            ) {
                Tile::empty()
            } else {
                old(map).tile_at(i, j)
            }),
{
    let ghost before = *map;
    proof {
        before.lemma_size_bounds();
    }
    let low = if y1 < y2 { y1 } else { y2 };
    let high = if y1 < y2 { y2 } else { y1 };
    let mut y: i32 = low;
    while y <= high
        invariant
            low <= y <= high + 1,
            high < i32::MAX,
            low == (if y1 < y2 { y1 } else { y2 }),
            high == (if y1 < y2 { y2 } else { y1 }),
            map.wf(),
            map.same_size(&before),
            before.in_bounds(x as int, y1 as int),
            before.in_bounds(x as int, y2 as int),
            forall|i: int, j: int|
                before.in_bounds(i, j) ==> #[trigger] map.tile_at(i, j) == (if in_v_tunnel(
                    y1 as int,
                    y2 as int,
                    x as int,
                    i,
                    j,
                ) && j < y {
                    Tile::empty()
                } else {
                    before.tile_at(i, j)
                }),
        decreases high + 1 - y,
    {
        map.set(x, y, Tile::empty());
        y += 1;
    }
}

} // verus!
