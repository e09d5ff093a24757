//! What a frame shows: the colour of every explored tile and the glyph of
//! every entity in the field of view. Putting the frame on a screen is left
//! to the caller.

use crate::colors::Color;
use crate::fov::FovMap;
use crate::grid::Grid;
use crate::objects::{views, Object, ObjectView, Tile};
use vstd::prelude::*;

verus! {

/// The background colour of one cell.
#[derive(Clone, Copy, Debug, PartialEq, Eq, Structural)]
pub struct TilePaint {
    pub x: i32,
    pub y: i32,
    pub color: Color,
}

/// The glyph of one entity, where it stands.
#[derive(Clone, Copy, Debug, PartialEq, Eq, Structural)]
pub struct GlyphPaint {
    pub x: i32,
    pub y: i32,
    pub char: char,
    pub color: Color,
}

/// A frame: the backgrounds to set, row by row, and then the glyphs to draw,
/// in drawing order.
pub struct Frame {
    pub backgrounds: Vec<TilePaint>,
    pub glyphs: Vec<GlyphPaint>,
}

/// The colour of a tile: walls and ground each have a lit colour for cells in
/// the field of view and a dark one for the rest.
pub open spec fn spec_tile_color(visible: bool, wall: bool) -> Color {
    if wall {
        Color { r: 0, g: 0, b: 100 }
    } else if visible {
        Color { r: 200, g: 180, b: 50 }
    } else {
        Color { r: 50, g: 50, b: 150 }
    }
}

/// The colour in which a tile is shown.
#[verifier::when_used_as_spec(spec_tile_color)]
pub fn tile_color(visible: bool, wall: bool) -> (color: Color)
    ensures
        color == spec_tile_color(visible, wall),
{
    match (visible, wall) {
        (false, true) => Color { r: 0, g: 0, b: 100 },
        (false, false) => Color { r: 50, g: 50, b: 150 },
        (true, true) => Color { r: 0, g: 0, b: 100 },
        (true, false) => Color { r: 200, g: 180, b: 50 },
    }
}

/// The tile after the player has looked at the map: explored if it was
/// explored before or is visible now, otherwise unchanged.
pub open spec fn looked_at(tile: Tile, visible: bool) -> Tile {
    Tile { explored: tile.explored || visible, ..tile }
}

/// Whether `after` is `before` with every visible cell marked as explored.
pub open spec fn explored_by(before: Grid, after: Grid, fov: FovMap) -> bool {
    &&& after.wf()
    &&& after.same_size(&before)
    &&& forall|x: int, y: int|
        before.in_bounds(x, y) ==> #[trigger] after.tile_at(x, y) == looked_at(
            before.tile_at(x, y),
            fov.visible_at(x, y),
        )
}

/// The background of the cell `(x, y)`.
pub open spec fn paint_of(map: Grid, fov: FovMap, x: int, y: int) -> TilePaint {
    TilePaint {
        x: x as i32,
        y: y as i32,
        color: spec_tile_color(fov.visible_at(x, y), map.tile_at(x, y).block_sight),
    }
}

/// The backgrounds of the explored cells that come before `(x, y)` when the
/// map is read row by row, in that order. Here `x` may be the width of the
/// map, which stands for the end of row `y`.
pub open spec fn paints_before(map: Grid, fov: FovMap, x: int, y: int) -> Seq<TilePaint>
    decreases y, x,
{
    if x > 0 {
        let earlier = paints_before(map, fov, x - 1, y);
        if map.tile_at(x - 1, y).explored {
            earlier.push(paint_of(map, fov, x - 1, y))
        } else {
            earlier
        }
    } else if y > 0 && map.spec_width() >= 0 {
        paints_before(map, fov, map.spec_width(), y - 1)
    } else {
        Seq::empty()
    }
}

/// The backgrounds of all explored cells of `map`, row by row.
pub open spec fn paints(map: Grid, fov: FovMap) -> Seq<TilePaint> {
    paints_before(map, fov, 0, map.spec_height())
}

/// The glyph of an entity.
pub open spec fn glyph_of(o: ObjectView) -> GlyphPaint {
    GlyphPaint { x: o.x as i32, y: o.y as i32, char: o.char, color: o.color }
}

/// The glyphs of the entities among the first `count` that are in the field
/// of view and block, or do not block, as `blocking` says, in the order of
/// their slots.
pub open spec fn glyphs_of(
    objects: Seq<ObjectView>,
    fov: FovMap,
    blocking: bool,
    count: int,
) -> Seq<GlyphPaint>
    decreases count,
{
    if count <= 0 {
        Seq::empty()
    } else {
        let earlier = glyphs_of(objects, fov, blocking, count - 1);
        let o = objects[count - 1];
        if fov.visible_at(o.x, o.y) && o.blocks == blocking {
            earlier.push(glyph_of(o))
        } else {
            earlier
        }
    }
}

/// The glyphs of all entities in the field of view, in drawing order: those
/// that do not block first, so that what blocks is drawn on top of them, and
/// within each group in the order of the slots.
pub open spec fn glyphs(objects: Seq<ObjectView>, fov: FovMap) -> Seq<GlyphPaint> {
    glyphs_of(objects, fov, false, objects.len() as int) + glyphs_of(
        objects,
        fov,
        true,
        objects.len() as int,
    )
}

/// Whether the field of view has to be computed anew: it depends on where
/// the player stands, so it is stale exactly when the player no longer
/// stands on `previous`, the cell it was last computed from.
pub fn fov_is_stale(previous: (i32, i32), player: &Object) -> (stale: bool)
    ensures
        stale == (previous.0 != player.x || previous.1 != player.y),
{
    previous.0 != player.x || previous.1 != player.y
}

/// Marks every cell in the field of view as explored. A cell once explored
/// stays explored.
pub fn mark_explored(map: &mut Grid, fov_map: &FovMap)
    requires
        old(map).wf(),
        fov_map.wf(),
        fov_map.spec_width() == old(map).spec_width(),
        fov_map.spec_height() == old(map).spec_height(),
    ensures
        explored_by(*old(map), *final(map), *fov_map),
{
    let ghost before = *map;
    let width = map.width();
    let height = map.height();
    let mut y: i32 = 0;
    while y < height
        invariant
            0 <= y <= height,
            0 <= width,
            width == before.spec_width(),
            height == before.spec_height(),
            fov_map.wf(),
            fov_map.spec_width() == width,
            fov_map.spec_height() == height,
            map.wf(),
            map.same_size(&before),
            forall|i: int, j: int|
                before.in_bounds(i, j) ==> #[trigger] map.tile_at(i, j) == (if j < y {
                    looked_at(before.tile_at(i, j), fov_map.visible_at(i, j))
                } else {
                    before.tile_at(i, j)
                }),
        decreases height - y,
    {
        let mut x: i32 = 0;
        while x < width
            invariant
                0 <= y < height,
                0 <= x <= width,
                width == before.spec_width(),
                height == before.spec_height(),
                fov_map.wf(),
                fov_map.spec_width() == width,
                fov_map.spec_height() == height,
                map.wf(),
                map.same_size(&before),
                forall|i: int, j: int|
                    before.in_bounds(i, j) ==> #[trigger] map.tile_at(i, j) == (if j < y || (j == y
                        && i < x) {
                        looked_at(before.tile_at(i, j), fov_map.visible_at(i, j))
                    } else {
                        before.tile_at(i, j)
                    }),
            decreases width - x,
        {
            if fov_map.is_in_fov(x, y) {
                let tile = map.get(x, y);
                map.set(x, y, Tile { explored: true, ..tile });
            }
            x += 1;
        }
        y += 1;
    }
}

/// The backgrounds of all explored cells of `map`, row by row.
pub fn tile_paints(map: &Grid, fov_map: &FovMap) -> (backgrounds: Vec<TilePaint>)
    requires
        map.wf(),
        fov_map.wf(),
        fov_map.spec_width() == map.spec_width(),
        fov_map.spec_height() == map.spec_height(),
    ensures
        backgrounds@ == paints(*map, *fov_map),
{
    let mut backgrounds: Vec<TilePaint> = Vec::new();
    let width = map.width();
    let height = map.height();
    let mut y: i32 = 0;
    while y < height
        invariant
            0 <= y <= height,
            0 <= width,
            width == map.spec_width(),
            height == map.spec_height(),
            map.wf(),
            fov_map.wf(),
            fov_map.spec_width() == width,
            fov_map.spec_height() == height,
            backgrounds@ == paints_before(*map, *fov_map, 0, y as int),
        decreases height - y,
    {
        let mut x: i32 = 0;
        while x < width
            invariant
                0 <= y < height,
                0 <= x <= width,
                width == map.spec_width(),
                height == map.spec_height(),
                map.wf(),
                fov_map.wf(),
                fov_map.spec_width() == width,
                fov_map.spec_height() == height,
                backgrounds@ == paints_before(*map, *fov_map, x as int, y as int),
            decreases width - x,
        {
            let tile = map.get(x, y);
            if tile.explored {
                let color = tile_color(fov_map.is_in_fov(x, y), tile.block_sight);
                backgrounds.push(TilePaint { x, y, color });
            }
            x += 1;
        }
        y += 1;
    }
    backgrounds
}

/// The glyphs of all entities in the field of view, in drawing order.
pub fn glyph_paints(objects: &[Object], fov_map: &FovMap) -> (drawn: Vec<GlyphPaint>)
    requires
        fov_map.wf(),
        forall|i: int|
            0 <= i < objects@.len() ==> fov_map.in_bounds(
                (#[trigger] objects@[i]).x as int,
                objects@[i].y as int,
            ),
    ensures
        drawn@ == glyphs(views(objects@), *fov_map),
{
    let mut drawn: Vec<GlyphPaint> = Vec::new();
    let mut blocking = false;
    let mut pass: usize = 0;
    while pass < 2
        invariant
            pass <= 2,
            blocking == (pass >= 1),
            fov_map.wf(),
            forall|i: int|
                0 <= i < objects@.len() ==> fov_map.in_bounds(
                    (#[trigger] objects@[i]).x as int,
                    objects@[i].y as int,
                ),
            pass == 0 ==> drawn@ == Seq::<GlyphPaint>::empty(),
            pass == 1 ==> drawn@ == glyphs_of(
                views(objects@),
                *fov_map,
                false,
                objects@.len() as int,
            ),
            pass == 2 ==> drawn@ == glyphs(views(objects@), *fov_map),
        decreases 2 - pass,
    {
        let ghost earlier = drawn@;
        let mut i: usize = 0;
        while i < objects.len()
            invariant
                i <= objects@.len(),
                fov_map.wf(),
                forall|k: int|
                    0 <= k < objects@.len() ==> fov_map.in_bounds(
                        (#[trigger] objects@[k]).x as int,
                        objects@[k].y as int,
                    ),
                drawn@ == earlier + glyphs_of(views(objects@), *fov_map, blocking, i as int),
            decreases objects@.len() - i,
        {
            let object = &objects[i];
            assert(views(objects@)[i as int] == object@);
            if fov_map.is_in_fov(object.x, object.y) && object.blocks == blocking {
                drawn.push(
                    GlyphPaint { x: object.x, y: object.y, char: object.char, color: object.color },
                );
            }
            i += 1;
        }
        blocking = true;
        pass += 1;
    }
    drawn
}

/// Prepares a frame: marks what the player sees as explored, as
/// [`mark_explored`] does, and collects the backgrounds of the explored
/// cells and the glyphs of the entities in the field of view.
pub fn render_all(objects: &[Object], map: &mut Grid, fov_map: &FovMap) -> (frame: Frame)
    requires
        old(map).wf(),
        fov_map.wf(),
        fov_map.spec_width() == old(map).spec_width(),
        fov_map.spec_height() == old(map).spec_height(),
        forall|i: int|
            0 <= i < objects@.len() ==> fov_map.in_bounds(
                (#[trigger] objects@[i]).x as int,
                objects@[i].y as int,
            ),
    ensures
        explored_by(*old(map), *final(map), *fov_map),
        frame.backgrounds@ == paints(*final(map), *fov_map),
        frame.glyphs@ == glyphs(views(objects@), *fov_map),
{
    mark_explored(map, fov_map);
    let backgrounds = tile_paints(map, fov_map);
    let glyphs = glyph_paints(objects, fov_map);
    Frame { backgrounds, glyphs }
}

} // verus!
