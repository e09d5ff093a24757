//! The things a dungeon is made of: tiles, rooms and entities.

use crate::colors::Color;
use crate::components::{Ai, Fighter, FighterView};
use vstd::prelude::*;

verus! {

/// A cell of the map: whether it stops movement, whether it stops sight, and
/// whether the player has ever seen it.
#[derive(Clone, Copy, Debug, PartialEq, Eq, Structural)]
pub struct Tile {
    pub blocked: bool,
    pub block_sight: bool,
    pub explored: bool,
}

impl Tile {
    /// The floor tile, as a value for contracts.
    pub open spec fn spec_empty() -> Tile {
        Tile { blocked: false, block_sight: false, explored: false }
    }

    /// The wall tile, as a value for contracts.
    pub open spec fn spec_wall() -> Tile {
        Tile { blocked: true, block_sight: true, explored: false }
    }

    /// A floor tile: it stops neither movement nor sight and is unexplored.
    #[verifier::when_used_as_spec(spec_empty)]
    pub fn empty() -> (t: Tile)
        ensures
            t == Tile::spec_empty(),
    {
        Tile { blocked: false, block_sight: false, explored: false }
    }

    /// Whether one can see through this tile.
    pub fn is_transparent(&self) -> (b: bool)
        ensures
            b == !self.block_sight,
    {
        !self.block_sight
    }

    /// Whether one can walk on this tile.
    pub fn is_walkable(&self) -> (b: bool)
        ensures
            b == !self.blocked,
    {
        !self.blocked
    }

    /// A wall tile: it stops both movement and sight and is unexplored.
    #[verifier::when_used_as_spec(spec_wall)]
    pub fn wall() -> (t: Tile)
        ensures
            t == Tile::spec_wall(),
    {
        Tile { blocked: true, block_sight: true, explored: false }
    }
}

/// Half of `a + b`, rounded toward zero.
pub open spec fn midpoint(a: int, b: int) -> int {
    if a + b >= 0 {
        (a + b) / 2
    } else {
        -((-(a + b)) / 2)
    }
}

fn midpoint_of(a: i32, b: i32) -> (m: i32)
    ensures
        m == midpoint(a as int, b as int),
{
    let sum: i64 = a as i64 + b as i64;
    if sum >= 0 {
        (sum / 2) as i32
    } else {
        (-((-sum) / 2)) as i32
    }
}

/// A rectangle on the map, given by two opposite corners.
#[derive(Clone, Copy, Debug, PartialEq, Eq, Structural)]
pub struct Rect {
    pub x1: i32,
    pub y1: i32,
    pub x2: i32,
    pub y2: i32,
}

impl Rect {
    /// The rectangle with corner `(x, y)`, width `w` and height `h`.
    pub fn new(x: i32, y: i32, w: i32, h: i32) -> (r: Rect)
        requires
            i32::MIN <= x + w <= i32::MAX,
            i32::MIN <= y + h <= i32::MAX,
        ensures
            r.x1 == x,
            r.y1 == y,
            r.x2 == x + w,
            r.y2 == y + h,
    {
        Rect { x1: x, y1: y, x2: x + w, y2: y + h }
    }

    /// The midpoint of the rectangle, each coordinate rounded toward zero.
    pub open spec fn spec_center(&self) -> (int, int) {
        (midpoint(self.x1 as int, self.x2 as int), midpoint(self.y1 as int, self.y2 as int))
    }

    /// The midpoint of the rectangle, each coordinate rounded toward zero.
    pub fn center(&self) -> (c: (i32, i32))
        ensures
            (c.0 as int, c.1 as int) == self.spec_center(),
    {
        (midpoint_of(self.x1, self.x2), midpoint_of(self.y1, self.y2))
    }

    /// Whether the two rectangles overlap, borders included.
    pub open spec fn intersects(&self, other: &Rect) -> bool {
        &&& self.x1 <= other.x2
        &&& self.x2 >= other.x1
        &&& self.y1 <= other.y2
        &&& self.y2 >= other.y1
    }

    /// Whether the two rectangles overlap, borders included.
    pub fn intersects_with(&self, other: &Rect) -> (b: bool)
        ensures
            b == self.intersects(other),
    {
        (self.x1 <= other.x2) && (self.x2 >= other.x1) && (self.y1 <= other.y2) && (self.y2
            >= other.y1)
    }

    /// Whether `(x, y)` lies in the rectangle or on its border.
    pub open spec fn covers(&self, x: int, y: int) -> bool {
        self.x1 <= x <= self.x2 && self.y1 <= y <= self.y2
    }

    /// Whether `(x, y)` lies strictly inside the border: the part of a room
    /// that is carved out.
    pub open spec fn interior(&self, x: int, y: int) -> bool {
        self.x1 < x < self.x2 && self.y1 < y < self.y2
    }

    /// Whether the corners are in order, so that the rectangle covers a cell.
    pub open spec fn ordered(&self) -> bool {
        self.x1 <= self.x2 && self.y1 <= self.y2
    }
}

/// Intersection does not depend on the order of the two rectangles.
pub proof fn lemma_intersects_symmetric(a: Rect, b: Rect)
    ensures
        a.intersects(&b) == b.intersects(&a),
{
}

/// Two rectangles intersect exactly when some cell lies in both, borders
/// included; in particular rectangles that share only an edge intersect.
pub proof fn lemma_intersects_iff_common_cell(a: Rect, b: Rect)
    requires
        a.ordered(),
        b.ordered(),
    ensures
        a.intersects(&b) <==> exists|x: int, y: int| #[trigger] a.covers(x, y) && b.covers(x, y),
{
    if a.intersects(&b) {
        let x = if a.x1 >= b.x1 { a.x1 as int } else { b.x1 as int };
        let y = if a.y1 >= b.y1 { a.y1 as int } else { b.y1 as int };
        assert(a.covers(x, y) && b.covers(x, y));
    }
}

/// Rectangles whose only common cells lie on a shared vertical or horizontal
/// edge are reported as intersecting.
pub proof fn lemma_shared_edge_intersects(a: Rect, b: Rect)
    requires
        a.ordered(),
        b.ordered(),
        (a.x2 == b.x1 && a.y1 <= b.y2 && b.y1 <= a.y2) || (a.y2 == b.y1 && a.x1 <= b.x2 && b.x1
            <= a.x2),
    ensures
        a.intersects(&b),
        b.intersects(&a),
{
}

/// An entity on the map: the player, a monster or a corpse.
pub struct Object {
    pub x: i32,
    pub y: i32,
    pub char: char,
    pub color: Color,
    pub name: String,
    pub blocks: bool,
    pub alive: bool,
    pub fighter: Option<Fighter>,
    pub ai: Option<Ai>,
}

/// Mathematical model of an [`Object`].
pub struct ObjectView {
    pub x: int,
    pub y: int,
    pub char: char,
    pub color: Color,
    pub name: Seq<char>,
    pub blocks: bool,
    pub alive: bool,
    pub fighter: Option<FighterView>,
    pub ai: Option<Ai>,
}

impl View for Object {
    type V = ObjectView;

    open spec fn view(&self) -> ObjectView {
        ObjectView {
            x: self.x as int,
            y: self.y as int,
            char: self.char,
            color: self.color,
            name: self.name@,
            blocks: self.blocks,
            alive: self.alive,
            fighter: match self.fighter {
                Some(f) => Some(f@),
                None => None,
            },
            ai: self.ai,
        }
    }
}

/// The models of a sequence of entities, in the same order.
pub open spec fn views(objects: Seq<Object>) -> Seq<ObjectView> {
    objects.map_values(|o: Object| o@)
}

impl Object {
    /// A new entity without combat or behaviour capabilities.
    pub fn new(x: i32, y: i32, char: char, color: Color, name: &str, blocks: bool, alive: bool) -> (o:
        Object)
        ensures
            o@ == (ObjectView {
                x: x as int,
                y: y as int,
                char,
                color,
                name: name@,
                blocks,
                alive,
                fighter: None,
                ai: None,
            }),
    {
        Object {
            x: x,
            y: y,
            char: char,
            color: color,
            name: name.to_owned(),
            blocks: blocks,
            alive: alive,
            fighter: None,
            ai: None,
        }
    }

    /// The cell the entity stands on.
    pub fn pos(&self) -> (p: (i32, i32))
        ensures
            p.0 == self.x,
            p.1 == self.y,
    {
        (self.x, self.y)
    }

    /// Puts the entity on `(x, y)`; nothing else about it changes.
    pub fn set_pos(&mut self, x: i32, y: i32)
        ensures
            final(self)@ == (ObjectView { x: x as int, y: y as int, ..old(self)@ }),
    {
        self.x = x;
        self.y = y;
    }
}

} // verus!
