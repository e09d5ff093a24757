//! The map: a fixed-size rectangle of tiles, and the carving of rooms and
//! tunnels into it.

use crate::objects::Tile;
use vstd::prelude::*;

verus! {

/// A rectangular map of tiles, addressed by `(x, y)` with `0 <= x < width`
/// and `0 <= y < height`.
pub struct Grid {
    width: usize,
    height: usize,
    tiles: Vec<Vec<Tile>>,
}

impl Grid {
    /// The representation invariant: one column per `x`, each holding one tile
    /// per `y`, with both dimensions small enough for signed coordinates.
    pub closed spec fn wf(&self) -> bool {
        &&& self.width <= i32::MAX
        &&& self.height <= i32::MAX
        &&& self.tiles@.len() == self.width
        &&& forall|x: int| 0 <= x < self.width ==> (#[trigger] self.tiles@[x])@.len() == self.height
    }

    /// The number of columns.
    pub closed spec fn spec_width(&self) -> int {
        self.width as int
    }

    /// The number of rows.
    pub closed spec fn spec_height(&self) -> int {
        self.height as int
    }

    /// The tile at `(x, y)`; meaningful only within bounds.
    pub closed spec fn tile_at(&self, x: int, y: int) -> Tile {
        self.tiles@[x]@[y]
    }

    /// Whether `(x, y)` is a cell of this map.
    pub open spec fn in_bounds(&self, x: int, y: int) -> bool {
        0 <= x < self.spec_width() && 0 <= y < self.spec_height()
    }

    /// Whether `(x, y)` is a cell of this map that can be walked on.
    pub open spec fn is_floor(&self, x: int, y: int) -> bool {
        self.in_bounds(x, y) && !self.tile_at(x, y).blocked
    }

    /// Whether the two maps have the same dimensions.
    pub open spec fn same_size(&self, other: &Grid) -> bool {
        self.spec_width() == other.spec_width() && self.spec_height() == other.spec_height()
    }

    /// Whether `(x, y)` is a cell of this map that is not on its outer edge.
    pub open spec fn inside(&self, x: int, y: int) -> bool {
        0 < x < self.spec_width() - 1 && 0 < y < self.spec_height() - 1
    }

    /// Whether every cell on the outer edge of the map is blocked, so that
    /// all floor lies inside.
    pub open spec fn enclosed(&self) -> bool {
        forall|x: int, y: int| #[trigger] self.is_floor(x, y) ==> self.inside(x, y)
    }

    /// Whether the two maps have the same size and the same tile in every cell.
    pub open spec fn same_tiles(&self, other: &Grid) -> bool {
        &&& self.same_size(other)
        &&& forall|x: int, y: int|
            self.in_bounds(x, y) ==> #[trigger] self.tile_at(x, y) == other.tile_at(x, y)
    }

    /// Both dimensions of a well-formed map fit a signed coordinate.
    pub proof fn lemma_size_bounds(self)
        requires
            self.wf(),
        ensures
            0 <= self.spec_width() <= i32::MAX,
            0 <= self.spec_height() <= i32::MAX,
    {
    }

    /// A map of the given size in which every tile is a wall.
    pub fn new(width: i32, height: i32) -> (g: Grid)
        requires
            0 <= width,
            0 <= height,
        ensures
            g.wf(),
            g.spec_width() == width,
            g.spec_height() == height,
            forall|x: int, y: int| #[trigger] g.in_bounds(x, y) ==> g.tile_at(x, y) == Tile::wall(),
    {
        let w = width as usize;
        let h = height as usize;
        let mut tiles: Vec<Vec<Tile>> = Vec::new();
        let mut x: usize = 0;
        while x < w
            invariant
                x <= w,
                tiles@.len() == x,
                forall|i: int| 0 <= i < x ==> (#[trigger] tiles@[i])@.len() == h,
                forall|i: int, j: int|
                    0 <= i < x && 0 <= j < h ==> (#[trigger] tiles@[i]@[j]) == Tile::wall(),
            decreases w - x,
        {
            let mut column: Vec<Tile> = Vec::new();
            let mut y: usize = 0;
            while y < h
                invariant
                    y <= h,
                    column@.len() == y,
                    forall|j: int| 0 <= j < y ==> (#[trigger] column@[j]) == Tile::wall(),
                decreases h - y,
            {
                column.push(Tile::wall());
                y += 1;
            }
            tiles.push(column);
            x += 1;
        }
        Grid { width: w, height: h, tiles }
    }

    /// The number of columns.
    pub fn width(&self) -> (w: i32)
        requires
            self.wf(),
        ensures
            0 <= w,
            w == self.spec_width(),
    {
        self.width as i32
    }

    /// The number of rows.
    pub fn height(&self) -> (h: i32)
        requires
            self.wf(),
        ensures
            0 <= h,
            h == self.spec_height(),
    {
        self.height as i32
    }

    spec fn column_ends_blocked(&self, x: int) -> bool {
        !self.is_floor(x, 0) && !self.is_floor(x, self.height - 1)
    }

    spec fn row_ends_blocked(&self, y: int) -> bool {
        !self.is_floor(0, y) && !self.is_floor(self.width - 1, y)
    }

    /// Tests [`Grid::enclosed`] by looking at the cells on the outer edge.
    pub fn is_enclosed(&self) -> (b: bool)
        requires
            self.wf(),
        ensures
            b == self.enclosed(),
    {
        let w = self.width;
        let h = self.height;
        if w == 0 || h == 0 {
            return true;
        }
        let mut x: usize = 0;
        while x < w
            invariant
                self.wf(),
                w == self.width,
                h == self.height,
                h > 0,
                x <= w,
                forall|i: int| 0 <= i < x ==> #[trigger] self.column_ends_blocked(i),
            decreases w - x,
        {
            if !self.tiles[x][0].blocked || !self.tiles[x][h - 1].blocked {
                proof {
                    assert(self.is_floor(x as int, 0) || self.is_floor(x as int, h - 1));
                    assert(!self.inside(x as int, 0) && !self.inside(x as int, h - 1));
                }
                return false;
            }
            x += 1;
        }
        let mut y: usize = 0;
        while y < h
            invariant
                self.wf(),
                w == self.width,
                h == self.height,
                w > 0,
                y <= h,
                forall|i: int| 0 <= i < w ==> #[trigger] self.column_ends_blocked(i),
                forall|j: int| 0 <= j < y ==> #[trigger] self.row_ends_blocked(j),
            decreases h - y,
        {
            if !self.tiles[0][y].blocked || !self.tiles[w - 1][y].blocked {
                proof {
                    assert(self.is_floor(0, y as int) || self.is_floor(w - 1, y as int));
                    assert(!self.inside(0, y as int) && !self.inside(w - 1, y as int));
                }
                return false;
            }
            y += 1;
        }
        proof {
            assert forall|i: int, j: int| #[trigger] self.is_floor(i, j) implies self.inside(i, j) by {
                assert(self.row_ends_blocked(j));
                assert(self.column_ends_blocked(i));
            }
        }
        true
    }

    /// Reads the tile at `(x, y)`.
    pub fn get(&self, x: i32, y: i32) -> (t: Tile)
        requires
            self.wf(),
            self.in_bounds(x as int, y as int),
        ensures
            t == self.tile_at(x as int, y as int),
    {
        self.tiles[x as usize][y as usize]
    }

    /// Replaces the tile at `(x, y)` and leaves every other cell alone.
    pub fn set(&mut self, x: i32, y: i32, tile: Tile)
        requires
            old(self).wf(),
            old(self).in_bounds(x as int, y as int),
        ensures
            final(self).wf(),
            final(self).same_size(old(self)),
            final(self).tile_at(x as int, y as int) == tile,
            forall|i: int, j: int|
                #![trigger final(self).tile_at(i, j)]
                old(self).in_bounds(i, j) && (i, j) != (x as int, y as int) ==> final(self).tile_at(
                    i, j) == old(self).tile_at(i, j),
    {
        self.tiles[x as usize][y as usize] = tile;
    }
}

} // verus!
