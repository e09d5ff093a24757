//! The field of view: which cells of the map the player currently sees.
//!
//! Computing a field of view is not part of this library. A [`FovMap`] holds
//! the answer of whoever computed it, cell by cell.

use vstd::prelude::*;

verus! {

/// For every cell of a map, whether it is in the field of view.
pub struct FovMap {
    width: usize,
    height: usize,
    lit: Vec<Vec<bool>>,
}

impl FovMap {
    /// The representation invariant: one column per `x`, each holding one
    /// answer per `y`, with both dimensions small enough for signed
    /// coordinates.
    pub closed spec fn wf(&self) -> bool {
        &&& self.width <= i32::MAX
        &&& self.height <= i32::MAX
        &&& self.lit@.len() == self.width
        &&& forall|x: int| 0 <= x < self.width ==> (#[trigger] self.lit@[x])@.len() == self.height
    }

    /// The number of columns.
    pub closed spec fn spec_width(&self) -> int {
        self.width as int
    }

    /// The number of rows.
    pub closed spec fn spec_height(&self) -> int {
        self.height as int
    }

    /// Whether `(x, y)` is in the field of view; meaningful only within
    /// bounds.
    pub closed spec fn visible_at(&self, x: int, y: int) -> bool {
        self.lit@[x]@[y]
    }

    /// Whether `(x, y)` is a cell this field of view speaks of.
    pub open spec fn in_bounds(&self, x: int, y: int) -> bool {
        0 <= x < self.spec_width() && 0 <= y < self.spec_height()
    }

    /// A field of view of the given size in which nothing is visible.
    pub fn new(width: i32, height: i32) -> (fov: FovMap)
        requires
            0 <= width,
            0 <= height,
        ensures
            fov.wf(),
            fov.spec_width() == width,
            fov.spec_height() == height,
            forall|x: int, y: int| fov.in_bounds(x, y) ==> !#[trigger] fov.visible_at(x, y),
    {
        let w = width as usize;
        let h = height as usize;
        let mut lit: Vec<Vec<bool>> = Vec::new();
        let mut x: usize = 0;
        while x < w
            invariant
                x <= w,
                lit@.len() == x,
                forall|i: int| 0 <= i < x ==> (#[trigger] lit@[i])@.len() == h,
                forall|i: int, j: int| 0 <= i < x && 0 <= j < h ==> !(#[trigger] lit@[i]@[j]),
            decreases w - x,
        {
            let mut column: Vec<bool> = Vec::new();
            let mut y: usize = 0;
            while y < h
                invariant
                    y <= h,
                    column@.len() == y,
                    forall|j: int| 0 <= j < y ==> !(#[trigger] column@[j]),
                decreases h - y,
            {
                column.push(false);
                y += 1;
            }
            lit.push(column);
            x += 1;
        }
        FovMap { width: w, height: h, lit }
    }

    /// The number of columns.
    pub fn width(&self) -> (w: i32)
        requires
            self.wf(),
        ensures
            0 <= w,
            w == self.spec_width(),
    {
        self.width as i32
    }

    /// The number of rows.
    pub fn height(&self) -> (h: i32)
        requires
            self.wf(),
        ensures
            0 <= h,
            h == self.spec_height(),
    {
        self.height as i32
    }

    /// Records whether `(x, y)` is visible and leaves every other cell alone.
    pub fn set(&mut self, x: i32, y: i32, visible: bool)
        requires
            old(self).wf(),
            old(self).in_bounds(x as int, y as int),
        ensures
            final(self).wf(),
            final(self).spec_width() == old(self).spec_width(),
            final(self).spec_height() == old(self).spec_height(),
            final(self).visible_at(x as int, y as int) == visible,
            forall|i: int, j: int|
                #![trigger final(self).visible_at(i, j)]
                old(self).in_bounds(i, j) && (i, j) != (x as int, y as int) ==> final(self).visible_at(
                    i, j) == old(self).visible_at(i, j),
    {
        self.lit[x as usize][y as usize] = visible;
    }

    /// Whether `(x, y)` is in the field of view.
    pub fn is_in_fov(&self, x: i32, y: i32) -> (visible: bool)
        requires
            self.wf(),
            self.in_bounds(x as int, y as int),
        ensures
            visible == self.visible_at(x as int, y as int),
    {
        self.lit[x as usize][y as usize]
    }
}

} // verus!
