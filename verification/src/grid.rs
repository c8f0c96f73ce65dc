//! The chunk-local scalar field: a dense `width x height` grid of
//! occupancy values with bounds-checked access.

use vstd::prelude::*;

use crate::TerrainError;

verus! {

/// One cell's occupancy. `Empty` is the unique "outside" value for contour
/// extraction; every other variant counts as "inside".
#[derive(Clone, Copy, PartialEq, Eq, Structural, Debug)]
pub enum MapDataValue {
    Empty,
    Sand,
    Rock,
    Base,
    Wall,
}

/// A fixed-size 2D scalar field. Cell `(x, y)` lives at linear index
/// `x + y * width`; every access is bounds-checked and an access at
/// `x >= width` or `y >= height` reports [`TerrainError::OutOfBounds`].
pub struct MapData {
    data: Vec<MapDataValue>,
    width: usize,
    height: usize,
}

pub proof fn lemma_linear_index_bounds(x: int, y: int, w: int, h: int)
    by (nonlinear_arith)
    requires
        0 <= x < w,
        0 <= y < h,
    ensures
        0 <= x + y * w < w * h,
{
}

pub proof fn lemma_linear_index_injective(x1: int, y1: int, x2: int, y2: int, w: int)
    by (nonlinear_arith)
    requires
        0 <= x1 < w,
        0 <= x2 < w,
        x1 + y1 * w == x2 + y2 * w,
    ensures
        x1 == x2 && y1 == y2,
{
}

impl MapData {
    /// The grid's width, as the contracts speak of it.
    pub closed spec fn spec_width(&self) -> int {
        self.width as int
    }

    /// The grid's height, as the contracts speak of it.
    pub closed spec fn spec_height(&self) -> int {
        self.height as int
    }

    /// Storage holds exactly one value per cell.
    pub closed spec fn wf(&self) -> bool {
        self.data@.len() == self.spec_width() * self.spec_height()
    }

    /// The value of cell `(x, y)`.
    pub closed spec fn cell(&self, x: int, y: int) -> MapDataValue {
        self.data@[x + y * self.spec_width()]
    }

    /// `(x, y)` addresses a cell of this grid.
    pub open spec fn in_bounds(&self, x: int, y: int) -> bool {
        0 <= x < self.spec_width() && 0 <= y < self.spec_height()
    }

    /// Allocates a `width x height` grid with every cell `Empty`.
    pub fn new(width: usize, height: usize) -> (r: MapData)
        requires
            width * height <= usize::MAX,
        ensures
            r.wf(),
            r.spec_width() == width,
            r.spec_height() == height,
            forall|x: int, y: int| r.in_bounds(x, y) ==> r.cell(x, y) == MapDataValue::Empty,
    {
        proof {
            assert(width * height >= 0) by (nonlinear_arith);
        }
        let n: usize = width * height;
        let mut data: Vec<MapDataValue> = Vec::new();
        let mut i: usize = 0;
        while i < n
            invariant
                i <= n,
                data@.len() == i,
                forall|k: int| 0 <= k < i ==> data@[k] == MapDataValue::Empty,
            decreases n - i,
        {
            data.push(MapDataValue::Empty);
            i = i + 1;
        }
        let r = MapData { data, width, height };
        proof {
            assert forall|x: int, y: int| r.in_bounds(x, y) implies r.cell(x, y)
                == MapDataValue::Empty by {
                lemma_linear_index_bounds(x, y, width as int, height as int);
            }
        }
        r
    }

    /// The `(width, height)` pair.
    pub fn dimensions(&self) -> (r: (usize, usize))
        ensures
            r.0 == self.spec_width(),
            r.1 == self.spec_height(),
    {
        (self.width, self.height)
    }

    /// Reads cell `(x, y)`; `OutOfBounds` exactly when the coordinate
    /// falls outside the grid.
    pub fn get(&self, x: usize, y: usize) -> (r: Result<MapDataValue, TerrainError>)
        requires
            self.wf(),
        ensures
            self.in_bounds(x as int, y as int) ==> r == Ok::<MapDataValue, TerrainError>(
                self.cell(x as int, y as int),
            ),
            !self.in_bounds(x as int, y as int) ==> r == Err::<MapDataValue, TerrainError>(
                TerrainError::OutOfBounds,
            ),
    {
        if x >= self.width || y >= self.height {
            return Err(TerrainError::OutOfBounds);
        }
        let n = self.data.len();
        proof {
            assert(n == self.spec_width() * self.spec_height());
            lemma_linear_index_bounds(x as int, y as int, self.spec_width(), self.spec_height());
        }
        let idx: usize = x + y * self.width;
        Ok(self.data[idx])
    }

    /// Overwrites cell `(x, y)` and leaves every other cell as it was;
    /// `OutOfBounds` exactly when the coordinate falls outside the grid,
    /// and then the grid is unchanged.
    pub fn set(&mut self, x: usize, y: usize, value: MapDataValue) -> (r: Result<
        (),
        TerrainError,
    >)
        requires
            old(self).wf(),
        ensures
            final(self).wf(),
            final(self).spec_width() == old(self).spec_width(),
            final(self).spec_height() == old(self).spec_height(),
            old(self).in_bounds(x as int, y as int) ==> {
                &&& r == Ok::<(), TerrainError>(())
                &&& final(self).cell(x as int, y as int) == value
                &&& forall|x2: int, y2: int|
                    old(self).in_bounds(x2, y2) && !(x2 == x as int && y2 == y as int)
                        ==> final(self).cell(x2, y2) == old(self).cell(x2, y2)
            },
            !old(self).in_bounds(x as int, y as int) ==> {
                &&& r == Err::<(), TerrainError>(TerrainError::OutOfBounds)
                &&& *final(self) == *old(self)
            },
    {
        if x >= self.width || y >= self.height {
            return Err(TerrainError::OutOfBounds);
        }
        let n = self.data.len();
        proof {
            assert(n == self.spec_width() * self.spec_height());
            lemma_linear_index_bounds(x as int, y as int, self.spec_width(), self.spec_height());
        }
        let idx: usize = x + y * self.width;
        self.data.set(idx, value);
        proof {
            assert forall|x2: int, y2: int|
                old(self).in_bounds(x2, y2) && !(x2 == x as int && y2 == y as int)
                implies final(self).cell(x2, y2) == old(self).cell(x2, y2) by {
                lemma_linear_index_bounds(x2, y2, self.spec_width(), self.spec_height());
                if x2 + y2 * self.spec_width() == x + y * self.spec_width() {
                    lemma_linear_index_injective(x2, y2, x as int, y as int, self.spec_width());
                }
            }
        }
        Ok(())
    }

    /// Overwrites every cell of the rectangle `x0 <= x < x1`,
    /// `y0 <= y < y1` with `value` and leaves every other cell as it was;
    /// the rectangle must lie within the grid.
    pub fn fill_rect(
        &mut self,
        x0: usize,
        y0: usize,
        x1: usize,
        y1: usize,
        value: MapDataValue,
    )
        requires
            old(self).wf(),
            x0 <= x1 <= old(self).spec_width(),
            y0 <= y1 <= old(self).spec_height(),
        ensures
            final(self).wf(),
            final(self).spec_width() == old(self).spec_width(),
            final(self).spec_height() == old(self).spec_height(),
            forall|x: int, y: int|
                x0 <= x < x1 && y0 <= y < y1 ==> final(self).cell(x, y) == value,
            forall|x: int, y: int|
                old(self).in_bounds(x, y) && !(x0 <= x < x1 && y0 <= y < y1)
                    ==> final(self).cell(x, y) == old(self).cell(x, y),
    {
        let mut y: usize = y0;
        while y < y1
            invariant
                self.wf(),
                self.spec_width() == old(self).spec_width(),
                self.spec_height() == old(self).spec_height(),
                x0 <= x1 <= self.spec_width(),
                y0 <= y <= y1 <= self.spec_height(),
                forall|xx: int, yy: int|
                    x0 <= xx < x1 && y0 <= yy < y ==> self.cell(xx, yy) == value,
                forall|xx: int, yy: int|
                    old(self).in_bounds(xx, yy) && !(x0 <= xx < x1 && y0 <= yy < y)
                        ==> self.cell(xx, yy) == old(self).cell(xx, yy),
            decreases y1 - y,
        {
            let mut x: usize = x0;
            while x < x1
                invariant
                    self.wf(),
                    self.spec_width() == old(self).spec_width(),
                    self.spec_height() == old(self).spec_height(),
                    x0 <= x <= x1 <= self.spec_width(),
                    y0 <= y < y1 <= self.spec_height(),
                    forall|xx: int, yy: int|
                        x0 <= xx < x1 && y0 <= yy < y ==> self.cell(xx, yy) == value,
                    forall|xx: int| x0 <= xx < x ==> self.cell(xx, y as int) == value,
                    forall|xx: int, yy: int|
                        old(self).in_bounds(xx, yy) && !(x0 <= xx < x1 && y0 <= yy < y) && !(x0
                            <= xx < x && yy == y) ==> self.cell(xx, yy) == old(self).cell(xx, yy),
                decreases x1 - x,
            {
                let res = self.set(x, y, value);
                proof {
                    assert(res == Ok::<(), TerrainError>(()));
                }
                x = x + 1;
            }
            y = y + 1;
        }
    }

    /// Overwrites every cell with `value`.
    pub fn fill(&mut self, value: MapDataValue)
        requires
            old(self).wf(),
        ensures
            final(self).wf(),
            final(self).spec_width() == old(self).spec_width(),
            final(self).spec_height() == old(self).spec_height(),
            forall|x: int, y: int|
                final(self).in_bounds(x, y) ==> final(self).cell(x, y) == value,
    {
        let n = self.data.len();
        let mut i: usize = 0;
        while i < n
            invariant
                i <= n,
                self.data@.len() == n,
                self.width == old(self).width,
                self.height == old(self).height,
                forall|k: int| 0 <= k < i ==> self.data@[k] == value,
            decreases n - i,
        {
            self.data.set(i, value);
            i = i + 1;
        }
        proof {
            assert forall|x: int, y: int| final(self).in_bounds(x, y)
                implies final(self).cell(x, y) == value by {
                lemma_linear_index_bounds(x, y, self.spec_width(), self.spec_height());
            }
        }
    }
}

} // verus!
