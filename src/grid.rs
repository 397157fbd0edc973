use vstd::prelude::*;

pub mod text;
pub mod views;

pub use views::{Cols, GridCol, GridColIter, GridRow, GridRowIter, Rows};

verus! {

/// The ways in which an operation on a grid can fail.
#[derive(Debug, Clone, Copy, PartialEq, Eq, Structural)]
pub enum GridError {
    /// The text to parse has lines of different lengths.
    InvalidGrid,
    /// A cell holds a byte outside the ASCII range.
    InvalidEncoding,
    /// A coordinate lies outside the grid.
    IndexOutOfBounds,
}

/// Flat position of the cell at column `x` and row `y` in a row-major layout of width `w`.
pub open spec fn index_of(w: int, x: int, y: int) -> int {
    y * w + x
}

/// Column and row of the flat position `i` in a row-major layout of width `w`.
pub open spec fn coords_of(w: int, i: int) -> (int, int) {
    (i % w, i / w)
}

/// A rectangular grid of cells, stored row by row.
pub struct Grid<V> {
    values: Vec<V>,
    width: usize,
    height: usize,
}

impl<V> Grid<V> {
    /// The cells in row-major order.
    pub closed spec fn cells(&self) -> Seq<V> {
        self.values@
    }

    /// The number of columns.
    pub closed spec fn spec_width(&self) -> nat {
        self.width as nat
    }

    /// The number of rows.
    pub closed spec fn spec_height(&self) -> nat {
        self.height as nat
    }

    /// There are exactly `width * height` cells, and they fit in memory.
    pub open spec fn wf(&self) -> bool {
        &&& self.cells().len() == self.spec_width() * self.spec_height()
        &&& self.cells().len() <= usize::MAX
    }

    /// The cell at column `x` and row `y`.
    pub open spec fn cell(&self, x: int, y: int) -> V {
        self.cells()[index_of(self.spec_width() as int, x, y)]
    }

    /// Returns the width of this grid.
    pub fn width(&self) -> (r: usize)
        ensures
            r == self.spec_width(),
    {
        self.width
    }

    /// Returns the height of this grid.
    pub fn height(&self) -> (r: usize)
        ensures
            r == self.spec_height(),
    {
        self.height
    }

    /// Creates an empty grid with 0 width and 0 height.
    fn empty() -> (r: Self)
        ensures
            r.wf(),
            r.spec_width() == 0,
            r.spec_height() == 0,
            r.cells().len() == 0,
    {
        Grid { values: Vec::new(), width: 0, height: 0 }
    }

    /// Gets a reference to the grid element at column `x` and row `y`.
    pub fn get(&self, x: usize, y: usize) -> (r: &V)
        requires
            self.wf(),
            x < self.spec_width(),
            y < self.spec_height(),
        ensures
            *r == self.cell(x as int, y as int),
    {
        &self.values[self.coords_to_slice_index(x, y)]
    }

    /// Gets the grid element at column `x` and row `y`, or fails with
    /// [`GridError::IndexOutOfBounds`] if either coordinate lies outside the grid.
    pub fn try_get(&self, x: usize, y: usize) -> (r: Result<&V, GridError>)
        requires
            self.wf(),
        ensures
            x < self.spec_width() && y < self.spec_height() ==> (r matches Ok(v) && *v
                == self.cell(x as int, y as int)),
            !(x < self.spec_width() && y < self.spec_height()) ==> r == Err::<&V, GridError>(
                GridError::IndexOutOfBounds,
            ),
    {
        if x < self.width && y < self.height {
            Ok(self.get(x, y))
        } else {
            Err(GridError::IndexOutOfBounds)
        }
    }

    /// Gets a mutable reference to the grid element at column `x` and row `y`.
    pub fn get_mut(&mut self, x: usize, y: usize) -> (r: &mut V)
        requires
            old(self).wf(),
            x < old(self).spec_width(),
            y < old(self).spec_height(),
        ensures
            *r == old(self).cell(x as int, y as int),
            final(self).spec_width() == old(self).spec_width(),
            final(self).spec_height() == old(self).spec_height(),
            final(self).cells() == old(self).cells().update(
                index_of(old(self).spec_width() as int, x as int, y as int),
                *final(r),
            ),
    {
        let index = self.coords_to_slice_index(x, y);
        &mut self.values[index]
    }

    /// Creates a new [`Grid`] by applying a function to every element of the grid.
    pub fn map<M, Vnew>(&self, map: M) -> (r: Grid<Vnew>) where M: Fn(&V) -> Vnew
        requires
            self.wf(),
            forall|v: &V| map.requires((v,)),
        ensures
            r.wf(),
            r.spec_width() == self.spec_width(),
            r.spec_height() == self.spec_height(),
            forall|i: int|
                0 <= i < self.cells().len() ==> map.ensures((&self.cells()[i],), #[trigger] r.cells()[i]),
    {
        let n = self.values.len();
        let mut values: Vec<Vnew> = Vec::new();
        let mut i: usize = 0;
        while i < n
            invariant
                n == self.cells().len(),
                i <= n,
                values@.len() == i,
                forall|v: &V| map.requires((v,)),
                forall|j: int| 0 <= j < i ==> map.ensures((&self.cells()[j],), #[trigger] values@[j]),
            decreases n - i,
        {
            let value = map(&self.values[i]);
            values.push(value);
            i += 1;
        }
        Grid { values, width: self.width, height: self.height }
    }

    /// Creates a new [`Grid`] by applying a function to every element and its position
    /// (column, then row).
    pub fn map_indexed<M, Vnew>(&self, map: M) -> (r: Grid<Vnew>) where
        M: Fn(&V, usize, usize) -> Vnew,

        requires
            self.wf(),
            forall|v: &V, x: usize, y: usize|
                x < self.spec_width() && y < self.spec_height() ==> map.requires((v, x, y)),
        ensures
            r.wf(),
            r.spec_width() == self.spec_width(),
            r.spec_height() == self.spec_height(),
            forall|x: usize, y: usize|
                x < self.spec_width() && y < self.spec_height() ==> map.ensures(
                    (&self.cell(x as int, y as int), x, y),
                    #[trigger] r.cell(x as int, y as int),
                ),
    {
        let n = self.values.len();
        let ghost w = self.width as int;
        let mut values: Vec<Vnew> = Vec::new();
        let mut i: usize = 0;
        while i < n
            invariant
                self.wf(),
                w == self.spec_width(),
                n == self.cells().len(),
                i <= n,
                values@.len() == i,
                forall|v: &V, x: usize, y: usize|
                    x < self.spec_width() && y < self.spec_height() ==> map.requires((v, x, y)),
                forall|j: int|
                    0 <= j < i ==> map.ensures(
                        (&self.cells()[j], coords_of(w, j).0 as usize, coords_of(w, j).1 as usize),
                        #[trigger] values@[j],
                    ),
            decreases n - i,
        {
            let (x, y) = self.slice_index_to_coords(i);
            let value = map(&self.values[i], x, y);
            values.push(value);
            i += 1;
        }
        let r = Grid { values, width: self.width, height: self.height };
        proof {
            assert forall|x: usize, y: usize|
                x < self.spec_width() && y < self.spec_height() implies map.ensures(
                (&self.cell(x as int, y as int), x, y),
                #[trigger] r.cell(x as int, y as int),
            ) by {
                let h = self.spec_height() as int;
                lemma_index_in_range(w, h, x as int, y as int);
                let j = index_of(w, x as int, y as int);
                lemma_coords_round_trip(w, h, x as int, y as int, j);
                assert(values@[j] == r.cell(x as int, y as int));
            }
        }
        r
    }

    fn coords_to_slice_index(&self, x: usize, y: usize) -> (r: usize)
        requires
            self.wf(),
            x < self.spec_width(),
            y < self.spec_height(),
        ensures
            r == index_of(self.spec_width() as int, x as int, y as int),
            r < self.cells().len(),
    {
        proof {
            lemma_index_in_range(self.width as int, self.height as int, x as int, y as int);
        }
        y * self.width + x
    }

    fn slice_index_to_coords(&self, index: usize) -> (r: (usize, usize))
        requires
            self.wf(),
            index < self.cells().len(),
        ensures
            (r.0 as int, r.1 as int) == coords_of(self.spec_width() as int, index as int),
            r.0 < self.spec_width(),
            r.1 < self.spec_height(),
    {
        proof {
            lemma_coords_in_range(self.width as int, self.height as int, index as int);
        }
        (index % self.width, index / self.width)
    }
}

proof fn lemma_index_in_range(w: int, h: int, x: int, y: int)
    requires
        0 <= x < w,
        0 <= y < h,
    ensures
        0 <= index_of(w, x, y) < w * h,
{
    assert(y * w + x < w * h) by (nonlinear_arith)
        requires
            0 <= x < w,
            0 <= y < h,
    ;
    assert(0 <= y * w) by (nonlinear_arith)
        requires
            0 <= y,
            0 <= w,
    ;
}

proof fn lemma_coords_in_range(w: int, h: int, i: int)
    requires
        0 <= i < w * h,
        0 <= w,
        0 <= h,
    ensures
        w > 0,
        0 <= coords_of(w, i).0 < w,
        0 <= coords_of(w, i).1 < h,
{
    if w == 0 {
        assert(w * h == 0);
    }
    assert(w > 0);
    assert(i / w < h) by (nonlinear_arith)
        requires
            0 <= i < w * h,
            w > 0,
    ;
    assert(0 <= i % w < w) by (nonlinear_arith)
        requires
            0 <= i,
            w > 0,
    ;
    assert(0 <= i / w) by (nonlinear_arith)
        requires
            0 <= i,
            w > 0,
    ;
}

/// Turning in-range coordinates into a flat index and back gives the coordinates again,
/// and turning an in-range flat index into coordinates and back gives the index again.
pub proof fn lemma_coords_round_trip(w: int, h: int, x: int, y: int, i: int)
    requires
        0 <= x < w,
        0 <= y < h,
        0 <= i < w * h,
    ensures
        coords_of(w, index_of(w, x, y)) == (x, y),
        index_of(w, coords_of(w, i).0, coords_of(w, i).1) == i,
{
    assert((y * w + x) % w == x && (y * w + x) / w == y) by (nonlinear_arith)
        requires
            0 <= x < w,
            0 <= y,
    ;
    assert((i / w) * w + i % w == i) by (nonlinear_arith)
        requires
            w > 0,
    ;
}

} // verus!
