use vstd::prelude::*;

use super::Grid;

verus! {

/// The cells of row `row` of `g` from column `col` on, left to right.
pub open spec fn row_cells_from<V>(g: Grid<V>, row: int, col: int) -> Seq<V>
    decreases g.spec_width() - col,
{
    if 0 <= col < g.spec_width() {
        seq![g.cell(col, row)] + row_cells_from(g, row, col + 1)
    } else {
        Seq::empty()
    }
}

/// The cells of column `col` of `g` from row `row` on, top to bottom.
pub open spec fn col_cells_from<V>(g: Grid<V>, col: int, row: int) -> Seq<V>
    decreases g.spec_height() - row,
{
    if 0 <= row < g.spec_height() {
        seq![g.cell(col, row)] + col_cells_from(g, col, row + 1)
    } else {
        Seq::empty()
    }
}

impl<V> Grid<V> {
    /// Returns a view to a specific row of the grid.
    pub fn row(&self, row: usize) -> (r: GridRow<'_, V>)
        requires
            self.wf(),
            row < self.spec_height(),
        ensures
            r.wf(),
            r.grid() == *self,
            r.index() == row,
    {
        GridRow { grid: self, row }
    }

    /// Returns a view to a specific column of the grid.
    pub fn col(&self, col: usize) -> (r: GridCol<'_, V>)
        requires
            self.wf(),
            col < self.spec_width(),
        ensures
            r.wf(),
            r.grid() == *self,
            r.index() == col,
    {
        GridCol { grid: self, col }
    }

    /// Returns the rows of this grid, top to bottom, one view per [`Rows::next`] call.
    pub fn rows(&self) -> (r: Rows<'_, V>)
        requires
            self.wf(),
        ensures
            r.wf(),
            r.grid() == *self,
            r.position() == 0,
    {
        Rows { row: 0, grid: self }
    }

    /// Returns the columns of this grid, left to right, one view per [`Cols::next`] call.
    pub fn cols(&self) -> (r: Cols<'_, V>)
        requires
            self.wf(),
        ensures
            r.wf(),
            r.grid() == *self,
            r.position() == 0,
    {
        Cols { col: 0, grid: self }
    }
}

/// A view to one row of a grid.
#[derive(Clone)]
pub struct GridRow<'a, V> {
    row: usize,
    grid: &'a Grid<V>,
}

impl<'a, V> GridRow<'a, V> {
    /// The grid viewed.
    pub closed spec fn grid(&self) -> Grid<V> {
        *self.grid
    }

    /// The row viewed.
    pub closed spec fn index(&self) -> nat {
        self.row as nat
    }

    /// The grid is well formed and the row lies in it.
    pub open spec fn wf(&self) -> bool {
        self.grid().wf() && self.index() < self.grid().spec_height()
    }

    /// Gets the element of this row at column `col`.
    pub fn get(&self, col: usize) -> (r: &'a V)
        requires
            self.wf(),
            col < self.grid().spec_width(),
        ensures
            *r == self.grid().cell(col as int, self.index() as int),
    {
        let grid: &'a Grid<V> = self.grid;
        grid.get(col, self.row)
    }

    /// Returns a cursor over the cells of this row, left to right.
    pub fn into_iter(self) -> (r: GridRowIter<'a, V>)
        requires
            self.wf(),
        ensures
            r.wf(),
            r.grid() == self.grid(),
            r.remaining() == row_cells_from(self.grid(), self.index() as int, 0),
    {
        GridRowIter { grid: self.grid, row: self.row, col: 0 }
    }
}

impl<'a, V> std::ops::Index<usize> for GridRow<'a, V> {
    type Output = V;

    /// The element of this row at column `col`.
    fn index(&self, col: usize) -> &V {
        self.get(col)
    }
}

impl<'a, V> vstd::std_specs::core::IndexSpecImpl<usize> for GridRow<'a, V> {
    open spec fn index_req(&self, col: &usize) -> bool {
        self.wf() && *col < self.grid().spec_width()
    }
}

/// A view to one column of a grid.
#[derive(Clone)]
pub struct GridCol<'a, V> {
    col: usize,
    grid: &'a Grid<V>,
}

impl<'a, V> GridCol<'a, V> {
    /// The grid viewed.
    pub closed spec fn grid(&self) -> Grid<V> {
        *self.grid
    }

    /// The column viewed.
    pub closed spec fn index(&self) -> nat {
        self.col as nat
    }

    /// The grid is well formed and the column lies in it.
    pub open spec fn wf(&self) -> bool {
        self.grid().wf() && self.index() < self.grid().spec_width()
    }

    /// Gets the element of this column at row `row`.
    pub fn get(&self, row: usize) -> (r: &'a V)
        requires
            self.wf(),
            row < self.grid().spec_height(),
        ensures
            *r == self.grid().cell(self.index() as int, row as int),
    {
        let grid: &'a Grid<V> = self.grid;
        grid.get(self.col, row)
    }

    /// Returns a cursor over the cells of this column, top to bottom.
    pub fn into_iter(self) -> (r: GridColIter<'a, V>)
        requires
            self.wf(),
        ensures
            r.wf(),
            r.grid() == self.grid(),
            r.remaining() == col_cells_from(self.grid(), self.index() as int, 0),
    {
        GridColIter { grid: self.grid, row: 0, col: self.col }
    }
}

impl<'a, V> std::ops::Index<usize> for GridCol<'a, V> {
    type Output = V;

    /// The element of this column at row `row`.
    fn index(&self, row: usize) -> &V {
        self.get(row)
    }
}

impl<'a, V> vstd::std_specs::core::IndexSpecImpl<usize> for GridCol<'a, V> {
    open spec fn index_req(&self, row: &usize) -> bool {
        self.wf() && *row < self.grid().spec_height()
    }
}

/// A cursor over the cells of one row, left to right.
#[derive(Clone)]
pub struct GridRowIter<'a, V> {
    grid: &'a Grid<V>,
    row: usize,
    col: usize,
}

impl<'a, V> GridRowIter<'a, V> {
    /// The grid walked.
    pub closed spec fn grid(&self) -> Grid<V> {
        *self.grid
    }

    /// The cells still to come.
    pub closed spec fn remaining(&self) -> Seq<V> {
        row_cells_from(*self.grid, self.row as int, self.col as int)
    }

    /// The grid is well formed and the cursor lies in it.
    pub closed spec fn wf(&self) -> bool {
        self.grid.wf() && self.row < self.grid.height && self.col <= self.grid.width
    }

    /// Returns the next cell of the row, or `None` at its end.
    pub fn next(&mut self) -> (r: Option<&'a V>)
        requires
            old(self).wf(),
        ensures
            final(self).wf(),
            final(self).grid() == old(self).grid(),
            match r {
                Some(v) => {
                    &&& old(self).remaining().len() > 0
                    &&& *v == old(self).remaining()[0]
                    &&& final(self).remaining() == old(self).remaining().drop_first()
                },
                None => old(self).remaining().len() == 0 && final(self).remaining() == old(
                    self,
                ).remaining(),
            },
    {
        if self.col < self.grid.width {
            let grid: &'a Grid<V> = self.grid;
            let val = grid.get(self.col, self.row);
            proof {
                assert(row_cells_from(*grid, self.row as int, self.col + 1) =~= self.remaining().drop_first());
            }
            self.col += 1;
            Some(val)
        } else {
            None
        }
    }
}

/// A cursor over the cells of one column, top to bottom.
#[derive(Clone)]
pub struct GridColIter<'a, V> {
    grid: &'a Grid<V>,
    row: usize,
    col: usize,
}

impl<'a, V> GridColIter<'a, V> {
    /// The grid walked.
    pub closed spec fn grid(&self) -> Grid<V> {
        *self.grid
    }

    /// The cells still to come.
    pub closed spec fn remaining(&self) -> Seq<V> {
        col_cells_from(*self.grid, self.col as int, self.row as int)
    }

    /// The grid is well formed and the cursor lies in it.
    pub closed spec fn wf(&self) -> bool {
        self.grid.wf() && self.col < self.grid.width && self.row <= self.grid.height
    }

    /// Returns the next cell of the column, or `None` at its end.
    pub fn next(&mut self) -> (r: Option<&'a V>)
        requires
            old(self).wf(),
        ensures
            final(self).wf(),
            final(self).grid() == old(self).grid(),
            match r {
                Some(v) => {
                    &&& old(self).remaining().len() > 0
                    &&& *v == old(self).remaining()[0]
                    &&& final(self).remaining() == old(self).remaining().drop_first()
                },
                None => old(self).remaining().len() == 0 && final(self).remaining() == old(
                    self,
                ).remaining(),
            },
    {
        if self.row < self.grid.height {
            let grid: &'a Grid<V> = self.grid;
            let val = grid.get(self.col, self.row);
            proof {
                assert(col_cells_from(*grid, self.col as int, self.row + 1) =~= self.remaining().drop_first());
            }
            self.row += 1;
            Some(val)
        } else {
            None
        }
    }
}

/// A cursor over the rows of a grid, top to bottom.
#[derive(Clone)]
pub struct Rows<'a, V> {
    row: usize,
    grid: &'a Grid<V>,
}

impl<'a, V> Rows<'a, V> {
    /// The grid walked.
    pub closed spec fn grid(&self) -> Grid<V> {
        *self.grid
    }

    /// The row that the next call returns, if it lies in the grid.
    pub closed spec fn position(&self) -> nat {
        self.row as nat
    }

    /// The grid is well formed and the cursor lies in it.
    pub open spec fn wf(&self) -> bool {
        self.grid().wf() && self.position() <= self.grid().spec_height()
    }

    /// Returns a view to the next row, or `None` after the last one.
    pub fn next(&mut self) -> (r: Option<GridRow<'a, V>>)
        requires
            old(self).wf(),
        ensures
            final(self).wf(),
            final(self).grid() == old(self).grid(),
            match r {
                Some(v) => {
                    &&& old(self).position() < old(self).grid().spec_height()
                    &&& v.wf()
                    &&& v.grid() == old(self).grid()
                    &&& v.index() == old(self).position()
                    &&& final(self).position() == old(self).position() + 1
                },
                None => {
                    &&& old(self).position() == old(self).grid().spec_height()
                    &&& final(self).position() == old(self).position()
                },
            },
    {
        if self.row < self.grid.height {
            let grid: &'a Grid<V> = self.grid;
            let row = grid.row(self.row);
            self.row += 1;
            Some(row)
        } else {
            None
        }
    }
}

/// A cursor over the columns of a grid, left to right.
#[derive(Clone)]
pub struct Cols<'a, V> {
    col: usize,
    grid: &'a Grid<V>,
}

impl<'a, V> Cols<'a, V> {
    /// The grid walked.
    pub closed spec fn grid(&self) -> Grid<V> {
        *self.grid
    }

    /// The column that the next call returns, if it lies in the grid.
    pub closed spec fn position(&self) -> nat {
        self.col as nat
    }

    /// The grid is well formed and the cursor lies in it.
    pub open spec fn wf(&self) -> bool {
        self.grid().wf() && self.position() <= self.grid().spec_width()
    }

    /// Returns a view to the next column, or `None` after the last one.
    pub fn next(&mut self) -> (r: Option<GridCol<'a, V>>)
        requires
            old(self).wf(),
        ensures
            final(self).wf(),
            final(self).grid() == old(self).grid(),
            match r {
                Some(v) => {
                    &&& old(self).position() < old(self).grid().spec_width()
                    &&& v.wf()
                    &&& v.grid() == old(self).grid()
                    &&& v.index() == old(self).position()
                    &&& final(self).position() == old(self).position() + 1
                },
                None => {
                    &&& old(self).position() == old(self).grid().spec_width()
                    &&& final(self).position() == old(self).position()
                },
            },
    {
        if self.col < self.grid.width {
            let grid: &'a Grid<V> = self.grid;
            let col = grid.col(self.col);
            self.col += 1;
            Some(col)
        } else {
            None
        }
    }
}

/// Walking the view of row `r` from its start yields exactly
/// `get(0, r), get(1, r), ..., get(width - 1, r)`, in that order.
pub proof fn lemma_row_iteration<V>(g: Grid<V>, r: int)
    requires
        g.wf(),
        0 <= r < g.spec_height(),
    ensures
        row_cells_from(g, r, 0) == Seq::new(g.spec_width(), |c: int| g.cell(c, r)),
{
    lemma_row_cells_from(g, r, 0);
    assert(Seq::new((g.spec_width() - 0) as nat, |i: int| g.cell(0 + i, r)) =~= Seq::new(
        g.spec_width(),
        |c: int| g.cell(c, r),
    ));
}

proof fn lemma_row_cells_from<V>(g: Grid<V>, r: int, c: int)
    requires
        0 <= c <= g.spec_width(),
    ensures
        row_cells_from(g, r, c) == Seq::new((g.spec_width() - c) as nat, |i: int| g.cell(c + i, r)),
    decreases g.spec_width() - c,
{
    if c < g.spec_width() {
        lemma_row_cells_from(g, r, c + 1);
    }
    assert(row_cells_from(g, r, c) =~= Seq::new((g.spec_width() - c) as nat, |i: int| g.cell(c + i, r)));
}

/// Walking the view of column `c` from its start yields exactly
/// `get(c, 0), get(c, 1), ..., get(c, height - 1)`, in that order.
pub proof fn lemma_col_iteration<V>(g: Grid<V>, c: int)
    requires
        g.wf(),
        0 <= c < g.spec_width(),
    ensures
        col_cells_from(g, c, 0) == Seq::new(g.spec_height(), |r: int| g.cell(c, r)),
{
    lemma_col_cells_from(g, c, 0);
    assert(Seq::new((g.spec_height() - 0) as nat, |i: int| g.cell(c, 0 + i)) =~= Seq::new(
        g.spec_height(),
        |r: int| g.cell(c, r),
    ));
}

proof fn lemma_col_cells_from<V>(g: Grid<V>, c: int, r: int)
    requires
        0 <= r <= g.spec_height(),
    ensures
        col_cells_from(g, c, r) == Seq::new((g.spec_height() - r) as nat, |i: int| g.cell(c, r + i)),
    decreases g.spec_height() - r,
{
    if r < g.spec_height() {
        lemma_col_cells_from(g, c, r + 1);
    }
    assert(col_cells_from(g, c, r) =~= Seq::new((g.spec_height() - r) as nat, |i: int| g.cell(c, r + i)));
}

} // verus!
