//! The world grid: a rectangular array of cell symbols.
//!
//! A space is a passable cell; any other symbol is a wall variant.  The grid
//! is immutable during a render pass; every renderer component reads it
//! through `cell` and the world-coordinate lookup here.

use vstd::prelude::*;

verus! {

/// The symbol of a passable cell.
pub const EMPTY_CELL: char = ' ';

/// Largest number of rows or columns a grid accepts; keeps every index
/// comparison inside `i64`.
pub const GRID_DIM_MAX: usize = 65535;

/// A rectangular grid of cell symbols: every row has the same length.
pub struct Grid {
    /// The rows of symbols; `wf` states their rectangularity.
    pub cells: Vec<Vec<char>>,
}

impl Grid {
    /// Rows, columns, and rectangularity, with both dimensions positive and
    /// within `GRID_DIM_MAX`.
    pub open spec fn wf(self) -> bool {
        &&& 0 < self.cells@.len() <= GRID_DIM_MAX as int
        &&& 0 < self.cells@[0]@.len() <= GRID_DIM_MAX as int
        &&& forall|i: int|
            0 <= i < self.cells@.len() ==> (#[trigger] self.cells@[i])@.len()
                == self.cells@[0]@.len()
    }

    /// Number of rows.
    pub open spec fn rows(self) -> int {
        self.cells@.len() as int
    }

    /// Number of columns.
    pub open spec fn cols(self) -> int {
        self.cells@[0]@.len() as int
    }

    /// The symbol at a row and column.
    pub open spec fn cell(self, row: int, col: int) -> char {
        self.cells@[row]@[col]
    }

    /// Builds a grid from rows of symbols.  Returns the grid exactly when the
    /// rows are non-empty, equally long, and within `GRID_DIM_MAX` each way.
    pub fn new(cells: Vec<Vec<char>>) -> (r: Option<Grid>)
        ensures
            match r {
                Some(g) => g.wf() && g.cells@ == cells@,
                None => !(Grid { cells }).wf(),
            },
    {
        if cells.len() == 0 || cells.len() > GRID_DIM_MAX {
            return None;
        }
        let want: usize = cells[0].len();
        if want == 0 || want > GRID_DIM_MAX {
            return None;
        }
        let mut i: usize = 1;
        while i < cells.len()
            invariant
                1 <= i <= cells@.len(),
                want == cells@[0]@.len(),
                forall|j: int| 0 <= j < i ==> (#[trigger] cells@[j])@.len() == want as int,
            decreases cells@.len() - i,
        {
            if cells[i].len() != want {
                return None;
            }
            i += 1;
        }
        Some(Grid { cells })
    }

    /// Number of rows.
    pub fn row_count(&self) -> (r: usize)
        ensures
            r == self.rows(),
    {
        self.cells.len()
    }

    /// Number of columns.
    pub fn col_count(&self) -> (r: usize)
        requires
            self.wf(),
        ensures
            r == self.cols(),
    {
        self.cells[0].len()
    }

    /// The symbol at a row and column.
    pub fn at(&self, row: usize, col: usize) -> (r: char)
        requires
            self.wf(),
            row < self.rows(),
            col < self.cols(),
        ensures
            r == self.cell(row as int, col as int),
    {
        self.cells[row][col]
    }

    /// The symbol at a signed cell index, `None` outside the grid.
    pub fn at_signed(&self, row: i64, col: i64) -> (r: Option<char>)
        requires
            self.wf(),
        ensures
            r == spec_cell_signed(*self, row as int, col as int),
    {
        if row >= 0 && col >= 0 && row < self.cells.len() as i64 && col < self.cells[0].len() as i64 {
            Some(self.cells[row as usize][col as usize])
        } else {
            None
        }
    }
}

/// The symbol at a signed cell index, `None` outside the grid.
pub open spec fn spec_cell_signed(g: Grid, row: int, col: int) -> Option<char> {
    if 0 <= row < g.rows() && 0 <= col < g.cols() {
        Some(g.cell(row, col))
    } else {
        None
    }
}

/// The symbol of the cell containing a world point, `None` when the point
/// lies outside the grid (negative coordinates included).
pub open spec fn spec_cell_at_world(g: Grid, cell_size: int, x: int, y: int) -> Option<char> {
    if x < 0 || y < 0 {
        None
    } else {
        spec_cell_signed(g, y / cell_size, x / cell_size)
    }
}

/// True when the world point lies in a passable cell of the grid.
pub open spec fn spec_empty_at_world(g: Grid, cell_size: int, x: int, y: int) -> bool {
    spec_cell_at_world(g, cell_size, x, y) == Some(EMPTY_CELL)
}

/// The symbol of the cell containing a world point, `None` outside the grid.
pub fn cell_at_world(g: &Grid, cell_size: i64, x: i64, y: i64) -> (r: Option<char>)
    requires
        g.wf(),
        cell_size > 0,
    ensures
        r == spec_cell_at_world(*g, cell_size as int, x as int, y as int),
{
    if x < 0 || y < 0 {
        return None;
    }
    let col: i64 = x / cell_size;
    let row: i64 = y / cell_size;
    g.at_signed(row, col)
}

} // verus!
