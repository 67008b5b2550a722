//! Row-major addressing of the particles of a rectangular cloth, and the one
//! bounds-checked way to step from a particle to another.

use vstd::prelude::*;
use vstd::arithmetic::div_mod::lemma_fundamental_div_mod_converse;
use vstd::arithmetic::div_mod::lemma_fundamental_div_mod;
use crate::error::ConfigurationError;
use crate::error::grid_fault;

verus! {

/// Whether `(row, col)` names a cell of a grid of `rows` by `cols` cells.
pub open spec fn in_grid(rows: nat, cols: nat, row: int, col: int) -> bool {
    0 <= row < rows && 0 <= col < cols
}

/// The index of the cell `(row, col)`: cells are numbered row by row.
pub open spec fn cell_index(cols: nat, row: int, col: int) -> int {
    row * cols + col
}

/// The row of the cell with the given index.
pub open spec fn row_of(cols: nat, index: nat) -> int {
    index as int / cols as int
}

/// The column of the cell with the given index.
pub open spec fn col_of(cols: nat, index: nat) -> int {
    index as int % cols as int
}

/// The index of the cell that lies `d_row` rows and `d_col` columns from the
/// cell `index`, or `None` where `index` is no cell or the step leaves the grid.
/// Each axis is held to its own bound.
pub open spec fn shifted(rows: nat, cols: nat, index: nat, d_row: int, d_col: int) -> Option<nat> {
    if index < rows * cols && in_grid(
        rows,
        cols,
        row_of(cols, index) + d_row,
        col_of(cols, index) + d_col,
    ) {
        Some(
            cell_index(cols, row_of(cols, index) + d_row, col_of(cols, index) + d_col) as nat,
        )
    } else {
        None
    }
}

/// A cell inside the grid has an index below the number of cells.
pub proof fn lemma_cell_index_bound(rows: nat, cols: nat, row: int, col: int)
    requires
        in_grid(rows, cols, row, col),
    ensures
        0 <= cell_index(cols, row, col) < rows * cols,
{
    assert(row * cols + cols <= rows * cols) by (nonlinear_arith)
        requires
            0 <= row < rows,
            0 <= cols,
    ;
    assert(0 <= row * cols) by (nonlinear_arith)
        requires
            0 <= row,
            0 <= cols,
    ;
}

/// Numbering a cell and reading the number back gives the cell again.
pub proof fn lemma_cell_of_index(rows: nat, cols: nat, row: int, col: int)
    requires
        in_grid(rows, cols, row, col),
    ensures
        row_of(cols, cell_index(cols, row, col) as nat) == row,
        col_of(cols, cell_index(cols, row, col) as nat) == col,
{
    lemma_cell_index_bound(rows, cols, row, col);
    lemma_fundamental_div_mod_converse(cell_index(cols, row, col), cols as int, row, col);
}

/// Reading the cell of an index and numbering it gives the index again, and
/// the cell lies inside the grid.
pub proof fn lemma_index_of_cell(rows: nat, cols: nat, index: nat)
    requires
        cols >= 1,
        index < rows * cols,
    ensures
        in_grid(rows, cols, row_of(cols, index), col_of(cols, index)),
        cell_index(cols, row_of(cols, index), col_of(cols, index)) == index,
{
    let q = index as int / cols as int;
    let r = index as int % cols as int;
    lemma_fundamental_div_mod(index as int, cols as int);
    assert(cols * q == q * cols) by (nonlinear_arith);
    assert(0 <= r < cols);
    assert(0 <= q) by (nonlinear_arith)
        requires
            q * cols + r == index,
            0 <= index,
            0 <= r < cols,
    ;
    assert(q < rows) by (nonlinear_arith)
        requires
            q * cols + r == index,
            index < rows * cols,
            0 <= r < cols,
    ;
}

/// Two cells of a grid with the same index are the same cell.
pub proof fn lemma_cell_index_injective(
    rows: nat,
    cols: nat,
    row1: int,
    col1: int,
    row2: int,
    col2: int,
)
    requires
        in_grid(rows, cols, row1, col1),
        in_grid(rows, cols, row2, col2),
        cell_index(cols, row1, col1) == cell_index(cols, row2, col2),
    ensures
        row1 == row2,
        col1 == col2,
{
    lemma_cell_of_index(rows, cols, row1, col1);
    lemma_cell_of_index(rows, cols, row2, col2);
}

/// The dimensions of a cloth: at least one row and one column, and few enough
/// cells for every index to fit a `usize`.
#[derive(Clone, Copy, Debug)]
pub struct Grid {
    rows: usize,
    cols: usize,
}

impl Grid {
    #[verifier::type_invariant]
    spec fn holds(self) -> bool {
        &&& self.rows >= 1
        &&& self.cols >= 1
        &&& self.rows * self.cols <= usize::MAX
    }

    /// The number of rows, as a mathematical value.
    pub closed spec fn spec_rows(&self) -> nat {
        self.rows as nat
    }

    /// The number of columns, as a mathematical value.
    pub closed spec fn spec_cols(&self) -> nat {
        self.cols as nat
    }

    /// The number of cells, as a mathematical value.
    pub open spec fn spec_len(&self) -> nat {
        self.spec_rows() * self.spec_cols()
    }

    /// A grid of `cols` columns and `rows` rows, or the fault in the pair.
    pub fn new(cols: usize, rows: usize) -> (made: Result<Grid, ConfigurationError>)
        ensures
            match made {
                Ok(grid) => {
                    &&& grid_fault(cols as nat, rows as nat) is None
                    &&& grid.spec_rows() == rows
                    &&& grid.spec_cols() == cols
                },
                Err(fault) => grid_fault(cols as nat, rows as nat) == Some(fault),
            },
    {
        if cols < 1 {
            return Err(ConfigurationError::NoColumns);
        }
        if rows < 1 {
            return Err(ConfigurationError::NoRows);
        }
        match rows.checked_mul(cols) {
            Some(_) => Ok(Grid { rows, cols }),
            None => Err(ConfigurationError::TooManyParticles),
        }
    }

    /// The number of rows.
    pub fn rows(&self) -> (n: usize)
        ensures
            n == self.spec_rows(),
            n >= 1,
    {
        proof {
            use_type_invariant(self);
        }
        self.rows
    }

    /// The number of columns.
    pub fn cols(&self) -> (n: usize)
        ensures
            n == self.spec_cols(),
            n >= 1,
    {
        proof {
            use_type_invariant(self);
        }
        self.cols
    }

    /// The number of cells.
    pub fn len(&self) -> (n: usize)
        ensures
            n == self.spec_len(),
            n >= 1,
    {
        proof {
            use_type_invariant(self);
            assert(self.rows * self.cols >= 1) by (nonlinear_arith)
                requires
                    self.rows >= 1,
                    self.cols >= 1,
            ;
        }
        self.rows * self.cols
    }

    /// The index of the cell `(row, col)`, or `None` where the grid has no such
    /// cell.
    pub fn index(&self, row: usize, col: usize) -> (found: Option<usize>)
        ensures
            match found {
                Some(index) => {
                    &&& in_grid(self.spec_rows(), self.spec_cols(), row as int, col as int)
                    &&& index == cell_index(self.spec_cols(), row as int, col as int)
                    &&& index < self.spec_len()
                },
                None => !in_grid(self.spec_rows(), self.spec_cols(), row as int, col as int),
            },
    {
        proof {
            use_type_invariant(self);
        }
        if row < self.rows && col < self.cols {
            proof {
                lemma_cell_index_bound(self.rows as nat, self.cols as nat, row as int, col as int);
            }
            Some(row * self.cols + col)
        } else {
            None
        }
    }

    /// The row and the column of the cell `index`, or `None` where the grid has
    /// no such cell.
    pub fn cell(&self, index: usize) -> (found: Option<(usize, usize)>)
        ensures
            match found {
                Some(cell) => {
                    &&& index < self.spec_len()
                    &&& cell.0 == row_of(self.spec_cols(), index as nat)
                    &&& cell.1 == col_of(self.spec_cols(), index as nat)
                    &&& in_grid(self.spec_rows(), self.spec_cols(), cell.0 as int, cell.1 as int)
                },
                None => index >= self.spec_len(),
            },
    {
        proof {
            use_type_invariant(self);
        }
        if index < self.rows * self.cols {
            proof {
                lemma_index_of_cell(self.rows as nat, self.cols as nat, index as nat);
            }
            Some((index / self.cols, index % self.cols))
        } else {
            None
        }
    }

    /// The cell that lies `d_row` rows and `d_col` columns from the cell
    /// `index`, if both are cells of the grid. Every neighbour lookup of the
    /// crate goes through this function.
    pub fn neighbor(&self, index: usize, d_row: isize, d_col: isize) -> (found: Option<usize>)
        ensures
            match found {
                Some(other) => {
                    &&& shifted(
                        self.spec_rows(),
                        self.spec_cols(),
                        index as nat,
                        d_row as int,
                        d_col as int,
                    ) == Some(other as nat)
                    &&& other < self.spec_len()
                },
                None => shifted(
                    self.spec_rows(),
                    self.spec_cols(),
                    index as nat,
                    d_row as int,
                    d_col as int,
                ) is None,
            },
    {
        proof {
            use_type_invariant(self);
        }
        if index >= self.rows * self.cols {
            return None;
        }
        proof {
            lemma_index_of_cell(self.rows as nat, self.cols as nat, index as nat);
        }
        let row: i128 = (index / self.cols) as i128 + d_row as i128;
        let col: i128 = (index % self.cols) as i128 + d_col as i128;
        if 0 <= row && row < self.rows as i128 && 0 <= col && col < self.cols as i128 {
            proof {
                lemma_cell_index_bound(self.rows as nat, self.cols as nat, row as int, col as int);
            }
            Some(row as usize * self.cols + col as usize)
        } else {
            None
        }
    }
}

} // verus!
