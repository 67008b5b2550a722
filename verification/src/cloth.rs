//! The cloth itself: a grid of particles, some of them pinned in place, and
//! the three sets of springs between them.

use vstd::prelude::*;
use crate::error::ConfigurationError;
use crate::error::grid_fault;
use crate::grid::Grid;
use crate::grid::col_of;
use crate::grid::lemma_cell_index_bound;
use crate::grid::lemma_cell_of_index;
use crate::grid::lemma_index_of_cell;
use crate::grid::row_of;
use crate::spring::Link;
use crate::spring::Spring;
use crate::spring::SpringKind;
use crate::spring::links_of;
use crate::topology::links;
use crate::topology::springs_of;

verus! {

/// Whether `(row, col)` is one of the two ends of the first row of a grid of
/// `cols` columns.
pub open spec fn is_top_corner(cols: nat, row: int, col: int) -> bool {
    row == 0 && (col == 0 || col == cols - 1)
}

/// Whether `(row, col)` is one of the two ends of the first row of a grid of
/// `cols` columns: the particles that a cloth pins unless told otherwise.
pub fn top_corner(cols: usize, row: usize, col: usize) -> (pinned: bool)
    ensures
        pinned == is_top_corner(cols as nat, row as int, col as int),
{
    row == 0 && (col == 0 || (cols > 0 && col == cols - 1))
}

/// The cell of the particle `index`, as the arguments of a pin predicate.
pub open spec fn cell_of(cols: nat, index: nat) -> (usize, usize) {
    (row_of(cols, index) as usize, col_of(cols, index) as usize)
}

/// The pin flags of a grid whose top corners are pinned, particle by particle.
pub open spec fn top_corner_pins(rows: nat, cols: nat) -> Seq<bool> {
    Seq::new(
        rows * cols,
        |i: int| is_top_corner(cols, row_of(cols, i as nat), col_of(cols, i as nat)),
    )
}

/// The mathematical value of a cloth.
pub struct ClothView {
    /// The number of rows of particles.
    pub rows: nat,
    /// The number of columns of particles.
    pub cols: nat,
    /// For each particle, by index, whether it is pinned.
    pub pinned: Seq<bool>,
    /// The structural springs, in listing order.
    pub structural: Seq<Link>,
    /// The shear springs, in listing order.
    pub shear: Seq<Link>,
    /// The bend springs, in listing order.
    pub bend: Seq<Link>,
}

impl ClothView {
    /// The springs of class `kind`, in listing order.
    pub open spec fn springs(self, kind: SpringKind) -> Seq<Link> {
        match kind {
            SpringKind::Stretch => self.structural,
            SpringKind::Shear => self.shear,
            SpringKind::Bend => self.bend,
        }
    }

    /// What holds of every cloth: the grid is not empty, each particle has its
    /// pin flag, and the springs are those of the grid.
    pub open spec fn wf(self) -> bool {
        &&& self.rows >= 1
        &&& self.cols >= 1
        &&& self.rows * self.cols <= usize::MAX
        &&& self.pinned.len() == self.rows * self.cols
        &&& self.structural == links(self.rows, self.cols, SpringKind::Stretch)
        &&& self.shear == links(self.rows, self.cols, SpringKind::Shear)
        &&& self.bend == links(self.rows, self.cols, SpringKind::Bend)
    }
}

/// A cloth of `rows` by `cols` particles.
#[derive(Debug)]
pub struct Cloth {
    grid: Grid,
    pinned: Vec<bool>,
    structural: Vec<Spring>,
    shear: Vec<Spring>,
    bend: Vec<Spring>,
}

impl View for Cloth {
    type V = ClothView;

    closed spec fn view(&self) -> ClothView {
        ClothView {
            rows: self.grid.spec_rows(),
            cols: self.grid.spec_cols(),
            pinned: self.pinned@,
            structural: links_of(self.structural@),
            shear: links_of(self.shear@),
            bend: links_of(self.bend@),
        }
    }
}

impl Cloth {
    #[verifier::type_invariant]
    spec fn holds(self) -> bool {
        self@.wf()
    }

    /// A cloth of `cols` columns and `rows` rows in which `pin` says, cell by
    /// cell, whether the particle is pinned; or the fault in the dimensions.
    /// `pin` is asked once for each cell, in index order.
    pub fn with_pins<F: Fn(usize, usize) -> bool>(cols: usize, rows: usize, pin: F) -> (made:
        Result<Cloth, ConfigurationError>)
        requires
            forall|row: usize, col: usize|
                row < rows && col < cols ==> call_requires(pin, (row, col)),
        ensures
            match made {
                Ok(cloth) => {
                    &&& grid_fault(cols as nat, rows as nat) is None
                    &&& cloth@.wf()
                    &&& cloth@.rows == rows
                    &&& cloth@.cols == cols
                    &&& forall|i: int|
                        0 <= i < rows * cols ==> call_ensures(
                            pin,
                            cell_of(cols as nat, i as nat),
                            #[trigger] cloth@.pinned[i],
                        )
                },
                Err(fault) => grid_fault(cols as nat, rows as nat) == Some(fault),
            },
    {
        let grid = match Grid::new(cols, rows) {
            Ok(grid) => grid,
            Err(fault) => {
                return Err(fault);
            },
        };
        let mut pinned: Vec<bool> = Vec::new();
        let mut row: usize = 0;
        while row < rows
            invariant
                row <= rows,
                cols >= 1,
                rows * cols <= usize::MAX,
                pinned@.len() == row * cols,
                forall|r: usize, c: usize| r < rows && c < cols ==> call_requires(pin, (r, c)),
                forall|i: int|
                    0 <= i < pinned@.len() ==> call_ensures(
                        pin,
                        cell_of(cols as nat, i as nat),
                        #[trigger] pinned@[i],
                    ),
            decreases rows - row,
        {
            let mut col: usize = 0;
            while col < cols
                invariant
                    row < rows,
                    col <= cols,
                    cols >= 1,
                    rows * cols <= usize::MAX,
                    pinned@.len() == row * cols + col,
                    forall|r: usize, c: usize| r < rows && c < cols ==> call_requires(pin, (r, c)),
                    forall|i: int|
                        0 <= i < pinned@.len() ==> call_ensures(
                            pin,
                            cell_of(cols as nat, i as nat),
                            #[trigger] pinned@[i],
                        ),
                decreases cols - col,
            {
                proof {
                    lemma_cell_of_index(rows as nat, cols as nat, row as int, col as int);
                    lemma_cell_index_bound(rows as nat, cols as nat, row as int, col as int);
                }
                let flag = pin(row, col);
                pinned.push(flag);
                col = col + 1;
            }
            assert(row * cols + cols == (row + 1) * cols) by (nonlinear_arith);
            row = row + 1;
        }
        let structural = springs_of(&grid, SpringKind::Stretch);
        let shear = springs_of(&grid, SpringKind::Shear);
        let bend = springs_of(&grid, SpringKind::Bend);
        Ok(Cloth { grid, pinned, structural, shear, bend })
    }

    /// A cloth of `cols` columns and `rows` rows with its top corners pinned, or
    /// the fault in the dimensions.
    pub fn new(cols: usize, rows: usize) -> (made: Result<Cloth, ConfigurationError>)
        ensures
            match made {
                Ok(cloth) => {
                    &&& grid_fault(cols as nat, rows as nat) is None
                    &&& cloth@.wf()
                    &&& cloth@.rows == rows
                    &&& cloth@.cols == cols
                    &&& cloth@.pinned == top_corner_pins(rows as nat, cols as nat)
                },
                Err(fault) => grid_fault(cols as nat, rows as nat) == Some(fault),
            },
    {
        let pin = |row: usize, col: usize| -> (pinned: bool)
            ensures
                pinned == is_top_corner(cols as nat, row as int, col as int),
            { top_corner(cols, row, col) };
        let made = Cloth::with_pins(cols, rows, pin);
        proof {
            if made is Ok {
                let cloth = made->Ok_0;
                assert forall|i: int| 0 <= i < rows * cols implies cloth@.pinned[i]
                    == top_corner_pins(rows as nat, cols as nat)[i] by {
                    lemma_index_of_cell(rows as nat, cols as nat, i as nat);
                    let flag = cloth@.pinned[i];
                    assert(call_ensures(
                        pin,
                        cell_of(cols as nat, i as nat),
                        flag,
                    ));
                }
                assert(cloth@.pinned =~= top_corner_pins(rows as nat, cols as nat));
            }
        }
        made
    }

    /// The number of rows.
    pub fn rows(&self) -> (n: usize)
        ensures
            n == self@.rows,
            self@.wf(),
    {
        proof {
            use_type_invariant(self);
        }
        self.grid.rows()
    }

    /// The number of columns.
    pub fn cols(&self) -> (n: usize)
        ensures
            n == self@.cols,
            self@.wf(),
    {
        proof {
            use_type_invariant(self);
        }
        self.grid.cols()
    }

    /// The number of particles: `rows * cols`.
    pub fn particle_count(&self) -> (n: usize)
        ensures
            n == self@.rows * self@.cols,
            n == self@.pinned.len(),
            self@.wf(),
    {
        proof {
            use_type_invariant(self);
        }
        self.pinned.len()
    }

    /// The grid on which the particles lie.
    pub fn grid(&self) -> (grid: &Grid)
        ensures
            grid.spec_rows() == self@.rows,
            grid.spec_cols() == self@.cols,
            self@.wf(),
    {
        proof {
            use_type_invariant(self);
        }
        &self.grid
    }

    /// The pin flags, particle by particle.
    pub fn pinned(&self) -> (flags: &Vec<bool>)
        ensures
            flags@ == self@.pinned,
            self@.wf(),
    {
        proof {
            use_type_invariant(self);
        }
        &self.pinned
    }

    /// Whether the particle `index` is pinned; `false` where the cloth has no
    /// such particle.
    pub fn is_pinned(&self, index: usize) -> (pinned: bool)
        ensures
            pinned == (index < self@.pinned.len() && self@.pinned[index as int]),
    {
        index < self.pinned.len() && self.pinned[index]
    }

    /// The springs of class `kind`, in listing order.
    pub fn springs(&self, kind: SpringKind) -> (springs: &Vec<Spring>)
        ensures
            links_of(springs@) == self@.springs(kind),
            self@.wf(),
    {
        proof {
            use_type_invariant(self);
        }
        match kind {
            SpringKind::Stretch => &self.structural,
            SpringKind::Shear => &self.shear,
            SpringKind::Bend => &self.bend,
        }
    }

    /// The structural springs, in listing order.
    pub fn structural_springs(&self) -> (springs: &Vec<Spring>)
        ensures
            links_of(springs@) == self@.structural,
            self@.wf(),
    {
        self.springs(SpringKind::Stretch)
    }
}

} // verus!
