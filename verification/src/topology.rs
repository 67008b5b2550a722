//! Which springs a grid of particles has: every pair of particles one step
//! apart along a row or a column (structural), one step apart along a diagonal
//! (shear), or two steps apart along a row or a column (bend). Each pair is
//! listed once, from its lower index to its higher.

use vstd::prelude::*;
use crate::grid::Grid;
use crate::grid::shifted;
use crate::spring::Link;
use crate::spring::Offset;
use crate::spring::Spring;
use crate::spring::SpringKind;
use crate::spring::links_of;

verus! {

/// The spring that the particle `index` starts along `step`: one where the step
/// stays inside the grid, none where it does not.
pub open spec fn link_along(
    rows: nat,
    cols: nat,
    kind: SpringKind,
    index: nat,
    step: Offset,
) -> Seq<Link> {
    match shifted(rows, cols, index, step.0, step.1) {
        Some(other) => seq![Link { a: index, b: other, kind }],
        None => Seq::empty(),
    }
}

/// The springs of class `kind` that the particle `index` starts, in listing
/// order.
pub open spec fn cell_links(rows: nat, cols: nat, kind: SpringKind, index: nat) -> Seq<Link> {
    link_along(rows, cols, kind, index, kind.first_offset()) + link_along(
        rows,
        cols,
        kind,
        index,
        kind.second_offset(),
    )
}

/// The springs of class `kind` that the particles below index `n` start, in
/// listing order.
pub open spec fn links_before(rows: nat, cols: nat, kind: SpringKind, n: nat) -> Seq<Link>
    decreases n,
{
    if n == 0 {
        Seq::empty()
    } else {
        links_before(rows, cols, kind, (n - 1) as nat) + cell_links(
            rows,
            cols,
            kind,
            (n - 1) as nat,
        )
    }
}

/// All springs of class `kind` of a grid of `rows` by `cols` particles, in
/// listing order: particle by particle in index order, and for each particle
/// its first step before its second.
pub open spec fn links(rows: nat, cols: nat, kind: SpringKind) -> Seq<Link> {
    links_before(rows, cols, kind, rows * cols)
}

/// Appends to `springs` the spring that `index` starts along `step`, if any.
fn push_link(
    grid: &Grid,
    springs: &mut Vec<Spring>,
    kind: SpringKind,
    index: usize,
    step: (isize, isize),
)
    ensures
        links_of(final(springs)@) == links_of(old(springs)@) + link_along(
            grid.spec_rows(),
            grid.spec_cols(),
            kind,
            index as nat,
            (step.0 as int, step.1 as int),
        ),
{
    let ghost before = springs@;
    match grid.neighbor(index, step.0, step.1) {
        Some(other) => {
            springs.push(Spring::new(index, other, kind));
            assert(links_of(springs@) =~= links_of(before) + seq![
                Link { a: index as nat, b: other as nat, kind },
            ]);
        },
        None => {
            assert(links_of(springs@) =~= links_of(before) + Seq::<Link>::empty());
        },
    }
}

/// Lists the springs of class `kind` of the grid.
pub fn springs_of(grid: &Grid, kind: SpringKind) -> (springs: Vec<Spring>)
    ensures
        links_of(springs@) == links(grid.spec_rows(), grid.spec_cols(), kind),
{
    let ghost rows = grid.spec_rows();
    let ghost cols = grid.spec_cols();
    let count = grid.len();
    let steps = kind.offsets();
    let mut springs: Vec<Spring> = Vec::new();
    let mut index: usize = 0;
    assert(links_of(springs@) =~= links_before(rows, cols, kind, 0));
    while index < count
        invariant
            index <= count,
            count == rows * cols,
            rows == grid.spec_rows(),
            cols == grid.spec_cols(),
            (steps.0.0 as int, steps.0.1 as int) == kind.first_offset(),
            (steps.1.0 as int, steps.1.1 as int) == kind.second_offset(),
            links_of(springs@) == links_before(rows, cols, kind, index as nat),
        decreases count - index,
    {
        let ghost before = links_of(springs@);
        push_link(grid, &mut springs, kind, index, steps.0);
        push_link(grid, &mut springs, kind, index, steps.1);
        assert(links_of(springs@) =~= before + cell_links(rows, cols, kind, index as nat));
        index = index + 1;
    }
    springs
}

} // verus!
