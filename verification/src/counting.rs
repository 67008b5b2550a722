//! How many springs of each class a grid has.

use vstd::prelude::*;
use crate::cloth::ClothView;
use crate::grid::in_grid;
use crate::grid::lemma_cell_index_bound;
use crate::grid::lemma_cell_of_index;
use crate::grid::shifted;
use crate::spring::Offset;
use crate::spring::SpringKind;
use crate::topology::cell_links;
use crate::topology::link_along;
use crate::topology::links;
use crate::topology::links_before;

verus! {

/// `x` where it is positive, zero elsewhere.
pub open spec fn clip(x: int) -> nat {
    if x > 0 {
        x as nat
    } else {
        0
    }
}

/// The number of particles of a grid from which `step` stays inside the grid.
/// The step does not lead to an earlier row.
pub open spec fn step_count(rows: nat, cols: nat, step: Offset) -> nat {
    clip(rows - step.0) * clip(cols - if step.1 < 0 { -step.1 } else { step.1 })
}

/// The number of springs of class `kind` of a grid of `rows` by `cols`
/// particles.
pub open spec fn spring_count(rows: nat, cols: nat, kind: SpringKind) -> nat {
    step_count(rows, cols, kind.first_offset()) + step_count(rows, cols, kind.second_offset())
}

/// The number of particles below index `n` from which `step` stays inside the
/// grid.
spec fn reach_before(rows: nat, cols: nat, step: Offset, n: nat) -> nat
    decreases n,
{
    if n == 0 {
        0
    } else {
        reach_before(rows, cols, step, (n - 1) as nat) + if shifted(
            rows,
            cols,
            (n - 1) as nat,
            step.0,
            step.1,
        ) is Some {
            1nat
        } else {
            0nat
        }
    }
}

/// The number of columns below `col` from which a step of `d_col` columns
/// stays inside a row of `cols` columns.
spec fn span(cols: nat, d_col: int, col: nat) -> nat {
    clip(
        (if col <= cols - d_col {
            col as int
        } else {
            cols - d_col
        }) - (if d_col < 0 {
            -d_col
        } else {
            0
        }),
    )
}

/// The listing up to a particle is as long as the count of the steps that
/// stay inside the grid.
proof fn lemma_length_is_reach(rows: nat, cols: nat, kind: SpringKind, n: nat)
    ensures
        links_before(rows, cols, kind, n).len() == reach_before(rows, cols, kind.first_offset(), n)
            + reach_before(rows, cols, kind.second_offset(), n),
    decreases n,
{
    if n > 0 {
        let m = (n - 1) as nat;
        lemma_length_is_reach(rows, cols, kind, m);
        assert(cell_links(rows, cols, kind, m) == link_along(
            rows,
            cols,
            kind,
            m,
            kind.first_offset(),
        ) + link_along(rows, cols, kind, m, kind.second_offset()));
    }
}

/// Within row `row`, the steps that stay inside the grid are those that start
/// at a column from which `d_col` columns can be gone, where the row itself
/// has `step.0` rows after it.
proof fn lemma_reach_in_row(rows: nat, cols: nat, step: Offset, row: nat, col: nat)
    requires
        cols >= 1,
        step.0 >= 0,
        row < rows,
        col <= cols,
    ensures
        reach_before(rows, cols, step, row * cols + col) == reach_before(
            rows,
            cols,
            step,
            row * cols,
        ) + if row + step.0 < rows {
            span(cols, step.1, col)
        } else {
            0
        },
    decreases col,
{
    if col > 0 {
        let c = (col - 1) as nat;
        let index = row * cols + c;
        lemma_reach_in_row(rows, cols, step, row, c);
        lemma_cell_of_index(rows, cols, row as int, c as int);
        lemma_cell_index_bound(rows, cols, row as int, c as int);
        assert((row * cols + col - 1) as nat == index);
        assert(shifted(rows, cols, index, step.0, step.1) is Some <==> in_grid(
            rows,
            cols,
            row + step.0,
            c + step.1,
        ));
    }
}

/// Up to the start of row `row`, the steps that stay inside the grid number
/// one full row's worth for each row that has `step.0` rows after it.
proof fn lemma_reach_in_rows(rows: nat, cols: nat, step: Offset, row: nat)
    requires
        cols >= 1,
        step.0 >= 0,
        row <= rows,
    ensures
        reach_before(rows, cols, step, row * cols) == (if row <= clip(rows - step.0) {
            row
        } else {
            clip(rows - step.0)
        }) * span(cols, step.1, cols),
    decreases row,
{
    let width = span(cols, step.1, cols);
    if row == 0 {
        assert(0 * cols == 0) by (nonlinear_arith);
        assert(0 * width == 0) by (nonlinear_arith);
    } else {
        let r = (row - 1) as nat;
        lemma_reach_in_rows(rows, cols, step, r);
        lemma_reach_in_row(rows, cols, step, r, cols);
        assert(r * cols + cols == row * cols) by (nonlinear_arith)
            requires
                r + 1 == row,
        ;
        assert(r * width + width == row * width) by (nonlinear_arith)
            requires
                r + 1 == row,
        ;
    }
}

/// The number of springs of each class: one for each particle and each of the
/// two steps of the class that stays inside the grid.
pub proof fn lemma_spring_count(rows: nat, cols: nat, kind: SpringKind)
    requires
        rows >= 1,
        cols >= 1,
    ensures
        links(rows, cols, kind).len() == spring_count(rows, cols, kind),
{
    lemma_length_is_reach(rows, cols, kind, rows * cols);
    lemma_reach_in_rows(rows, cols, kind.first_offset(), rows);
    lemma_reach_in_rows(rows, cols, kind.second_offset(), rows);
}

/// A grid of `rows` by `cols` particles has `2 * rows * cols - rows - cols`
/// structural springs: one for each pair of neighbours along a row or a
/// column.
pub proof fn lemma_structural_count(rows: nat, cols: nat)
    requires
        rows >= 1,
        cols >= 1,
    ensures
        links(rows, cols, SpringKind::Stretch).len() == 2 * rows * cols - rows - cols,
{
    lemma_spring_count(rows, cols, SpringKind::Stretch);
    assert(rows * (cols - 1) + (rows - 1) * cols == 2 * rows * cols - rows - cols)
        by (nonlinear_arith);
}

/// A grid has `2 * (rows - 1) * (cols - 1)` shear springs: two for each square
/// of four particles.
pub proof fn lemma_shear_count(rows: nat, cols: nat)
    requires
        rows >= 1,
        cols >= 1,
    ensures
        links(rows, cols, SpringKind::Shear).len() == 2 * (rows - 1) * (cols - 1),
{
    lemma_spring_count(rows, cols, SpringKind::Shear);
    assert((rows - 1) * (cols - 1) + (rows - 1) * (cols - 1) == 2 * (rows - 1) * (cols - 1))
        by (nonlinear_arith);
}

/// A grid has `rows * (cols - 2)` bend springs along its rows and
/// `(rows - 2) * cols` along its columns, none along an axis shorter than
/// three particles.
pub proof fn lemma_bend_count(rows: nat, cols: nat)
    requires
        rows >= 1,
        cols >= 1,
    ensures
        links(rows, cols, SpringKind::Bend).len() == rows * clip(cols - 2) + clip(rows - 2) * cols,
{
    lemma_spring_count(rows, cols, SpringKind::Bend);
}

/// A cloth of `rows` by `cols` particles has `rows * cols` particles and
/// `2 * rows * cols - rows - cols` structural springs.
pub proof fn lemma_cloth_counts(cloth: ClothView)
    requires
        cloth.wf(),
    ensures
        cloth.pinned.len() == cloth.rows * cloth.cols,
        cloth.structural.len() == 2 * cloth.rows * cloth.cols - cloth.rows - cloth.cols,
        cloth.shear.len() == 2 * (cloth.rows - 1) * (cloth.cols - 1),
        cloth.bend.len() == cloth.rows * clip(cloth.cols - 2) + clip(cloth.rows - 2) * cloth.cols,
{
    lemma_structural_count(cloth.rows, cloth.cols);
    lemma_shear_count(cloth.rows, cloth.cols);
    lemma_bend_count(cloth.rows, cloth.cols);
}

} // verus!
