//! Which pairs of particles the springs of a grid join, and in what order they
//! are listed.

use vstd::prelude::*;
use crate::grid::col_of;
use crate::grid::in_grid;
use crate::grid::lemma_cell_index_bound;
use crate::grid::lemma_cell_of_index;
use crate::grid::lemma_index_of_cell;
use crate::grid::row_of;
use crate::grid::shifted;
use crate::spring::Link;
use crate::spring::Offset;
use crate::spring::SpringKind;
use crate::topology::cell_links;
use crate::topology::link_along;
use crate::topology::links;
use crate::topology::links_before;

verus! {

/// Whether `link` is of class `kind` and runs from a particle of the grid to
/// the particle one step of that class away.
pub open spec fn joins(rows: nat, cols: nat, kind: SpringKind, link: Link) -> bool {
    &&& link.kind == kind
    &&& (shifted(rows, cols, link.a, kind.first_offset().0, kind.first_offset().1) == Some(link.b)
        || shifted(rows, cols, link.a, kind.second_offset().0, kind.second_offset().1) == Some(
        link.b,
    ))
}

/// Whether `x` is listed before `y`: by the first particle, then by the second.
pub open spec fn precedes(x: Link, y: Link) -> bool {
    x.a < y.a || (x.a == y.a && x.b < y.b)
}

/// Whether two links join the same two particles, in either direction.
pub open spec fn same_pair(x: Link, y: Link) -> bool {
    (x.a == y.a && x.b == y.b) || (x.a == y.b && x.b == y.a)
}

/// The square of the distance between the particles `a` and `b` of a flat
/// cloth of `cols` columns, counted in squares of the spacing.
pub open spec fn squared_distance(cols: nat, a: nat, b: nat) -> int {
    (row_of(cols, b) - row_of(cols, a)) * (row_of(cols, b) - row_of(cols, a)) + (col_of(cols, b)
        - col_of(cols, a)) * (col_of(cols, b) - col_of(cols, a))
}

/// Where a step inside the grid ends: at a particle of the grid, in the row
/// and the column that the step names, `d_row * cols + d_col` indices on.
pub proof fn lemma_shifted(rows: nat, cols: nat, index: nat, d_row: int, d_col: int)
    requires
        cols >= 1,
        shifted(rows, cols, index, d_row, d_col) is Some,
    ensures
        index < rows * cols,
        shifted(rows, cols, index, d_row, d_col)->Some_0 < rows * cols,
        row_of(cols, shifted(rows, cols, index, d_row, d_col)->Some_0) == row_of(cols, index)
            + d_row,
        col_of(cols, shifted(rows, cols, index, d_row, d_col)->Some_0) == col_of(cols, index)
            + d_col,
        shifted(rows, cols, index, d_row, d_col)->Some_0 == index + d_row * cols + d_col,
{
    let row = row_of(cols, index);
    let col = col_of(cols, index);
    lemma_index_of_cell(rows, cols, index);
    lemma_cell_index_bound(rows, cols, row + d_row, col + d_col);
    lemma_cell_of_index(rows, cols, row + d_row, col + d_col);
    assert((row + d_row) * cols == row * cols + d_row * cols) by (nonlinear_arith);
}

/// The first step of a class, taken from a particle, ends before the second.
proof fn lemma_first_before_second(rows: nat, cols: nat, kind: SpringKind, index: nat)
    requires
        cols >= 1,
        shifted(rows, cols, index, kind.first_offset().0, kind.first_offset().1) is Some,
        shifted(rows, cols, index, kind.second_offset().0, kind.second_offset().1) is Some,
    ensures
        shifted(rows, cols, index, kind.first_offset().0, kind.first_offset().1)->Some_0 < shifted(
            rows,
            cols,
            index,
            kind.second_offset().0,
            kind.second_offset().1,
        )->Some_0,
{
    lemma_shifted(rows, cols, index, kind.first_offset().0, kind.first_offset().1);
    lemma_shifted(rows, cols, index, kind.second_offset().0, kind.second_offset().1);
    lemma_index_of_cell(rows, cols, index);
    assert(0 * cols == 0) by (nonlinear_arith);
    assert(1 * cols == cols) by (nonlinear_arith);
    assert(2 * cols == cols + cols) by (nonlinear_arith);
}

/// A step of a spring class leads to a higher index.
proof fn lemma_step_ascends(rows: nat, cols: nat, kind: SpringKind, index: nat, step: Offset)
    requires
        cols >= 1,
        step == kind.first_offset() || step == kind.second_offset(),
        shifted(rows, cols, index, step.0, step.1) is Some,
    ensures
        index < shifted(rows, cols, index, step.0, step.1)->Some_0,
{
    lemma_shifted(rows, cols, index, step.0, step.1);
    lemma_index_of_cell(rows, cols, index);
    assert(0 * cols == 0) by (nonlinear_arith);
    assert(1 * cols == cols) by (nonlinear_arith);
    assert(2 * cols == cols + cols) by (nonlinear_arith);
}

/// What a particle contributes to the listing: links that start at it, each
/// joining a pair of its class, the lower target first, and every such pair.
proof fn lemma_cell_links(rows: nat, cols: nat, kind: SpringKind, index: nat)
    requires
        cols >= 1,
    ensures
        forall|k: int|
            0 <= k < cell_links(rows, cols, kind, index).len() ==> {
                &&& (#[trigger] cell_links(rows, cols, kind, index)[k]).a == index
                &&& joins(rows, cols, kind, cell_links(rows, cols, kind, index)[k])
            },
        forall|j: int, k: int|
            0 <= j < k < cell_links(rows, cols, kind, index).len() ==> precedes(
                #[trigger] cell_links(rows, cols, kind, index)[j],
                #[trigger] cell_links(rows, cols, kind, index)[k],
            ),
        forall|link: Link|
            joins(rows, cols, kind, link) && link.a == index ==> cell_links(
                rows,
                cols,
                kind,
                index,
            ).contains(link),
{
    let first = link_along(rows, cols, kind, index, kind.first_offset());
    let second = link_along(rows, cols, kind, index, kind.second_offset());
    let cell = cell_links(rows, cols, kind, index);
    assert(cell == first + second);
    if first.len() > 0 && second.len() > 0 {
        lemma_first_before_second(rows, cols, kind, index);
    }
    assert forall|link: Link|
        joins(rows, cols, kind, link) && link.a == index implies cell.contains(link) by {
        let first_step = kind.first_offset();
        if shifted(rows, cols, index, first_step.0, first_step.1) == Some(link.b) {
            assert(cell[0] == link);
        } else {
            assert(cell[first.len() as int] == link);
        }
    }
}

/// The listing up to a particle: every link starts below it and joins a pair
/// of its class, the links ascend, and no such pair is left out.
proof fn lemma_links_before(rows: nat, cols: nat, kind: SpringKind, n: nat)
    requires
        cols >= 1,
    ensures
        forall|i: int|
            0 <= i < links_before(rows, cols, kind, n).len() ==> {
                &&& (#[trigger] links_before(rows, cols, kind, n)[i]).a < n
                &&& joins(rows, cols, kind, links_before(rows, cols, kind, n)[i])
            },
        forall|i: int, j: int|
            0 <= i < j < links_before(rows, cols, kind, n).len() ==> precedes(
                #[trigger] links_before(rows, cols, kind, n)[i],
                #[trigger] links_before(rows, cols, kind, n)[j],
            ),
        forall|link: Link|
            joins(rows, cols, kind, link) && link.a < n ==> links_before(
                rows,
                cols,
                kind,
                n,
            ).contains(link),
    decreases n,
{
    if n > 0 {
        let m = (n - 1) as nat;
        let head = links_before(rows, cols, kind, m);
        let cell = cell_links(rows, cols, kind, m);
        let all = links_before(rows, cols, kind, n);
        lemma_links_before(rows, cols, kind, m);
        lemma_cell_links(rows, cols, kind, m);
        assert(all == head + cell);
        assert forall|i: int| 0 <= i < all.len() implies (#[trigger] all[i]).a < n && joins(
            rows,
            cols,
            kind,
            all[i],
        ) by {
            if i < head.len() {
                assert(all[i] == head[i]);
            } else {
                assert(all[i] == cell[i - head.len()]);
            }
        }
        assert forall|i: int, j: int| 0 <= i < j < all.len() implies precedes(
            #[trigger] all[i],
            #[trigger] all[j],
        ) by {
            if j < head.len() {
                assert(all[i] == head[i] && all[j] == head[j]);
            } else if i < head.len() {
                assert(all[i] == head[i] && all[j] == cell[j - head.len()]);
            } else {
                assert(all[i] == cell[i - head.len()] && all[j] == cell[j - head.len()]);
            }
        }
        assert forall|link: Link| joins(rows, cols, kind, link) && link.a < n implies all.contains(
            link,
        ) by {
            if link.a < m {
                let i = head.index_of(link);
                assert(head.contains(link));
                assert(all[i] == link);
            } else {
                let k = cell.index_of(link);
                assert(cell.contains(link));
                assert(all[head.len() + k] == link);
            }
        }
    }
}

/// The springs of a class are exactly the pairs of particles of the grid that
/// lie one step of that class apart.
pub proof fn lemma_links_are_the_joined_pairs(rows: nat, cols: nat, kind: SpringKind)
    requires
        rows >= 1,
        cols >= 1,
    ensures
        forall|link: Link|
            links(rows, cols, kind).contains(link) <==> joins(rows, cols, kind, link),
{
    lemma_links_before(rows, cols, kind, rows * cols);
}

/// The springs of a class are listed in ascending order of their first
/// particle, and for one first particle in ascending order of the second.
pub proof fn lemma_links_ascend(rows: nat, cols: nat, kind: SpringKind)
    requires
        rows >= 1,
        cols >= 1,
    ensures
        forall|i: int, j: int|
            0 <= i < j < links(rows, cols, kind).len() ==> precedes(
                #[trigger] links(rows, cols, kind)[i],
                #[trigger] links(rows, cols, kind)[j],
            ),
{
    lemma_links_before(rows, cols, kind, rows * cols);
}

/// Every spring joins two different particles of the grid, the lower index
/// first, and in the flat cloth the square of the distance between the two,
/// counted in squares of the spacing, is the square of the rest length of its
/// class: the spring is at rest.
pub proof fn lemma_link_geometry(rows: nat, cols: nat, kind: SpringKind, link: Link)
    requires
        rows >= 1,
        cols >= 1,
        joins(rows, cols, kind, link),
    ensures
        link.a < link.b < rows * cols,
        in_grid(rows, cols, row_of(cols, link.a), col_of(cols, link.a)),
        in_grid(rows, cols, row_of(cols, link.b), col_of(cols, link.b)),
        squared_distance(cols, link.a, link.b) == kind.spec_rest_squared(),
{
    let step = if shifted(rows, cols, link.a, kind.first_offset().0, kind.first_offset().1) == Some(
        link.b,
    ) {
        kind.first_offset()
    } else {
        kind.second_offset()
    };
    lemma_shifted(rows, cols, link.a, step.0, step.1);
    lemma_step_ascends(rows, cols, kind, link.a, step);
    lemma_index_of_cell(rows, cols, link.a);
    lemma_index_of_cell(rows, cols, link.b);
    let d_row = row_of(cols, link.b) - row_of(cols, link.a);
    let d_col = col_of(cols, link.b) - col_of(cols, link.a);
    assert(d_row == step.0 && d_col == step.1);
    assert(d_row * d_row + d_col * d_col == kind.spec_rest_squared()) by (nonlinear_arith)
        requires
            (d_row == 0 && d_col == 1 && kind.spec_rest_squared() == 1) || (d_row == 1 && d_col == 0
                && kind.spec_rest_squared() == 1) || (d_row == 1 && d_col == -1
                && kind.spec_rest_squared() == 2) || (d_row == 1 && d_col == 1
                && kind.spec_rest_squared() == 2) || (d_row == 0 && d_col == 2
                && kind.spec_rest_squared() == 4) || (d_row == 2 && d_col == 0
                && kind.spec_rest_squared() == 4),
    ;
}

/// No two springs of a class join the same two particles, in either
/// direction.
pub proof fn lemma_each_pair_once(rows: nat, cols: nat, kind: SpringKind)
    requires
        rows >= 1,
        cols >= 1,
    ensures
        forall|i: int, j: int|
            0 <= i < links(rows, cols, kind).len() && 0 <= j < links(rows, cols, kind).len() && i
                != j ==> !same_pair(
                #[trigger] links(rows, cols, kind)[i],
                #[trigger] links(rows, cols, kind)[j],
            ),
{
    let all = links(rows, cols, kind);
    lemma_links_before(rows, cols, kind, rows * cols);
    assert forall|i: int, j: int|
        0 <= i < all.len() && 0 <= j < all.len() && i != j implies !same_pair(
        #[trigger] all[i],
        #[trigger] all[j],
    ) by {
        lemma_link_geometry(rows, cols, kind, all[i]);
        lemma_link_geometry(rows, cols, kind, all[j]);
        if i < j {
            assert(precedes(all[i], all[j]));
        } else {
            assert(precedes(all[j], all[i]));
        }
    }
}

/// Springs of different classes never join the same two particles.
pub proof fn lemma_classes_apart(rows: nat, cols: nat, x: Link, y: Link)
    requires
        rows >= 1,
        cols >= 1,
        joins(rows, cols, x.kind, x),
        joins(rows, cols, y.kind, y),
        x.kind != y.kind,
    ensures
        !same_pair(x, y),
{
    lemma_link_geometry(rows, cols, x.kind, x);
    lemma_link_geometry(rows, cols, y.kind, y);
}

} // verus!
