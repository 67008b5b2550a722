//! The neighbours from which the surface normal at a particle is estimated.
//!
//! The normal at a particle is the mean of the normals of the triangles that
//! the particle spans with each two consecutive neighbours of its ring. The
//! ring holds the neighbours along the two axes that the grid has: four in the
//! interior, fewer at an edge.

use vstd::prelude::*;
use vstd::arithmetic::div_mod::lemma_mod_pos_bound;
use vstd::arithmetic::div_mod::lemma_mod_self_0;
use vstd::arithmetic::div_mod::lemma_small_mod;
use crate::grid::Grid;
use crate::grid::col_of;
use crate::grid::lemma_cell_of_index;
use crate::grid::lemma_index_of_cell;
use crate::grid::row_of;
use crate::grid::shifted;
use crate::pairing::joins;
use crate::pairing::lemma_shifted;
use crate::spring::Link;
use crate::spring::Offset;
use crate::spring::SpringKind;

verus! {

/// The particle that lies `step` from `index`, as a sequence of one, or of
/// none where the step leaves the grid.
pub open spec fn neighbor_along(rows: nat, cols: nat, index: nat, step: Offset) -> Seq<nat> {
    match shifted(rows, cols, index, step.0, step.1) {
        Some(other) => seq![other],
        None => Seq::empty(),
    }
}

/// The ring of the particle `index`: its neighbours in the next row, in the
/// next column, in the row before and in the column before, in this order, as
/// far as the grid has them.
pub open spec fn ring(rows: nat, cols: nat, index: nat) -> Seq<nat> {
    neighbor_along(rows, cols, index, (1, 0)) + neighbor_along(rows, cols, index, (0, 1))
        + neighbor_along(rows, cols, index, (-1, 0)) + neighbor_along(rows, cols, index, (0, -1))
}

/// The triangles of a ring: each neighbour with the one after it, the last
/// with the first. There are as many triangles as neighbours.
pub open spec fn fan(ring: Seq<nat>) -> Seq<(nat, nat)> {
    Seq::new(ring.len(), |k: int| (ring[k], ring[(k + 1) % ring.len() as int]))
}

/// Whether a structural spring joins the particles `x` and `y`.
pub open spec fn adjacent(rows: nat, cols: nat, x: nat, y: nat) -> bool {
    joins(rows, cols, SpringKind::Stretch, Link { a: x, b: y, kind: SpringKind::Stretch }) || joins(
        rows,
        cols,
        SpringKind::Stretch,
        Link { a: y, b: x, kind: SpringKind::Stretch },
    )
}

/// The mathematical values of a sequence of indices.
pub open spec fn indices_of(items: Seq<usize>) -> Seq<nat> {
    items.map_values(|i: usize| i as nat)
}

/// The mathematical values of a sequence of pairs of indices.
pub open spec fn index_pairs_of(items: Seq<(usize, usize)>) -> Seq<(nat, nat)> {
    items.map_values(|p: (usize, usize)| (p.0 as nat, p.1 as nat))
}

/// A step there and the opposite step back end where they began.
proof fn lemma_step_back(rows: nat, cols: nat, index: nat, d_row: int, d_col: int)
    requires
        cols >= 1,
        shifted(rows, cols, index, d_row, d_col) is Some,
    ensures
        shifted(rows, cols, shifted(rows, cols, index, d_row, d_col)->Some_0, -d_row, -d_col)
            == Some(index),
{
    lemma_shifted(rows, cols, index, d_row, d_col);
    lemma_index_of_cell(rows, cols, index);
}

/// The ring of a particle holds exactly the particles that a structural spring
/// joins to it.
pub proof fn lemma_ring_is_adjacent(rows: nat, cols: nat, index: nat)
    requires
        rows >= 1,
        cols >= 1,
    ensures
        forall|other: nat|
            ring(rows, cols, index).contains(other) <==> adjacent(rows, cols, index, other),
{
    let all = ring(rows, cols, index);
    let down = neighbor_along(rows, cols, index, (1, 0));
    let right = neighbor_along(rows, cols, index, (0, 1));
    let up = neighbor_along(rows, cols, index, (-1, 0));
    assert forall|other: nat| all.contains(other) implies adjacent(rows, cols, index, other) by {
        let k = all.index_of(other);
        assert(all[k] == other);
        if shifted(rows, cols, index, -1, 0) == Some(other) {
            lemma_step_back(rows, cols, index, -1, 0);
        }
        if shifted(rows, cols, index, 0, -1) == Some(other) {
            lemma_step_back(rows, cols, index, 0, -1);
        }
    }
    assert forall|other: nat| adjacent(rows, cols, index, other) implies all.contains(other) by {
        if shifted(rows, cols, index, 1, 0) == Some(other) {
            assert(all[0] == other);
        } else if shifted(rows, cols, index, 0, 1) == Some(other) {
            assert(all[down.len() as int] == other);
        } else if shifted(rows, cols, other, 1, 0) == Some(index) {
            lemma_step_back(rows, cols, other, 1, 0);
            assert(all[(down.len() + right.len()) as int] == other);
        } else {
            lemma_step_back(rows, cols, other, 0, 1);
            assert(all[(down.len() + right.len() + up.len()) as int] == other);
        }
    }
}

/// A ring holds no particle twice, and at most four.
pub proof fn lemma_ring_distinct(rows: nat, cols: nat, index: nat)
    requires
        rows >= 1,
        cols >= 1,
    ensures
        ring(rows, cols, index).len() <= 4,
        ring(rows, cols, index).no_duplicates(),
{
    let all = ring(rows, cols, index);
    if shifted(rows, cols, index, 1, 0) is Some {
        lemma_shifted(rows, cols, index, 1, 0);
    }
    if shifted(rows, cols, index, 0, 1) is Some {
        lemma_shifted(rows, cols, index, 0, 1);
    }
    if shifted(rows, cols, index, -1, 0) is Some {
        lemma_shifted(rows, cols, index, -1, 0);
    }
    if shifted(rows, cols, index, 0, -1) is Some {
        lemma_shifted(rows, cols, index, 0, -1);
    }
    assert forall|i: int, j: int| 0 <= i < all.len() && 0 <= j < all.len() && i != j implies all[i]
        != all[j] by {
        lemma_cell_of_index(rows, cols, row_of(cols, all[i]), col_of(cols, all[i]));
    }
}

/// A particle of a grid with at least two rows and two columns has at least
/// two neighbours in its ring.
pub proof fn lemma_ring_has_two(rows: nat, cols: nat, index: nat)
    requires
        rows >= 2,
        cols >= 2,
        index < rows * cols,
    ensures
        ring(rows, cols, index).len() >= 2,
{
    lemma_index_of_cell(rows, cols, index);
}

impl Grid {
    /// The ring of the particle `index`; empty where the grid has no such
    /// particle.
    pub fn ring(&self, index: usize) -> (found: Vec<usize>)
        ensures
            indices_of(found@) == ring(self.spec_rows(), self.spec_cols(), index as nat),
            forall|k: int| 0 <= k < found@.len() ==> found@[k] < self.spec_len(),
    {
        let ghost rows = self.spec_rows();
        let ghost cols = self.spec_cols();
        let mut found: Vec<usize> = Vec::new();
        if let Some(other) = self.neighbor(index, 1, 0) {
            found.push(other);
        }
        let ghost down = indices_of(found@);
        assert(down =~= neighbor_along(rows, cols, index as nat, (1, 0)));
        if let Some(other) = self.neighbor(index, 0, 1) {
            found.push(other);
        }
        let ghost right = indices_of(found@);
        assert(right =~= down + neighbor_along(rows, cols, index as nat, (0, 1)));
        if let Some(other) = self.neighbor(index, -1, 0) {
            found.push(other);
        }
        let ghost up = indices_of(found@);
        assert(up =~= right + neighbor_along(rows, cols, index as nat, (-1, 0)));
        if let Some(other) = self.neighbor(index, 0, -1) {
            found.push(other);
        }
        assert(indices_of(found@) =~= up + neighbor_along(rows, cols, index as nat, (0, -1)));
        found
    }

    /// The triangles of the ring of the particle `index`, each as the pair of
    /// its two neighbours. The normal at the particle is the sum of the
    /// triangles' normals divided by their number.
    pub fn fan(&self, index: usize) -> (found: Vec<(usize, usize)>)
        ensures
            index_pairs_of(found@) == fan(ring(self.spec_rows(), self.spec_cols(), index as nat)),
            forall|k: int|
                0 <= k < found@.len() ==> (#[trigger] found@[k]).0 < self.spec_len() && found@[k].1
                    < self.spec_len(),
    {
        let around = self.ring(index);
        let ghost model = ring(self.spec_rows(), self.spec_cols(), index as nat);
        let count = around.len();
        let mut found: Vec<(usize, usize)> = Vec::new();
        let mut k: usize = 0;
        assert(indices_of(around@).len() == around@.len());
        while k < count
            invariant
                k <= count,
                count == around@.len(),
                indices_of(around@) == model,
                forall|j: int| 0 <= j < around@.len() ==> around@[j] < self.spec_len(),
                found@.len() == k,
                forall|j: int|
                    0 <= j < k ==> (#[trigger] found@[j]) == (
                        around@[j],
                        around@[(j + 1) % count as int],
                    ),
            decreases count - k,
        {
            let next = if k + 1 < count {
                k + 1
            } else {
                0
            };
            assert(next == (k + 1) % count as int) by {
                if k + 1 < count {
                    lemma_small_mod((k + 1) as nat, count as nat);
                } else {
                    lemma_mod_self_0(count as int);
                }
            }
            found.push((around[k], around[next]));
            k = k + 1;
        }
        assert(index_pairs_of(found@) =~= fan(model)) by {
            assert forall|j: int| 0 <= j < found@.len() implies index_pairs_of(found@)[j] == fan(
                model,
            )[j] by {
                let after = (j + 1) % count as int;
                lemma_mod_pos_bound(j + 1, count as int);
                assert(model[j] == around@[j] as nat);
                assert(model[after] == around@[after] as nat);
            }
        }
        found
    }
}

} // verus!
