//! The work of one time step, in the order in which it is done.
//!
//! A step pulls every structural spring, then every shear spring, then every
//! bend spring; then loads each particle in index order with gravity, with
//! damping and, where there is wind, with drag; then moves each particle.
//! Nothing in a step reaches a pinned particle. The host does the arithmetic;
//! the plan says on which particles, and in what order.

use vstd::prelude::*;
use crate::cloth::Cloth;
use crate::cloth::ClothView;
use crate::pairing::lemma_link_geometry;
use crate::pairing::lemma_links_are_the_joined_pairs;
use crate::spring::Link;
use crate::spring::Spring;
use crate::spring::SpringKind;
use crate::spring::links_of;

verus! {

/// One piece of work of a time step.
#[derive(Clone, Copy, Debug, PartialEq, Eq, Structural)]
pub enum Action {
    /// Work out the force of `spring` on its first particle. Add it to the
    /// first particle where `on_a` is set, and its opposite to the second
    /// where `on_b` is set.
    Pull { spring: Spring, on_a: bool, on_b: bool },
    /// Add the force of gravity to `particle`.
    Gravity { particle: usize },
    /// Add to `particle` the damping force, which opposes its velocity.
    Damping { particle: usize },
    /// Add to `particle` the drag of the wind on the surface around it.
    Wind { particle: usize },
    /// Advance the velocity of `particle` by the forces gathered, then its
    /// position by the new velocity, and clear the forces.
    Integrate { particle: usize },
}

/// The mathematical value of an [`Action`], variant by variant.
pub enum Step {
    /// The pull of the spring `link`, on its first particle where `on_a` is
    /// set and on its second where `on_b` is set.
    Pull { link: Link, on_a: bool, on_b: bool },
    /// Gravity on `particle`.
    Gravity { particle: nat },
    /// Damping on `particle`.
    Damping { particle: nat },
    /// The drag of the wind on `particle`.
    Wind { particle: nat },
    /// The move of `particle`.
    Integrate { particle: nat },
}

impl View for Action {
    type V = Step;

    open spec fn view(&self) -> Step {
        match *self {
            Action::Pull { spring, on_a, on_b } => Step::Pull { link: spring@, on_a, on_b },
            Action::Gravity { particle } => Step::Gravity { particle: particle as nat },
            Action::Damping { particle } => Step::Damping { particle: particle as nat },
            Action::Wind { particle } => Step::Wind { particle: particle as nat },
            Action::Integrate { particle } => Step::Integrate { particle: particle as nat },
        }
    }
}

impl Step {
    /// Whether the step changes the state of `particle`.
    pub open spec fn writes(self, particle: nat) -> bool {
        match self {
            Step::Pull { link, on_a, on_b } => (on_a && particle == link.a) || (on_b && particle
                == link.b),
            Step::Gravity { particle: p } => p == particle,
            Step::Damping { particle: p } => p == particle,
            Step::Wind { particle: p } => p == particle,
            Step::Integrate { particle: p } => p == particle,
        }
    }

    /// Whether the step adds a force, rather than moving a particle.
    pub open spec fn is_force(self) -> bool {
        !(self is Integrate)
    }
}

/// The mathematical values of a sequence of actions.
pub open spec fn steps_of(actions: Seq<Action>) -> Seq<Step> {
    actions.map_values(|a: Action| a@)
}

/// The pull of one spring: on each end that is not pinned.
pub open spec fn pull(pinned: Seq<bool>, link: Link) -> Step {
    Step::Pull { link, on_a: !pinned[link.a as int], on_b: !pinned[link.b as int] }
}

/// The pulls of a list of springs, in the order of the list.
pub open spec fn pulls(pinned: Seq<bool>, links: Seq<Link>) -> Seq<Step> {
    links.map_values(|link: Link| pull(pinned, link))
}

/// The forces on one particle that come from no spring: none where it is
/// pinned, else gravity, damping and, where there is wind, drag.
pub open spec fn loads(pinned: Seq<bool>, wind: bool, particle: nat) -> Seq<Step> {
    if pinned[particle as int] {
        Seq::empty()
    } else if wind {
        seq![Step::Gravity { particle }, Step::Damping { particle }, Step::Wind { particle }]
    } else {
        seq![Step::Gravity { particle }, Step::Damping { particle }]
    }
}

/// The loads of the particles below index `n`, in index order.
pub open spec fn loads_before(pinned: Seq<bool>, wind: bool, n: nat) -> Seq<Step>
    decreases n,
{
    if n == 0 {
        Seq::empty()
    } else {
        loads_before(pinned, wind, (n - 1) as nat) + loads(pinned, wind, (n - 1) as nat)
    }
}

/// The step that moves `particle`.
pub open spec fn move_of(particle: nat) -> Step {
    Step::Integrate { particle }
}

/// The move of one particle: none where it is pinned.
pub open spec fn moves(pinned: Seq<bool>, particle: nat) -> Seq<Step> {
    if pinned[particle as int] {
        Seq::empty()
    } else {
        seq![move_of(particle)]
    }
}

/// The moves of the particles below index `n`, in index order.
pub open spec fn moves_before(pinned: Seq<bool>, n: nat) -> Seq<Step>
    decreases n,
{
    if n == 0 {
        Seq::empty()
    } else {
        moves_before(pinned, (n - 1) as nat) + moves(pinned, (n - 1) as nat)
    }
}

/// The forces of one time step of a cloth, in order.
pub open spec fn forces(cloth: ClothView, wind: bool) -> Seq<Step> {
    pulls(cloth.pinned, cloth.structural) + pulls(cloth.pinned, cloth.shear) + pulls(
        cloth.pinned,
        cloth.bend,
    ) + loads_before(cloth.pinned, wind, cloth.pinned.len())
}

/// The work of one time step of a cloth, in order: all forces, then all
/// moves.
pub open spec fn plan(cloth: ClothView, wind: bool) -> Seq<Step> {
    forces(cloth, wind) + moves_before(cloth.pinned, cloth.pinned.len())
}

/// Appends the pulls of `springs` to `actions`.
fn push_pulls(pinned: &Vec<bool>, springs: &Vec<Spring>, actions: &mut Vec<Action>)
    requires
        forall|k: int|
            0 <= k < springs@.len() ==> (#[trigger] springs@[k]).a < pinned@.len() && springs@[k].b
                < pinned@.len(),
    ensures
        steps_of(final(actions)@) == steps_of(old(actions)@) + pulls(pinned@, links_of(springs@)),
{
    let ghost before = steps_of(actions@);
    let mut k: usize = 0;
    assert(steps_of(actions@) =~= before + pulls(pinned@, links_of(springs@)).take(0));
    while k < springs.len()
        invariant
            k <= springs@.len(),
            forall|j: int|
                0 <= j < springs@.len() ==> (#[trigger] springs@[j]).a < pinned@.len()
                    && springs@[j].b < pinned@.len(),
            steps_of(actions@) == before + pulls(pinned@, links_of(springs@)).take(k as int),
        decreases springs@.len() - k,
    {
        let spring = springs[k];
        let ghost so_far = steps_of(actions@);
        actions.push(Action::Pull { spring, on_a: !pinned[spring.a], on_b: !pinned[spring.b] });
        assert(steps_of(actions@) =~= so_far.push(pull(pinned@, spring@)));
        assert(pulls(pinned@, links_of(springs@)).take(k + 1) =~= pulls(
            pinned@,
            links_of(springs@),
        ).take(k as int).push(pull(pinned@, spring@)));
        k = k + 1;
    }
    let ghost wanted = pulls(pinned@, links_of(springs@));
    assert(wanted.take(k as int) =~= wanted);
}

impl Cloth {
    /// The work of one time step, in order; with the drag of the wind where
    /// `wind` is set. The plan depends on the cloth alone, so a host may ask
    /// for it once and follow it at every step.
    pub fn plan(&self, wind: bool) -> (actions: Vec<Action>)
        ensures
            steps_of(actions@) == plan(self@, wind),
    {
        let pinned = self.pinned();
        let count = pinned.len();
        let ghost cloth = self@;
        let mut actions: Vec<Action> = Vec::new();
        assert(steps_of(actions@) =~= Seq::<Step>::empty());
        proof {
            lemma_springs_in_range(cloth, SpringKind::Stretch);
            lemma_springs_in_range(cloth, SpringKind::Shear);
            lemma_springs_in_range(cloth, SpringKind::Bend);
        }
        let structural = self.springs(SpringKind::Stretch);
        let shear = self.springs(SpringKind::Shear);
        let bend = self.springs(SpringKind::Bend);
        assert forall|k: int| 0 <= k < structural@.len() implies (#[trigger] structural@[k]).a
            < pinned@.len() && structural@[k].b < pinned@.len() by {
            assert(links_of(structural@)[k] == structural@[k]@);
        }
        assert forall|k: int| 0 <= k < shear@.len() implies (#[trigger] shear@[k]).a < pinned@.len()
            && shear@[k].b < pinned@.len() by {
            assert(links_of(shear@)[k] == shear@[k]@);
        }
        assert forall|k: int| 0 <= k < bend@.len() implies (#[trigger] bend@[k]).a < pinned@.len()
            && bend@[k].b < pinned@.len() by {
            assert(links_of(bend@)[k] == bend@[k]@);
        }
        push_pulls(pinned, structural, &mut actions);
        push_pulls(pinned, shear, &mut actions);
        push_pulls(pinned, bend, &mut actions);
        let ghost pulled = steps_of(actions@);
        assert(pulled =~= pulls(cloth.pinned, cloth.structural) + pulls(cloth.pinned, cloth.shear)
            + pulls(cloth.pinned, cloth.bend));
        let mut particle: usize = 0;
        assert(steps_of(actions@) =~= pulled + loads_before(cloth.pinned, wind, 0));
        while particle < count
            invariant
                particle <= count,
                count == pinned@.len(),
                pinned@ == cloth.pinned,
                steps_of(actions@) == pulled + loads_before(cloth.pinned, wind, particle as nat),
            decreases count - particle,
        {
            let ghost so_far = steps_of(actions@);
            if !pinned[particle] {
                actions.push(Action::Gravity { particle });
                actions.push(Action::Damping { particle });
                if wind {
                    actions.push(Action::Wind { particle });
                }
            }
            assert(steps_of(actions@) =~= so_far + loads(cloth.pinned, wind, particle as nat));
            particle = particle + 1;
        }
        let ghost forced = steps_of(actions@);
        assert(forced == forces(cloth, wind));
        particle = 0;
        assert(steps_of(actions@) =~= forced + moves_before(cloth.pinned, 0));
        while particle < count
            invariant
                particle <= count,
                count == pinned@.len(),
                pinned@ == cloth.pinned,
                steps_of(actions@) == forced + moves_before(cloth.pinned, particle as nat),
            decreases count - particle,
        {
            let ghost so_far = steps_of(actions@);
            if !pinned[particle] {
                actions.push(Action::Integrate { particle });
            }
            assert(steps_of(actions@) =~= so_far + moves(cloth.pinned, particle as nat));
            particle = particle + 1;
        }
        actions
    }
}

/// Both ends of every spring of a cloth are particles of the cloth.
pub proof fn lemma_springs_in_range(cloth: ClothView, kind: SpringKind)
    requires
        cloth.wf(),
    ensures
        forall|k: int|
            0 <= k < cloth.springs(kind).len() ==> (#[trigger] cloth.springs(kind)[k]).a
                < cloth.pinned.len() && cloth.springs(kind)[k].b < cloth.pinned.len(),
{
    let all = cloth.springs(kind);
    lemma_links_are_the_joined_pairs(cloth.rows, cloth.cols, kind);
    assert forall|k: int| 0 <= k < all.len() implies (#[trigger] all[k]).a < cloth.pinned.len()
        && all[k].b < cloth.pinned.len() by {
        assert(all.contains(all[k]));
        lemma_link_geometry(cloth.rows, cloth.cols, kind, all[k]);
    }
}

/// The loads of the particles below `n`: forces on free particles below `n`.
proof fn lemma_loads_before(pinned: Seq<bool>, wind: bool, n: nat)
    ensures
        forall|k: int|
            0 <= k < loads_before(pinned, wind, n).len() ==> {
                let step = #[trigger] loads_before(pinned, wind, n)[k];
                &&& step.is_force()
                &&& !(step is Pull)
                &&& forall|p: nat| step.writes(p) ==> p < n && !pinned[p as int]
            },
    decreases n,
{
    if n > 0 {
        let m = (n - 1) as nat;
        let head = loads_before(pinned, wind, m);
        let tail = loads(pinned, wind, m);
        let all = loads_before(pinned, wind, n);
        lemma_loads_before(pinned, wind, m);
        assert forall|k: int| 0 <= k < all.len() implies {
            let step = #[trigger] all[k];
            &&& step.is_force()
            &&& !(step is Pull)
            &&& forall|p: nat| step.writes(p) ==> p < n && !pinned[p as int]
        } by {
            if k < head.len() {
                assert(all[k] == head[k]);
            } else {
                assert(all[k] == tail[k - head.len()]);
            }
        }
    }
}

/// The moves of the particles below `n`: one for each free particle below
/// `n`, in index order, and nothing else.
proof fn lemma_moves_before(pinned: Seq<bool>, n: nat)
    ensures
        forall|k: int|
            0 <= k < moves_before(pinned, n).len() ==> {
                let step = #[trigger] moves_before(pinned, n)[k];
                &&& step is Integrate
                &&& step->Integrate_particle < n
                &&& !pinned[step->Integrate_particle as int]
            },
        forall|j: int, k: int|
            0 <= j < k < moves_before(pinned, n).len() ==> (#[trigger] moves_before(
                pinned,
                n,
            )[j])->Integrate_particle < (#[trigger] moves_before(pinned, n)[k])->Integrate_particle,
        forall|p: nat|
            p < n && !pinned[p as int] ==> moves_before(pinned, n).contains(move_of(p)),
    decreases n,
{
    if n > 0 {
        let m = (n - 1) as nat;
        let head = moves_before(pinned, m);
        let tail = moves(pinned, m);
        let all = moves_before(pinned, n);
        lemma_moves_before(pinned, m);
        assert forall|k: int| 0 <= k < all.len() implies {
            let step = #[trigger] all[k];
            &&& step is Integrate
            &&& step->Integrate_particle < n
            &&& !pinned[step->Integrate_particle as int]
        } by {
            if k < head.len() {
                assert(all[k] == head[k]);
            } else {
                assert(all[k] == tail[k - head.len()]);
            }
        }
        assert forall|j: int, k: int| 0 <= j < k < all.len() implies (#[trigger] all[j])
            ->Integrate_particle < (#[trigger] all[k])->Integrate_particle by {
            assert(all[j] == head[j]);
            if k < head.len() {
                assert(all[k] == head[k]);
            } else {
                assert(all[k] == tail[k - head.len()]);
            }
        }
        assert forall|p: nat| p < n && !pinned[p as int] implies all.contains(move_of(p)) by {
            let wanted = move_of(p);
            if p < m {
                assert(head.contains(wanted));
                let k = head.index_of(wanted);
                assert(all[k] == wanted);
            } else {
                assert(all[head.len() as int] == wanted);
            }
        }
    }
}

/// No step of a plan changes a pinned particle: a pinned particle keeps its
/// position and its velocity, and gathers no force, however many steps are
/// taken.
pub proof fn lemma_plan_spares_pinned(cloth: ClothView, wind: bool)
    ensures
        forall|k: int, p: nat|
            0 <= k < plan(cloth, wind).len() && p < cloth.pinned.len() && cloth.pinned[p as int]
                ==> !(#[trigger] plan(cloth, wind)[k].writes(p)),
{
    let all = plan(cloth, wind);
    let n = cloth.pinned.len();
    let first = pulls(cloth.pinned, cloth.structural);
    let second = pulls(cloth.pinned, cloth.shear);
    let third = pulls(cloth.pinned, cloth.bend);
    let fourth = loads_before(cloth.pinned, wind, n);
    let fifth = moves_before(cloth.pinned, n);
    lemma_loads_before(cloth.pinned, wind, n);
    lemma_moves_before(cloth.pinned, n);
    assert forall|k: int, p: nat|
        0 <= k < all.len() && p < cloth.pinned.len() && cloth.pinned[p as int] implies !(
    #[trigger] all[k].writes(p)) by {
        if k < first.len() {
            assert(all[k] == first[k]);
        } else if k < first.len() + second.len() {
            assert(all[k] == second[k - first.len()]);
        } else if k < first.len() + second.len() + third.len() {
            assert(all[k] == third[k - first.len() - second.len()]);
        } else if k < first.len() + second.len() + third.len() + fourth.len() {
            assert(all[k] == fourth[k - first.len() - second.len() - third.len()]);
        } else {
            assert(all[k] == fifth[k - first.len() - second.len() - third.len() - fourth.len()]);
        }
    }
}

/// Every force of a step is added before any particle is moved.
pub proof fn lemma_forces_before_moves(cloth: ClothView, wind: bool)
    ensures
        forall|k: int|
            0 <= k < plan(cloth, wind).len() ==> (#[trigger] plan(cloth, wind)[k]).is_force() == (k
                < forces(cloth, wind).len()),
{
    let all = plan(cloth, wind);
    let n = cloth.pinned.len();
    let first = pulls(cloth.pinned, cloth.structural);
    let second = pulls(cloth.pinned, cloth.shear);
    let third = pulls(cloth.pinned, cloth.bend);
    let fourth = loads_before(cloth.pinned, wind, n);
    let fifth = moves_before(cloth.pinned, n);
    lemma_loads_before(cloth.pinned, wind, n);
    lemma_moves_before(cloth.pinned, n);
    let before = forces(cloth, wind);
    assert forall|k: int| 0 <= k < all.len() implies (#[trigger] all[k]).is_force() == (k
        < before.len()) by {
        if k < first.len() {
            assert(all[k] == first[k]);
        } else if k < first.len() + second.len() {
            assert(all[k] == second[k - first.len()]);
        } else if k < first.len() + second.len() + third.len() {
            assert(all[k] == third[k - first.len() - second.len()]);
        } else if k < first.len() + second.len() + third.len() + fourth.len() {
            assert(all[k] == fourth[k - first.len() - second.len() - third.len()]);
        } else {
            assert(all[k] == fifth[k - first.len() - second.len() - third.len() - fourth.len()]);
        }
    }
}

/// A step moves every free particle, each once, in index order.
pub proof fn lemma_free_particles_move_once(cloth: ClothView, wind: bool)
    ensures
        forall|p: nat|
            p < cloth.pinned.len() && !cloth.pinned[p as int] ==> plan(cloth, wind).contains(
                move_of(p),
            ),
        forall|j: int, k: int|
            0 <= j < k < plan(cloth, wind).len() && (#[trigger] plan(cloth, wind)[j]) is Integrate
                ==> (#[trigger] plan(cloth, wind)[k]) is Integrate && plan(
                cloth,
                wind,
            )[j]->Integrate_particle < plan(cloth, wind)[k]->Integrate_particle,
{
    let all = plan(cloth, wind);
    let n = cloth.pinned.len();
    let before = forces(cloth, wind);
    let after = moves_before(cloth.pinned, n);
    lemma_forces_before_moves(cloth, wind);
    lemma_moves_before(cloth.pinned, n);
    assert forall|p: nat| p < n && !cloth.pinned[p as int] implies all.contains(move_of(p)) by {
        let wanted = move_of(p);
        assert(after.contains(wanted));
        let k = after.index_of(wanted);
        assert(all[before.len() + k] == wanted);
    }
    assert forall|j: int, k: int|
        0 <= j < k < all.len() && (#[trigger] all[j]) is Integrate implies (#[trigger] all[k])
        is Integrate && all[j]->Integrate_particle < all[k]->Integrate_particle by {
        assert(all[j] == after[j - before.len()]);
        assert(all[k] == after[k - before.len()]);
    }
}

} // verus!
