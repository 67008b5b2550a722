//! Springs as the grid sees them: a pair of particle indices and the class
//! that fixes how far apart the two particles rest.

use vstd::prelude::*;

verus! {

/// The three classes of spring of a cloth.
#[derive(Clone, Copy, Debug, PartialEq, Eq, Structural)]
pub enum SpringKind {
    /// Joins a particle to the next one along a row or a column.
    Stretch,
    /// Joins a particle to a diagonal neighbour.
    Shear,
    /// Joins a particle to the one two steps along a row or a column.
    Bend,
}

/// A step on the grid: rows first, columns second.
pub type Offset = (int, int);

impl SpringKind {
    /// The first of the two steps along which a particle of the grid starts a
    /// spring of this class.
    pub open spec fn first_offset(self) -> Offset {
        match self {
            SpringKind::Stretch => (0, 1),
            SpringKind::Shear => (1, -1),
            SpringKind::Bend => (0, 2),
        }
    }

    /// The second of the two steps.
    pub open spec fn second_offset(self) -> Offset {
        match self {
            SpringKind::Stretch => (1, 0),
            SpringKind::Shear => (1, 1),
            SpringKind::Bend => (2, 0),
        }
    }

    /// The square of the rest length, counted in squares of the grid spacing.
    pub open spec fn spec_rest_squared(self) -> nat {
        match self {
            SpringKind::Stretch => 1,
            SpringKind::Shear => 2,
            SpringKind::Bend => 4,
        }
    }

    /// The two steps along which a particle starts a spring of this class, in
    /// the order in which the springs are listed.
    pub fn offsets(self) -> (steps: ((isize, isize), (isize, isize)))
        ensures
            (steps.0.0 as int, steps.0.1 as int) == self.first_offset(),
            (steps.1.0 as int, steps.1.1 as int) == self.second_offset(),
    {
        match self {
            SpringKind::Stretch => ((0, 1), (1, 0)),
            SpringKind::Shear => ((1, -1), (1, 1)),
            SpringKind::Bend => ((0, 2), (2, 0)),
        }
    }

    /// The square of the rest length, counted in squares of the grid spacing:
    /// a spring of a cloth with spacing `s` rests at `s` times the square root
    /// of this number.
    pub fn rest_squared(self) -> (n: u8)
        ensures
            n == self.spec_rest_squared(),
    {
        match self {
            SpringKind::Stretch => 1,
            SpringKind::Shear => 2,
            SpringKind::Bend => 4,
        }
    }
}

/// The mathematical value of a spring.
pub struct Link {
    /// The index of the first particle.
    pub a: nat,
    /// The index of the second particle.
    pub b: nat,
    /// The class, which fixes the rest length.
    pub kind: SpringKind,
}

/// A spring between the particles `a` and `b`. It holds no length: its class
/// and the spacing of the cloth give the length at which it rests.
#[derive(Clone, Copy, Debug, PartialEq, Eq, Structural)]
pub struct Spring {
    /// The index of the first particle.
    pub a: usize,
    /// The index of the second particle.
    pub b: usize,
    /// The class, which fixes the rest length.
    pub kind: SpringKind,
}

impl View for Spring {
    type V = Link;

    open spec fn view(&self) -> Link {
        Link { a: self.a as nat, b: self.b as nat, kind: self.kind }
    }
}

impl Spring {
    /// A spring of class `kind` from particle `a` to particle `b`.
    pub fn new(a: usize, b: usize, kind: SpringKind) -> (spring: Spring)
        ensures
            spring@ == (Link { a: a as nat, b: b as nat, kind }),
    {
        Spring { a, b, kind }
    }
}

/// The mathematical values of a sequence of springs.
pub open spec fn links_of(springs: Seq<Spring>) -> Seq<Link> {
    springs.map_values(|s: Spring| s@)
}

} // verus!
