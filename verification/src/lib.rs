//! Connectivity and scheduling for a cloth modelled as a grid of point masses
//! joined by springs.
//!
//! The crate knows which particles a cloth has, which of them are pinned,
//! which springs join them, which neighbours the surface normal at a particle
//! is estimated from, and in what order the forces of a time step are
//! gathered. It holds no coordinates: a host keeps positions and velocities
//! and does the arithmetic in the order that the [`plan`](cloth::Cloth::plan)
//! gives.

pub mod cloth;
pub mod counting;
pub mod error;
pub mod grid;
pub mod pairing;
pub mod plan;
pub mod ring;
pub mod spring;
pub mod topology;

pub use cloth::Cloth;
pub use error::ConfigurationError;
pub use grid::Grid;
pub use plan::Action;
pub use spring::Spring;
pub use spring::SpringKind;
