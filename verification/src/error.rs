//! Errors raised when a cloth is configured.

use vstd::prelude::*;

verus! {

/// A grid configuration that cannot describe a cloth.
#[derive(Clone, Copy, Debug, PartialEq, Eq, Structural)]
pub enum ConfigurationError {
    /// The grid was asked to have no columns.
    NoColumns,
    /// The grid was asked to have no rows.
    NoRows,
    /// The number of particles, `rows * cols`, does not fit the address space.
    TooManyParticles,
}

/// The fault in a pair of grid dimensions, if there is one. Columns are judged
/// before rows, and both before the particle count.
pub open spec fn grid_fault(cols: nat, rows: nat) -> Option<ConfigurationError> {
    if cols < 1 {
        Some(ConfigurationError::NoColumns)
    } else if rows < 1 {
        Some(ConfigurationError::NoRows)
    } else if rows * cols > usize::MAX {
        Some(ConfigurationError::TooManyParticles)
    } else {
        None
    }
}

impl ConfigurationError {
    /// A short description of the fault, for messages shown to people.
    pub fn message(&self) -> (text: &'static str)
        ensures
            text@ == match *self {
                ConfigurationError::NoColumns => "a cloth needs at least one column"@,
                ConfigurationError::NoRows => "a cloth needs at least one row"@,
                ConfigurationError::TooManyParticles => "the grid has too many particles to address"@,
            },
    {
        match self {
            ConfigurationError::NoColumns => "a cloth needs at least one column",
            ConfigurationError::NoRows => "a cloth needs at least one row",
            ConfigurationError::TooManyParticles => "the grid has too many particles to address",
        }
    }
}

} // verus!
