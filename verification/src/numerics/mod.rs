use vstd::prelude::*;

pub mod picture;
pub mod spatial;

pub use spatial::{Direction, LatticeState};

verus! {

/// Dimension of the internal (direction) space of a single particle.
pub const MATRIX_DIMENSION: usize = 4;

} // verus!
