//! Lattice bookkeeping, measurement and configuration logic of a quantum
//! trajectory simulation of hard-core bosons with a four-level direction spin
//! on a periodic two-dimensional lattice.

pub mod config;
pub mod hilbert;
pub mod numerics;
pub mod observables;
pub mod preparation;
pub mod saving;
pub mod text;
pub mod time_evolution;
