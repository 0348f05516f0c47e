use vstd::prelude::*;

verus! {

/// Number of distinct neighbor-occupancy configurations of a particle
/// (one bit per lattice direction), hence of effective Hamiltonians.
pub const NUM_POSSIBLE_HAMILTONIANS: usize = 16;

/// Extent of the periodic lattice.
#[derive(Debug, Clone, Copy)]
pub struct SystemSize {
    pub l_x: usize,
    pub l_y: usize,
}

impl SystemSize {
    pub fn new(l_x: usize, l_y: usize) -> (r: Self)
        ensures
            r.l_x == l_x,
            r.l_y == l_y,
    {
        SystemSize { l_x, l_y }
    }

    /// Total number of lattice sites.
    pub open spec fn sites(self) -> int {
        self.l_x * self.l_y
    }

    /// Total number of lattice sites.
    pub fn num_sites(&self) -> (r: usize)
        requires
            self.l_x * self.l_y <= usize::MAX,
        ensures
            r == self.sites(),
    {
        self.l_x * self.l_y
    }
}

/// Occupation of a lattice site.
#[derive(Clone, Copy, PartialEq, Eq, Structural)]
pub enum Occupation {
    Empty,
    Occupied,
}

impl Occupation {
    /// Numeric value of the occupation: 0 for empty, 1 for occupied.
    pub open spec fn value(self) -> usize {
        match self {
            Occupation::Empty => 0,
            Occupation::Occupied => 1,
        }
    }

    pub fn as_number(self) -> (r: usize)
        ensures
            r == self.value(),
    {
        match self {
            Occupation::Empty => 0,
            Occupation::Occupied => 1,
        }
    }
}

impl From<Occupation> for usize {
    fn from(occ: Occupation) -> (r: usize) {
        occ.as_number()
    }
}

impl vstd::std_specs::convert::FromSpecImpl<Occupation> for usize {
    open spec fn obeys_from_spec() -> bool {
        true
    }

    open spec fn from_spec(occ: Occupation) -> usize {
        occ.value()
    }
}

} // verus!
