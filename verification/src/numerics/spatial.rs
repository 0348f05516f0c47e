use vstd::prelude::*;

use crate::hilbert::{Occupation, SystemSize};

verus! {

/// A direction on the 2D square lattice. Its index matches the spin-state
/// index convention: 0 = left, 1 = right, 2 = up, 3 = down.
#[derive(Clone, Copy, PartialEq, Eq, Debug, Structural)]
pub enum Direction {
    Left,
    Right,
    Up,
    Down,
}

impl Direction {
    pub const ALL: [Direction; 4] = [Direction::Left, Direction::Right, Direction::Up, Direction::Down];

    /// Index of the direction (spin-state and neighbor-bit convention).
    pub open spec fn idx(self) -> usize {
        match self {
            Direction::Left => 0,
            Direction::Right => 1,
            Direction::Up => 2,
            Direction::Down => 3,
        }
    }

    /// The direction with a given index.
    pub open spec fn from_idx(i: int) -> Direction {
        if i == 0 {
            Direction::Left
        } else if i == 1 {
            Direction::Right
        } else if i == 2 {
            Direction::Up
        } else {
            Direction::Down
        }
    }

    pub open spec fn opp(self) -> Direction {
        match self {
            Direction::Left => Direction::Right,
            Direction::Right => Direction::Left,
            Direction::Up => Direction::Down,
            Direction::Down => Direction::Up,
        }
    }

    /// The two lab directions perpendicular to `self`, in index order.
    pub open spec fn perp(self) -> (Direction, Direction) {
        match self {
            Direction::Left | Direction::Right => (Direction::Up, Direction::Down),
            Direction::Up | Direction::Down => (Direction::Left, Direction::Right),
        }
    }

    pub fn index(self) -> (r: usize)
        ensures
            r == self.idx(),
            r < 4,
    {
        match self {
            Direction::Left => 0,
            Direction::Right => 1,
            Direction::Up => 2,
            Direction::Down => 3,
        }
    }

    pub fn from_index(i: usize) -> (r: Direction)
        requires
            i < 4,
        ensures
            r == Direction::from_idx(i as int),
            r.idx() == i,
    {
        if i == 0 {
            Direction::Left
        } else if i == 1 {
            Direction::Right
        } else if i == 2 {
            Direction::Up
        } else {
            Direction::Down
        }
    }

    pub fn opposite(self) -> (r: Direction)
        ensures
            r == self.opp(),
    {
        match self {
            Direction::Left => Direction::Right,
            Direction::Right => Direction::Left,
            Direction::Up => Direction::Down,
            Direction::Down => Direction::Up,
        }
    }

    /// The two lab directions perpendicular to `self`: exactly the
    /// displacements of the two lateral jump channels of a `self`-pointing
    /// particle.
    pub fn perpendicular(self) -> (r: [Direction; 2])
        ensures
            r[0] == self.perp().0,
            r[1] == self.perp().1,
    {
        match self {
            Direction::Left | Direction::Right => [Direction::Up, Direction::Down],
            Direction::Up | Direction::Down => [Direction::Left, Direction::Right],
        }
    }
}

impl From<Direction> for usize {
    fn from(d: Direction) -> (r: usize) {
        d.index()
    }
}

impl vstd::std_specs::convert::FromSpecImpl<Direction> for usize {
    open spec fn obeys_from_spec() -> bool {
        true
    }

    open spec fn from_spec(d: Direction) -> usize {
        d.idx()
    }
}

/// Opposite is an involution, and the index of a direction determines it.
pub proof fn lemma_direction_basics(d: Direction)
    ensures
        d.opp().opp() == d,
        d.opp() != d,
        Direction::from_idx(d.idx() as int) == d,
        d.idx() < 4,
        d.opp().idx() < 4,
{
}

/// The two lateral displacements of a `sigma`-pointing particle are never
/// along `sigma`, never backward, and are opposite to each other.
pub proof fn lemma_perpendicular_directions(d: Direction)
    ensures
        d.perp().0 != d,
        d.perp().1 != d,
        d.perp().0 != d.opp(),
        d.perp().1 != d.opp(),
        d.perp().0.opp() == d.perp().1,
{
}

/// Neighbor of an in-range site on the periodic lattice.
pub open spec fn neighbor_site(size: SystemSize, x: int, y: int, d: Direction) -> (int, int) {
    let lx = size.l_x as int;
    let ly = size.l_y as int;
    match d {
        Direction::Left => (if x == 0 { lx - 1 } else { x - 1 }, y),
        Direction::Right => (if x + 1 == lx { 0 } else { x + 1 }, y),
        Direction::Up => (x, if y + 1 == ly { 0 } else { y + 1 }),
        Direction::Down => (x, if y == 0 { ly - 1 } else { y - 1 }),
    }
}

/// What `neighbor_coords` computes for arbitrary coordinates.
pub open spec fn neighbor_formula(size: SystemSize, x: int, y: int, d: Direction) -> (int, int) {
    let lx = size.l_x as int;
    let ly = size.l_y as int;
    match d {
        Direction::Left => ((x + lx - 1) % lx, y),
        Direction::Right => ((x + 1) % lx, y),
        Direction::Up => (x, (y + 1) % ly),
        Direction::Down => (x, (y + ly - 1) % ly),
    }
}

/// The inputs on which `neighbor_coords` neither divides by zero nor overflows.
pub open spec fn neighbor_defined(size: SystemSize, x: usize, y: usize, d: Direction) -> bool {
    match d {
        Direction::Left => size.l_x > 0 && x + size.l_x <= usize::MAX,
        Direction::Right => size.l_x > 0 && x + 1 <= usize::MAX,
        Direction::Up => size.l_y > 0 && y + 1 <= usize::MAX,
        Direction::Down => size.l_y > 0 && y + size.l_y <= usize::MAX,
    }
}

pub open spec fn site_in(size: SystemSize, x: int, y: int) -> bool {
    0 <= x < size.l_x && 0 <= y < size.l_y
}

/// Neighbors of in-range sites are in range, and stepping back in the
/// opposite direction returns to the start.
pub proof fn lemma_neighbor_inverse(size: SystemSize, x: int, y: int, d: Direction)
    requires
        site_in(size, x, y),
    ensures
        site_in(size, neighbor_site(size, x, y, d).0, neighbor_site(size, x, y, d).1),
        neighbor_site(
            size,
            neighbor_site(size, x, y, d).0,
            neighbor_site(size, x, y, d).1,
            d.opp(),
        ) == (x, y),
{
}

/// For in-range sites the periodic formula is the neighbor.
pub proof fn lemma_neighbor_formula(size: SystemSize, x: int, y: int, d: Direction)
    requires
        site_in(size, x, y),
    ensures
        neighbor_formula(size, x, y, d) == neighbor_site(size, x, y, d),
{
    let lx = size.l_x as int;
    let ly = size.l_y as int;
    match d {
        Direction::Left => {
            if x == 0 {
                vstd::arithmetic::div_mod::lemma_small_mod((lx - 1) as nat, lx as nat);
            } else {
                vstd::arithmetic::div_mod::lemma_mod_add_multiples_vanish(x - 1, lx);
                vstd::arithmetic::div_mod::lemma_small_mod((x - 1) as nat, lx as nat);
            }
        },
        Direction::Right => {
            if x + 1 == lx {
                vstd::arithmetic::div_mod::lemma_mod_self_0(lx);
            } else {
                vstd::arithmetic::div_mod::lemma_small_mod((x + 1) as nat, lx as nat);
            }
        },
        Direction::Up => {
            if y + 1 == ly {
                vstd::arithmetic::div_mod::lemma_mod_self_0(ly);
            } else {
                vstd::arithmetic::div_mod::lemma_small_mod((y + 1) as nat, ly as nat);
            }
        },
        Direction::Down => {
            if y == 0 {
                vstd::arithmetic::div_mod::lemma_small_mod((ly - 1) as nat, ly as nat);
            } else {
                vstd::arithmetic::div_mod::lemma_mod_add_multiples_vanish(y - 1, ly);
                vstd::arithmetic::div_mod::lemma_small_mod((y - 1) as nat, ly as nat);
            }
        },
    }
}

/// Bit `k` of a neighbor-occupancy index.
pub open spec fn bit(v: usize, k: usize) -> bool {
    (v >> k) & 1usize == 1usize
}

proof fn lemma_bit_update(v: usize, k: usize, j: usize)
    by (bit_vector)
    requires
        k < 4,
        j < 4,
    ensures
        bit(v | (1usize << k), j) == (j == k || bit(v, j)),
        bit(v & !(1usize << k), j) == (j != k && bit(v, j)),
        v < 16 ==> (v | (1usize << k)) < 16,
        v < 16 ==> (v & !(1usize << k)) < 16,
{
}

proof fn lemma_bits_determine(v: usize, w: usize)
    by (bit_vector)
    requires
        v < 16,
        w < 16,
        bit(v, 0) == bit(w, 0),
        bit(v, 1) == bit(w, 1),
        bit(v, 2) == bit(w, 2),
        bit(v, 3) == bit(w, 3),
    ensures
        v == w,
{
}

proof fn lemma_zero_has_no_bits(j: usize)
    by (bit_vector)
    requires
        j < 4,
    ensures
        !bit(0usize, j),
{
}

/// `v` with bit `k` set to `on`, all other bits kept.
fn with_bit(v: usize, k: usize, on: bool) -> (r: usize)
    requires
        k < 4,
    ensures
        bit(r, k) == on,
        forall|j: usize| j < 4 && j != k ==> bit(r, j) == bit(v, j),
        v < 16 ==> r < 16,
{
    proof {
        assert forall|j: usize| j < 4 implies bit(v | (1usize << k), j) == (j == k || bit(v, j))
            && bit(v & !(1usize << k), j) == (j != k && bit(v, j)) by {
            lemma_bit_update(v, k, j);
        }
        lemma_bit_update(v, k, k);
    }
    if on {
        v | (1usize << k)
    } else {
        v & !(1usize << k)
    }
}

proof fn lemma_bit_read(v: usize, k: usize)
    by (bit_vector)
    requires
        k < 4,
    ensures
        ((v >> k) & 1usize != 1usize) == !bit(v, k),
{
}

/// For each direction (left, right, up, down), whether a neighbor-occupancy
/// index marks that neighbor as empty.
pub fn neighbor_emptiness(occupancy_index: usize) -> (r: [bool; 4])
    ensures
        forall|k: int| 0 <= k < 4 ==> r[k] == !bit(occupancy_index, k as usize),
{
    proof {
        lemma_bit_read(occupancy_index, 0);
        lemma_bit_read(occupancy_index, 1);
        lemma_bit_read(occupancy_index, 2);
        lemma_bit_read(occupancy_index, 3);
    }
    let r = [
        (occupancy_index >> Direction::Left.index()) & 1 != 1,
        (occupancy_index >> Direction::Right.index()) & 1 != 1,
        (occupancy_index >> Direction::Up.index()) & 1 != 1,
        (occupancy_index >> Direction::Down.index()) & 1 != 1,
    ];
    proof {
        assert forall|k: int| 0 <= k < 4 implies r[k] == !bit(occupancy_index, k as usize) by {
            if k == 0 {
            } else if k == 1 {
            } else if k == 2 {
            } else {
            }
        }
    }
    r
}

/// Count of occupied sites among the first `y` sites of a row.
pub open spec fn row_count(row: Seq<Occupation>, y: int) -> nat
    decreases y,
{
    if y <= 0 {
        0
    } else {
        row_count(row, y - 1) + if row[y - 1] == Occupation::Occupied {
            1nat
        } else {
            0nat
        }
    }
}

/// Count of occupied sites among the first `ly` sites of the first `x` rows.
pub open spec fn rows_count(occ: Seq<Vec<Occupation>>, ly: int, x: int) -> nat
    decreases x,
{
    if x <= 0 {
        0
    } else {
        rows_count(occ, ly, x - 1) + row_count(occ[x - 1]@, ly)
    }
}

/// Particle index given to site `(x, y)` by `LatticeState::new`: sites are
/// numbered in row-major scan order, counting occupied sites only.
pub open spec fn initial_cell(occ: Seq<Vec<Occupation>>, ly: int, x: int, y: int) -> Option<usize> {
    if occ[x]@[y] == Occupation::Occupied {
        Some((rows_count(occ, ly, x) + row_count(occ[x]@, y)) as usize)
    } else {
        None
    }
}

proof fn lemma_row_count_mono(row: Seq<Occupation>, y1: int, y2: int)
    requires
        0 <= y1 <= y2,
    ensures
        row_count(row, y1) <= row_count(row, y2),
        y1 < y2 && row[y1] == Occupation::Occupied ==> row_count(row, y1) < row_count(row, y2),
    decreases y2 - y1,
{
    if y1 < y2 {
        lemma_row_count_mono(row, y1, y2 - 1);
    }
}

proof fn lemma_rows_count_mono(occ: Seq<Vec<Occupation>>, ly: int, x1: int, x2: int)
    requires
        0 <= x1 <= x2,
    ensures
        rows_count(occ, ly, x1) <= rows_count(occ, ly, x2),
    decreases x2 - x1,
{
    if x1 < x2 {
        lemma_rows_count_mono(occ, ly, x1, x2 - 1);
    }
}

/// The row-major numbering of occupied sites is strictly increasing and
/// stays below the total count.
proof fn lemma_initial_numbering(occ: Seq<Vec<Occupation>>, lx: int, ly: int, x1: int, y1: int, x2: int, y2: int)
    requires
        0 <= x1 < lx,
        0 <= y1 < ly,
        0 <= x2 < lx,
        0 <= y2 < ly,
        occ[x1]@[y1] == Occupation::Occupied,
        occ[x2]@[y2] == Occupation::Occupied,
        x1 < x2 || (x1 == x2 && y1 < y2),
    ensures
        rows_count(occ, ly, x1) + row_count(occ[x1]@, y1) < rows_count(occ, ly, x2) + row_count(occ[x2]@, y2),
{
    if x1 == x2 {
        lemma_row_count_mono(occ[x1]@, y1, y2);
    } else {
        lemma_row_count_mono(occ[x1]@, y1, ly);
        assert(rows_count(occ, ly, x1 + 1) == rows_count(occ, ly, x1) + row_count(occ[x1]@, ly));
        lemma_rows_count_mono(occ, ly, x1 + 1, x2);
    }
}

proof fn lemma_initial_numbering_bound(occ: Seq<Vec<Occupation>>, lx: int, ly: int, x: int, y: int)
    requires
        0 <= x < lx,
        0 <= y < ly,
        occ[x]@[y] == Occupation::Occupied,
    ensures
        rows_count(occ, ly, x) + row_count(occ[x]@, y) < rows_count(occ, ly, lx),
{
    lemma_row_count_mono(occ[x]@, y, ly);
    assert(rows_count(occ, ly, x + 1) == rows_count(occ, ly, x) + row_count(occ[x]@, ly));
    lemma_rows_count_mono(occ, ly, x + 1, lx);
}

proof fn lemma_row_count_hits(row: Seq<Occupation>, m: int, v: int)
    requires
        0 <= m,
        0 <= v < row_count(row, m),
    ensures
        exists|y: int| 0 <= y < m && row[y] == Occupation::Occupied && #[trigger] row_count(row, y) == v,
    decreases m,
{
    if v < row_count(row, m - 1) {
        lemma_row_count_hits(row, m - 1, v);
    } else {
        assert(row[m - 1] == Occupation::Occupied && row_count(row, m - 1) == v);
    }
}

proof fn lemma_rows_count_hits(occ: Seq<Vec<Occupation>>, ly: int, m: int, v: int)
    requires
        0 <= m,
        0 <= ly,
        0 <= v < rows_count(occ, ly, m),
    ensures
        exists|x: int, y: int|
            0 <= x < m && 0 <= y < ly && occ[x]@[y] == Occupation::Occupied && rows_count(occ, ly, x) + #[trigger] row_count(
                occ[x]@,
                y,
            ) == v,
    decreases m,
{
    if v < rows_count(occ, ly, m - 1) {
        lemma_rows_count_hits(occ, ly, m - 1, v);
        let (x, y) = choose|x: int, y: int|
            0 <= x < m - 1 && 0 <= y < ly && occ[x]@[y] == Occupation::Occupied && rows_count(occ, ly, x)
                + #[trigger] row_count(occ[x]@, y) == v;
        assert(0 <= x < m && 0 <= y < ly && occ[x]@[y] == Occupation::Occupied && rows_count(occ, ly, x) + row_count(
            occ[x]@,
            y,
        ) == v);
    } else {
        lemma_row_count_hits(occ[m - 1]@, ly, v - rows_count(occ, ly, m - 1));
        let y = choose|y: int|
            0 <= y < ly && occ[m - 1]@[y] == Occupation::Occupied && #[trigger] row_count(occ[m - 1]@, y) == v - rows_count(
                occ,
                ly,
                m - 1,
            );
        assert(0 <= m - 1 < m && 0 <= y < ly && occ[m - 1]@[y] == Occupation::Occupied && rows_count(occ, ly, m - 1)
            + row_count(occ[m - 1]@, y) == v);
    }
}

/// Full spatial state of the lattice: a 2D grid plus per-particle cached
/// neighbor-occupancy indices.
///
/// Particles are assigned fixed indices at construction time (row-major
/// scan order). After a hop only the moving particle and its former and new
/// neighbors are updated.
#[derive(Clone, Debug)]
pub struct LatticeState {
    pub system_size: SystemSize,
    /// `grid[x][y] = Some(particle_index)` if occupied, `None` if empty.
    pub grid: Vec<Vec<Option<usize>>>,
    /// Per-particle Hamiltonian indices: bit `d` is set iff the neighbor in
    /// direction `d` is occupied.
    pub neighbor_occupancy_index: Vec<usize>,
    pub number_particles: usize,
}

impl LatticeState {
    pub open spec fn in_range(&self, x: int, y: int) -> bool {
        site_in(self.system_size, x, y)
    }

    pub open spec fn cell(&self, x: int, y: int) -> Option<usize> {
        self.grid@[x]@[y]
    }

    pub open spec fn occupied(&self, x: int, y: int) -> bool {
        self.cell(x, y) is Some
    }

    pub open spec fn nbr(&self, x: int, y: int, d: Direction) -> (int, int) {
        neighbor_site(self.system_size, x, y, d)
    }

    pub open spec fn neighbor_occupied(&self, x: int, y: int, d: Direction) -> bool {
        self.occupied(self.nbr(x, y, d).0, self.nbr(x, y, d).1)
    }

    /// Particle `p` sits on some lattice site.
    pub open spec fn placed(&self, p: usize) -> bool {
        exists|x: int, y: int| self.in_range(x, y) && #[trigger] self.cell(x, y) == Some(p)
    }

    /// Lattice extents that the machine can index.
    pub open spec fn size_ok(&self) -> bool {
        &&& self.system_size.l_x <= isize::MAX
        &&& self.system_size.l_y <= isize::MAX
        &&& self.system_size.l_x * self.system_size.l_y <= usize::MAX
    }

    /// The grid has exactly `l_x` rows of `l_y` sites.
    pub open spec fn shape_ok(&self) -> bool {
        &&& self.grid@.len() == self.system_size.l_x
        &&& forall|x: int| 0 <= x < self.system_size.l_x ==> #[trigger] self.grid@[x]@.len() == self.system_size.l_y
    }

    /// Particle indices are below `number_particles` and sit on at most one site.
    pub open spec fn particles_ok(&self) -> bool {
        &&& self.neighbor_occupancy_index@.len() == self.number_particles
        &&& forall|x: int, y: int|
            self.in_range(x, y) && (#[trigger] self.cell(x, y)) is Some ==> self.cell(x, y)->0 < self.number_particles
        &&& forall|x1: int, y1: int, x2: int, y2: int|
            self.in_range(x1, y1) && self.in_range(x2, y2) && (#[trigger] self.cell(x1, y1)) is Some
                && #[trigger] self.cell(x2, y2) == self.cell(x1, y1) ==> x1 == x2 && y1 == y2
    }

    /// Bit `d` of the cached index of the particle at `(x, y)` (if any)
    /// records whether the neighbor in direction `d` is occupied.
    pub open spec fn bit_ok(&self, x: int, y: int, d: Direction) -> bool {
        self.cell(x, y) matches Some(p) ==> bit(self.neighbor_occupancy_index@[p as int], d.idx())
            == self.neighbor_occupied(x, y, d)
    }

    /// The cached index of the particle at `(x, y)` (if any) is its 4-bit
    /// neighbor-occupancy index.
    pub open spec fn cache_ok_at(&self, x: int, y: int) -> bool {
        &&& self.cell(x, y) matches Some(p) ==> self.neighbor_occupancy_index@[p as int] < 16
        &&& forall|d: Direction| #[trigger] self.bit_ok(x, y, d)
    }

    /// Well-formedness: shape, particle numbering and cache consistency.
    pub open spec fn wf(&self) -> bool {
        &&& self.size_ok()
        &&& self.shape_ok()
        &&& self.particles_ok()
        &&& forall|x: int, y: int| self.in_range(x, y) ==> #[trigger] self.cache_ok_at(x, y)
    }

    proof fn lemma_same_grid_particles(a: &Self, b: &Self)
        requires
            a.grid@ == b.grid@,
            a.system_size == b.system_size,
            a.number_particles == b.number_particles,
            a.neighbor_occupancy_index@.len() == b.neighbor_occupancy_index@.len(),
            a.particles_ok(),
        ensures
            b.particles_ok(),
    {
        assert forall|x: int, y: int| b.in_range(x, y) && (#[trigger] b.cell(x, y)) is Some implies b.cell(x, y)->0
            < b.number_particles by {
            assert(a.cell(x, y) == b.cell(x, y));
        }
        assert forall|x1: int, y1: int, x2: int, y2: int|
            b.in_range(x1, y1) && b.in_range(x2, y2) && (#[trigger] b.cell(x1, y1)) is Some && #[trigger] b.cell(x2, y2)
                == b.cell(x1, y1) implies x1 == x2 && y1 == y2 by {
            assert(a.cell(x1, y1) == b.cell(x1, y1));
            assert(a.cell(x2, y2) == b.cell(x2, y2));
        }
    }

    /// Two states with the same grid, extents and particle count agree on
    /// every grid-only property.
    proof fn lemma_same_grid(a: &Self, b: &Self)
        requires
            a.grid@ == b.grid@,
            a.system_size == b.system_size,
            a.number_particles == b.number_particles,
            a.neighbor_occupancy_index@.len() == b.neighbor_occupancy_index@.len(),
        ensures
            forall|x: int, y: int| #[trigger] a.cell(x, y) == b.cell(x, y),
            forall|p: usize| #[trigger] a.placed(p) == b.placed(p),
            a.particles_ok() == b.particles_ok(),
            a.shape_ok() == b.shape_ok(),
            a.size_ok() == b.size_ok(),
    {
        assert forall|x: int, y: int| #[trigger] a.cell(x, y) == b.cell(x, y) by {}
        if a.particles_ok() {
            Self::lemma_same_grid_particles(a, b);
        }
        if b.particles_ok() {
            Self::lemma_same_grid_particles(b, a);
        }
        assert forall|p: usize| #[trigger] a.placed(p) == b.placed(p) by {
            if a.placed(p) {
                let (x, y) = choose|x: int, y: int| a.in_range(x, y) && #[trigger] a.cell(x, y) == Some(p);
                assert(b.cell(x, y) == Some(p));
            }
            if b.placed(p) {
                let (x, y) = choose|x: int, y: int| b.in_range(x, y) && #[trigger] b.cell(x, y) == Some(p);
                assert(a.cell(x, y) == Some(p));
            }
        }
    }

    // ------------------------------------------------------------------ //
    //  Construction
    // ------------------------------------------------------------------ //

    /// Build from a 2D occupation grid. Occupied sites get the particle
    /// indices 0, 1, ... in row-major scan order.
    pub fn new(system_size: SystemSize, occupation: &[Vec<Occupation>], number_particles: usize) -> (r: Self)
        requires
            system_size.l_x <= isize::MAX,
            system_size.l_y <= isize::MAX,
            system_size.l_x * system_size.l_y <= usize::MAX,
            occupation@.len() >= system_size.l_x,
            forall|x: int| 0 <= x < system_size.l_x ==> #[trigger] occupation@[x]@.len() >= system_size.l_y,
            rows_count(occupation@, system_size.l_y as int, system_size.l_x as int) <= number_particles,
        ensures
            r.wf(),
            r.system_size == system_size,
            r.number_particles == number_particles,
            forall|x: int, y: int| #[trigger] r.in_range(x, y) ==> r.cell(x, y) == initial_cell(
                occupation@,
                system_size.l_y as int,
                x,
                y,
            ),
            forall|p: int| 0 <= p < number_particles && !r.placed(p as usize) ==> #[trigger] r.neighbor_occupancy_index@[p] == 0,
            forall|p: usize|
                p < rows_count(occupation@, system_size.l_y as int, system_size.l_x as int) ==> #[trigger] r.placed(p),
            forall|x: int, y: int|
                #[trigger] r.in_range(x, y) ==> (r.occupied(x, y) <==> occupation@[x]@[y] == Occupation::Occupied),
            forall|x: int, y: int|
                #[trigger] r.in_range(x, y) && r.occupied(x, y) ==> r.cell(x, y)->0 < rows_count(
                    occupation@,
                    system_size.l_y as int,
                    system_size.l_x as int,
                ),
            forall|x1: int, y1: int, x2: int, y2: int|
                #[trigger] r.in_range(x1, y1) && #[trigger] r.in_range(x2, y2) && r.occupied(x1, y1) && r.occupied(x2, y2)
                    && Self::scan_before(x1, y1, x2, y2) ==> r.cell(x1, y1)->0 < r.cell(x2, y2)->0,
    {
        let lx = system_size.l_x;
        let ly = system_size.l_y;
        let ghost occ = occupation@;
        let mut grid: Vec<Vec<Option<usize>>> = Vec::new();
        let mut particle_idx: usize = 0;
        for x in 0..lx
            invariant
                lx == system_size.l_x,
                ly == system_size.l_y,
                occ == occupation@,
                occupation@.len() >= lx,
                forall|a: int| 0 <= a < lx ==> #[trigger] occupation@[a]@.len() >= ly,
                rows_count(occ, ly as int, lx as int) <= number_particles,
                grid@.len() == x,
                particle_idx == rows_count(occ, ly as int, x as int),
                forall|a: int| 0 <= a < x ==> #[trigger] grid@[a]@.len() == ly,
                forall|a: int, b: int|
                    0 <= a < x && 0 <= b < ly ==> #[trigger] grid@[a]@[b] == initial_cell(occ, ly as int, a, b),
        {
            let mut row: Vec<Option<usize>> = Vec::new();
            proof {
                lemma_rows_count_mono(occ, ly as int, x as int + 1, lx as int);
                lemma_row_count_mono(occ[x as int]@, 0, ly as int);
            }
            for y in 0..ly
                invariant
                    lx == system_size.l_x,
                    ly == system_size.l_y,
                    occ == occupation@,
                    x < lx,
                    occupation@.len() >= lx,
                    forall|a: int| 0 <= a < lx ==> #[trigger] occupation@[a]@.len() >= ly,
                    rows_count(occ, ly as int, x as int + 1) <= number_particles,
                    rows_count(occ, ly as int, x as int + 1) == rows_count(occ, ly as int, x as int)
                        + row_count(occ[x as int]@, ly as int),
                    row@.len() == y,
                    particle_idx == rows_count(occ, ly as int, x as int) + row_count(occ[x as int]@, y as int),
                    forall|b: int| 0 <= b < y ==> #[trigger] row@[b] == initial_cell(occ, ly as int, x as int, b),
            {
                proof {
                    lemma_row_count_mono(occ[x as int]@, y as int + 1, ly as int);
                }
                if occupation[x][y] == Occupation::Occupied {
                    row.push(Some(particle_idx));
                    particle_idx = particle_idx + 1;
                } else {
                    row.push(None);
                }
            }
            grid.push(row);
        }
        let mut neighbor_occupancy_index: Vec<usize> = Vec::new();
        for i in 0..number_particles
            invariant
                neighbor_occupancy_index@.len() == i,
                forall|p: int| 0 <= p < i ==> #[trigger] neighbor_occupancy_index@[p] == 0,
        {
            neighbor_occupancy_index.push(0);
        }
        let mut state = LatticeState { system_size, grid, neighbor_occupancy_index, number_particles };
        proof {
            assert forall|x: int, y: int| state.in_range(x, y) implies state.cell(x, y) == initial_cell(
                occ,
                ly as int,
                x,
                y,
            ) by {
                assert(state.grid@[x]@[y] == initial_cell(occ, ly as int, x, y));
            }
            assert forall|x: int, y: int| state.in_range(x, y) && (#[trigger] state.cell(x, y)) is Some implies state.cell(x, y)->0 < number_particles by {
                lemma_initial_numbering_bound(occ, lx as int, ly as int, x, y);
            }
            assert forall|x1: int, y1: int, x2: int, y2: int|
                state.in_range(x1, y1) && state.in_range(x2, y2) && (#[trigger] state.cell(x1, y1)) is Some
                    && #[trigger] state.cell(x2, y2) == state.cell(x1, y1) implies x1 == x2 && y1 == y2 by {
                if x1 < x2 || (x1 == x2 && y1 < y2) {
                    lemma_initial_numbering(occ, lx as int, ly as int, x1, y1, x2, y2);
                    lemma_initial_numbering_bound(occ, lx as int, ly as int, x2, y2);
                } else if x2 < x1 || (x1 == x2 && y2 < y1) {
                    lemma_initial_numbering(occ, lx as int, ly as int, x2, y2, x1, y1);
                    lemma_initial_numbering_bound(occ, lx as int, ly as int, x1, y1);
                }
            }
        }
        let ghost start = state;
        state.rebuild_all_neighbor_caches();
        proof {
            Self::lemma_same_grid(&start, &state);
            assert forall|p: usize| p < rows_count(occ, ly as int, lx as int) implies #[trigger] state.placed(p) by {
                lemma_rows_count_hits(occ, ly as int, lx as int, p as int);
                let (x, y) = choose|x: int, y: int|
                    0 <= x < lx && 0 <= y < ly && occ[x]@[y] == Occupation::Occupied && rows_count(occ, ly as int, x)
                        + #[trigger] row_count(occ[x]@, y) == p;
                assert(state.in_range(x, y));
                assert(state.cell(x, y) == Some(p));
            }
            assert forall|x: int, y: int| #[trigger] state.in_range(x, y) && state.occupied(x, y) implies state.cell(x, y)->0
                < rows_count(occ, ly as int, lx as int) by {
                lemma_initial_numbering_bound(occ, lx as int, ly as int, x, y);
            }
            assert forall|x1: int, y1: int, x2: int, y2: int|
                #[trigger] state.in_range(x1, y1) && #[trigger] state.in_range(x2, y2) && state.occupied(x1, y1)
                    && state.occupied(x2, y2) && Self::scan_before(x1, y1, x2, y2) implies state.cell(x1, y1)->0 < state.cell(
                    x2,
                    y2,
                )->0 by {
                lemma_initial_numbering(occ, lx as int, ly as int, x1, y1, x2, y2);
                lemma_initial_numbering_bound(occ, lx as int, ly as int, x2, y2);
            }
        }
        state
    }

    /// Recompute neighbor caches for every particle (full sweep).
    fn rebuild_all_neighbor_caches(&mut self)
        requires
            old(self).size_ok(),
            old(self).shape_ok(),
            old(self).particles_ok(),
        ensures
            final(self).wf(),
            final(self).system_size == old(self).system_size,
            final(self).number_particles == old(self).number_particles,
            final(self).grid@ == old(self).grid@,
            forall|p: int| 0 <= p < old(self).number_particles && !old(self).placed(p as usize)
                ==> #[trigger] final(self).neighbor_occupancy_index@[p] == old(self).neighbor_occupancy_index@[p],
    {
        let lx = self.system_size.l_x;
        let ly = self.system_size.l_y;
        let ghost start = *self;
        for x in 0..lx
            invariant
                lx == self.system_size.l_x,
                ly == self.system_size.l_y,
                self.system_size == start.system_size,
                self.number_particles == start.number_particles,
                self.grid@ == start.grid@,
                self.size_ok(),
                self.shape_ok(),
                self.particles_ok(),
                forall|a: int, b: int| 0 <= a < x && 0 <= b < ly ==> #[trigger] self.cache_ok_at(a, b),
                forall|p: int| 0 <= p < start.number_particles && !start.placed(p as usize)
                    ==> #[trigger] self.neighbor_occupancy_index@[p] == start.neighbor_occupancy_index@[p],
        {
            for y in 0..ly
                invariant
                    lx == self.system_size.l_x,
                    ly == self.system_size.l_y,
                    x < lx,
                    self.system_size == start.system_size,
                    self.number_particles == start.number_particles,
                    self.grid@ == start.grid@,
                    self.size_ok(),
                    self.shape_ok(),
                    self.particles_ok(),
                    forall|a: int, b: int|
                        (0 <= a < x && 0 <= b < ly) || (a == x && 0 <= b < y) ==> #[trigger] self.cache_ok_at(a, b),
                    forall|p: int| 0 <= p < start.number_particles && !start.placed(p as usize)
                        ==> #[trigger] self.neighbor_occupancy_index@[p] == start.neighbor_occupancy_index@[p],
            {
                let ghost before = *self;
                self.recalculate_neighbor_cache(x, y);
                proof {
                    Self::lemma_same_grid(&before, self);
                    assert forall|a: int, b: int|
                        (0 <= a < x && 0 <= b < ly) || (a == x && 0 <= b < y + 1) implies #[trigger] self.cache_ok_at(a, b) by {
                        if a == x && b == y {
                        } else {
                            assert(before.cache_ok_at(a, b));
                            if self.cell(a, b) is Some {
                                assert(self.cell(a, b) != self.cell(x as int, y as int));
                            }
                            assert forall|d: Direction| #[trigger] self.bit_ok(a, b, d) by {
                                assert(before.bit_ok(a, b, d));
                            }
                        }
                    }
                    assert forall|p: int| 0 <= p < start.number_particles && !start.placed(p as usize)
                        implies #[trigger] self.neighbor_occupancy_index@[p] == start.neighbor_occupancy_index@[p] by {
                        if before.cell(x as int, y as int) == Some(p as usize) {
                            assert(start.cell(x as int, y as int) == Some(p as usize));
                        }
                    }
                }
            }
        }
    }

    /// Set bit `dir` of the cached index of the particle at `(x, y)` (if
    /// any) to `occupied`.
    fn update_neighbor_cache(&mut self, x: usize, y: usize, dir: Direction, occupied: bool)
        requires
            old(self).shape_ok(),
            old(self).particles_ok(),
            old(self).in_range(x as int, y as int),
        ensures
            final(self).system_size == old(self).system_size,
            final(self).number_particles == old(self).number_particles,
            final(self).grid@ == old(self).grid@,
            final(self).neighbor_occupancy_index@.len() == old(self).neighbor_occupancy_index@.len(),
            old(self).cache_updated(*final(self), (x as int, y as int), dir.idx(), occupied),
    {
        if let Some(particle_idx) = self.grid[x][y] {
            proof {
                assert(self.cell(x as int, y as int) == Some(particle_idx));
            }
            let v = self.neighbor_occupancy_index[particle_idx];
            let nv = with_bit(v, dir.index(), occupied);
            self.neighbor_occupancy_index.set(particle_idx, nv);
        }
    }

    /// Whether the neighbor of an in-range site in direction `d` is occupied.
    fn neighbor_is_occupied(&self, x: usize, y: usize, d: Direction) -> (r: bool)
        requires
            self.size_ok(),
            self.shape_ok(),
            self.in_range(x as int, y as int),
        ensures
            r == self.neighbor_occupied(x as int, y as int, d),
    {
        let (nx, ny) = self.neighbor_coords(x, y, d);
        proof {
            lemma_neighbor_inverse(self.system_size, x as int, y as int, d);
        }
        self.grid[nx][ny].is_some()
    }

    /// Recompute the cached index of the particle at `(x, y)` (if any).
    fn recalculate_neighbor_cache(&mut self, x: usize, y: usize)
        requires
            old(self).size_ok(),
            old(self).shape_ok(),
            old(self).particles_ok(),
            old(self).in_range(x as int, y as int),
        ensures
            final(self).system_size == old(self).system_size,
            final(self).number_particles == old(self).number_particles,
            final(self).grid@ == old(self).grid@,
            final(self).neighbor_occupancy_index@.len() == old(self).neighbor_occupancy_index@.len(),
            final(self).cache_ok_at(x as int, y as int),
            match old(self).cell(x as int, y as int) {
                Some(p) => forall|i: int|
                    0 <= i < old(self).neighbor_occupancy_index@.len() && i != p ==> #[trigger] final(self).neighbor_occupancy_index@[i]
                    == old(self).neighbor_occupancy_index@[i],
                None => final(self).neighbor_occupancy_index@ == old(self).neighbor_occupancy_index@,
            },
    {
        if let Some(particle_idx) = self.grid[x][y] {
            let mut neighbor_occupation: usize = 0;
            proof {
                lemma_zero_has_no_bits(0);
                lemma_zero_has_no_bits(1);
                lemma_zero_has_no_bits(2);
                lemma_zero_has_no_bits(3);
            }
            let l = self.neighbor_is_occupied(x, y, Direction::Left);
            neighbor_occupation = with_bit(neighbor_occupation, 0, l);
            let r = self.neighbor_is_occupied(x, y, Direction::Right);
            neighbor_occupation = with_bit(neighbor_occupation, 1, r);
            let u = self.neighbor_is_occupied(x, y, Direction::Up);
            neighbor_occupation = with_bit(neighbor_occupation, 2, u);
            let d = self.neighbor_is_occupied(x, y, Direction::Down);
            neighbor_occupation = with_bit(neighbor_occupation, 3, d);
            self.neighbor_occupancy_index.set(particle_idx, neighbor_occupation);
            proof {
                assert forall|dd: Direction| #[trigger] self.bit_ok(x as int, y as int, dd) by {
                    assert(self.neighbor_occupied(x as int, y as int, dd) == old(self).neighbor_occupied(
                        x as int,
                        y as int,
                        dd,
                    ));
                }
            }
        }
    }

    /// Content of site `(a, b)` after the particle at `(x, y)` hopped one
    /// step in direction `m`.
    pub open spec fn cell_after_move(&self, x: int, y: int, m: Direction, a: int, b: int) -> Option<usize> {
        if a == x && b == y {
            None
        } else if (a, b) == self.nbr(x, y, m) {
            self.cell(x, y)
        } else {
            self.cell(a, b)
        }
    }

    /// A bit of a cached index that a hop from `s` to `t` may leave stale
    /// until the neighbors of `s` (directions with index at least `i_s`) and
    /// of `t` (index at least `i_t`) have been refreshed.
    pub open spec fn stale_after_move(
        &self,
        a: int,
        b: int,
        d: Direction,
        s: (int, int),
        t: (int, int),
        i_s: int,
        i_t: int,
    ) -> bool {
        &&& (a, b) != t
        &&& (self.nbr(a, b, d) == s && d.opp().idx() >= i_s) || (self.nbr(a, b, d) == t && d.opp().idx() >= i_t)
    }

    /// The cache bookkeeping during a hop from `s` to `t`.
    pub open spec fn move_progress(&self, s: (int, int), t: (int, int), i_s: int, i_t: int) -> bool {
        &&& forall|a: int, b: int| #[trigger] self.in_range(a, b) && self.cell(a, b) is Some
            ==> self.neighbor_occupancy_index@[self.cell(a, b)->0 as int] < 16
        &&& forall|a: int, b: int, d: Direction|
            #[trigger] self.in_range(a, b) ==> #[trigger] self.bit_ok(a, b, d) || self.stale_after_move(
                a,
                b,
                d,
                s,
                t,
                i_s,
                i_t,
            )
    }

    /// `after` differs from `self` at most in bit `k` of the cached index
    /// of the particle at `q`, which is `on` in `after`.
    pub open spec fn cache_updated(&self, after: Self, q: (int, int), k: usize, on: bool) -> bool {
        match self.cell(q.0, q.1) {
            Some(p) => {
                &&& after.neighbor_occupancy_index@ == self.neighbor_occupancy_index@.update(
                    p as int,
                    after.neighbor_occupancy_index@[p as int],
                )
                &&& bit(after.neighbor_occupancy_index@[p as int], k) == on
                &&& forall|j: usize| j < 4 && j != k ==> bit(after.neighbor_occupancy_index@[p as int], j)
                    == bit(self.neighbor_occupancy_index@[p as int], j)
                &&& self.neighbor_occupancy_index@[p as int] < 16 ==> after.neighbor_occupancy_index@[p as int] < 16
            },
            None => after.neighbor_occupancy_index@ == self.neighbor_occupancy_index@,
        }
    }

    /// Facts shared by every stage of a hop from `s` to `t` in direction `m`.
    pub open spec fn hop_frame(&self, s: (int, int), t: (int, int), m: Direction) -> bool {
        &&& self.size_ok()
        &&& self.shape_ok()
        &&& self.particles_ok()
        &&& self.in_range(s.0, s.1)
        &&& self.in_range(t.0, t.1)
        &&& t == self.nbr(s.0, s.1, m)
        &&& s == self.nbr(t.0, t.1, m.opp())
        &&& self.cell(s.0, s.1) is None
        &&& self.cell(t.0, t.1) is Some
    }

    /// One refresh step around the old site `s`: clear bit `opp(d)` of its
    /// neighbor in direction `d = from_idx(i)`, unless `d` is the hop direction.
    proof fn lemma_clear_step(before: Self, after: Self, s: (int, int), t: (int, int), m: Direction, i: int)
        requires
            0 <= i < 4,
            before.hop_frame(s, t, m),
            after.grid@ == before.grid@,
            after.system_size == before.system_size,
            after.number_particles == before.number_particles,
            before.move_progress(s, t, i, 0),
            Direction::from_idx(i) != m ==> before.cache_updated(
                after,
                before.nbr(s.0, s.1, Direction::from_idx(i)),
                Direction::from_idx(i).opp().idx(),
                false,
            ),
            Direction::from_idx(i) == m ==> after.neighbor_occupancy_index@ == before.neighbor_occupancy_index@,
        ensures
            after.hop_frame(s, t, m),
            after.move_progress(s, t, i + 1, 0),
            forall|p: usize| !before.placed(p) && p < before.neighbor_occupancy_index@.len()
                ==> #[trigger] after.neighbor_occupancy_index@[p as int] == before.neighbor_occupancy_index@[p as int],
    {
        let d = Direction::from_idx(i);
        let q = before.nbr(s.0, s.1, d);
        Self::lemma_same_grid(&before, &after);
        lemma_neighbor_inverse(before.system_size, s.0, s.1, d);
        lemma_direction_basics(d);
        assert forall|a: int, b: int| #[trigger] after.in_range(a, b) && after.cell(a, b) is Some implies after.neighbor_occupancy_index@[after.cell(a, b)->0 as int] < 16 by {
            assert(before.in_range(a, b));
            if d != m && (a, b) != q {
                assert(after.cell(a, b) != after.cell(q.0, q.1));
            }
        }
        assert forall|a: int, b: int, dd: Direction| #[trigger] after.in_range(a, b) implies #[trigger] after.bit_ok(a, b, dd)
            || after.stale_after_move(a, b, dd, s, t, i + 1, 0) by {
            assert(before.in_range(a, b));
            if after.cell(a, b) is Some {
                assert(before.bit_ok(a, b, dd) || before.stale_after_move(a, b, dd, s, t, i, 0));
                lemma_neighbor_inverse(before.system_size, a, b, dd);
                lemma_direction_basics(dd);
                if d != m && (a, b) != q {
                    assert(after.cell(a, b) != after.cell(q.0, q.1));
                }
            }
        }
        assert forall|p: usize| !before.placed(p) && p < before.neighbor_occupancy_index@.len()
            implies #[trigger] after.neighbor_occupancy_index@[p as int] == before.neighbor_occupancy_index@[p as int] by {
            if d != m && before.cell(q.0, q.1) == Some(p) {
                assert(before.placed(p));
            }
        }
    }

    /// One refresh step around the new site `t`: set bit `opp(d)` of its
    /// neighbor in direction `d = from_idx(i)`, unless that neighbor is `s`.
    proof fn lemma_set_step(before: Self, after: Self, s: (int, int), t: (int, int), m: Direction, i: int)
        requires
            0 <= i < 4,
            before.hop_frame(s, t, m),
            after.grid@ == before.grid@,
            after.system_size == before.system_size,
            after.number_particles == before.number_particles,
            before.move_progress(s, t, 4, i),
            Direction::from_idx(i) != m.opp() ==> before.cache_updated(
                after,
                before.nbr(t.0, t.1, Direction::from_idx(i)),
                Direction::from_idx(i).opp().idx(),
                true,
            ),
            Direction::from_idx(i) == m.opp() ==> after.neighbor_occupancy_index@ == before.neighbor_occupancy_index@,
        ensures
            after.hop_frame(s, t, m),
            after.move_progress(s, t, 4, i + 1),
            forall|p: usize| !before.placed(p) && p < before.neighbor_occupancy_index@.len()
                ==> #[trigger] after.neighbor_occupancy_index@[p as int] == before.neighbor_occupancy_index@[p as int],
    {
        let d = Direction::from_idx(i);
        let q = before.nbr(t.0, t.1, d);
        Self::lemma_same_grid(&before, &after);
        lemma_neighbor_inverse(before.system_size, t.0, t.1, d);
        lemma_direction_basics(d);
        lemma_direction_basics(m);
        assert forall|a: int, b: int| #[trigger] after.in_range(a, b) && after.cell(a, b) is Some implies after.neighbor_occupancy_index@[after.cell(a, b)->0 as int] < 16 by {
            assert(before.in_range(a, b));
            if d != m.opp() && (a, b) != q {
                assert(after.cell(a, b) != after.cell(q.0, q.1));
            }
        }
        assert forall|a: int, b: int, dd: Direction| #[trigger] after.in_range(a, b) implies #[trigger] after.bit_ok(a, b, dd)
            || after.stale_after_move(a, b, dd, s, t, 4, i + 1) by {
            assert(before.in_range(a, b));
            if after.cell(a, b) is Some {
                assert(before.bit_ok(a, b, dd) || before.stale_after_move(a, b, dd, s, t, 4, i));
                lemma_neighbor_inverse(before.system_size, a, b, dd);
                lemma_direction_basics(dd);
                if d != m.opp() && (a, b) != q {
                    assert(after.cell(a, b) != after.cell(q.0, q.1));
                }
            }
        }
        assert forall|p: usize| !before.placed(p) && p < before.neighbor_occupancy_index@.len()
            implies #[trigger] after.neighbor_occupancy_index@[p as int] == before.neighbor_occupancy_index@[p as int] by {
            if d != m.opp() && before.cell(q.0, q.1) == Some(p) {
                assert(before.placed(p));
            }
        }
    }

    /// The grid after the hop is well numbered and holds the same particles.
    proof fn lemma_grid_after_move(g0: Self, g1: Self, x: int, y: int, m: Direction)
        requires
            g0.wf(),
            g0.in_range(x, y),
            g0.occupied(x, y),
            !g0.neighbor_occupied(x, y, m),
            g1.system_size == g0.system_size,
            g1.number_particles == g0.number_particles,
            g1.neighbor_occupancy_index@ == g0.neighbor_occupancy_index@,
            g1.shape_ok(),
            forall|a: int, b: int| #[trigger] g1.in_range(a, b) ==> g1.cell(a, b) == g0.cell_after_move(x, y, m, a, b),
        ensures
            g1.particles_ok(),
            g1.hop_frame((x, y), g0.nbr(x, y, m), m),
            forall|p: usize| #[trigger] g1.placed(p) == g0.placed(p),
    {
        let s = (x, y);
        let t = g0.nbr(x, y, m);
        lemma_neighbor_inverse(g0.system_size, x, y, m);
        assert(g1.in_range(t.0, t.1));
        assert(g1.in_range(s.0, s.1));
        assert(g1.cell(t.0, t.1) == g0.cell_after_move(x, y, m, t.0, t.1));
        assert(g1.cell(s.0, s.1) == g0.cell_after_move(x, y, m, s.0, s.1));
        assert forall|x1: int, y1: int, x2: int, y2: int|
            g1.in_range(x1, y1) && g1.in_range(x2, y2) && (#[trigger] g1.cell(x1, y1)) is Some
                && #[trigger] g1.cell(x2, y2) == g1.cell(x1, y1) implies x1 == x2 && y1 == y2 by {
            assert(g1.cell(x1, y1) == g0.cell_after_move(x, y, m, x1, y1));
            assert(g1.cell(x2, y2) == g0.cell_after_move(x, y, m, x2, y2));
            if (x1, y1) != t && (x1, y1) != s {
                assert(g0.cell(x1, y1) is Some);
            }
            if (x2, y2) != t && (x2, y2) != s {
                assert(g0.cell(x2, y2) is Some);
            }
        }
        assert forall|a: int, b: int| g1.in_range(a, b) && (#[trigger] g1.cell(a, b)) is Some implies g1.cell(a, b)->0
            < g1.number_particles by {
            assert(g1.cell(a, b) == g0.cell_after_move(x, y, m, a, b));
            if (a, b) != t {
                assert(g0.cell(a, b) is Some);
            }
        }
        assert forall|p: usize| #[trigger] g1.placed(p) == g0.placed(p) by {
            if g0.placed(p) {
                let (a, b) = choose|a: int, b: int| g0.in_range(a, b) && #[trigger] g0.cell(a, b) == Some(p);
                if (a, b) == s {
                    assert(g1.cell(t.0, t.1) == Some(p));
                } else {
                    assert(g1.in_range(a, b));
                    assert(g1.cell(a, b) == g0.cell_after_move(x, y, m, a, b));
                    assert(g1.cell(a, b) == Some(p));
                }
            }
            if g1.placed(p) {
                let (a, b) = choose|a: int, b: int| g1.in_range(a, b) && #[trigger] g1.cell(a, b) == Some(p);
                assert(g1.in_range(a, b));
                assert(g1.cell(a, b) == g0.cell_after_move(x, y, m, a, b));
                if (a, b) == t {
                    assert(g0.cell(s.0, s.1) == Some(p));
                } else {
                    assert(g0.cell(a, b) == Some(p));
                }
            }
        }
    }

    /// Right after the moving particle's index is recomputed, only bits that
    /// look at the old or the new site may be stale.
    proof fn lemma_progress_start(g0: Self, g2: Self, x: int, y: int, m: Direction)
        requires
            g0.wf(),
            g0.in_range(x, y),
            g0.occupied(x, y),
            g2.hop_frame((x, y), g0.nbr(x, y, m), m),
            g2.system_size == g0.system_size,
            forall|a: int, b: int| #[trigger] g2.in_range(a, b) ==> g2.cell(a, b) == g0.cell_after_move(x, y, m, a, b),
            g2.cache_ok_at(g0.nbr(x, y, m).0, g0.nbr(x, y, m).1),
            g2.neighbor_occupancy_index@.len() == g0.neighbor_occupancy_index@.len(),
            forall|i: int| 0 <= i < g0.neighbor_occupancy_index@.len() && i != g0.cell(x, y)->0
                ==> #[trigger] g2.neighbor_occupancy_index@[i] == g0.neighbor_occupancy_index@[i],
        ensures
            g2.move_progress((x, y), g0.nbr(x, y, m), 0, 0),
    {
        let s = (x, y);
        let t = g0.nbr(x, y, m);
        assert(g2.in_range(t.0, t.1));
        assert(g2.cell(t.0, t.1) == g0.cell_after_move(x, y, m, t.0, t.1));
        assert forall|a: int, b: int| #[trigger] g2.in_range(a, b) && g2.cell(a, b) is Some implies g2.neighbor_occupancy_index@[g2.cell(a, b)->0 as int] < 16 by {
            if (a, b) != t {
                assert(g2.cell(a, b) == g0.cell_after_move(x, y, m, a, b));
                assert(g0.cache_ok_at(a, b));
                assert(g2.cell(a, b) != g2.cell(t.0, t.1));
            }
        }
        assert forall|a: int, b: int, d: Direction| #[trigger] g2.in_range(a, b) implies #[trigger] g2.bit_ok(a, b, d)
            || g2.stale_after_move(a, b, d, s, t, 0, 0) by {
            if (a, b) != t && g2.cell(a, b) is Some {
                assert(g2.cell(a, b) == g0.cell_after_move(x, y, m, a, b));
                assert(g0.cache_ok_at(a, b));
                assert(g0.bit_ok(a, b, d));
                assert(g2.cell(a, b) != g2.cell(t.0, t.1));
                lemma_neighbor_inverse(g2.system_size, a, b, d);
                let n = g2.nbr(a, b, d);
                assert(g2.in_range(n.0, n.1));
                assert(g2.cell(n.0, n.1) == g0.cell_after_move(x, y, m, n.0, n.1));
            }
        }
    }

    /// Site `(a, b)` is one of the four neighbors of `c`.
    pub open spec fn adjacent(&self, a: int, b: int, c: (int, int)) -> bool {
        ||| self.nbr(c.0, c.1, Direction::Left) == (a, b)
        ||| self.nbr(c.0, c.1, Direction::Right) == (a, b)
        ||| self.nbr(c.0, c.1, Direction::Up) == (a, b)
        ||| self.nbr(c.0, c.1, Direction::Down) == (a, b)
    }

    /// Site `(a, b)` is neither the old site `(x, y)`, nor the new site, nor
    /// a neighbor of either, for a hop from `(x, y)` in direction `m`.
    pub open spec fn away_from_hop(&self, x: int, y: int, m: Direction, a: int, b: int) -> bool {
        &&& (a, b) != (x, y)
        &&& (a, b) != self.nbr(x, y, m)
        &&& !self.adjacent(a, b, (x, y))
        &&& !self.adjacent(a, b, self.nbr(x, y, m))
    }

    /// The cached index of a particle away from a hop is the same before and
    /// after it.
    proof fn lemma_far_index_unchanged(g0: Self, g: Self, x: int, y: int, m: Direction, a: int, b: int)
        requires
            g0.wf(),
            g.wf(),
            g0.in_range(x, y),
            g.system_size == g0.system_size,
            forall|c: int, d: int| #[trigger] g.in_range(c, d) ==> g.cell(c, d) == g0.cell_after_move(x, y, m, c, d),
            g0.in_range(a, b),
            g0.cell(a, b) is Some,
            g0.away_from_hop(x, y, m, a, b),
        ensures
            g.neighbor_occupancy_index@[g0.cell(a, b)->0 as int] == g0.neighbor_occupancy_index@[g0.cell(a, b)->0 as int],
    {
        let q = g0.cell(a, b)->0;
        assert(g.in_range(a, b));
        assert(g.cell(a, b) == Some(q));
        assert(g0.cache_ok_at(a, b));
        assert(g.cache_ok_at(a, b));
        assert forall|d: Direction| g.neighbor_occupied(a, b, d) == g0.neighbor_occupied(a, b, d) by {
            lemma_neighbor_inverse(g0.system_size, a, b, d);
            lemma_direction_basics(d);
            let n = g0.nbr(a, b, d);
            assert(g.in_range(n.0, n.1));
            assert(g.cell(n.0, n.1) == g0.cell_after_move(x, y, m, n.0, n.1));
            if n == (x, y) {
                assert(g0.nbr(x, y, d.opp()) == (a, b));
                match d.opp() {
                    Direction::Left => {},
                    Direction::Right => {},
                    Direction::Up => {},
                    Direction::Down => {},
                }
            }
            if n == g0.nbr(x, y, m) {
                let t = g0.nbr(x, y, m);
                assert(g0.nbr(t.0, t.1, d.opp()) == (a, b));
                match d.opp() {
                    Direction::Left => {},
                    Direction::Right => {},
                    Direction::Up => {},
                    Direction::Down => {},
                }
            }
        }
        let v = g.neighbor_occupancy_index@[q as int];
        let w = g0.neighbor_occupancy_index@[q as int];
        assert(g.bit_ok(a, b, Direction::Left) && g0.bit_ok(a, b, Direction::Left));
        assert(g.bit_ok(a, b, Direction::Right) && g0.bit_ok(a, b, Direction::Right));
        assert(g.bit_ok(a, b, Direction::Up) && g0.bit_ok(a, b, Direction::Up));
        assert(g.bit_ok(a, b, Direction::Down) && g0.bit_ok(a, b, Direction::Down));
        lemma_bits_determine(v, w);
    }

    /// Move a particle one step in `move_dir`. The target site must be empty.
    /// Only the moving particle and the particles around its old and new
    /// site get their cached indices updated.
    pub fn move_particle(&mut self, x: usize, y: usize, move_dir: Direction)
        requires
            old(self).wf(),
            old(self).in_range(x as int, y as int),
            old(self).occupied(x as int, y as int),
            !old(self).neighbor_occupied(x as int, y as int, move_dir),
        ensures
            final(self).wf(),
            final(self).system_size == old(self).system_size,
            final(self).number_particles == old(self).number_particles,
            forall|a: int, b: int| #[trigger] final(self).in_range(a, b) ==> final(self).cell(a, b)
                == old(self).cell_after_move(x as int, y as int, move_dir, a, b),
            forall|p: usize| #[trigger] final(self).placed(p) == old(self).placed(p),
            forall|p: int| 0 <= p < old(self).number_particles && !old(self).placed(p as usize)
                ==> #[trigger] final(self).neighbor_occupancy_index@[p] == old(self).neighbor_occupancy_index@[p],
            forall|a: int, b: int|
                #[trigger] old(self).in_range(a, b) && old(self).cell(a, b) is Some && old(self).away_from_hop(
                    x as int,
                    y as int,
                    move_dir,
                    a,
                    b,
                ) ==> final(self).neighbor_occupancy_index@[old(self).cell(a, b)->0 as int]
                    == old(self).neighbor_occupancy_index@[old(self).cell(a, b)->0 as int],
    {
        let ghost g0 = *self;
        let ghost s = (x as int, y as int);
        let particle_idx = self.grid[x][y].unwrap();
        let (new_x, new_y) = self.neighbor_coords(x, y, move_dir);
        let ghost t = (new_x as int, new_y as int);
        proof {
            lemma_neighbor_inverse(self.system_size, x as int, y as int, move_dir);
        }

        // 1. Update grid
        self.grid[x].set(y, None);
        self.grid[new_x].set(new_y, Some(particle_idx));
        let ghost g1 = *self;
        proof {
            assert forall|a: int, b: int| #[trigger] self.in_range(a, b) implies self.cell(a, b)
                == g0.cell_after_move(x as int, y as int, move_dir, a, b) by {}
            Self::lemma_grid_after_move(g0, g1, x as int, y as int, move_dir);
        }

        // 2. Recompute the moving particle's neighbor flags
        self.recalculate_neighbor_cache(new_x, new_y);
        proof {
            Self::lemma_same_grid(&g1, self);
            Self::lemma_progress_start(g0, *self, x as int, y as int, move_dir);
            assert forall|p: int| 0 <= p < g0.number_particles && !g0.placed(p as usize)
                implies #[trigger] self.neighbor_occupancy_index@[p] == g0.neighbor_occupancy_index@[p] by {
                if p == particle_idx {
                    assert(g0.cell(x as int, y as int) == Some(p as usize));
                }
            }
        }

        // 3. Former neighbors of the old site lose a neighbor
        for i in 0..4
            invariant
                self.grid@ == g1.grid@,
                self.system_size == g0.system_size,
                self.number_particles == g0.number_particles,
                s == (x as int, y as int),
                t == (new_x as int, new_y as int),
                self.hop_frame(s, t, move_dir),
                self.move_progress(s, t, i as int, 0),
                forall|p: usize| #[trigger] g1.placed(p) == g0.placed(p),
                g1.system_size == g0.system_size,
                g1.number_particles == g0.number_particles,
                g1.neighbor_occupancy_index@.len() == self.neighbor_occupancy_index@.len(),
                forall|p: int| 0 <= p < g0.number_particles && !g0.placed(p as usize)
                    ==> #[trigger] self.neighbor_occupancy_index@[p] == g0.neighbor_occupancy_index@[p],
        {
            let d = Direction::from_index(i);
            let ghost before = *self;
            if d != move_dir {
                let (neigh_old_x, neigh_old_y) = self.neighbor_coords(x, y, d);
                self.update_neighbor_cache(neigh_old_x, neigh_old_y, d.opposite(), false);
            }
            proof {
                Self::lemma_clear_step(before, *self, s, t, move_dir, i as int);
                Self::lemma_same_grid(&g1, &before);
                assert forall|p: int| 0 <= p < g0.number_particles && !g0.placed(p as usize)
                    implies #[trigger] self.neighbor_occupancy_index@[p] == g0.neighbor_occupancy_index@[p] by {
                    assert(g1.placed(p as usize) == g0.placed(p as usize));
                    assert(!before.placed(p as usize));
                    assert(self.neighbor_occupancy_index@[(p as usize) as int] == before.neighbor_occupancy_index@[(p as usize) as int]);
                }
            }
        }

        // 4. New neighbors of the target site gain a neighbor
        for i in 0..4
            invariant
                self.grid@ == g1.grid@,
                self.system_size == g0.system_size,
                self.number_particles == g0.number_particles,
                s == (x as int, y as int),
                t == (new_x as int, new_y as int),
                self.hop_frame(s, t, move_dir),
                self.move_progress(s, t, 4, i as int),
                forall|p: usize| #[trigger] g1.placed(p) == g0.placed(p),
                g1.system_size == g0.system_size,
                g1.number_particles == g0.number_particles,
                g1.neighbor_occupancy_index@.len() == self.neighbor_occupancy_index@.len(),
                forall|p: int| 0 <= p < g0.number_particles && !g0.placed(p as usize)
                    ==> #[trigger] self.neighbor_occupancy_index@[p] == g0.neighbor_occupancy_index@[p],
        {
            let d = Direction::from_index(i);
            let ghost before = *self;
            if d != move_dir.opposite() {
                let (neigh_new_x, neigh_new_y) = self.neighbor_coords(new_x, new_y, d);
                self.update_neighbor_cache(neigh_new_x, neigh_new_y, d.opposite(), true);
            }
            proof {
                Self::lemma_set_step(before, *self, s, t, move_dir, i as int);
                Self::lemma_same_grid(&g1, &before);
                assert forall|p: int| 0 <= p < g0.number_particles && !g0.placed(p as usize)
                    implies #[trigger] self.neighbor_occupancy_index@[p] == g0.neighbor_occupancy_index@[p] by {
                    assert(g1.placed(p as usize) == g0.placed(p as usize));
                    assert(!before.placed(p as usize));
                    assert(self.neighbor_occupancy_index@[(p as usize) as int] == before.neighbor_occupancy_index@[(p as usize) as int]);
                }
            }
        }
        proof {
            Self::lemma_same_grid(&g1, self);
            assert forall|p: usize| #[trigger] self.placed(p) == g0.placed(p) by {
                assert(g1.placed(p) == g0.placed(p));
            }
            assert forall|a: int, b: int| self.in_range(a, b) implies #[trigger] self.cache_ok_at(a, b) by {
                assert forall|dd: Direction| #[trigger] self.bit_ok(a, b, dd) by {
                    lemma_direction_basics(dd);
                    assert(self.bit_ok(a, b, dd) || self.stale_after_move(a, b, dd, s, t, 4, 4));
                }
            }
            assert(self.wf());
            assert forall|a: int, b: int|
                #[trigger] g0.in_range(a, b) && g0.cell(a, b) is Some && g0.away_from_hop(
                    x as int,
                    y as int,
                    move_dir,
                    a,
                    b,
                ) implies self.neighbor_occupancy_index@[g0.cell(a, b)->0 as int]
                    == g0.neighbor_occupancy_index@[g0.cell(a, b)->0 as int] by {
                assert forall|c: int, d: int| #[trigger] self.in_range(c, d) implies self.cell(c, d)
                    == g0.cell_after_move(x as int, y as int, move_dir, c, d) by {
                    assert(g1.in_range(c, d));
                }
                Self::lemma_far_index_unchanged(g0, *self, x as int, y as int, move_dir, a, b);
            }
        }
    }

    /// The grid has at least `l_x` rows of at least `l_y` sites.
    pub open spec fn covers(&self) -> bool {
        &&& self.grid@.len() >= self.system_size.l_x
        &&& forall|x: int| 0 <= x < self.system_size.l_x ==> #[trigger] self.grid@[x]@.len() >= self.system_size.l_y
    }

    /// Site `(a, b)` comes before `(x, y)` in row-major scan order.
    pub open spec fn scan_before(a: int, b: int, x: int, y: int) -> bool {
        a < x || (a == x && b < y)
    }

    // ------------------------------------------------------------------ //
    //  Queries
    // ------------------------------------------------------------------ //

    /// 4-bit Hamiltonian index for a particle (bit `d` set iff the neighbor
    /// in direction `d` is occupied; matches the Hamiltonian table order).
    pub fn hamiltonian_index(&self, particle_idx: usize) -> (r: usize)
        requires
            particle_idx < self.neighbor_occupancy_index@.len(),
        ensures
            r == self.neighbor_occupancy_index@[particle_idx as int],
            self.wf() ==> forall|a: int, b: int|
                #[trigger] self.in_range(a, b) && self.cell(a, b) == Some(particle_idx) ==> r < 16 && forall|d: Direction|
                    bit(r, #[trigger] d.idx()) == self.neighbor_occupied(a, b, d),
    {
        proof {
            if self.wf() {
                assert forall|a: int, b: int| #[trigger] self.in_range(a, b) && self.cell(a, b) == Some(particle_idx) implies
                    self.neighbor_occupancy_index@[particle_idx as int] < 16 && forall|d: Direction|
                    bit(self.neighbor_occupancy_index@[particle_idx as int], #[trigger] d.idx()) == self.neighbor_occupied(a, b, d) by {
                    assert(self.cache_ok_at(a, b));
                    assert forall|d: Direction| bit(self.neighbor_occupancy_index@[particle_idx as int], #[trigger] d.idx())
                        == self.neighbor_occupied(a, b, d) by {
                        assert(self.bit_ok(a, b, d));
                    }
                }
            }
        }
        self.neighbor_occupancy_index[particle_idx]
    }

    /// All Hamiltonian indices, one per particle index.
    pub fn hamiltonian_indices(&self) -> (r: Vec<usize>)
        ensures
            r@ == self.neighbor_occupancy_index@,
    {
        let mut r: Vec<usize> = Vec::new();
        let n = self.neighbor_occupancy_index.len();
        for i in 0..n
            invariant
                n == self.neighbor_occupancy_index@.len(),
                r@ == self.neighbor_occupancy_index@.take(i as int),
        {
            r.push(self.neighbor_occupancy_index[i]);
            proof {
                assert(self.neighbor_occupancy_index@.take(i as int + 1) =~= self.neighbor_occupancy_index@.take(
                    i as int,
                ).push(self.neighbor_occupancy_index@[i as int]));
            }
        }
        proof {
            assert(self.neighbor_occupancy_index@.take(self.neighbor_occupancy_index@.len() as int)
                =~= self.neighbor_occupancy_index@);
        }
        r
    }

    /// Jump mask for a particle: `true` where the neighbor in that direction
    /// is empty.
    pub fn jump_mask(&self, particle_idx: usize) -> (r: [bool; 4])
        requires
            particle_idx < self.neighbor_occupancy_index@.len(),
        ensures
            forall|k: int| 0 <= k < 4 ==> r[k] == !bit(self.neighbor_occupancy_index@[particle_idx as int], k as usize),
            self.wf() ==> forall|a: int, b: int, d: Direction|
                #[trigger] self.in_range(a, b) && self.cell(a, b) == Some(particle_idx) ==> r[#[trigger] d.idx() as int]
                    == !self.neighbor_occupied(a, b, d),
    {
        let r = neighbor_emptiness(self.neighbor_occupancy_index[particle_idx]);
        proof {
            if self.wf() {
                assert forall|a: int, b: int, d: Direction|
                    #[trigger] self.in_range(a, b) && self.cell(a, b) == Some(particle_idx) implies r[#[trigger] d.idx() as int]
                        == !self.neighbor_occupied(a, b, d) by {
                    assert(self.cache_ok_at(a, b));
                    assert(self.bit_ok(a, b, d));
                }
            }
        }
        r
    }

    /// All jump masks, one per particle.
    pub fn jump_masks(&self) -> (r: Vec<[bool; 4]>)
        requires
            self.number_particles <= self.neighbor_occupancy_index@.len(),
        ensures
            r@.len() == self.number_particles,
            forall|n: int, k: int|
                0 <= n < self.number_particles && 0 <= k < 4 ==> #[trigger] r@[n][k] == !bit(
                    self.neighbor_occupancy_index@[n],
                    k as usize,
                ),
    {
        let mut r: Vec<[bool; 4]> = Vec::new();
        for n in 0..self.number_particles
            invariant
                self.number_particles <= self.neighbor_occupancy_index@.len(),
                r@.len() == n,
                forall|m: int, k: int|
                    0 <= m < n && 0 <= k < 4 ==> #[trigger] r@[m][k] == !bit(self.neighbor_occupancy_index@[m], k as usize),
        {
            let mask = self.jump_mask(n);
            r.push(mask);
        }
        r
    }

    /// Position `(x, y)` of the particle with the given index (the first in
    /// row-major scan order), or `None` if no site stores this index.
    pub fn position_of_particle(&self, particle_idx: usize) -> (r: Option<(usize, usize)>)
        requires
            self.covers(),
        ensures
            match r {
                Some((x, y)) => {
                    &&& self.in_range(x as int, y as int)
                    &&& self.cell(x as int, y as int) == Some(particle_idx)
                    &&& forall|a: int, b: int|
                        #[trigger] self.in_range(a, b) && Self::scan_before(a, b, x as int, y as int) ==> self.cell(a, b)
                            != Some(particle_idx)
                },
                None => forall|a: int, b: int| #[trigger] self.in_range(a, b) ==> self.cell(a, b) != Some(particle_idx),
            },
            r is None <==> !self.placed(particle_idx),
    {
        for x in 0..self.system_size.l_x
            invariant
                self.covers(),
                forall|a: int, b: int| #[trigger] self.in_range(a, b) && a < x ==> self.cell(a, b) != Some(particle_idx),
        {
            for y in 0..self.system_size.l_y
                invariant
                    self.covers(),
                    x < self.system_size.l_x,
                    forall|a: int, b: int|
                        #[trigger] self.in_range(a, b) && Self::scan_before(a, b, x as int, y as int) ==> self.cell(a, b)
                            != Some(particle_idx),
            {
                if self.grid[x][y] == Some(particle_idx) {
                    proof {
                        assert(self.placed(particle_idx)) by {
                            assert(self.in_range(x as int, y as int));
                            assert(self.cell(x as int, y as int) == Some(particle_idx));
                        }
                    }
                    return Some((x, y));
                }
            }
        }
        None
    }

    // ------------------------------------------------------------------ //
    //  Geometry helpers
    // ------------------------------------------------------------------ //

    /// Neighbor coordinates with periodic boundary conditions.
    pub fn neighbor_coords(&self, x: usize, y: usize, dir: Direction) -> (r: (usize, usize))
        requires
            neighbor_defined(self.system_size, x, y, dir),
        ensures
            (r.0 as int, r.1 as int) == neighbor_formula(self.system_size, x as int, y as int, dir),
            self.in_range(x as int, y as int) ==> (r.0 as int, r.1 as int) == self.nbr(x as int, y as int, dir),
    {
        proof {
            if self.in_range(x as int, y as int) {
                lemma_neighbor_formula(self.system_size, x as int, y as int, dir);
            }
        }
        match dir {
            Direction::Left => ((x + self.system_size.l_x - 1) % self.system_size.l_x, y),
            Direction::Right => ((x + 1) % self.system_size.l_x, y),
            Direction::Up => (x, (y + 1) % self.system_size.l_y),
            Direction::Down => (x, (y + self.system_size.l_y - 1) % self.system_size.l_y),
        }
    }

    /// Occupation of every stored site, with the grid's shape.
    pub fn occupation_grid(&self) -> (r: Vec<Vec<Occupation>>)
        ensures
            r@.len() == self.grid@.len(),
            forall|x: int| 0 <= x < r@.len() ==> #[trigger] r@[x]@.len() == self.grid@[x]@.len(),
            forall|x: int, y: int|
                0 <= x < r@.len() && 0 <= y < r@[x]@.len() ==> (#[trigger] r@[x]@[y] == Occupation::Occupied) == (
                self.grid@[x]@[y] is Some),
    {
        let mut r: Vec<Vec<Occupation>> = Vec::new();
        let rows = self.grid.len();
        for x in 0..rows
            invariant
                rows == self.grid@.len(),
                r@.len() == x,
                forall|a: int| 0 <= a < x ==> #[trigger] r@[a]@.len() == self.grid@[a]@.len(),
                forall|a: int, b: int|
                    0 <= a < x && 0 <= b < r@[a]@.len() ==> (#[trigger] r@[a]@[b] == Occupation::Occupied) == (
                    self.grid@[a]@[b] is Some),
        {
            let mut row: Vec<Occupation> = Vec::new();
            let row_len = self.grid[x].len();
            for y in 0..row_len
                invariant
                    x < self.grid@.len(),
                    row_len == self.grid@[x as int]@.len(),
                    row@.len() == y,
                    forall|b: int| 0 <= b < y ==> (#[trigger] row@[b] == Occupation::Occupied) == (self.grid@[x as int]@[b] is Some),
            {
                if self.grid[x][y].is_some() {
                    row.push(Occupation::Occupied);
                } else {
                    row.push(Occupation::Empty);
                }
            }
            r.push(row);
        }
        r
    }

    /// Total number of lattice sites.
    pub fn num_sites(&self) -> (r: usize)
        requires
            self.system_size.l_x * self.system_size.l_y <= usize::MAX,
        ensures
            r == self.system_size.sites(),
    {
        self.system_size.num_sites()
    }
}

} // verus!
