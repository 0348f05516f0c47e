use vstd::prelude::*;

use rand::rngs::StdRng;
use rand::Rng;

use crate::hilbert::{Occupation, SystemSize};
use crate::numerics::spatial::{row_count, rows_count};
use crate::numerics::{Direction, LatticeState};

verus! {

/// The seeded random number generator of the simulation.
#[verifier::external_type_specification]
#[verifier::external_body]
pub struct ExStdRng(StdRng);

/// Draws a uniformly random integer in `lo..hi` with `Rng::random_range`
/// (which panics on an empty range). Only the range of the result is stated.
#[verifier::external_body]
fn random_index_below(rng: &mut StdRng, lo: usize, hi: usize) -> (r: usize)
    requires
        lo < hi,
    ensures
        lo <= r < hi,
{
    rng.random_range(lo..hi)
}

/// Draws a uniformly random `i32` in `0..=3` with `Rng::random_range`.
/// Only the range of the result is stated.
#[verifier::external_body]
fn random_direction_code(rng: &mut StdRng) -> (r: i32)
    ensures
        0 <= r <= 3,
{
    rng.random_range(0i32..=3i32)
}

/// The occupied sites of `lattice` are exactly the first `k` sites drawn
/// from the shuffled pool.
pub open spec fn occupies_drawn_sites(lattice: LatticeState, draws: Seq<usize>, k: int) -> bool {
    forall|x: int, y: int|
        #[trigger] lattice.in_range(x, y) ==> lattice.occupied(x, y) == drawn_site(lattice.system_size, draws, k, x, y)
}

/// Direction of a drawn spin code: 0 = left, 1 = right, 2 = up, 3 = down.
pub fn direction_from_code(code: i32) -> (r: Direction)
    requires
        0 <= code <= 3,
    ensures
        r == Direction::from_idx(code as int),
{
    if code == 0 {
        Direction::Left
    } else if code == 1 {
        Direction::Right
    } else if code == 2 {
        Direction::Up
    } else {
        Direction::Down
    }
}

/// Spin codes and directions correspond one to one: code `d.idx()` gives
/// direction `d`, and distinct codes in `0..=3` give distinct directions, so
/// every direction, and only one code for it, can start a particle.
pub proof fn lemma_spin_codes_cover_directions(d: Direction, a: int, b: int)
    requires
        0 <= a <= 3,
        0 <= b <= 3,
    ensures
        Direction::from_idx(d.idx() as int) == d,
        Direction::from_idx(a) == Direction::from_idx(b) ==> a == b,
        Direction::from_idx(a).idx() == a,
{
}

/// Initial spins of the particles from their drawn codes: particle `i`
/// points in the direction of code `codes[i]`.
pub fn spins_from_codes(codes: &Vec<i32>) -> (r: Vec<Direction>)
    requires
        forall|i: int| 0 <= i < codes@.len() ==> 0 <= #[trigger] codes@[i] <= 3,
    ensures
        r@.len() == codes@.len(),
        forall|i: int| 0 <= i < codes@.len() ==> #[trigger] r@[i] == Direction::from_idx(codes@[i] as int),
{
    let mut spins: Vec<Direction> = Vec::new();
    let n = codes.len();
    for i in 0..n
        invariant
            n == codes@.len(),
            forall|j: int| 0 <= j < codes@.len() ==> 0 <= #[trigger] codes@[j] <= 3,
            spins@.len() == i,
            forall|j: int| 0 <= j < i ==> #[trigger] spins@[j] == Direction::from_idx(codes@[j] as int),
    {
        spins.push(direction_from_code(codes[i]));
    }
    spins
}

/// Site of the row-major site index `idx`.
pub open spec fn site_of(ly: int, idx: int) -> (int, int) {
    (idx / ly, idx % ly)
}

/// The site pool `0..n` after the partial Fisher-Yates swaps
/// `swap(i, draws[i])` for `i < k`.
pub open spec fn pool_after(n: nat, draws: Seq<usize>, k: int) -> Seq<usize>
    decreases k,
{
    if k <= 0 {
        Seq::new(n, |i: int| i as usize)
    } else {
        let p = pool_after(n, draws, k - 1);
        let j = draws[k - 1] as int;
        p.update(k - 1, p[j]).update(j, p[k - 1])
    }
}

/// Draws admissible for placing `k` particles on `n` sites: `draws[i]` in `i..n`.
pub open spec fn valid_draws(n: nat, draws: Seq<usize>, k: nat) -> bool {
    &&& draws.len() == k
    &&& k <= n
    &&& forall|i: int| 0 <= i < k ==> i <= #[trigger] draws[i] < n
}

/// Sequence without repeated entries, all below `n`.
pub open spec fn distinct_below(s: Seq<usize>, n: nat) -> bool {
    &&& forall|i: int| 0 <= i < s.len() ==> #[trigger] s[i] < n
    &&& forall|i: int, j: int| 0 <= i < s.len() && 0 <= j < s.len() && i != j ==> #[trigger] s[i] != #[trigger] s[j]
}

/// Site `(x, y)` is the site of one of the first `k` entries of `pool`.
pub open spec fn in_prefix(ly: int, pool: Seq<usize>, k: int, x: int, y: int) -> bool {
    exists|j: int| 0 <= j < k && site_of(ly, #[trigger] pool[j] as int) == (x, y)
}

/// Site `(x, y)` is among the first `k` entries of the shuffled pool.
pub open spec fn drawn_site(size: SystemSize, draws: Seq<usize>, k: int, x: int, y: int) -> bool {
    in_prefix(size.l_y as int, pool_after((size.l_x * size.l_y) as nat, draws, k), k, x, y)
}

proof fn lemma_site_of(lx: int, ly: int, idx: int)
    requires
        0 < ly,
        0 <= idx < lx * ly,
    ensures
        0 <= site_of(ly, idx).0 < lx,
        0 <= site_of(ly, idx).1 < ly,
        idx == site_of(ly, idx).0 * ly + site_of(ly, idx).1,
{
    vstd::arithmetic::div_mod::lemma_fundamental_div_mod(idx, ly);
    vstd::arithmetic::div_mod::lemma_mod_bound(idx, ly);
    let q = idx / ly;
    let r = idx % ly;
    assert(0 <= q) by (nonlinear_arith)
        requires
            idx == ly * q + r,
            0 <= r < ly,
            0 <= idx,
    {
    }
    assert(idx == q * ly + r) by (nonlinear_arith)
        requires
            idx == ly * q + r,
    {
    }
    assert(q < lx) by (nonlinear_arith)
        requires
            idx == ly * q + r,
            0 <= r < ly,
            idx < lx * ly,
    {
    }
}

proof fn lemma_site_of_injective(ly: int, i: int, j: int)
    requires
        0 < ly,
        0 <= i,
        0 <= j,
        site_of(ly, i) == site_of(ly, j),
    ensures
        i == j,
{
    vstd::arithmetic::div_mod::lemma_fundamental_div_mod(i, ly);
    vstd::arithmetic::div_mod::lemma_fundamental_div_mod(j, ly);
}

proof fn lemma_row_count_set(row: Seq<Occupation>, y: int, m: int)
    requires
        0 <= y < row.len(),
        row[y] == Occupation::Empty,
        0 <= m <= row.len(),
    ensures
        row_count(row.update(y, Occupation::Occupied), m) == row_count(row, m) + if y < m {
            1nat
        } else {
            0nat
        },
    decreases m,
{
    if m > 0 {
        lemma_row_count_set(row, y, m - 1);
    }
}

proof fn lemma_rows_count_set(occ: Seq<Vec<Occupation>>, new_occ: Seq<Vec<Occupation>>, ly: int, x: int, y: int, m: int)
    requires
        0 <= y < ly,
        0 <= x < occ.len(),
        occ.len() == new_occ.len(),
        forall|a: int| 0 <= a < occ.len() ==> #[trigger] occ[a]@.len() == ly,
        forall|a: int| 0 <= a < occ.len() && a != x ==> #[trigger] new_occ[a] == occ[a],
        new_occ[x]@ == occ[x]@.update(y, Occupation::Occupied),
        occ[x]@[y] == Occupation::Empty,
        0 <= m <= occ.len(),
    ensures
        rows_count(new_occ, ly, m) == rows_count(occ, ly, m) + if x < m {
            1nat
        } else {
            0nat
        },
    decreases m,
{
    if m > 0 {
        lemma_rows_count_set(occ, new_occ, ly, x, y, m - 1);
        if m - 1 == x {
            lemma_row_count_set(occ[x]@, y, ly);
        } else {
            assert(new_occ[m - 1] == occ[m - 1]);
        }
    }
}

proof fn lemma_rows_count_empty(occ: Seq<Vec<Occupation>>, ly: int, m: int)
    requires
        0 <= ly,
        0 <= m <= occ.len(),
        forall|a: int, b: int| 0 <= a < occ.len() && 0 <= b < ly ==> #[trigger] occ[a]@[b] == Occupation::Empty,
    ensures
        rows_count(occ, ly, m) == 0,
    decreases m,
{
    if m > 0 {
        lemma_rows_count_empty(occ, ly, m - 1);
        lemma_row_count_empty(occ[m - 1]@, ly);
    }
}

proof fn lemma_row_count_empty(row: Seq<Occupation>, y: int)
    requires
        0 <= y,
        forall|b: int| 0 <= b < y ==> #[trigger] row[b] == Occupation::Empty,
    ensures
        row_count(row, y) == 0,
    decreases y,
{
    if y > 0 {
        lemma_row_count_empty(row, y - 1);
    }
}

/// Occupation grid of a random initial state, given the swap draws: the
/// first `num_particles` entries of the partially shuffled site pool
/// `0..l_x*l_y` are occupied (site index `i` is row `i / l_y`, column
/// `i % l_y`).
pub fn occupation_from_draws(system_size: SystemSize, num_particles: usize, draws: &Vec<usize>) -> (r: Vec<Vec<Occupation>>)
    requires
        system_size.l_x * system_size.l_y <= usize::MAX,
        valid_draws((system_size.l_x * system_size.l_y) as nat, draws@, num_particles as nat),
    ensures
        r@.len() == system_size.l_x,
        forall|x: int| 0 <= x < system_size.l_x ==> #[trigger] r@[x]@.len() == system_size.l_y,
        forall|x: int, y: int|
            0 <= x < system_size.l_x && 0 <= y < system_size.l_y ==> (#[trigger] r@[x]@[y] == Occupation::Occupied)
                == drawn_site(system_size, draws@, num_particles as int, x, y),
        rows_count(r@, system_size.l_y as int, system_size.l_x as int) == num_particles,
{
    let lx = system_size.l_x;
    let ly = system_size.l_y;
    let n = lx * ly;
    let ghost nn = n as nat;
    let mut pool: Vec<usize> = Vec::new();
    for i in 0..n
        invariant
            pool@ == Seq::new(i as nat, |k: int| k as usize),
    {
        pool.push(i);
        proof {
            assert(pool@ =~= Seq::new(i as nat + 1, |k: int| k as usize));
        }
    }
    proof {
        assert(pool@ =~= pool_after(nn, draws@, 0));
    }
    for i in 0..num_particles
        invariant
            n == lx * ly,
            nn == n,
            valid_draws(nn, draws@, num_particles as nat),
            pool@ == pool_after(nn, draws@, i as int),
            pool@.len() == n,
            distinct_below(pool@, nn),
    {
        let swap_idx = draws[i];
        let a = pool[i];
        let b = pool[swap_idx];
        pool.set(i, b);
        pool.set(swap_idx, a);
        proof {
            assert(pool@ =~= pool_after(nn, draws@, i as int + 1));
        }
    }
    let mut spatial_config: Vec<Vec<Occupation>> = Vec::new();
    for x in 0..lx
        invariant
            spatial_config@.len() == x,
            forall|a: int| 0 <= a < x ==> #[trigger] spatial_config@[a]@.len() == ly,
            forall|a: int, b: int| 0 <= a < x && 0 <= b < ly ==> #[trigger] spatial_config@[a]@[b] == Occupation::Empty,
    {
        let mut row: Vec<Occupation> = Vec::new();
        for y in 0..ly
            invariant
                row@.len() == y,
                forall|b: int| 0 <= b < y ==> #[trigger] row@[b] == Occupation::Empty,
        {
            row.push(Occupation::Empty);
        }
        spatial_config.push(row);
    }
    proof {
        lemma_rows_count_empty(spatial_config@, ly as int, lx as int);
    }
    let ghost final_pool = pool@;
    for i in 0..num_particles
        invariant
            n == lx * ly,
            nn == n,
            lx == system_size.l_x,
            ly == system_size.l_y,
            pool@ == final_pool,
            final_pool == pool_after(nn, draws@, num_particles as int),
            pool@.len() == n,
            num_particles <= n,
            distinct_below(pool@, nn),
            spatial_config@.len() == lx,
            forall|a: int| 0 <= a < lx ==> #[trigger] spatial_config@[a]@.len() == ly,
            forall|a: int, b: int|
                0 <= a < lx && 0 <= b < ly ==> (#[trigger] spatial_config@[a]@[b] == Occupation::Occupied) == in_prefix(
                    ly as int,
                    final_pool,
                    i as int,
                    a,
                    b,
                ),
            rows_count(spatial_config@, ly as int, lx as int) == i,
    {
        let idx = pool[i];
        proof {
            lemma_site_of(lx as int, ly as int, idx as int);
        }
        let x = idx / ly;
        let y = idx % ly;
        let ghost before = spatial_config@;
        proof {
            if before[x as int]@[y as int] == Occupation::Occupied {
                assert(in_prefix(ly as int, final_pool, i as int, x as int, y as int));
                let j = choose|j: int| 0 <= j < i && site_of(ly as int, #[trigger] final_pool[j] as int) == (x as int, y as int);
                lemma_site_of_injective(ly as int, final_pool[j] as int, idx as int);
                assert(false);
            }
        }
        spatial_config[x].set(y, Occupation::Occupied);
        proof {
            lemma_rows_count_set(before, spatial_config@, ly as int, x as int, y as int, lx as int);
            assert forall|a: int, b: int|
                0 <= a < lx && 0 <= b < ly implies (#[trigger] spatial_config@[a]@[b] == Occupation::Occupied) == in_prefix(
                    ly as int,
                    final_pool,
                    i as int + 1,
                    a,
                    b,
                ) by {
                if a == x && b == y {
                    assert(site_of(ly as int, final_pool[i as int] as int) == (a, b));
                } else {
                    assert(spatial_config@[a]@[b] == before[a]@[b]);
                    if in_prefix(ly as int, final_pool, i as int + 1, a, b) {
                        let j = choose|j: int| 0 <= j < i + 1 && site_of(ly as int, #[trigger] final_pool[j] as int) == (a, b);
                        assert(j != i);
                        assert(in_prefix(ly as int, final_pool, i as int, a, b));
                    }
                }
            }
        }
    }
    spatial_config
}

/// A random initial state: `num_particles` distinct sites drawn by a partial
/// Fisher-Yates shuffle of the site pool, then one uniformly drawn direction
/// per particle. The draws are made in this order on `rng`.
pub fn random_initial_state(system_size: SystemSize, num_particles: usize, rng: &mut StdRng) -> (r: (
    LatticeState,
    Vec<Direction>,
))
    requires
        system_size.l_x <= isize::MAX,
        system_size.l_y <= isize::MAX,
        system_size.l_x * system_size.l_y <= usize::MAX,
        num_particles <= system_size.l_x * system_size.l_y,
    ensures
        r.0.wf(),
        r.0.system_size == system_size,
        r.0.number_particles == num_particles,
        forall|p: usize| p < num_particles ==> #[trigger] r.0.placed(p),
        exists|draws: Seq<usize>|
            #[trigger] valid_draws((system_size.l_x * system_size.l_y) as nat, draws, num_particles as nat)
                && occupies_drawn_sites(r.0, draws, num_particles as int),
        r.1@.len() == num_particles,
{
    let n = system_size.l_x * system_size.l_y;
    let mut draws: Vec<usize> = Vec::new();
    for i in 0..num_particles
        invariant
            n == system_size.l_x * system_size.l_y,
            num_particles <= n,
            draws@.len() == i,
            forall|k: int| 0 <= k < i ==> k <= #[trigger] draws@[k] < n,
    {
        let swap_idx = random_index_below(rng, i, n);
        draws.push(swap_idx);
    }
    let occupation = occupation_from_draws(system_size, num_particles, &draws);
    let mut codes: Vec<i32> = Vec::new();
    for i in 0..num_particles
        invariant
            codes@.len() == i,
            forall|j: int| 0 <= j < i ==> 0 <= #[trigger] codes@[j] <= 3,
    {
        codes.push(random_direction_code(rng));
    }
    let spins = spins_from_codes(&codes);
    let lattice = LatticeState::new(system_size, occupation.as_slice(), num_particles);
    proof {
        assert forall|x: int, y: int| #[trigger] lattice.in_range(x, y) implies lattice.occupied(x, y) == drawn_site(
            system_size,
            draws@,
            num_particles as int,
            x,
            y,
        ) by {
            assert(occupation@[x]@[y] == Occupation::Occupied <==> drawn_site(system_size, draws@, num_particles as int, x, y));
        }
        assert(valid_draws((system_size.l_x * system_size.l_y) as nat, draws@, num_particles as nat));
        assert(occupies_drawn_sites(lattice, draws@, num_particles as int));
    }
    (lattice, spins)
}

} // verus!
