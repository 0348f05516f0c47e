use vstd::prelude::*;

use crate::hilbert::{Occupation, SystemSize};
use crate::numerics::LatticeState;

verus! {

/// Row-major concatenation of the rows of an occupation grid.
pub open spec fn flatten_rows(rows: Seq<Vec<Occupation>>) -> Seq<Occupation>
    decreases rows.len(),
{
    if rows.len() == 0 {
        Seq::empty()
    } else {
        flatten_rows(rows.drop_last()) + rows.last()@
    }
}

/// Total number of entries of a sequence of rows.
pub open spec fn total_len<T>(rows: Seq<Vec<T>>) -> nat
    decreases rows.len(),
{
    if rows.len() == 0 {
        0
    } else {
        total_len(rows.drop_last()) + rows.last()@.len()
    }
}

proof fn lemma_flatten_len<T>(rows: Seq<Vec<Occupation>>, grid: Seq<Vec<T>>)
    requires
        rows.len() == grid.len(),
        forall|x: int| 0 <= x < rows.len() ==> #[trigger] rows[x]@.len() == grid[x]@.len(),
    ensures
        flatten_rows(rows).len() == total_len(grid),
    decreases rows.len(),
{
    if rows.len() > 0 {
        lemma_flatten_len(rows.drop_last(), grid.drop_last());
    }
}

/// Two-point density correlation of two site occupations.
pub open spec fn correlation_value(a: Occupation, b: Occupation) -> u8 {
    (a.value() * b.value()) as u8
}

/// Results of quantum measurements on the system: the occupation pattern
/// and the two-point correlations between all pairs of sites.
#[derive(Clone)]
pub struct MeasurementResult {
    /// Occupation pattern - 0 or 1 for each site
    pub occupation: Vec<Vec<Occupation>>,
    /// Two-point correlations between all pairs of sites
    pub correlation: Vec<Vec<u8>>,
}

impl MeasurementResult {
    /// Creates a new MeasurementResult from occupation and correlation data.
    pub fn new(occupation: Vec<Vec<Occupation>>, correlation: Vec<Vec<u8>>) -> (r: Self)
        ensures
            r.occupation@ == occupation@,
            r.correlation@ == correlation@,
    {
        MeasurementResult { occupation, correlation }
    }

    /// `self` is what `perform_measurements` reports for `lattice` measured
    /// over the first `n` sites of the row-major site order.
    pub open spec fn measures(&self, lattice: &LatticeState, n: int) -> bool {
        &&& self.occupation@.len() == lattice.grid@.len()
        &&& forall|x: int| 0 <= x < self.occupation@.len() ==> #[trigger] self.occupation@[x]@.len() == lattice.grid@[x]@.len()
        &&& forall|x: int, y: int|
            0 <= x < self.occupation@.len() && 0 <= y < self.occupation@[x]@.len() ==> (
            #[trigger] self.occupation@[x]@[y] == Occupation::Occupied) == (lattice.grid@[x]@[y] is Some)
        &&& self.correlation@.len() == n
        &&& forall|i: int| 0 <= i < n ==> #[trigger] self.correlation@[i]@.len() == n
        &&& forall|i: int, j: int|
            0 <= i < n && 0 <= j < n ==> #[trigger] self.correlation@[i]@[j] == correlation_value(
                flatten_rows(self.occupation@)[i],
                flatten_rows(self.occupation@)[j],
            )
    }
}

/// The correlation matrix is symmetric, its diagonal is the occupation, and
/// an entry is 1 exactly when both sites are occupied (0 otherwise).
pub proof fn lemma_correlation_properties(m: MeasurementResult, lattice: LatticeState, n: int, i: int, j: int)
    requires
        m.measures(&lattice, n),
        0 <= i < n,
        0 <= j < n,
    ensures
        m.correlation@[i]@[j] == m.correlation@[j]@[i],
        m.correlation@[i]@[i] == flatten_rows(m.occupation@)[i].value(),
        m.correlation@[i]@[j] == if flatten_rows(m.occupation@)[i] == Occupation::Occupied && flatten_rows(
            m.occupation@,
        )[j] == Occupation::Occupied {
            1u8
        } else {
            0u8
        },
{
}

fn occupation_u8(o: Occupation) -> (r: u8)
    ensures
        r == o.value(),
{
    match o {
        Occupation::Empty => 0,
        Occupation::Occupied => 1,
    }
}

/// Row-major concatenation of the rows of an occupation grid.
fn flatten_occupation(rows: &Vec<Vec<Occupation>>) -> (r: Vec<Occupation>)
    ensures
        r@ == flatten_rows(rows@),
{
    let mut flat: Vec<Occupation> = Vec::new();
    let nrows = rows.len();
    for x in 0..nrows
        invariant
            nrows == rows@.len(),
            flat@ == flatten_rows(rows@.take(x as int)),
    {
        let row_len = rows[x].len();
        let ghost before = flat@;
        for y in 0..row_len
            invariant
                x < rows@.len(),
                row_len == rows@[x as int]@.len(),
                flat@ == before + rows@[x as int]@.take(y as int),
        {
            flat.push(rows[x][y]);
            proof {
                assert(rows@[x as int]@.take(y as int + 1) =~= rows@[x as int]@.take(y as int).push(rows@[x as int]@[y as int]));
            }
        }
        proof {
            assert(rows@[x as int]@.take(row_len as int) =~= rows@[x as int]@);
            assert(rows@.take(x as int + 1).drop_last() =~= rows@.take(x as int));
        }
    }
    proof {
        assert(rows@.take(nrows as int) =~= rows@);
    }
    flat
}

/// Performs measurements on the spatial configuration: the occupation of
/// every site and the two-point correlations `<n_i n_j>` between the first
/// `l_x * l_y` sites (row-major) of `system_size`.
pub fn perform_measurements(spatial_configuration: &LatticeState, system_size: SystemSize) -> (r: MeasurementResult)
    requires
        system_size.l_x * system_size.l_y <= usize::MAX,
        system_size.l_x * system_size.l_y <= total_len(spatial_configuration.grid@),
    ensures
        r.measures(spatial_configuration, system_size.l_x * system_size.l_y),
{
    let n = system_size.l_x * system_size.l_y;
    let occupation = spatial_configuration.occupation_grid();
    let occupation_flat = flatten_occupation(&occupation);
    proof {
        lemma_flatten_len(occupation@, spatial_configuration.grid@);
    }
    let mut correlation: Vec<Vec<u8>> = Vec::new();
    for i in 0..n
        invariant
            n <= occupation_flat@.len(),
            correlation@.len() == i,
            forall|a: int| 0 <= a < i ==> #[trigger] correlation@[a]@.len() == n,
            forall|a: int, b: int|
                0 <= a < i && 0 <= b < n ==> #[trigger] correlation@[a]@[b] == correlation_value(occupation_flat@[a], occupation_flat@[b]),
    {
        let mut row: Vec<u8> = Vec::new();
        for j in 0..n
            invariant
                i < n,
                n <= occupation_flat@.len(),
                row@.len() == j,
                forall|b: int| 0 <= b < j ==> #[trigger] row@[b] == correlation_value(occupation_flat@[i as int], occupation_flat@[b]),
        {
            row.push(occupation_u8(occupation_flat[i]) * occupation_u8(occupation_flat[j]));
        }
        correlation.push(row);
    }
    MeasurementResult::new(occupation, correlation)
}

/// Returns the names of observable properties measured in the system.
pub fn get_observable_names() -> (r: Vec<&'static str>)
    ensures
        r@.len() == 2,
        r@[0]@ == "Occupation"@,
        r@[1]@ == "Correlation"@,
{
    vec!["Occupation", "Correlation"]
}

} // verus!
