use vstd::prelude::*;

use crate::numerics::LatticeState;
use crate::text::{decimal, pad_left, push_decimal, push_padded_decimal, push_str};

verus! {

/// Field width of a number in the picture.
pub const CELL_WIDTH: usize = 3;

/// A site in the picture: a space and the particle index right-aligned in
/// `CELL_WIDTH` characters, or `   .` when empty.
pub open spec fn site_picture(c: Option<usize>) -> Seq<char> {
    match c {
        Some(p) => " "@ + pad_left(decimal(p as nat), CELL_WIDTH as nat),
        None => "   ."@,
    }
}

/// The sites `x = 0 .. n` of row `y`, left to right.
pub open spec fn row_sites(grid: Seq<Vec<Option<usize>>>, y: int, n: int) -> Seq<char>
    decreases n,
{
    if n <= 0 {
        Seq::empty()
    } else {
        row_sites(grid, y, n - 1) + site_picture(grid[n - 1]@[y])
    }
}

/// The line of row `y`: its label, a bar, its `lx` sites and a line break.
pub open spec fn row_line(grid: Seq<Vec<Option<usize>>>, lx: int, y: int) -> Seq<char> {
    "  y="@ + pad_left(decimal(y as nat), CELL_WIDTH as nat) + " |"@ + row_sites(grid, y, lx) + "\n"@
}

/// The lines of the top `k` rows of a lattice with `ly` rows, from the top
/// row (`y = ly - 1`) down.
pub open spec fn top_rows(grid: Seq<Vec<Option<usize>>>, lx: int, ly: int, k: int) -> Seq<char>
    decreases k,
{
    if k <= 0 {
        Seq::empty()
    } else {
        top_rows(grid, lx, ly, k - 1) + row_line(grid, lx, ly - k)
    }
}

/// `n` copies of the axis segment `----`.
pub open spec fn axis_line(n: int) -> Seq<char>
    decreases n,
{
    if n <= 0 {
        Seq::empty()
    } else {
        axis_line(n - 1) + "----"@
    }
}

/// The column labels `0 .. n`, each after a space and right-aligned in
/// `CELL_WIDTH` characters.
pub open spec fn column_labels(n: int) -> Seq<char>
    decreases n,
{
    if n <= 0 {
        Seq::empty()
    } else {
        column_labels(n - 1) + " "@ + pad_left(decimal((n - 1) as nat), CELL_WIDTH as nat)
    }
}

/// The text picture of a lattice: a header with the extents, then one line
/// per row with `y` growing upwards, then the `x` axis with its labels.
pub open spec fn lattice_picture(s: LatticeState) -> Seq<char> {
    let lx = s.system_size.l_x as int;
    let ly = s.system_size.l_y as int;
    "LatticeState: Lx="@ + decimal(lx as nat) + ", Ly="@ + decimal(ly as nat) + "\n"@
        + "Grid ('.' = empty, number = particle index):\n"@ + top_rows(s.grid@, lx, ly, ly)
        + "         +"@ + axis_line(lx) + "\n"@ + "          "@ + column_labels(lx)
}

/// Appending one more element to a sequence built by `Seq::new` appends
/// its text to the flattened sequence.
proof fn lemma_flatten_new_push(n: nat, f: spec_fn(int) -> Seq<char>)
    ensures
        Seq::new(n + 1, f).flatten() == Seq::new(n, f).flatten() + f(n as int),
{
    let s = Seq::new(n + 1, f);
    s.lemma_flatten_and_flatten_alt_are_equivalent();
    assert(s.drop_last() =~= Seq::new(n, f));
    Seq::new(n, f).lemma_flatten_and_flatten_alt_are_equivalent();
    assert(s.flatten_alt() == s.drop_last().flatten_alt() + s.last());
}

proof fn lemma_flatten_new_empty(f: spec_fn(int) -> Seq<char>)
    ensures
        Seq::new(0, f).flatten() == Seq::<char>::empty(),
{
    assert(Seq::new(0, f).len() == 0);
}

proof fn lemma_row_sites(grid: Seq<Vec<Option<usize>>>, y: int, n: nat)
    ensures
        row_sites(grid, y, n as int) == Seq::new(n, |x: int| site_picture(grid[x]@[y])).flatten(),
    decreases n,
{
    let f = |x: int| site_picture(grid[x]@[y]);
    if n == 0 {
        lemma_flatten_new_empty(f);
    } else {
        lemma_row_sites(grid, y, (n - 1) as nat);
        lemma_flatten_new_push((n - 1) as nat, f);
    }
}

proof fn lemma_top_rows(grid: Seq<Vec<Option<usize>>>, lx: int, ly: int, k: nat)
    ensures
        top_rows(grid, lx, ly, k as int) == Seq::new(k, |j: int| row_line(grid, lx, ly - 1 - j)).flatten(),
    decreases k,
{
    let f = |j: int| row_line(grid, lx, ly - 1 - j);
    if k == 0 {
        lemma_flatten_new_empty(f);
    } else {
        lemma_top_rows(grid, lx, ly, (k - 1) as nat);
        lemma_flatten_new_push((k - 1) as nat, f);
    }
}

proof fn lemma_axis_line(n: nat)
    ensures
        axis_line(n as int) == Seq::new(n, |x: int| "----"@).flatten(),
    decreases n,
{
    let f = |x: int| "----"@;
    if n == 0 {
        lemma_flatten_new_empty(f);
    } else {
        lemma_axis_line((n - 1) as nat);
        lemma_flatten_new_push((n - 1) as nat, f);
    }
}

proof fn lemma_column_labels(n: nat)
    ensures
        column_labels(n as int) == Seq::new(n, |x: int| " "@ + pad_left(decimal(x as nat), CELL_WIDTH as nat)).flatten(),
    decreases n,
{
    let f = |x: int| " "@ + pad_left(decimal(x as nat), CELL_WIDTH as nat);
    if n == 0 {
        lemma_flatten_new_empty(f);
    } else {
        lemma_column_labels((n - 1) as nat);
        lemma_flatten_new_push((n - 1) as nat, f);
    }
}

/// The picture line by line: after the two header lines, the `k`-th grid
/// line (counting from 0) shows row `y = l_y - 1 - k`, so the rows appear
/// from the top down, each with its label and then its sites for
/// `x = 0 .. l_x` from left to right; then the axis and its labels
/// `0 .. l_x`.
pub proof fn lemma_picture_lines(s: LatticeState)
    ensures
        lattice_picture(s) == "LatticeState: Lx="@ + decimal(s.system_size.l_x as nat) + ", Ly="@ + decimal(
            s.system_size.l_y as nat,
        ) + "\n"@ + "Grid ('.' = empty, number = particle index):\n"@ + Seq::new(
            s.system_size.l_y as nat,
            |k: int|
                "  y="@ + pad_left(decimal((s.system_size.l_y - 1 - k) as nat), CELL_WIDTH as nat) + " |"@ + Seq::new(
                    s.system_size.l_x as nat,
                    |x: int| site_picture(s.grid@[x]@[s.system_size.l_y - 1 - k]),
                ).flatten() + "\n"@,
        ).flatten() + "         +"@ + Seq::new(s.system_size.l_x as nat, |x: int| "----"@).flatten() + "\n"@
            + "          "@ + Seq::new(
            s.system_size.l_x as nat,
            |x: int| " "@ + pad_left(decimal(x as nat), CELL_WIDTH as nat),
        ).flatten(),
{
    let lx = s.system_size.l_x as int;
    let ly = s.system_size.l_y as int;
    let grid = s.grid@;
    lemma_top_rows(grid, lx, ly, ly as nat);
    lemma_axis_line(lx as nat);
    lemma_column_labels(lx as nat);
    let rows = Seq::new(ly as nat, |j: int| row_line(grid, lx, ly - 1 - j));
    let lines = Seq::new(
        ly as nat,
        |k: int|
            "  y="@ + pad_left(decimal((ly - 1 - k) as nat), CELL_WIDTH as nat) + " |"@ + Seq::new(
                lx as nat,
                |x: int| site_picture(grid[x]@[ly - 1 - k]),
            ).flatten() + "\n"@,
    );
    assert forall|k: int| 0 <= k < ly implies #[trigger] rows[k] == lines[k] by {
        lemma_row_sites(grid, ly - 1 - k, lx as nat);
    }
    assert(rows =~= lines);
}

impl LatticeState {
    /// Text picture of the lattice, as printed on the console: `.` for an
    /// empty site and the particle index otherwise, with `y` growing upwards.
    pub fn render(&self) -> (r: Vec<char>)
        requires
            self.covers(),
        ensures
            r@ == lattice_picture(*self),
    {
        let lx = self.system_size.l_x;
        let ly = self.system_size.l_y;
        let mut out: Vec<char> = Vec::new();
        push_str(&mut out, "LatticeState: Lx=");
        push_decimal(&mut out, lx);
        push_str(&mut out, ", Ly=");
        push_decimal(&mut out, ly);
        push_str(&mut out, "\n");
        push_str(&mut out, "Grid ('.' = empty, number = particle index):\n");
        let ghost head = out@;
        for k in 0..ly
            invariant
                lx == self.system_size.l_x,
                ly == self.system_size.l_y,
                self.covers(),
                out@ == head + top_rows(self.grid@, lx as int, ly as int, k as int),
        {
            let y = ly - 1 - k;
            let ghost before = out@;
            push_str(&mut out, "  y=");
            push_padded_decimal(&mut out, y, CELL_WIDTH);
            push_str(&mut out, " |");
            let ghost bar = out@;
            for x in 0..lx
                invariant
                    lx == self.system_size.l_x,
                    ly == self.system_size.l_y,
                    self.covers(),
                    y < ly,
                    out@ == bar + row_sites(self.grid@, y as int, x as int),
            {
                match self.grid[x][y] {
                    Some(p) => {
                        push_str(&mut out, " ");
                        push_padded_decimal(&mut out, p, CELL_WIDTH);
                    },
                    None => {
                        push_str(&mut out, "   .");
                    },
                }
                proof {
                    assert(out@ =~= bar + row_sites(self.grid@, y as int, x as int + 1));
                }
            }
            push_str(&mut out, "\n");
            proof {
                assert(out@ =~= before + row_line(self.grid@, lx as int, y as int));
                assert(out@ =~= head + top_rows(self.grid@, lx as int, ly as int, k as int + 1));
            }
        }
        let ghost rows = out@;
        push_str(&mut out, "         +");
        let ghost plus = out@;
        for x in 0..lx
            invariant
                out@ == plus + axis_line(x as int),
        {
            push_str(&mut out, "----");
            proof {
                assert(out@ =~= plus + axis_line(x as int + 1));
            }
        }
        push_str(&mut out, "\n");
        push_str(&mut out, "          ");
        let ghost indent = out@;
        for x in 0..lx
            invariant
                out@ == indent + column_labels(x as int),
        {
            push_str(&mut out, " ");
            push_padded_decimal(&mut out, x, CELL_WIDTH);
            proof {
                assert(out@ =~= indent + column_labels(x as int + 1));
            }
        }
        proof {
            assert(out@ =~= lattice_picture(*self));
        }
        out
    }
}

} // verus!
