use vstd::prelude::*;

use crate::numerics::Direction;
use crate::text::{decimal, digit_char, push_chars, push_decimal};

verus! {

/// Number of attempts at taking the output file's lock before giving up.
pub const MAX_RETRIES: u32 = 10;

/// Wait after the first failed attempt, in milliseconds.
pub const INITIAL_BACKOFF_MS: u64 = 100;

/// Upper bound on the wait between two attempts, in milliseconds.
pub const MAX_BACKOFF_MS: u64 = 10000;

/// Stored value of an empty site in the saved end configuration.
pub const EMPTY_SITE_CODE: usize = usize::MAX;

/// What to do after a failed attempt at locking the output file.
#[derive(Clone, Copy, Debug, PartialEq, Eq, Structural)]
pub enum LockRetry {
    /// Too many attempts: report the failure.
    GiveUp,
    /// Sleep for `backoff_ms` milliseconds, then try again; `retry_count`
    /// failed attempts have been made so far.
    Wait { retry_count: u32, backoff_ms: u64 },
}

/// Exponential backoff after the `n`-th failed attempt (`n >= 1`).
pub open spec fn backoff_after(n: nat) -> int {
    let b = INITIAL_BACKOFF_MS * vstd::arithmetic::power2::pow2((n - 1) as nat);
    if b < MAX_BACKOFF_MS {
        b
    } else {
        MAX_BACKOFF_MS as int
    }
}

/// The wait grows with every failed attempt until it reaches its cap, and
/// always lies between the initial and the maximal backoff.
pub proof fn lemma_backoff_bounds(n: nat, m: nat)
    requires
        1 <= n <= m,
    ensures
        INITIAL_BACKOFF_MS <= backoff_after(n) <= MAX_BACKOFF_MS,
        backoff_after(n) <= backoff_after(m),
{
    vstd::arithmetic::power2::lemma_pow2_pos((n - 1) as nat);
    if n < m {
        vstd::arithmetic::power2::lemma_pow2_strictly_increases((n - 1) as nat, (m - 1) as nat);
    }
}

/// Decision after a failed attempt at taking the lock, given the number of
/// failed attempts before it: give up once `MAX_RETRIES` attempts failed,
/// otherwise wait `min(INITIAL_BACKOFF_MS * 2^(n - 1), MAX_BACKOFF_MS)`
/// milliseconds, where `n` counts the failed attempts including this one.
pub fn after_failed_lock(retry_count: u32) -> (r: LockRetry)
    ensures
        retry_count + 1 >= MAX_RETRIES ==> r == LockRetry::GiveUp,
        retry_count + 1 < MAX_RETRIES ==> r == (LockRetry::Wait {
            retry_count: (retry_count + 1) as u32,
            backoff_ms: backoff_after((retry_count + 1) as nat) as u64,
        }),
{
    if retry_count >= MAX_RETRIES - 1 {
        return LockRetry::GiveUp;
    }
    let n = retry_count + 1;
    let mut power: u64 = 1;
    let mut k: u32 = 0;
    proof {
        vstd::arithmetic::power2::lemma2_to64();
    }
    while k < n - 1
        invariant
            n == retry_count + 1,
            n < MAX_RETRIES,
            k <= n - 1,
            power == vstd::arithmetic::power2::pow2(k as nat),
            power <= 256,
        decreases n - 1 - k,
    {
        proof {
            vstd::arithmetic::power2::lemma_pow2_unfold((k + 1) as nat);
            if k + 1 < 8 {
                vstd::arithmetic::power2::lemma_pow2_strictly_increases((k + 1) as nat, 8);
            }
            vstd::arithmetic::power2::lemma2_to64();
        }
        power = power * 2;
        k = k + 1;
    }
    let b = INITIAL_BACKOFF_MS * power;
    let backoff_ms = if b < MAX_BACKOFF_MS {
        b
    } else {
        MAX_BACKOFF_MS
    };
    LockRetry::Wait { retry_count: n, backoff_ms }
}

/// Stored form of a spatial configuration: the particle index of each
/// site, `EMPTY_SITE_CODE` for an empty site.
pub fn encode_spatial_configuration(grid: &Vec<Vec<Option<usize>>>) -> (r: Vec<Vec<usize>>)
    ensures
        r@.len() == grid@.len(),
        forall|x: int| 0 <= x < r@.len() ==> #[trigger] r@[x]@.len() == grid@[x]@.len(),
        forall|x: int, y: int|
            0 <= x < r@.len() && 0 <= y < r@[x]@.len() ==> #[trigger] r@[x]@[y] == match grid@[x]@[y] {
                Some(p) => p,
                None => EMPTY_SITE_CODE,
            },
{
    let mut r: Vec<Vec<usize>> = Vec::new();
    let rows = grid.len();
    for x in 0..rows
        invariant
            rows == grid@.len(),
            r@.len() == x,
            forall|a: int| 0 <= a < x ==> #[trigger] r@[a]@.len() == grid@[a]@.len(),
            forall|a: int, b: int|
                0 <= a < x && 0 <= b < r@[a]@.len() ==> #[trigger] r@[a]@[b] == match grid@[a]@[b] {
                    Some(p) => p,
                    None => EMPTY_SITE_CODE,
                },
    {
        let mut row: Vec<usize> = Vec::new();
        let row_len = grid[x].len();
        for y in 0..row_len
            invariant
                x < grid@.len(),
                row_len == grid@[x as int]@.len(),
                row@.len() == y,
                forall|b: int| 0 <= b < y ==> #[trigger] row@[b] == match grid@[x as int]@[b] {
                    Some(p) => p,
                    None => EMPTY_SITE_CODE,
                },
        {
            let code = match grid[x][y] {
                Some(p) => p,
                None => EMPTY_SITE_CODE,
            };
            row.push(code);
        }
        r.push(row);
    }
    r
}

/// Label of one site in a group name: its particle index then `_`, or `E_`.
pub open spec fn site_label(c: Option<usize>) -> Seq<char> {
    match c {
        Some(p) => decimal(p as nat) + seq!['_'],
        None => seq!['E', '_'],
    }
}

/// Labels of the sites of a row, concatenated.
pub open spec fn row_label(row: Seq<Option<usize>>) -> Seq<char>
    decreases row.len(),
{
    if row.len() == 0 {
        Seq::empty()
    } else {
        row_label(row.drop_last()) + site_label(row.last())
    }
}

/// Row labels joined by `|`.
pub open spec fn grid_label(grid: Seq<Vec<Option<usize>>>) -> Seq<char>
    decreases grid.len(),
{
    if grid.len() == 0 {
        Seq::empty()
    } else if grid.len() == 1 {
        row_label(grid[0]@)
    } else {
        grid_label(grid.drop_last()) + seq!['|'] + row_label(grid.last()@)
    }
}

/// Letter of a direction in a group name.
pub open spec fn direction_letter(d: Direction) -> char {
    match d {
        Direction::Left => 'L',
        Direction::Right => 'R',
        Direction::Up => 'U',
        Direction::Down => 'D',
    }
}

/// Each spin direction's letter followed by `_`.
pub open spec fn spin_label(spins: Seq<Direction>) -> Seq<char>
    decreases spins.len(),
{
    if spins.len() == 0 {
        Seq::empty()
    } else {
        spin_label(spins.drop_last()) + seq![direction_letter(spins.last()), '_']
    }
}

/// Name of the output group of an initial state:
/// `spatial:(<grid>)_spin:(<directions>)`.
pub open spec fn group_label(grid: Seq<Vec<Option<usize>>>, spins: Seq<Direction>) -> Seq<char> {
    seq!['s', 'p', 'a', 't', 'i', 'a', 'l', ':', '('] + grid_label(grid) + seq![')', '_', 's', 'p', 'i', 'n', ':', '(']
        + spin_label(spins) + seq![')']
}

/// `s` contains no `c`.
pub open spec fn free_of(s: Seq<char>, c: char) -> bool {
    forall|i: int| 0 <= i < s.len() ==> s[i] != c
}

/// Value of a decimal digit character.
pub open spec fn digit_value(c: char) -> int {
    if c == '0' {
        0
    } else if c == '1' {
        1
    } else if c == '2' {
        2
    } else if c == '3' {
        3
    } else if c == '4' {
        4
    } else if c == '5' {
        5
    } else if c == '6' {
        6
    } else if c == '7' {
        7
    } else if c == '8' {
        8
    } else {
        9
    }
}

/// Value of a string of decimal digits.
pub open spec fn digits_value(s: Seq<char>) -> int
    decreases s.len(),
{
    if s.len() == 0 {
        0
    } else {
        digits_value(s.drop_last()) * 10 + digit_value(s.last())
    }
}

/// A decimal digit character is none of the separators of a group name.
pub open spec fn is_digit_char(c: char) -> bool {
    exists|d: int| 0 <= d < 10 && digit_char(d) == c
}

proof fn lemma_digit_value(d: int)
    requires
        0 <= d < 10,
    ensures
        digit_value(digit_char(d)) == d,
{
    assert(d == 0 || d == 1 || d == 2 || d == 3 || d == 4 || d == 5 || d == 6 || d == 7 || d == 8 || d == 9);
}

proof fn lemma_decimal_shape(n: nat)
    ensures
        decimal(n).len() >= 1,
        forall|i: int| 0 <= i < decimal(n).len() ==> is_digit_char(#[trigger] decimal(n)[i]),
        digits_value(decimal(n)) == n,
    decreases n,
{
    if n < 10 {
        assert(is_digit_char(digit_char(n as int)));
        assert(decimal(n).drop_last() =~= Seq::<char>::empty());
        assert(digits_value(Seq::<char>::empty()) == 0);
        lemma_digit_value(n as int);
        assert(digits_value(decimal(n)) == digits_value(decimal(n).drop_last()) * 10 + digit_value(decimal(n).last()));
    } else {
        lemma_decimal_shape(n / 10);
        let d = (n % 10) as int;
        assert(is_digit_char(digit_char(d)));
        assert(decimal(n).drop_last() =~= decimal(n / 10));
        assert forall|i: int| 0 <= i < decimal(n).len() implies is_digit_char(#[trigger] decimal(n)[i]) by {
            if i < decimal(n / 10).len() {
                assert(decimal(n)[i] == decimal(n / 10)[i]);
            }
        }
        vstd::arithmetic::div_mod::lemma_fundamental_div_mod(n as int, 10);
        lemma_digit_value(d);
        assert(decimal(n).last() == digit_char(d));
        assert(digits_value(decimal(n)) == digits_value(decimal(n).drop_last()) * 10 + digit_value(decimal(n).last()));
        assert(digits_value(decimal(n)) == (n / 10) * 10 + d);
    }
}

proof fn lemma_digit_not_separator(c: char)
    requires
        is_digit_char(c),
    ensures
        c != '_',
        c != '|',
        c != ')',
        c != 'E',
{
}

/// A site label is its token followed by `_`; the token holds no `_`, and
/// the label holds no `|` or `)`.
proof fn lemma_site_label_shape(c: Option<usize>)
    ensures
        site_label(c).len() >= 2,
        site_label(c).last() == '_',
        free_of(site_label(c).drop_last(), '_'),
        free_of(site_label(c), '|'),
        free_of(site_label(c), ')'),
{
    if let Some(p) = c {
        lemma_decimal_shape(p as nat);
        assert(site_label(c).drop_last() =~= decimal(p as nat));
        assert forall|i: int| 0 <= i < site_label(c).len() implies site_label(c)[i] != '|' && site_label(c)[i] != ')' by {
            if i < decimal(p as nat).len() {
                lemma_digit_not_separator(decimal(p as nat)[i]);
            }
        }
        assert forall|i: int| 0 <= i < site_label(c).drop_last().len() implies site_label(c).drop_last()[i] != '_' by {
            lemma_digit_not_separator(decimal(p as nat)[i]);
        }
    }
}

proof fn lemma_site_label_injective(c1: Option<usize>, c2: Option<usize>)
    requires
        site_label(c1) == site_label(c2),
    ensures
        c1 == c2,
{
    match (c1, c2) {
        (Some(p), Some(q)) => {
            lemma_decimal_shape(p as nat);
            lemma_decimal_shape(q as nat);
            assert(site_label(c1).drop_last() =~= decimal(p as nat));
            assert(site_label(c2).drop_last() =~= decimal(q as nat));
        },
        (Some(p), None) => {
            lemma_decimal_shape(p as nat);
            lemma_digit_not_separator(decimal(p as nat)[0]);
            assert(site_label(c1)[0] == decimal(p as nat)[0]);
        },
        (None, Some(q)) => {
            lemma_decimal_shape(q as nat);
            lemma_digit_not_separator(decimal(q as nat)[0]);
            assert(site_label(c2)[0] == decimal(q as nat)[0]);
        },
        (None, None) => {},
    }
}

/// Splitting a string after its last separator is unique.
proof fn lemma_split_at_last_separator(a1: Seq<char>, b1: Seq<char>, a2: Seq<char>, b2: Seq<char>, sep: char)
    requires
        a1 + b1 == a2 + b2,
        a1.len() == 0 || a1.last() == sep,
        a2.len() == 0 || a2.last() == sep,
        free_of(b1, sep),
        free_of(b2, sep),
    ensures
        a1 == a2,
        b1 == b2,
{
    let w = a1 + b1;
    assert(w.len() == a1.len() + b1.len());
    assert(w.len() == a2.len() + b2.len());
    if a1.len() < a2.len() {
        let k = a2.len() - 1;
        assert(w[k] == (a2 + b2)[k]);
        assert((a2 + b2)[k] == a2[k]);
        assert(w[k] == b1[k - a1.len()]);
    } else if a2.len() < a1.len() {
        let k = a1.len() - 1;
        assert(w[k] == a1[k]);
        assert(w[k] == (a2 + b2)[k]);
        assert((a2 + b2)[k] == b2[k - a2.len()]);
    }
    assert(a1 =~= w.take(a1.len() as int));
    assert(a2 =~= (a2 + b2).take(a2.len() as int));
    assert(b1 =~= w.skip(a1.len() as int));
    assert(b2 =~= (a2 + b2).skip(a2.len() as int));
}

proof fn lemma_row_label_shape(row: Seq<Option<usize>>)
    ensures
        free_of(row_label(row), '|'),
        free_of(row_label(row), ')'),
        row.len() == 0 <==> row_label(row).len() == 0,
        row.len() > 0 ==> row_label(row).last() == '_',
    decreases row.len(),
{
    if row.len() > 0 {
        lemma_row_label_shape(row.drop_last());
        lemma_site_label_shape(row.last());
        let a = row_label(row.drop_last());
        let b = site_label(row.last());
        assert forall|i: int| 0 <= i < row_label(row).len() implies row_label(row)[i] != '|' && row_label(row)[i] != ')' by {
            if i < a.len() {
                assert(row_label(row)[i] == a[i]);
            } else {
                assert(row_label(row)[i] == b[i - a.len()]);
            }
        }
    }
}

proof fn lemma_row_label_injective(r1: Seq<Option<usize>>, r2: Seq<Option<usize>>)
    requires
        row_label(r1) == row_label(r2),
    ensures
        r1 == r2,
    decreases r1.len() + r2.len(),
{
    lemma_row_label_shape(r1);
    lemma_row_label_shape(r2);
    if r1.len() == 0 || r2.len() == 0 {
        assert(r1 =~= r2);
    } else {
        let a1 = row_label(r1.drop_last());
        let a2 = row_label(r2.drop_last());
        let x1 = site_label(r1.last()).drop_last();
        let x2 = site_label(r2.last()).drop_last();
        lemma_site_label_shape(r1.last());
        lemma_site_label_shape(r2.last());
        lemma_row_label_shape(r1.drop_last());
        lemma_row_label_shape(r2.drop_last());
        assert(site_label(r1.last()) =~= x1.push('_'));
        assert(site_label(r2.last()) =~= x2.push('_'));
        assert(row_label(r1).drop_last() =~= a1 + x1);
        assert(row_label(r2).drop_last() =~= a2 + x2);
        lemma_split_at_last_separator(a1, x1, a2, x2, '_');
        lemma_site_label_injective(r1.last(), r2.last());
        lemma_row_label_injective(r1.drop_last(), r2.drop_last());
        assert(r1 =~= r1.drop_last().push(r1.last()));
        assert(r2 =~= r2.drop_last().push(r2.last()));
    }
}

proof fn lemma_grid_label_shape(g: Seq<Vec<Option<usize>>>)
    ensures
        free_of(grid_label(g), ')'),
    decreases g.len(),
{
    if g.len() == 1 {
        lemma_row_label_shape(g[0]@);
    } else if g.len() > 1 {
        lemma_grid_label_shape(g.drop_last());
        lemma_row_label_shape(g.last()@);
        let a = grid_label(g.drop_last()) + seq!['|'];
        let b = row_label(g.last()@);
        assert forall|i: int| 0 <= i < grid_label(g).len() implies grid_label(g)[i] != ')' by {
            if i < a.len() - 1 {
                assert(grid_label(g)[i] == grid_label(g.drop_last())[i]);
            } else if i == a.len() - 1 {
                assert(grid_label(g)[i] == '|');
            } else {
                assert(grid_label(g)[i] == b[i - a.len()]);
            }
        }
    }
}

proof fn lemma_grid_label_injective(g1: Seq<Vec<Option<usize>>>, g2: Seq<Vec<Option<usize>>>)
    requires
        grid_label(g1) == grid_label(g2),
        g1.len() > 0,
        g2.len() > 0,
    ensures
        g1.len() == g2.len(),
        forall|i: int| 0 <= i < g1.len() ==> #[trigger] g1[i]@ == g2[i]@,
    decreases g1.len() + g2.len(),
{
    let a1 = if g1.len() == 1 {
        Seq::<char>::empty()
    } else {
        grid_label(g1.drop_last()) + seq!['|']
    };
    let a2 = if g2.len() == 1 {
        Seq::<char>::empty()
    } else {
        grid_label(g2.drop_last()) + seq!['|']
    };
    let b1 = row_label(g1.last()@);
    let b2 = row_label(g2.last()@);
    lemma_row_label_shape(g1.last()@);
    lemma_row_label_shape(g2.last()@);
    assert(grid_label(g1) =~= a1 + b1);
    assert(grid_label(g2) =~= a2 + b2);
    lemma_split_at_last_separator(a1, b1, a2, b2, '|');
    lemma_row_label_injective(g1.last()@, g2.last()@);
    if g1.len() > 1 && g2.len() > 1 {
        assert(a1.drop_last() =~= grid_label(g1.drop_last()));
        assert(a2.drop_last() =~= grid_label(g2.drop_last()));
        lemma_grid_label_injective(g1.drop_last(), g2.drop_last());
        assert forall|i: int| 0 <= i < g1.len() implies #[trigger] g1[i]@ == g2[i]@ by {
            if i < g1.len() - 1 {
                assert(g1.drop_last()[i] == g1[i]);
                assert(g2.drop_last()[i] == g2[i]);
            }
        }
    }
}

proof fn lemma_spin_label_len(s: Seq<Direction>)
    ensures
        spin_label(s).len() == 2 * s.len(),
    decreases s.len(),
{
    if s.len() > 0 {
        lemma_spin_label_len(s.drop_last());
    }
}

proof fn lemma_spin_label_injective(s1: Seq<Direction>, s2: Seq<Direction>)
    requires
        spin_label(s1) == spin_label(s2),
    ensures
        s1 == s2,
    decreases s1.len(),
{
    lemma_spin_label_len(s1);
    lemma_spin_label_len(s2);
    if s1.len() > 0 {
        let w = spin_label(s1);
        lemma_spin_label_len(s1.drop_last());
        lemma_spin_label_len(s2.drop_last());
        assert(w[w.len() - 2] == direction_letter(s1.last()));
        assert(spin_label(s2)[w.len() - 2] == direction_letter(s2.last()));
        assert(w.take(w.len() - 2) =~= spin_label(s1.drop_last()));
        assert(spin_label(s2).take(w.len() - 2) =~= spin_label(s2.drop_last()));
        lemma_spin_label_injective(s1.drop_last(), s2.drop_last());
        assert(s1 =~= s1.drop_last().push(s1.last()));
        assert(s2 =~= s2.drop_last().push(s2.last()));
    } else {
        assert(s1 =~= s2);
    }
}

/// Distinct initial states get distinct group names: a name determines the
/// grid, row by row, and the spins (for two grids that both have rows, or
/// both have none).
pub proof fn lemma_group_name_determines_state(
    g1: Seq<Vec<Option<usize>>>,
    s1: Seq<Direction>,
    g2: Seq<Vec<Option<usize>>>,
    s2: Seq<Direction>,
)
    requires
        group_label(g1, s1) == group_label(g2, s2),
        (g1.len() == 0) == (g2.len() == 0),
    ensures
        g1.len() == g2.len(),
        forall|i: int| 0 <= i < g1.len() ==> #[trigger] g1[i]@ == g2[i]@,
        s1 == s2,
{
    let p = seq!['s', 'p', 'a', 't', 'i', 'a', 'l', ':', '('];
    let m = seq![')', '_', 's', 'p', 'i', 'n', ':', '('];
    let t1 = m + spin_label(s1) + seq![')'];
    let t2 = m + spin_label(s2) + seq![')'];
    assert(group_label(g1, s1) =~= p + (grid_label(g1) + t1));
    assert(group_label(g2, s2) =~= p + (grid_label(g2) + t2));
    assert(grid_label(g1) + t1 =~= group_label(g1, s1).skip(9));
    assert(grid_label(g2) + t2 =~= group_label(g2, s2).skip(9));
    let a1 = grid_label(g1);
    let a2 = grid_label(g2);
    lemma_grid_label_shape(g1);
    lemma_grid_label_shape(g2);
    let w = a1 + t1;
    if a1.len() < a2.len() {
        assert(w[a1.len() as int] == t1[0]);
        assert((a2 + t2)[a1.len() as int] == a2[a1.len() as int]);
    } else if a2.len() < a1.len() {
        assert(w[a2.len() as int] == a1[a2.len() as int]);
        assert((a2 + t2)[a2.len() as int] == t2[0]);
    }
    assert(a1 =~= w.take(a1.len() as int));
    assert(a2 =~= (a2 + t2).take(a2.len() as int));
    assert(t1 =~= w.skip(a1.len() as int));
    assert(t2 =~= (a2 + t2).skip(a2.len() as int));
    assert(spin_label(s1) =~= t1.subrange(8, t1.len() - 1));
    assert(spin_label(s2) =~= t2.subrange(8, t2.len() - 1));
    lemma_spin_label_injective(s1, s2);
    if g1.len() > 0 {
        lemma_grid_label_injective(g1, g2);
    }
}

fn push_row_label(out: &mut Vec<char>, row: &Vec<Option<usize>>)
    ensures
        final(out)@ == old(out)@ + row_label(row@),
{
    let n = row.len();
    for y in 0..n
        invariant
            n == row@.len(),
            out@ == old(out)@ + row_label(row@.take(y as int)),
    {
        let ghost before = out@;
        match row[y] {
            Some(p) => {
                push_decimal(out, p);
                out.push('_');
            },
            None => {
                out.push('E');
                out.push('_');
            },
        }
        proof {
            assert(row@.take(y as int + 1).drop_last() =~= row@.take(y as int));
            assert(out@ =~= before + site_label(row@[y as int]));
        }
    }
    proof {
        assert(row@.take(n as int) =~= row@);
    }
}

/// Group-name label of a spatial configuration: per row, each site's
/// particle index followed by `_` (or `E_` when empty); rows joined by `|`.
pub fn spatial_name(grid: &Vec<Vec<Option<usize>>>) -> (r: Vec<char>)
    ensures
        r@ == grid_label(grid@),
{
    let mut out: Vec<char> = Vec::new();
    let rows = grid.len();
    for x in 0..rows
        invariant
            rows == grid@.len(),
            out@ == grid_label(grid@.take(x as int)),
    {
        if x > 0 {
            out.push('|');
        }
        push_row_label(&mut out, &grid[x]);
        proof {
            assert(grid@.take(x as int + 1).drop_last() =~= grid@.take(x as int));
            if x == 0 {
                assert(out@ =~= grid_label(grid@.take(1)));
            }
        }
    }
    proof {
        assert(grid@.take(rows as int) =~= grid@);
    }
    out
}

/// Group-name label of the initial spins: each direction's letter
/// (`L`, `R`, `U`, `D`) followed by `_`.
pub fn spin_name(spins: &Vec<Direction>) -> (r: Vec<char>)
    ensures
        r@ == spin_label(spins@),
{
    let mut out: Vec<char> = Vec::new();
    let n = spins.len();
    for i in 0..n
        invariant
            n == spins@.len(),
            out@ == spin_label(spins@.take(i as int)),
    {
        let letter = match spins[i] {
            Direction::Left => 'L',
            Direction::Right => 'R',
            Direction::Up => 'U',
            Direction::Down => 'D',
        };
        out.push(letter);
        out.push('_');
        proof {
            assert(spins@.take(i as int + 1).drop_last() =~= spins@.take(i as int));
            assert(out@ =~= spin_label(spins@.take(i as int + 1)));
        }
    }
    proof {
        assert(spins@.take(n as int) =~= spins@);
    }
    out
}

/// Name of the output group holding the results of one initial state:
/// `spatial:(<spatial name>)_spin:(<spin name>)`.
pub fn group_name(grid: &Vec<Vec<Option<usize>>>, spins: &Vec<Direction>) -> (r: Vec<char>)
    ensures
        r@ == group_label(grid@, spins@),
{
    let mut out: Vec<char> = vec!['s', 'p', 'a', 't', 'i', 'a', 'l', ':', '('];
    let spatial = spatial_name(grid);
    push_chars(&mut out, &spatial);
    let middle: Vec<char> = vec![')', '_', 's', 'p', 'i', 'n', ':', '('];
    push_chars(&mut out, &middle);
    let spin = spin_name(spins);
    push_chars(&mut out, &spin);
    out.push(')');
    proof {
        assert(out@ =~= group_label(grid@, spins@));
    }
    out
}

} // verus!
