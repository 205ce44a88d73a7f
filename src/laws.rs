use vstd::prelude::*;
use vstd::arithmetic::div_mod::{lemma_fundamental_div_mod_converse, lemma_fundamental_div_mod, lemma_mod_bound};
use crate::rules::{alive, in_grid_neighbors, iterate, live_neighbors, next_alive, step};

verus! {

/// The cells of an `n`-by-`n` board with every cell dead.
pub open spec fn all_dead(n: nat) -> Seq<bool> {
    Seq::new(n * n, |i: int| false)
}

/// `s` framed by one row or column of dead cells on each side: a board of side `n + 2`.
pub open spec fn framed(n: nat, s: Seq<bool>) -> Seq<bool> {
    let m = n + 2int;
    Seq::new((m * m) as nat, |i: int| alive(n as int, s, i % m - 1, i / m - 1))
}

/// A board that returns to itself after `p` generations and after no fewer.
pub open spec fn is_oscillator(n: nat, s: Seq<bool>, p: nat) -> bool {
    &&& p > 0
    &&& iterate(n, s, p) == s
    &&& forall|k: nat| 0 < k < p ==> iterate(n, s, k) != s
}

/// Row-major positions on a board of side `m` are `y * m + x`, below `m * m`.
proof fn lemma_position(m: int, x: int, y: int)
    requires
        0 <= x < m,
        0 <= y < m,
    ensures
        (y * m + x) % m == x,
        (y * m + x) / m == y,
        0 <= y * m + x < m * m,
{
    lemma_fundamental_div_mod_converse(y * m + x, m, y, x);
    assert(0 <= y * m + x < m * m) by (nonlinear_arith)
        requires
            0 <= x < m,
            0 <= y < m,
    ;
}

/// The next generation keeps the row-major layout: the cell at column `x`,
/// row `y` of the successor is the next state of `(x, y)`.
pub proof fn lemma_step_at(n: nat, s: Seq<bool>, x: int, y: int)
    requires
        0 <= x < n,
        0 <= y < n,
    ensures
        step(n, s).len() == n * n,
        step(n, s)[y * n + x] == next_alive(n as int, s, x, y),
{
    lemma_position(n as int, x, y);
}

/// The next generation of a board is a function of the board alone: equal
/// boards have equal successors.
pub proof fn lemma_step_deterministic(n: nat, s: Seq<bool>, t: Seq<bool>)
    requires
        s == t,
    ensures
        step(n, s) == step(n, t),
        step(n, s).len() == n * n,
{
}

/// The exterior is dead: every position off the board counts as a dead cell,
/// so the neighbour count of a cell is the count it would have on the same
/// board framed by dead cells.
pub proof fn lemma_exterior_dead(n: nat, s: Seq<bool>, x: int, y: int)
    requires
        s.len() == n * n,
        0 <= x < n,
        0 <= y < n,
    ensures
        forall|a: int, b: int| !(0 <= a < n && 0 <= b < n) ==> !alive(n as int, s, a, b),
        live_neighbors(n as int, s, x, y) == live_neighbors(n + 2int, framed(n, s), x + 1, y + 1),
{
    let m = n + 2int;
    let f = framed(n, s);
    assert forall|a: int, b: int| -1 <= a <= n && -1 <= b <= n implies
        alive(m, f, a + 1, b + 1) == alive(n as int, s, a, b) by {
        lemma_position(m, a + 1, b + 1);
    }
}

/// A corner cell has at most three live neighbours, a cell on an edge at
/// most five, any cell at most eight; on a board of side two or more a
/// corner has exactly three neighbours on the board, an edge cell five and an
/// inner cell eight.
pub proof fn lemma_neighbor_bounds(n: nat, s: Seq<bool>, x: int, y: int)
    requires
        s.len() == n * n,
        0 <= x < n,
        0 <= y < n,
    ensures
        live_neighbors(n as int, s, x, y) <= in_grid_neighbors(n as int, x, y),
        in_grid_neighbors(n as int, x, y) <= 8,
        (x == 0 || x == n - 1) && (y == 0 || y == n - 1) ==> live_neighbors(n as int, s, x, y) <= 3,
        (x == 0 || x == n - 1 || y == 0 || y == n - 1) ==> live_neighbors(n as int, s, x, y) <= 5,
        n >= 2 && (x == 0 || x == n - 1) && (y == 0 || y == n - 1) ==> in_grid_neighbors(n as int, x, y) == 3,
        (x == 0 || x == n - 1) != (y == 0 || y == n - 1) ==> in_grid_neighbors(n as int, x, y) == 5,
        0 < x < n - 1 && 0 < y < n - 1 ==> in_grid_neighbors(n as int, x, y) == 8,
{
}

/// Running `a + b` generations is running `b` generations from the board
/// reached after `a`.
pub proof fn lemma_iterate_add(n: nat, s: Seq<bool>, a: nat, b: nat)
    ensures
        iterate(n, s, a + b) == iterate(n, iterate(n, s, a), b),
    decreases b,
{
    if b > 0 {
        lemma_iterate_add(n, s, a, (b - 1) as nat);
        assert(iterate(n, s, a + b) == step(n, iterate(n, s, (a + b - 1) as nat)));
    }
}

/// A still life, a board that the next generation leaves as it is, stays
/// the same for any number of generations.
pub proof fn lemma_still_life(n: nat, s: Seq<bool>, k: nat)
    requires
        step(n, s) == s,
    ensures
        iterate(n, s, k) == s,
    decreases k,
{
    if k > 0 {
        lemma_still_life(n, s, (k - 1) as nat);
    }
}

/// A board that returns to itself after `p` generations does so after every
/// multiple of `p`, and repeats itself with period `p`.
pub proof fn lemma_periodic(n: nat, s: Seq<bool>, p: nat, q: nat, k: nat)
    requires
        iterate(n, s, p) == s,
    ensures
        iterate(n, s, q * p) == s,
        iterate(n, s, k + p) == iterate(n, s, k),
    decreases q,
{
    lemma_iterate_add(n, s, p, k);
    if q > 0 {
        lemma_periodic(n, s, p, (q - 1) as nat, k);
        assert(q * p == (q - 1) * p + p) by (nonlinear_arith);
        lemma_iterate_add(n, s, p, ((q - 1) * p) as nat);
    }
}

/// An oscillator of period `p` is back to its start after exactly the
/// multiples of `p` generations.
pub proof fn lemma_oscillator(n: nat, s: Seq<bool>, p: nat, k: nat)
    requires
        is_oscillator(n, s, p),
    ensures
        iterate(n, s, k) == s <==> k % p == 0,
{
    lemma_fundamental_div_mod(k as int, p as int);
    lemma_mod_bound(k as int, p as int);
    let q = k / p;
    let r = k % p;
    assert(q * p == p * q) by (nonlinear_arith);
    lemma_periodic(n, s, p, q, 0);
    lemma_iterate_add(n, s, q * p, r);
    assert(iterate(n, s, k) == iterate(n, s, r));
}

/// The all-dead board is its own next generation, and so stays dead forever.
pub proof fn lemma_empty_stays_empty(n: nat, k: nat)
    ensures
        step(n, all_dead(n)) == all_dead(n),
        iterate(n, all_dead(n), k) == all_dead(n),
{
    let d = all_dead(n);
    assert forall|a: int, b: int| 0 <= a < n && 0 <= b < n implies !alive(n as int, d, a, b) by {
        lemma_position(n as int, a, b);
    }
    assert forall|i: int| 0 <= i < n * n implies #[trigger] step(n, d)[i] == d[i] by {
        lemma_fundamental_div_mod(i, n as int);
    }
    assert(step(n, d) =~= d);
    lemma_still_life(n, d, k);
}

} // verus!
