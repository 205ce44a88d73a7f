use vstd::prelude::*;

verus! {

/// Whether the cell at column `x`, row `y` of an `n`-by-`n` board with
/// row-major cells `s` is alive. Every position outside the board is dead.
pub open spec fn alive(n: int, s: Seq<bool>, x: int, y: int) -> bool {
    0 <= x < n && 0 <= y < n && s[y * n + x]
}

/// One for true, zero for false.
pub open spec fn count(b: bool) -> nat {
    if b {
        1
    } else {
        0
    }
}

/// The number of `true` values among the first `k` of `s`.
pub open spec fn count_live(s: Seq<bool>, k: int) -> nat
    decreases k,
{
    if k <= 0 {
        0
    } else {
        count_live(s, k - 1) + count(s[k - 1])
    }
}

/// The number of live cells among the eight neighbours of `(x, y)`.
pub open spec fn live_neighbors(n: int, s: Seq<bool>, x: int, y: int) -> nat {
    count(alive(n, s, x - 1, y - 1)) + count(alive(n, s, x, y - 1)) + count(alive(n, s, x + 1, y - 1))
        + count(alive(n, s, x - 1, y)) + count(alive(n, s, x + 1, y))
        + count(alive(n, s, x - 1, y + 1)) + count(alive(n, s, x, y + 1)) + count(alive(n, s, x + 1, y + 1))
}

/// The number of the eight neighbour positions of `(x, y)` that lie on the board.
pub open spec fn in_grid_neighbors(n: int, x: int, y: int) -> nat {
    let on = |a: int, b: int| 0 <= a < n && 0 <= b < n;
    count(on(x - 1, y - 1)) + count(on(x, y - 1)) + count(on(x + 1, y - 1))
        + count(on(x - 1, y)) + count(on(x + 1, y))
        + count(on(x - 1, y + 1)) + count(on(x, y + 1)) + count(on(x + 1, y + 1))
}

/// The state of `(x, y)` in the next generation: two live neighbours keep the
/// cell as it is, three make it alive, any other number makes it dead.
pub open spec fn next_alive(n: int, s: Seq<bool>, x: int, y: int) -> bool {
    let c = live_neighbors(n, s, x, y);
    if c == 2 {
        alive(n, s, x, y)
    } else {
        c == 3
    }
}

/// The cells of the next generation, in row-major order.
pub open spec fn step(n: nat, s: Seq<bool>) -> Seq<bool> {
    Seq::new(n * n, |i: int| next_alive(n as int, s, i % (n as int), i / (n as int)))
}

/// The cells after `k` generations.
pub open spec fn iterate(n: nat, s: Seq<bool>, k: nat) -> Seq<bool>
    decreases k,
{
    if k == 0 {
        s
    } else {
        step(n, iterate(n, s, (k - 1) as nat))
    }
}

} // verus!
