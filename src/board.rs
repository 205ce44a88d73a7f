use vstd::prelude::*;
use vstd::arithmetic::div_mod::{lemma_fundamental_div_mod, lemma_mod_bound};
use crate::rules::{alive, count_live, iterate, live_neighbors, next_alive, step};

verus! {

/// A square board of `size` by `size` cells, stored row-major: the cell at
/// column `x`, row `y` is `cells[y * size + x]`, and `true` is alive.
pub struct LifeBoard {
    pub size: u32,
    pub cells: Vec<bool>,
}

impl LifeBoard {
    /// The board holds exactly `size * size` cells.
    pub open spec fn wf(&self) -> bool {
        self.cells@.len() == self.size * self.size
    }

    /// The storage index of the cell at column `x`, row `y`.
    pub fn offset(&self, x: u32, y: u32) -> (r: usize)
        requires
            x < self.size,
            y < self.size,
            self.size * self.size <= usize::MAX,
        ensures
            r == y * self.size + x,
            r < self.size * self.size,
    {
        proof {
            assert(y * self.size + x < self.size * self.size) by (nonlinear_arith)
                requires
                    x < self.size,
                    y < self.size,
            ;
        }
        (y as usize) * (self.size as usize) + (x as usize)
    }

    /// The cell count of a well-formed board fits in `usize`.
    proof fn lemma_len_fits(&self)
        requires
            self.wf(),
        ensures
            self.size * self.size <= usize::MAX,
    {
        assert(self.cells.len() == self.cells@.len());
    }

    /// Whether the north-west neighbour of `(x, y)` is alive; dead when it lies off the board.
    pub fn is_alive_nw(&self, x: u32, y: u32) -> (r: bool)
        requires
            self.wf(),
            x < self.size,
            y < self.size,
        ensures
            r == alive(self.size as int, self.cells@, x as int - 1, y as int - 1),
    {
        proof {
            self.lemma_len_fits();
        }
        if x > 0 && y > 0 {
            self.cells[self.offset(x - 1, y - 1)]
        } else {
            false
        }
    }

    /// Whether the north neighbour of `(x, y)` is alive; dead when it lies off the board.
    pub fn is_alive_nn(&self, x: u32, y: u32) -> (r: bool)
        requires
            self.wf(),
            x < self.size,
            y < self.size,
        ensures
            r == alive(self.size as int, self.cells@, x as int, y as int - 1),
    {
        proof {
            self.lemma_len_fits();
        }
        if y > 0 {
            self.cells[self.offset(x, y - 1)]
        } else {
            false
        }
    }

    /// Whether the north-east neighbour of `(x, y)` is alive; dead when it lies off the board.
    pub fn is_alive_ne(&self, x: u32, y: u32) -> (r: bool)
        requires
            self.wf(),
            x < self.size,
            y < self.size,
        ensures
            r == alive(self.size as int, self.cells@, x as int + 1, y as int - 1),
    {
        proof {
            self.lemma_len_fits();
        }
        if x + 1 < self.size && y > 0 {
            self.cells[self.offset(x + 1, y - 1)]
        } else {
            false
        }
    }

    /// Whether the west neighbour of `(x, y)` is alive; dead when it lies off the board.
    pub fn is_alive_ww(&self, x: u32, y: u32) -> (r: bool)
        requires
            self.wf(),
            x < self.size,
            y < self.size,
        ensures
            r == alive(self.size as int, self.cells@, x as int - 1, y as int),
    {
        proof {
            self.lemma_len_fits();
        }
        if x > 0 {
            self.cells[self.offset(x - 1, y)]
        } else {
            false
        }
    }

    /// Whether the east neighbour of `(x, y)` is alive; dead when it lies off the board.
    pub fn is_alive_ee(&self, x: u32, y: u32) -> (r: bool)
        requires
            self.wf(),
            x < self.size,
            y < self.size,
        ensures
            r == alive(self.size as int, self.cells@, x as int + 1, y as int),
    {
        proof {
            self.lemma_len_fits();
        }
        if x + 1 < self.size {
            self.cells[self.offset(x + 1, y)]
        } else {
            false
        }
    }

    /// Whether the south-west neighbour of `(x, y)` is alive; dead when it lies off the board.
    pub fn is_alive_sw(&self, x: u32, y: u32) -> (r: bool)
        requires
            self.wf(),
            x < self.size,
            y < self.size,
        ensures
            r == alive(self.size as int, self.cells@, x as int - 1, y as int + 1),
    {
        proof {
            self.lemma_len_fits();
        }
        if x > 0 && y + 1 < self.size {
            self.cells[self.offset(x - 1, y + 1)]
        } else {
            false
        }
    }

    /// Whether the south neighbour of `(x, y)` is alive; dead when it lies off the board.
    pub fn is_alive_ss(&self, x: u32, y: u32) -> (r: bool)
        requires
            self.wf(),
            x < self.size,
            y < self.size,
        ensures
            r == alive(self.size as int, self.cells@, x as int, y as int + 1),
    {
        proof {
            self.lemma_len_fits();
        }
        if y + 1 < self.size {
            self.cells[self.offset(x, y + 1)]
        } else {
            false
        }
    }

    /// Whether the south-east neighbour of `(x, y)` is alive; dead when it lies off the board.
    pub fn is_alive_se(&self, x: u32, y: u32) -> (r: bool)
        requires
            self.wf(),
            x < self.size,
            y < self.size,
        ensures
            r == alive(self.size as int, self.cells@, x as int + 1, y as int + 1),
    {
        proof {
            self.lemma_len_fits();
        }
        if x + 1 < self.size && y + 1 < self.size {
            self.cells[self.offset(x + 1, y + 1)]
        } else {
            false
        }
    }

    /// The number of live neighbours of `(x, y)`, from the eight direction queries.
    pub fn around(&self, x: u32, y: u32) -> (r: u32)
        requires
            self.wf(),
            x < self.size,
            y < self.size,
        ensures
            r == live_neighbors(self.size as int, self.cells@, x as int, y as int),
            r <= 8,
    {
        let neighbors: [bool; 8] = [
            self.is_alive_nw(x, y),
            self.is_alive_nn(x, y),
            self.is_alive_ne(x, y),
            self.is_alive_ww(x, y),
            self.is_alive_ee(x, y),
            self.is_alive_sw(x, y),
            self.is_alive_ss(x, y),
            self.is_alive_se(x, y),
        ];
        let mut total: u32 = 0;
        let mut i: usize = 0;
        while i < 8
            invariant
                i <= 8,
                total == count_live(neighbors@, i as int),
                total <= i,
            decreases 8 - i,
        {
            if neighbors[i] {
                total = total + 1;
            }
            i = i + 1;
        }
        proof {
            reveal_with_fuel(count_live, 9);
        }
        total
    }

    /// The state of `(x, y)` in the next generation.
    pub fn next_cell(&self, x: u32, y: u32) -> (r: bool)
        requires
            self.wf(),
            x < self.size,
            y < self.size,
        ensures
            r == next_alive(self.size as int, self.cells@, x as int, y as int),
    {
        proof {
            self.lemma_len_fits();
        }
        match self.around(x, y) {
            2 => self.cells[self.offset(x, y)],
            3 => true,
            _ => false,
        }
    }

    /// The next generation, as a new board of the same size; `self` is only read.
    pub fn next_board(&self) -> (r: LifeBoard)
        requires
            self.wf(),
        ensures
            r.wf(),
            r.size == self.size,
            r.cells@.len() == self.size * self.size,
            r.cells@ == step(self.size as nat, self.cells@),
    {
        proof {
            self.lemma_len_fits();
        }
        let n = self.size as usize;
        let total = n * n;
        let ghost next = step(self.size as nat, self.cells@);
        let mut cells: Vec<bool> = Vec::with_capacity(total);
        let mut i: usize = 0;
        while i < total
            invariant
                self.wf(),
                n == self.size,
                total == n * n,
                next == step(self.size as nat, self.cells@),
                i <= total,
                cells@ == next.take(i as int),
            decreases total - i,
        {
            proof {
                lemma_fundamental_div_mod(i as int, n as int);
                lemma_mod_bound(i as int, n as int);
                assert(i / n < n) by (nonlinear_arith)
                    requires
                        i == n * (i / n) + i % n,
                        0 <= i % n,
                        i < n * n,
                ;
            }
            let x = (i % n) as u32;
            let y = (i / n) as u32;
            cells.push(self.next_cell(x, y));
            proof {
                assert(cells@ =~= next.take(i as int + 1));
            }
            i = i + 1;
        }
        proof {
            assert(cells@ =~= next);
        }
        LifeBoard { size: self.size, cells }
    }

    /// A board of side `size` holding `cells`, or `None` when the number of
    /// cells is not `size * size`.
    pub fn new(size: u32, cells: Vec<bool>) -> (r: Option<LifeBoard>)
        ensures
            r is Some <==> cells@.len() == size * size,
            r matches Some(b) ==> b.wf() && b.size == size && b.cells@ == cells@,
    {
        proof {
            assert(size * size <= u64::MAX) by (nonlinear_arith)
                requires
                    size <= u32::MAX,
            ;
        }
        let want = (size as u64) * (size as u64);
        if cells.len() as u64 == want {
            Some(LifeBoard { size, cells })
        } else {
            None
        }
    }

    /// Whether the cell at column `x`, row `y` is alive.
    pub fn cell(&self, x: u32, y: u32) -> (r: bool)
        requires
            self.wf(),
            x < self.size,
            y < self.size,
        ensures
            r == alive(self.size as int, self.cells@, x as int, y as int),
            r == self.cells@[y * self.size + x],
    {
        proof {
            self.lemma_len_fits();
        }
        self.cells[self.offset(x, y)]
    }

    /// The board after `generations` successive generations.
    pub fn advance(&self, generations: u32) -> (r: LifeBoard)
        requires
            self.wf(),
        ensures
            r.wf(),
            r.size == self.size,
            r.cells@ == iterate(self.size as nat, self.cells@, generations as nat),
    {
        let mut board = LifeBoard { size: self.size, cells: self.cells.clone() };
        proof {
            assert(board.cells@ =~= self.cells@);
        }
        let mut k: u32 = 0;
        while k < generations
            invariant
                k <= generations,
                board.wf(),
                board.size == self.size,
                board.cells@ == iterate(self.size as nat, self.cells@, k as nat),
            decreases generations - k,
        {
            board = board.next_board();
            k = k + 1;
        }
        board
    }
}

} // verus!
