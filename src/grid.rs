use vstd::prelude::*;

verus! {

#[verifier::external_type_specification]
#[verifier::external_body]
pub struct ExRng(fastrand::Rng);

/// Relies on fastrand::Rng::u32: a draw from the range `0..bound` lies in it
/// (the call panics only on an empty range, which `bound > 0` rules out).
#[verifier::external_body]
fn draw_below(rng: &mut fastrand::Rng, bound: u32) -> (r: u32)
    requires
        bound > 0,
    ensures
        r < bound,
{
    rng.u32(0..bound)
}

/// Percent chance of a cell starting alive when a grid is randomized.
pub const DEFAULT_DENSITY_PERCENT: u32 = 25;

/// The age a cell gets from a roll in `0..100`: alive when the roll falls
/// under the density.
pub open spec fn seeded_age(roll: u32, density_percent: u32) -> u16 {
    if roll < density_percent {
        1
    } else {
        0
    }
}

/// Euclidean remainder of `c + d` by `n`: the coordinate reached from `c`
/// after moving `d` steps on a ring of `n` positions.
pub open spec fn wrapped(c: int, d: int, n: int) -> int {
    (c + d) % n
}

/// Moves `coord` by `delta` on a ring of `n` positions, using Euclidean
/// (never negative) remainder, so `wrap(0, -1, n) == n - 1`.
pub fn wrap(coord: usize, delta: isize, n: usize) -> (r: usize)
    requires
        n > 0,
    ensures
        r as int == wrapped(coord as int, delta as int, n as int),
        r < n,
{
    let c = coord % n;
    let d: usize = if delta >= 0 {
        (delta as usize) % n
    } else {
        let m = (-(delta + 1)) as usize;
        n - 1 - m % n
    };
    proof {
        let ni = n as int;
        if delta >= 0 {
            assert(d as int == (delta as int) % ni);
        } else {
            let mi = -(delta as int) - 1;
            let k = mi % ni;
            let q = mi / ni;
            vstd::arithmetic::div_mod::lemma_fundamental_div_mod(mi, ni);
            // delta == -(q * n + k) - 1 == (-q - 1) * n + (n - 1 - k)
            assert(delta as int == (-q - 1) * ni + (ni - 1 - k)) by (nonlinear_arith)
                requires
                    mi == ni * q + k,
                    mi == -(delta as int) - 1,
            ;
            vstd::arithmetic::div_mod::lemma_fundamental_div_mod_converse(
                delta as int,
                ni,
                -q - 1,
                ni - 1 - k,
            );
        }
        assert(d as int == (delta as int) % ni);
        assert(c as int == (coord as int) % ni);
        vstd::arithmetic::div_mod::lemma_add_mod_noop(coord as int, delta as int, ni);
    }
    if c >= n - d {
        proof {
            vstd::arithmetic::div_mod::lemma_fundamental_div_mod_converse(
                c + d,
                n as int,
                1,
                c + d - n,
            );
        }
        c - (n - d)
    } else {
        proof {
            vstd::arithmetic::div_mod::lemma_fundamental_div_mod_converse(
                c + d,
                n as int,
                0,
                c + d,
            );
        }
        c + d
    }
}


/// The flat index of cell `(x, y)` in a row-major buffer of rows `w` wide.
pub open spec fn index_of(w: int, x: int, y: int) -> int {
    y * w + x
}

/// 1 when the cell reached from `(x, y)` by `(dx, dy)` on the torus is alive.
pub open spec fn live(cells: Seq<u16>, w: int, h: int, x: int, y: int, dx: int, dy: int) -> int {
    if cells[index_of(w, wrapped(x, dx, w), wrapped(y, dy, h))] > 0 {
        1
    } else {
        0
    }
}

/// Number of live cells among the eight Moore neighbours of `(x, y)`.
pub open spec fn neighbors(cells: Seq<u16>, w: int, h: int, x: int, y: int) -> int {
    live(cells, w, h, x, y, -1, -1) + live(cells, w, h, x, y, 0, -1) + live(cells, w, h, x, y, 1, -1)
        + live(cells, w, h, x, y, -1, 0) + live(cells, w, h, x, y, 1, 0)
        + live(cells, w, h, x, y, -1, 1) + live(cells, w, h, x, y, 0, 1)
        + live(cells, w, h, x, y, 1, 1)
}

/// The rule: a live cell with two or three neighbours survives one
/// generation older (saturating), a dead cell with three is born at age 1,
/// every other cell is dead next.
pub open spec fn next_age(age: u16, n: int) -> u16 {
    if age > 0 && (n == 2 || n == 3) {
        if age == u16::MAX {
            age
        } else {
            (age + 1) as u16
        }
    } else if age == 0 && n == 3 {
        1
    } else {
        0
    }
}

/// The generation after `cells` on a `w` by `h` torus.
pub open spec fn next_cells(cells: Seq<u16>, w: int, h: int) -> Seq<u16> {
    Seq::new(cells.len(), |i: int| next_age(cells[i], neighbors(cells, w, h, i % w, i / w)))
}

/// The generation `n` steps after `cells`.
pub open spec fn evolve(cells: Seq<u16>, w: int, h: int, n: nat) -> Seq<u16>
    decreases n,
{
    if n == 0 {
        cells
    } else {
        next_cells(evolve(cells, w, h, (n - 1) as nat), w, h)
    }
}

/// Number of live cells in `cells`.
pub open spec fn live_count(cells: Seq<u16>) -> nat
    decreases cells.len(),
{
    if cells.len() == 0 {
        0
    } else {
        live_count(cells.drop_last()) + if cells.last() > 0 {
            1nat
        } else {
            0nat
        }
    }
}

/// Cell `(x, y)` of a grid `w` wide and `h` high has an index inside the buffer.
pub proof fn lemma_index_bounds(w: int, h: int, x: int, y: int)
    requires
        0 <= x < w,
        0 <= y < h,
    ensures
        0 <= index_of(w, x, y) < w * h,
        index_of(w, x, y) % w == x,
        index_of(w, x, y) / w == y,
{
    assert(0 <= y * w + x < w * h) by (nonlinear_arith)
        requires
            0 <= x < w,
            0 <= y < h,
    ;
    vstd::arithmetic::div_mod::lemma_fundamental_div_mod_converse(y * w + x, w, y, x);
}

/// A toroidal grid of cell ages, 0 meaning dead, with a scratch buffer of the
/// same size that each step writes into before the two are swapped.
pub struct Grid {
    pub width: usize,
    pub height: usize,
    pub cells: Vec<u16>,
    pub scratch: Vec<u16>,
}

impl Grid {
    /// Positive dimensions whose product fits in `usize`, and buffers of that size.
    pub open spec fn wf(&self) -> bool {
        &&& self.width > 0
        &&& self.height > 0
        &&& self.width * self.height <= usize::MAX
        &&& self.cells@.len() == self.width * self.height
        &&& self.scratch@.len() == self.cells@.len()
    }

    /// The age of cell `(x, y)`.
    pub open spec fn age(&self, x: int, y: int) -> u16 {
        self.cells@[index_of(self.width as int, x, y)]
    }

    /// An all-dead grid of the given size.
    pub fn new(width: usize, height: usize) -> (g: Self)
        requires
            width > 0,
            height > 0,
            width * height <= usize::MAX,
        ensures
            g.wf(),
            g.width == width,
            g.height == height,
            g.cells@ == Seq::new((width * height) as nat, |i: int| 0u16),
    {
        let size = width * height;
        let g = Grid { width, height, cells: vec![0; size], scratch: vec![0; size] };
        assert(g.cells@ =~= Seq::new((width * height) as nat, |i: int| 0u16));
        g
    }

    /// Number of live cells.
    pub fn population(&self) -> (r: usize)
        ensures
            r == live_count(self.cells@),
    {
        let mut count: usize = 0;
        let mut i: usize = 0;
        while i < self.cells.len()
            invariant
                i <= self.cells@.len(),
                count == live_count(self.cells@.subrange(0, i as int)),
                count <= i,
            decreases self.cells@.len() - i,
        {
            proof {
                let s = self.cells@.subrange(0, i as int + 1);
                assert(s.drop_last() =~= self.cells@.subrange(0, i as int));
            }
            if self.cells[i] > 0 {
                count = count + 1;
            }
            i = i + 1;
        }
        assert(self.cells@.subrange(0, i as int) =~= self.cells@);
        count
    }

    /// 1 when the neighbour of `(x, y)` at offset `(dx, dy)` is alive, else 0.
    fn live_at(&self, x: usize, y: usize, dx: isize, dy: isize) -> (r: u8)
        requires
            self.wf(),
        ensures
            r as int == live(
                self.cells@,
                self.width as int,
                self.height as int,
                x as int,
                y as int,
                dx as int,
                dy as int,
            ),
    {
        let nx = wrap(x, dx, self.width);
        let ny = wrap(y, dy, self.height);
        proof {
            lemma_index_bounds(self.width as int, self.height as int, nx as int, ny as int);
        }
        if self.cells[ny * self.width + nx] > 0 {
            1
        } else {
            0
        }
    }

    /// Number of live cells among the eight neighbours of `(x, y)`, the edges
    /// wrapping round on both axes.
    pub fn count_neighbors(&self, x: usize, y: usize) -> (r: u8)
        requires
            self.wf(),
        ensures
            r as int == neighbors(self.cells@, self.width as int, self.height as int, x as int, y as int),
            r <= 8,
    {
        self.live_at(x, y, -1, -1) + self.live_at(x, y, 0, -1) + self.live_at(x, y, 1, -1)
            + self.live_at(x, y, -1, 0) + self.live_at(x, y, 1, 0) + self.live_at(x, y, -1, 1)
            + self.live_at(x, y, 0, 1) + self.live_at(x, y, 1, 1)
    }

    /// Advances the grid one generation: every cell's next age is computed
    /// from the current buffer into the scratch buffer, then the two swap.
    pub fn step(&mut self)
        requires
            old(self).wf(),
        ensures
            final(self).wf(),
            final(self).width == old(self).width,
            final(self).height == old(self).height,
            final(self).cells@ == next_cells(
                old(self).cells@,
                old(self).width as int,
                old(self).height as int,
            ),
    {
        let w = self.width;
        let h = self.height;
        let ghost cur = self.cells@;
        let mut y: usize = 0;
        while y < h
            invariant
                self.wf(),
                self.width == w,
                self.height == h,
                self.cells@ == cur,
                cur == old(self).cells@,
                w == old(self).width,
                h == old(self).height,
                y <= h,
                forall|i: int|
                    0 <= i < y * w ==> #[trigger] self.scratch@[i] == next_cells(cur, w as int, h as int)[i],
            decreases h - y,
        {
            let mut x: usize = 0;
            while x < w
                invariant
                    self.wf(),
                    self.width == w,
                    self.height == h,
                    self.cells@ == cur,
                    y < h,
                    x <= w,
                    forall|i: int|
                        0 <= i < y * w + x ==> #[trigger] self.scratch@[i] == next_cells(cur, w as int, h as int)[i],
                decreases w - x,
            {
                proof {
                    lemma_index_bounds(w as int, h as int, x as int, y as int);
                }
                let idx = y * w + x;
                let n = self.count_neighbors(x, y);
                let age = self.cells[idx];
                let next: u16 = if age > 0 && (n == 2 || n == 3) {
                    age.saturating_add(1)
                } else if age == 0 && n == 3 {
                    1
                } else {
                    0
                };
                self.scratch.set(idx, next);
                x = x + 1;
            }
            proof {
                assert(y * w + w == (y + 1) * w) by (nonlinear_arith);
            }
            y = y + 1;
        }
        proof {
            assert(h * w == w * h) by (nonlinear_arith);
            assert(self.scratch@ =~= next_cells(cur, w as int, h as int));
        }
        std::mem::swap(&mut self.cells, &mut self.scratch);
    }

    /// Sets the age of cell `(x, y)`, each coordinate taken modulo its side.
    pub fn set_cell(&mut self, x: usize, y: usize, age: u16)
        requires
            old(self).wf(),
        ensures
            final(self).wf(),
            final(self).width == old(self).width,
            final(self).height == old(self).height,
            final(self).cells@ == old(self).cells@.update(
                index_of(
                    old(self).width as int,
                    x as int % old(self).width as int,
                    y as int % old(self).height as int,
                ),
                age,
            ),
    {
        let cx = x % self.width;
        let cy = y % self.height;
        proof {
            lemma_index_bounds(self.width as int, self.height as int, cx as int, cy as int);
        }
        self.cells.set(cy * self.width + cx, age);
    }

    /// Makes each cell alive at age 1 when its roll is under
    /// `density_percent`, dead otherwise; `rolls` holds one roll per cell.
    pub fn seed_from_rolls(&mut self, rolls: &Vec<u32>, density_percent: u32)
        requires
            old(self).wf(),
            rolls@.len() == old(self).cells@.len(),
        ensures
            final(self).wf(),
            final(self).width == old(self).width,
            final(self).height == old(self).height,
            final(self).cells@ == Seq::new(
                old(self).cells@.len(),
                |i: int| seeded_age(rolls@[i], density_percent),
            ),
    {
        let mut i: usize = 0;
        while i < self.cells.len()
            invariant
                self.wf(),
                self.width == old(self).width,
                self.height == old(self).height,
                self.cells@.len() == old(self).cells@.len(),
                rolls@.len() == self.cells@.len(),
                i <= self.cells@.len(),
                forall|j: int|
                    0 <= j < i ==> #[trigger] self.cells@[j] == seeded_age(rolls@[j], density_percent),
            decreases self.cells@.len() - i,
        {
            let age: u16 = if rolls[i] < density_percent {
                1
            } else {
                0
            };
            self.cells.set(i, age);
            i = i + 1;
        }
        assert(self.cells@ =~= Seq::new(
            old(self).cells@.len(),
            |i: int| seeded_age(rolls@[i], density_percent),
        ));
    }

    /// Makes each cell independently alive at age 1 with a chance of
    /// `density_percent` in a hundred, drawing from `rng`; a seeded `rng`
    /// gives a reproducible board.
    pub fn randomize(&mut self, rng: &mut fastrand::Rng, density_percent: u32)
        requires
            old(self).wf(),
            density_percent <= 100,
        ensures
            final(self).wf(),
            final(self).width == old(self).width,
            final(self).height == old(self).height,
            final(self).cells@.len() == old(self).cells@.len(),
            forall|i: int|
                0 <= i < final(self).cells@.len() ==> #[trigger] final(self).cells@[i] == 0
                    || final(self).cells@[i] == 1,
            density_percent == 0 ==> forall|i: int|
                0 <= i < final(self).cells@.len() ==> #[trigger] final(self).cells@[i] == 0,
            density_percent == 100 ==> forall|i: int|
                0 <= i < final(self).cells@.len() ==> #[trigger] final(self).cells@[i] == 1,
    {
        let n = self.cells.len();
        let mut rolls: Vec<u32> = Vec::with_capacity(n);
        while rolls.len() < n
            invariant
                rolls@.len() <= n,
                forall|j: int| 0 <= j < rolls@.len() ==> #[trigger] rolls@[j] < 100,
            decreases n - rolls@.len(),
        {
            let r = draw_below(rng, 100);
            rolls.push(r);
        }
        self.seed_from_rolls(&rolls, density_percent);
    }

    /// Kills every cell.
    pub fn clear(&mut self)
        requires
            old(self).wf(),
        ensures
            final(self).wf(),
            final(self).width == old(self).width,
            final(self).height == old(self).height,
            final(self).cells@ == Seq::new(old(self).cells@.len(), |i: int| 0u16),
    {
        let mut i: usize = 0;
        while i < self.cells.len()
            invariant
                self.wf(),
                self.width == old(self).width,
                self.height == old(self).height,
                self.cells@.len() == old(self).cells@.len(),
                i <= self.cells@.len(),
                forall|j: int| 0 <= j < i ==> #[trigger] self.cells@[j] == 0,
            decreases self.cells@.len() - i,
        {
            self.cells.set(i, 0);
            i = i + 1;
        }
        assert(self.cells@ =~= Seq::new(old(self).cells@.len(), |i: int| 0u16));
    }
}

} // verus!
