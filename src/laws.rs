use vstd::prelude::*;

use crate::grid::{evolve, index_of, lemma_index_bounds, live, neighbors, next_cells, wrapped};

verus! {

/// The flat index `i` of a `w` by `h` buffer names cell `(i % w, i / w)`.
pub proof fn lemma_cell_of_index(w: int, h: int, i: int)
    requires
        w > 0,
        h > 0,
        0 <= i < w * h,
    ensures
        0 <= i % w < w,
        0 <= i / w < h,
        index_of(w, i % w, i / w) == i,
{
    vstd::arithmetic::div_mod::lemma_fundamental_div_mod(i, w);
    assert(0 <= i / w < h) by (nonlinear_arith)
        requires
            w > 0,
            0 <= i < w * h,
            i == w * (i / w) + i % w,
            0 <= i % w < w,
    ;
    vstd::arithmetic::mul::lemma_mul_is_commutative(w, i / w);
}

/// One step either way along a ring of `n` positions, and none.
pub proof fn lemma_ring_steps(c: int, n: int)
    requires
        0 <= c < n,
    ensures
        wrapped(c, 0, n) == c,
        wrapped(c, -1, n) == if c == 0 {
            n - 1
        } else {
            c - 1
        },
        wrapped(c, 1, n) == if c == n - 1 {
            0
        } else {
            c + 1
        },
{
    vstd::arithmetic::div_mod::lemma_fundamental_div_mod_converse(c, n, 0, c);
    if c == 0 {
        vstd::arithmetic::div_mod::lemma_fundamental_div_mod_converse(-1, n, -1, n - 1);
    } else {
        vstd::arithmetic::div_mod::lemma_fundamental_div_mod_converse(c - 1, n, 0, c - 1);
    }
    if c == n - 1 {
        vstd::arithmetic::div_mod::lemma_fundamental_div_mod_converse(n, n, 1, 0);
    } else {
        vstd::arithmetic::div_mod::lemma_fundamental_div_mod_converse(c + 1, n, 0, c + 1);
    }
}

/// The all-dead buffer of a `w` by `h` grid.
pub open spec fn empty_cells(w: int, h: int) -> Seq<u16> {
    Seq::new((w * h) as nat, |i: int| 0u16)
}

/// A grid with no live cell stays empty for any number of generations.
pub proof fn lemma_empty_stays_empty(w: int, h: int, n: nat)
    requires
        w > 0,
        h > 0,
    ensures
        evolve(empty_cells(w, h), w, h, n) == empty_cells(w, h),
    decreases n,
{
    if n > 0 {
        lemma_empty_stays_empty(w, h, (n - 1) as nat);
        let cells = empty_cells(w, h);
        assert forall|i: int| 0 <= i < cells.len() implies #[trigger] next_cells(cells, w, h)[i]
            == 0 by {
            lemma_cell_of_index(w, h, i);
            lemma_ring_steps(i % w, w);
            lemma_ring_steps(i / w, h);
            let x = i % w;
            let y = i / w;
            lemma_index_bounds(w, h, wrapped(x, -1, w), wrapped(y, -1, h));
            lemma_index_bounds(w, h, wrapped(x, 0, w), wrapped(y, -1, h));
            lemma_index_bounds(w, h, wrapped(x, 1, w), wrapped(y, -1, h));
            lemma_index_bounds(w, h, wrapped(x, -1, w), wrapped(y, 0, h));
            lemma_index_bounds(w, h, wrapped(x, 1, w), wrapped(y, 0, h));
            lemma_index_bounds(w, h, wrapped(x, -1, w), wrapped(y, 1, h));
            lemma_index_bounds(w, h, wrapped(x, 0, w), wrapped(y, 1, h));
            lemma_index_bounds(w, h, wrapped(x, 1, w), wrapped(y, 1, h));
        }
        assert(next_cells(cells, w, h) =~= cells);
    }
}

/// A cell none of whose eight neighbours is alive is dead after one step,
/// whatever its age.
pub proof fn lemma_isolated_cell_dies(cells: Seq<u16>, w: int, h: int, x: int, y: int)
    requires
        w > 0,
        h > 0,
        cells.len() == w * h,
        0 <= x < w,
        0 <= y < h,
        neighbors(cells, w, h, x, y) == 0,
    ensures
        next_cells(cells, w, h)[index_of(w, x, y)] == 0,
{
    lemma_index_bounds(w, h, x, y);
}

/// The corner cell (0, 0) is counted among the neighbours of the cells at
/// the far end of its row, (w - 1, 0), of its column, (0, h - 1), and of the
/// opposite corner, (w - 1, h - 1); and each of those is counted among the
/// neighbours of (0, 0).
pub proof fn lemma_corner_wraps(cells: Seq<u16>, w: int, h: int)
    requires
        w > 0,
        h > 0,
        cells.len() == w * h,
    ensures
        live(cells, w, h, w - 1, 0, 1, 0) == (if cells[index_of(w, 0, 0)] > 0 { 1int } else { 0 }),
        live(cells, w, h, 0, h - 1, 0, 1) == (if cells[index_of(w, 0, 0)] > 0 { 1int } else { 0 }),
        live(cells, w, h, w - 1, h - 1, 1, 1) == (if cells[index_of(w, 0, 0)] > 0 { 1int } else { 0 }),
        live(cells, w, h, 0, 0, -1, 0) == (if cells[index_of(w, w - 1, 0)] > 0 { 1int } else { 0 }),
        live(cells, w, h, 0, 0, 0, -1) == (if cells[index_of(w, 0, h - 1)] > 0 { 1int } else { 0 }),
        live(cells, w, h, 0, 0, -1, -1) == (if cells[index_of(w, w - 1, h - 1)] > 0 {
            1int
        } else {
            0
        }),
{
    lemma_ring_steps(0, w);
    lemma_ring_steps(w - 1, w);
    lemma_ring_steps(0, h);
    lemma_ring_steps(h - 1, h);
}

/// Across one step a cell that stays alive gets exactly one generation
/// older (unless it already has the largest age a cell can hold, where it
/// stays), and a dead cell that comes alive starts at age 1.
pub proof fn lemma_aging(cells: Seq<u16>, w: int, h: int, i: int)
    requires
        0 <= i < cells.len(),
    ensures
        cells[i] > 0 && next_cells(cells, w, h)[i] > 0 && cells[i] < u16::MAX ==> next_cells(
            cells,
            w,
            h,
        )[i] == cells[i] + 1,
        cells[i] == u16::MAX && next_cells(cells, w, h)[i] > 0 ==> next_cells(cells, w, h)[i]
            == u16::MAX,
        cells[i] == 0 && next_cells(cells, w, h)[i] > 0 ==> next_cells(cells, w, h)[i] == 1,
{
}

/// Whether `(x, y)` is one of the four cells of the 2 by 2 block whose
/// top-left cell is `(x0, y0)`, on a `w` by `h` torus.
pub open spec fn in_block(w: int, h: int, x0: int, y0: int, x: int, y: int) -> bool {
    (x == x0 || x == (x0 + 1) % w) && (y == y0 || y == (y0 + 1) % h)
}

/// The live cells of `cells` are exactly the 2 by 2 block at `(x0, y0)`.
pub open spec fn is_block(cells: Seq<u16>, w: int, h: int, x0: int, y0: int) -> bool {
    &&& cells.len() == w * h
    &&& forall|x: int, y: int|
        0 <= x < w && 0 <= y < h ==> (#[trigger] cells[index_of(w, x, y)] > 0) == in_block(
            w,
            h,
            x0,
            y0,
            x,
            y,
        )
}

/// 1 when position `c` of a ring of `n` is one of the block's two
/// positions `c0`, `c0 + 1`.
spec fn band_hit(n: int, c0: int, c: int) -> int {
    if c == c0 || c == (c0 + 1) % n {
        1
    } else {
        0
    }
}

/// Among a position and its two ring neighbours at most two fall in the
/// block's band, and exactly two when the position itself does.
proof fn lemma_band_hits(n: int, c0: int, c: int)
    requires
        n >= 3,
        0 <= c0 < n,
        0 <= c < n,
    ensures
        band_hit(n, c0, wrapped(c, -1, n)) + band_hit(n, c0, c) + band_hit(n, c0, wrapped(c, 1, n))
            <= 2,
        band_hit(n, c0, c) == 1 ==> band_hit(n, c0, wrapped(c, -1, n)) + band_hit(n, c0, c)
            + band_hit(n, c0, wrapped(c, 1, n)) == 2,
{
    lemma_ring_steps(c, n);
    lemma_ring_steps(c0, n);
}

/// One step keeps a 2 by 2 block where it is.
proof fn lemma_block_step(cells: Seq<u16>, w: int, h: int, x0: int, y0: int)
    requires
        w >= 3,
        h >= 3,
        0 <= x0 < w,
        0 <= y0 < h,
        is_block(cells, w, h, x0, y0),
    ensures
        is_block(next_cells(cells, w, h), w, h, x0, y0),
{
    let nxt = next_cells(cells, w, h);
    assert forall|x: int, y: int| 0 <= x < w && 0 <= y < h implies (#[trigger] nxt[index_of(
        w,
        x,
        y,
    )] > 0) == in_block(w, h, x0, y0, x, y) by {
        lemma_index_bounds(w, h, x, y);
        lemma_ring_steps(x, w);
        lemma_ring_steps(y, h);
        lemma_band_hits(w, x0, x);
        lemma_band_hits(h, y0, y);
        let am = band_hit(w, x0, wrapped(x, -1, w));
        let a0 = band_hit(w, x0, x);
        let ap = band_hit(w, x0, wrapped(x, 1, w));
        let bm = band_hit(h, y0, wrapped(y, -1, h));
        let b0 = band_hit(h, y0, y);
        let bp = band_hit(h, y0, wrapped(y, 1, h));
        assert(live(cells, w, h, x, y, -1, -1) == am * bm);
        assert(live(cells, w, h, x, y, 0, -1) == a0 * bm);
        assert(live(cells, w, h, x, y, 1, -1) == ap * bm);
        assert(live(cells, w, h, x, y, -1, 0) == am * b0);
        assert(live(cells, w, h, x, y, 1, 0) == ap * b0);
        assert(live(cells, w, h, x, y, -1, 1) == am * bp);
        assert(live(cells, w, h, x, y, 0, 1) == a0 * bp);
        assert(live(cells, w, h, x, y, 1, 1) == ap * bp);
        let n = neighbors(cells, w, h, x, y);
        let a = am + a0 + ap;
        let b = bm + b0 + bp;
        assert(n == a * b - a0 * b0) by (nonlinear_arith)
            requires
                n == am * bm + a0 * bm + ap * bm + am * b0 + ap * b0 + am * bp + a0 * bp + ap * bp,
                a == am + a0 + ap,
                b == bm + b0 + bp,
        ;
        assert((cells[index_of(w, x, y)] > 0) == in_block(w, h, x0, y0, x, y));
        vstd::arithmetic::div_mod::lemma_fundamental_div_mod_converse(index_of(w, x, y), w, y, x);
        if in_block(w, h, x0, y0, x, y) {
            assert(n == 3);
        } else {
            assert(a0 * b0 == 0);
            assert(a * b != 3) by (nonlinear_arith)
                requires
                    0 <= a <= 2,
                    0 <= b <= 2,
            ;
        }
    }
}

/// A 2 by 2 block of live cells on a torus at least 3 cells wide and high
/// keeps exactly its four cells alive, generation after generation.
pub proof fn lemma_block_still_life(cells: Seq<u16>, w: int, h: int, x0: int, y0: int, n: nat)
    requires
        w >= 3,
        h >= 3,
        0 <= x0 < w,
        0 <= y0 < h,
        is_block(cells, w, h, x0, y0),
    ensures
        is_block(evolve(cells, w, h, n), w, h, x0, y0),
    decreases n,
{
    if n > 0 {
        lemma_block_still_life(cells, w, h, x0, y0, (n - 1) as nat);
        lemma_block_step(evolve(cells, w, h, (n - 1) as nat), w, h, x0, y0);
    }
}

} // verus!
