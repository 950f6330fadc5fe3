use vstd::prelude::*;

use crate::grid::{index_of, next_cells, wrap, wrapped, Grid};

verus! {

/// Fastest tick, in milliseconds.
pub const MIN_TICK_MS: u64 = 10;

/// Slowest tick, in milliseconds.
pub const MAX_TICK_MS: u64 = 1000;

/// How much one speed change moves the tick, in milliseconds.
pub const TICK_STEP_MS: u64 = 25;

/// Deepest zoom level.
pub const MAX_ZOOM: i32 = 8;

/// The state of an interactive session: the board, the cursor, the
/// viewport and the playback settings.
pub struct App {
    pub grid: Grid,
    pub paused: bool,
    pub generation: usize,
    pub cursor_x: usize,
    pub cursor_y: usize,
    /// Time between generations while running, in milliseconds.
    pub tick_rate_ms: u64,
    pub cursor_visible: bool,
    pub pattern_mode: bool,
    pub view_width: usize,
    pub view_height: usize,
    pub viewport_x: usize,
    pub viewport_y: usize,
    pub zoom: i32,
}

/// `cells` after every cell at offset `(dx, dy)` in `offsets` from
/// `(cx, cy)`, wrapped round the torus, is set alive at age 1, in order.
pub open spec fn stamped(
    cells: Seq<u16>,
    w: int,
    h: int,
    cx: int,
    cy: int,
    offsets: Seq<(isize, isize)>,
) -> Seq<u16>
    decreases offsets.len(),
{
    if offsets.len() == 0 {
        cells
    } else {
        let (dx, dy) = offsets.last();
        stamped(cells, w, h, cx, cy, offsets.drop_last()).update(
            index_of(w, wrapped(cx, dx as int, w), wrapped(cy, dy as int, h)),
            1,
        )
    }
}

impl App {
    /// A well-formed board with the cursor on it.
    pub open spec fn wf(&self) -> bool {
        &&& self.grid.wf()
        &&& self.cursor_x < self.grid.width
        &&& self.cursor_y < self.grid.height
    }

    /// A paused session on an empty `width` by `height` board, the cursor
    /// hidden at the origin, ticking every 100 ms.
    pub fn new(width: usize, height: usize, view_width: usize, view_height: usize) -> (app: Self)
        requires
            width > 0,
            height > 0,
            width * height <= usize::MAX,
        ensures
            app.wf(),
            app.grid.width == width,
            app.grid.height == height,
            app.grid.cells@ == Seq::new((width * height) as nat, |i: int| 0u16),
            app.paused,
            app.generation == 0,
            app.cursor_x == 0,
            app.cursor_y == 0,
            app.tick_rate_ms == 100,
            !app.cursor_visible,
            !app.pattern_mode,
            app.view_width == view_width,
            app.view_height == view_height,
            app.viewport_x == 0,
            app.viewport_y == 0,
            app.zoom == 1,
    {
        App {
            grid: Grid::new(width, height),
            paused: true,
            generation: 0,
            cursor_x: 0,
            cursor_y: 0,
            tick_rate_ms: 100,
            cursor_visible: false,
            pattern_mode: false,
            view_width,
            view_height,
            viewport_x: 0,
            viewport_y: 0,
            zoom: 1,
        }
    }

    /// Advances the board one generation and counts it.
    pub fn step(&mut self)
        requires
            old(self).grid.wf(),
            old(self).generation < usize::MAX,
        ensures
            final(self).grid.wf(),
            old(self).wf() ==> final(self).wf(),
            final(self).grid.width == old(self).grid.width,
            final(self).grid.height == old(self).grid.height,
            final(self).grid.cells@ == next_cells(
                old(self).grid.cells@,
                old(self).grid.width as int,
                old(self).grid.height as int,
            ),
            *final(self) == (App { grid: final(self).grid, generation: (old(self).generation + 1) as usize, ..*old(self) }),
    {
        self.grid.step();
        self.generation = self.generation + 1;
    }

    /// Pauses a running session, or resumes a paused one.
    pub fn toggle_pause(&mut self)
        ensures
            *final(self) == (App { paused: !old(self).paused, ..*old(self) }),
    {
        self.paused = !self.paused;
    }

    /// Fills the board at random, a quarter of the cells alive at age 1,
    /// and restarts the generation count.
    pub fn randomize(&mut self, rng: &mut fastrand::Rng)
        requires
            old(self).grid.wf(),
        ensures
            final(self).grid.wf(),
            old(self).wf() ==> final(self).wf(),
            final(self).grid.width == old(self).grid.width,
            final(self).grid.height == old(self).grid.height,
            forall|i: int|
                0 <= i < final(self).grid.cells@.len() ==> #[trigger] final(self).grid.cells@[i] == 0
                    || final(self).grid.cells@[i] == 1,
            *final(self) == (App { grid: final(self).grid, generation: 0, ..*old(self) }),
    {
        self.grid.randomize(rng, crate::grid::DEFAULT_DENSITY_PERCENT);
        self.generation = 0;
    }

    /// Kills every cell and restarts the generation count.
    pub fn clear(&mut self)
        requires
            old(self).grid.wf(),
        ensures
            final(self).grid.wf(),
            old(self).wf() ==> final(self).wf(),
            final(self).grid.width == old(self).grid.width,
            final(self).grid.height == old(self).grid.height,
            final(self).grid.cells@ == Seq::new(old(self).grid.cells@.len(), |i: int| 0u16),
            *final(self) == (App { grid: final(self).grid, generation: 0, ..*old(self) }),
    {
        self.grid.clear();
        self.generation = 0;
    }

    /// Kills the cell under the cursor if it is alive, else makes it alive
    /// at age 1.
    pub fn toggle_cell(&mut self)
        requires
            old(self).wf(),
        ensures
            final(self).wf(),
            final(self).grid.width == old(self).grid.width,
            final(self).grid.height == old(self).grid.height,
            ({
                let i = index_of(old(self).grid.width as int, old(self).cursor_x as int, old(self).cursor_y as int);
                final(self).grid.cells@ == old(self).grid.cells@.update(
                    i,
                    if old(self).grid.cells@[i] > 0 {
                        0u16
                    } else {
                        1u16
                    },
                )
            }),
            *final(self) == (App { grid: final(self).grid, ..*old(self) }),
    {
        proof {
            crate::grid::lemma_index_bounds(
                self.grid.width as int,
                self.grid.height as int,
                self.cursor_x as int,
                self.cursor_y as int,
            );
            vstd::arithmetic::div_mod::lemma_small_mod(self.cursor_x as nat, self.grid.width as nat);
            vstd::arithmetic::div_mod::lemma_small_mod(self.cursor_y as nat, self.grid.height as nat);
        }
        let idx = self.cursor_y * self.grid.width + self.cursor_x;
        let age: u16 = if self.grid.cells[idx] > 0 {
            0
        } else {
            1
        };
        self.grid.set_cell(self.cursor_x, self.cursor_y, age);
    }

    /// Moves the cursor one column left, wrapping round.
    pub fn move_left(&mut self)
        requires
            old(self).wf(),
        ensures
            final(self).wf(),
            *final(self) == (App {
                cursor_x: wrapped(old(self).cursor_x as int, -1, old(self).grid.width as int) as usize,
                ..*old(self)
            }),
    {
        self.cursor_x = wrap(self.cursor_x, -1, self.grid.width);
    }

    /// Moves the cursor one row down, wrapping round.
    pub fn move_down(&mut self)
        requires
            old(self).wf(),
        ensures
            final(self).wf(),
            *final(self) == (App {
                cursor_y: wrapped(old(self).cursor_y as int, 1, old(self).grid.height as int) as usize,
                ..*old(self)
            }),
    {
        self.cursor_y = wrap(self.cursor_y, 1, self.grid.height);
    }

    /// Moves the cursor one row up, wrapping round.
    pub fn move_up(&mut self)
        requires
            old(self).wf(),
        ensures
            final(self).wf(),
            *final(self) == (App {
                cursor_y: wrapped(old(self).cursor_y as int, -1, old(self).grid.height as int) as usize,
                ..*old(self)
            }),
    {
        self.cursor_y = wrap(self.cursor_y, -1, self.grid.height);
    }

    /// Moves the cursor one column right, wrapping round.
    pub fn move_right(&mut self)
        requires
            old(self).wf(),
        ensures
            final(self).wf(),
            *final(self) == (App {
                cursor_x: wrapped(old(self).cursor_x as int, 1, old(self).grid.width as int) as usize,
                ..*old(self)
            }),
    {
        self.cursor_x = wrap(self.cursor_x, 1, self.grid.width);
    }

    /// Shortens the tick by 25 ms, to no less than 10 ms.
    pub fn speed_up(&mut self)
        ensures
            *final(self) == (App {
                tick_rate_ms: if old(self).tick_rate_ms >= MIN_TICK_MS + TICK_STEP_MS {
                    (old(self).tick_rate_ms - TICK_STEP_MS) as u64
                } else {
                    MIN_TICK_MS
                },
                ..*old(self)
            }),
    {
        let shorter = self.tick_rate_ms.saturating_sub(TICK_STEP_MS);
        self.tick_rate_ms = if shorter > MIN_TICK_MS {
            shorter
        } else {
            MIN_TICK_MS
        };
    }

    /// Lengthens the tick by 25 ms, to no more than 1000 ms.
    pub fn slow_down(&mut self)
        ensures
            *final(self) == (App {
                tick_rate_ms: if old(self).tick_rate_ms + TICK_STEP_MS <= MAX_TICK_MS {
                    (old(self).tick_rate_ms + TICK_STEP_MS) as u64
                } else {
                    MAX_TICK_MS
                },
                ..*old(self)
            }),
    {
        let longer = self.tick_rate_ms.saturating_add(TICK_STEP_MS);
        self.tick_rate_ms = if longer < MAX_TICK_MS {
            longer
        } else {
            MAX_TICK_MS
        };
    }

    /// Shows a hidden cursor, or hides a shown one.
    pub fn toggle_cursor(&mut self)
        ensures
            *final(self) == (App { cursor_visible: !old(self).cursor_visible, ..*old(self) }),
    {
        self.cursor_visible = !self.cursor_visible;
    }

    /// One zoom level in, up to the deepest.
    pub fn zoom_in(&mut self)
        ensures
            *final(self) == (App {
                zoom: if old(self).zoom < MAX_ZOOM {
                    (old(self).zoom + 1) as i32
                } else {
                    old(self).zoom
                },
                ..*old(self)
            }),
    {
        if self.zoom < MAX_ZOOM {
            self.zoom = self.zoom + 1;
        }
    }

    /// One zoom level out, down to 0 (two cells per character).
    pub fn zoom_out(&mut self)
        ensures
            *final(self) == (App {
                zoom: if old(self).zoom > 0 {
                    (old(self).zoom - 1) as i32
                } else {
                    old(self).zoom
                },
                ..*old(self)
            }),
    {
        if self.zoom > 0 {
            self.zoom = self.zoom - 1;
        }
    }

    /// Stamps a pattern at the cursor: every cell at one of the `offsets`
    /// from it, wrapped round the board, becomes alive at age 1.
    pub fn place_pattern(&mut self, offsets: &[(isize, isize)])
        requires
            old(self).wf(),
        ensures
            final(self).wf(),
            final(self).grid.width == old(self).grid.width,
            final(self).grid.height == old(self).grid.height,
            final(self).grid.cells@ == stamped(
                old(self).grid.cells@,
                old(self).grid.width as int,
                old(self).grid.height as int,
                old(self).cursor_x as int,
                old(self).cursor_y as int,
                offsets@,
            ),
            *final(self) == (App { grid: final(self).grid, ..*old(self) }),
    {
        let w = self.grid.width;
        let h = self.grid.height;
        let mut k: usize = 0;
        while k < offsets.len()
            invariant
                self.wf(),
                self.grid.width == w,
                self.grid.height == h,
                w == old(self).grid.width,
                h == old(self).grid.height,
                k <= offsets@.len(),
                self.grid.cells@ == stamped(
                    old(self).grid.cells@,
                    w as int,
                    h as int,
                    old(self).cursor_x as int,
                    old(self).cursor_y as int,
                    offsets@.subrange(0, k as int),
                ),
                *self == (App { grid: self.grid, ..*old(self) }),
            decreases offsets@.len() - k,
        {
            let (dx, dy) = offsets[k];
            let x = wrap(self.cursor_x, dx, w);
            let y = wrap(self.cursor_y, dy, h);
            proof {
                vstd::arithmetic::div_mod::lemma_small_mod(x as nat, w as nat);
                vstd::arithmetic::div_mod::lemma_small_mod(y as nat, h as nat);
                assert(offsets@.subrange(0, k as int + 1).drop_last() =~= offsets@.subrange(0, k as int));
            }
            self.grid.set_cell(x, y, 1);
            k = k + 1;
        }
        assert(offsets@.subrange(0, k as int) =~= offsets@);
    }
}

} // verus!
