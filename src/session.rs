//! The decisions of an interactive driving loop: pausing, stepping, speed,
//! and when the automatic generation step is due. The loop itself (input,
//! drawing, files, the clock) lives with the caller, which hands each
//! command and each rendered frame to a `Session`.

use vstd::prelude::*;
use crate::grid::Grid;
use crate::random::random_cells;
use crate::rules::{dead_cells, next_generation};
use crate::save::loaded_cell;

verus! {

/// Frames between generations when a session starts.
pub const DEFAULT_SPEED: u64 = 6;

/// What the user asked for.
pub enum Command {
    /// Run if paused, pause if running.
    TogglePause,
    /// Fill the grid from the given seed, and pause.
    Randomize(u64),
    /// Compute one generation now.
    Step,
    /// Make every cell dead.
    Clear,
    /// One frame fewer between generations, down to one.
    SpeedUp,
    /// One frame more between generations.
    SlowDown,
    /// Set one cell; a position off the grid is ignored.
    Paint { x: usize, y: usize, alive: bool },
}

/// A grid with the state of the loop that drives it.
pub struct Session {
    grid: Grid,
    paused: bool,
    frame_count: u64,
    speed: u64,
}

impl Session {
    pub closed spec fn spec_grid(&self) -> Grid {
        self.grid
    }

    pub closed spec fn spec_paused(&self) -> bool {
        self.paused
    }

    /// Frames rendered since the last automatic step.
    pub closed spec fn spec_frame_count(&self) -> nat {
        self.frame_count as nat
    }

    /// Frames between automatic steps.
    pub closed spec fn spec_speed(&self) -> nat {
        self.speed as nat
    }

    pub open spec fn wf(&self) -> bool {
        &&& self.spec_grid().wf()
        &&& self.spec_speed() >= 1
        &&& self.spec_frame_count() < u64::MAX
    }

    /// The grid's cells, its dimensions and the loop state are those of `old`,
    /// but for the cells, which are `cells`.
    pub open spec fn same_but_cells(&self, old: &Session, cells: Seq<Seq<bool>>) -> bool {
        &&& self.spec_grid().same_shape(&old.spec_grid())
        &&& self.spec_grid()@ == cells
        &&& self.spec_paused() == old.spec_paused()
        &&& self.spec_frame_count() == old.spec_frame_count()
        &&& self.spec_speed() == old.spec_speed()
    }

    /// A paused session on `grid`, at the default speed.
    pub fn new(grid: Grid) -> (r: Session)
        requires
            grid.wf(),
        ensures
            r.wf(),
            r.spec_grid() == grid,
            r.spec_paused(),
            r.spec_frame_count() == 0,
            r.spec_speed() == DEFAULT_SPEED,
    {
        Session { grid, paused: true, frame_count: 0, speed: DEFAULT_SPEED }
    }

    pub fn grid(&self) -> (r: &Grid)
        ensures
            *r == self.spec_grid(),
    {
        &self.grid
    }

    pub fn paused(&self) -> (r: bool)
        ensures
            r == self.spec_paused(),
    {
        self.paused
    }

    pub fn speed(&self) -> (r: u64)
        ensures
            r == self.spec_speed(),
    {
        self.speed
    }

    pub fn frame_count(&self) -> (r: u64)
        ensures
            r == self.spec_frame_count(),
    {
        self.frame_count
    }

    /// Carries out one command.
    pub fn apply(&mut self, cmd: Command)
        requires
            old(self).wf(),
        ensures
            final(self).wf(),
            final(self).spec_grid().same_shape(&old(self).spec_grid()),
            final(self).spec_frame_count() == old(self).spec_frame_count(),
            cmd matches Command::TogglePause ==> final(self).spec_paused() == !old(self).spec_paused()
                && final(self).spec_grid()@ == old(self).spec_grid()@
                && final(self).spec_speed() == old(self).spec_speed(),
            cmd matches Command::Randomize(seed) ==> final(self).spec_paused() && final(self).spec_grid()@
                == random_cells(
                seed,
                old(self).spec_grid().spec_width() as int,
                old(self).spec_grid().spec_height() as int,
            ) && final(self).spec_speed() == old(self).spec_speed(),
            cmd matches Command::Step ==> final(self).same_but_cells(
                &*old(self),
                next_generation(
                    old(self).spec_grid()@,
                    old(self).spec_grid().spec_width() as int,
                    old(self).spec_grid().spec_height() as int,
                ),
            ),
            cmd matches Command::Clear ==> final(self).same_but_cells(
                &*old(self),
                dead_cells(
                    old(self).spec_grid().spec_width() as int,
                    old(self).spec_grid().spec_height() as int,
                ),
            ),
            cmd matches Command::SpeedUp ==> final(self).spec_paused() == old(self).spec_paused()
                && final(self).spec_grid()@ == old(self).spec_grid()@ && final(self).spec_speed() == (
            if old(self).spec_speed() > 1 {
                old(self).spec_speed() - 1
            } else {
                1
            }),
            cmd matches Command::SlowDown ==> final(self).spec_paused() == old(self).spec_paused()
                && final(self).spec_grid()@ == old(self).spec_grid()@ && final(self).spec_speed() == (
            if old(self).spec_speed() < u64::MAX {
                old(self).spec_speed() + 1
            } else {
                old(self).spec_speed()
            }),
            cmd matches Command::Paint { x, y, alive } ==> final(self).same_but_cells(
                &*old(self),
                if old(self).spec_grid().in_bounds(x as int, y as int) {
                    old(self).spec_grid()@.update(
                        y as int,
                        old(self).spec_grid()@[y as int].update(x as int, alive),
                    )
                } else {
                    old(self).spec_grid()@
                },
            ),
    {
        match cmd {
            Command::TogglePause => {
                self.paused = !self.paused;
            },
            Command::Randomize(seed) => {
                self.grid.randomize(seed);
                self.paused = true;
            },
            Command::Step => {
                self.grid.advance();
            },
            Command::Clear => {
                self.grid.clear();
            },
            Command::SpeedUp => {
                if self.speed > 1 {
                    self.speed = self.speed - 1;
                }
            },
            Command::SlowDown => {
                if self.speed < u64::MAX {
                    self.speed = self.speed + 1;
                }
            },
            Command::Paint { x, y, alive } => {
                self.grid.set_cell(x, y, alive);
            },
        }
    }

    /// Accounts for one rendered frame. While running, every `speed`-th
    /// frame computes a generation; the result says whether one was computed.
    pub fn tick(&mut self) -> (stepped: bool)
        requires
            old(self).wf(),
        ensures
            final(self).wf(),
            final(self).spec_paused() == old(self).spec_paused(),
            final(self).spec_speed() == old(self).spec_speed(),
            final(self).spec_grid().same_shape(&old(self).spec_grid()),
            stepped == (!old(self).spec_paused() && old(self).spec_frame_count() + 1
                >= old(self).spec_speed()),
            old(self).spec_paused() ==> final(self).spec_frame_count() == old(self).spec_frame_count(),
            !old(self).spec_paused() && !stepped ==> final(self).spec_frame_count()
                == old(self).spec_frame_count() + 1,
            stepped ==> final(self).spec_frame_count() == 0,
            stepped ==> final(self).spec_grid()@ == next_generation(
                old(self).spec_grid()@,
                old(self).spec_grid().spec_width() as int,
                old(self).spec_grid().spec_height() as int,
            ),
            !stepped ==> final(self).spec_grid()@ == old(self).spec_grid()@,
    {
        if self.paused {
            return false;
        }
        self.frame_count = self.frame_count + 1;
        if self.frame_count >= self.speed {
            self.grid.advance();
            self.frame_count = 0;
            true
        } else {
            false
        }
    }

    /// Loads a saved text into the grid (see `Grid::deserialize`).
    pub fn load(&mut self, text: &str)
        requires
            old(self).wf(),
        ensures
            final(self).wf(),
            final(self).spec_grid().same_shape(&old(self).spec_grid()),
            final(self).spec_paused() == old(self).spec_paused(),
            final(self).spec_frame_count() == old(self).spec_frame_count(),
            final(self).spec_speed() == old(self).spec_speed(),
            forall|x: int, y: int|
                final(self).spec_grid().in_bounds(x, y) ==> #[trigger] final(self).spec_grid().spec_cell(x, y)
                    == loaded_cell(old(self).spec_grid()@, text@, old(self).spec_grid().spec_width(), x, y),
    {
        self.grid.deserialize(text);
    }
}

} // verus!
