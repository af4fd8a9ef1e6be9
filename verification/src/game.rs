//! The driver-facing surface: discrete player intents, and the per-tick
//! update that finishes due row clears before applying gravity.

use vstd::prelude::*;

use crate::board::{finish_clear_v, BlockV, GRID_SIZE};
use crate::grid::{hard_drop_step, move_step, spawned_piece, Grid};
use crate::primitives::{Direction, Rotation};
use crate::timing::{sat_add_u64, Timer, MILLIS_PER_UPDATE};

verus! {

/// A discrete player intent; the input layer maps keys to these.
#[derive(Clone, Copy, Debug, PartialEq, Eq, Structural)]
pub enum Intent {
    MoveLeft,
    MoveRight,
    MoveDown,
    RotateCW,
    RotateCCW,
    HardDrop,
    ClearBoard,
}

impl Intent {
    /// The movement direction an intent maps to.
    pub open spec fn dir_spec(self) -> Direction {
        match self {
            Intent::MoveLeft => Direction::Left,
            Intent::MoveRight => Direction::Right,
            Intent::MoveDown => Direction::Down,
            _ => Direction::Still,
        }
    }

    /// The rotation an intent maps to.
    pub open spec fn rot_spec(self) -> Rotation {
        match self {
            Intent::RotateCW => Rotation::CW,
            Intent::RotateCCW => Rotation::CCW,
            _ => Rotation::Still,
        }
    }
}

/// The whole game: the grid and the gravity cadence timer.
#[derive(Debug)]
pub struct Game {
    pub grid: Grid,
    pub timing: Timer,
}

impl Game {
    /// Game well-formedness: the grid's.
    pub open spec fn wf(&self) -> bool {
        self.grid.wf()
    }

    /// A game from parts.
    pub fn init(grid: Grid, timing: Timer) -> (r: Self)
        ensures
            r.grid == grid,
            r.timing == timing,
    {
        Game { grid, timing }
    }

    /// A fresh game: an empty board, a spawned piece, and the default fall
    /// cadence.
    pub fn new() -> (r: Self)
        ensures
            r.wf(),
            r.grid.blocks@.cells =~= Seq::new(GRID_SIZE as nat, |i: int| None::<BlockV>),
            r.grid.blocks@.queue =~= Seq::<int>::empty(),
            r.grid.instant_drop is None,
            spawned_piece(r.grid.curr_piece@),
            r.timing.fall_update == 0,
    {
        Self::init(Grid::new(), Timer::default())
    }

    /// Applies one discrete player intent immediately (not rate-limited):
    /// moves and rotations dispatch through the grid's collision check, the
    /// hard drop moves down until a commit, and the board clear blanks
    /// every cell, abandoning any in-flight clear timers with them.
    /// Reports whether a piece was committed.
    pub fn handle_intent(&mut self, intent: Intent) -> (r: bool)
        requires
            old(self).wf(),
        ensures
            final(self).wf(),
            final(self).timing == old(self).timing,
            match intent {
                Intent::HardDrop => {
                    &&& r
                    &&& hard_drop_step(
                        old(self).grid.blocks@,
                        old(self).grid.curr_piece@,
                        final(self).grid.blocks@,
                        final(self).grid.curr_piece@,
                    )
                    &&& match final(self).grid.instant_drop {
                        Some(d) => d.piece@ == old(self).grid.curr_piece@,
                        None => false,
                    }
                },
                Intent::ClearBoard => {
                    &&& !r
                    &&& final(self).grid.blocks@.cells =~= Seq::new(
                        GRID_SIZE as nat,
                        |i: int| None::<BlockV>,
                    )
                    &&& final(self).grid.blocks@.queue == old(self).grid.blocks@.queue
                    &&& final(self).grid.curr_piece == old(self).grid.curr_piece
                },
                _ => {
                    &&& move_step(
                        old(self).grid.blocks@,
                        old(self).grid.curr_piece@,
                        final(self).grid.blocks@,
                        final(self).grid.curr_piece@,
                        intent.dir_spec(),
                        intent.rot_spec(),
                        r,
                    )
                    &&& (r ==> spawned_piece(final(self).grid.curr_piece@))
                },
            },
    {
        match intent {
            Intent::MoveLeft => self.grid.move_if(Direction::Left, Rotation::Still),
            Intent::MoveRight => self.grid.move_if(Direction::Right, Rotation::Still),
            Intent::MoveDown => self.grid.move_if(Direction::Down, Rotation::Still),
            Intent::RotateCW => self.grid.move_if(Direction::Still, Rotation::CW),
            Intent::RotateCCW => self.grid.move_if(Direction::Still, Rotation::CCW),
            Intent::HardDrop => {
                self.grid.finish_drop();
                true
            },
            Intent::ClearBoard => {
                self.grid.blocks.clear();
                false
            },
        }
    }

    /// One fixed update tick: accounts the tick's time, finishes the row
    /// clears that are due — before gravity, so a row completed this tick
    /// is compacted before the piece can fall into the freed space — then
    /// applies gravity on the slower fall cadence. Reports whether gravity
    /// committed the piece.
    pub fn update(&mut self) -> (r: bool)
        requires
            old(self).wf(),
        ensures
            final(self).wf(),
            ({
                let acc = sat_add_u64(
                    old(self).timing.fall_update as int,
                    MILLIS_PER_UPDATE as int,
                );
                let m1 = finish_clear_v(old(self).grid.blocks@);
                let falls = acc > old(self).timing.fall_rate;
                &&& final(self).timing.fall_rate == old(self).timing.fall_rate
                &&& final(self).timing.fall_update == if falls {
                    0int
                } else {
                    acc
                }
                &&& if falls {
                    &&& move_step(
                        m1,
                        old(self).grid.curr_piece@,
                        final(self).grid.blocks@,
                        final(self).grid.curr_piece@,
                        Direction::Down,
                        Rotation::Still,
                        r,
                    )
                    &&& (r ==> spawned_piece(final(self).grid.curr_piece@))
                } else {
                    &&& !r
                    &&& final(self).grid.blocks@ == m1
                    &&& final(self).grid.curr_piece == old(self).grid.curr_piece
                }
            }),
    {
        self.timing.update();
        self.grid.blocks.finish_clear();
        if self.timing.fall() {
            self.grid.move_if(Direction::Down, Rotation::Still)
        } else {
            false
        }
    }
}

} // verus!
