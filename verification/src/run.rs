//! Running the game generation after generation until it ends.

use vstd::prelude::*;
use crate::grid::{Board, Grid};
use crate::watch::{Ending, Watcher, judge};

verus! {

/// What one call of `Run::advance` did.
#[derive(Clone, Copy, Debug, PartialEq, Eq, Structural)]
pub enum Advance {
    /// The generation limit was reached; nothing changed.
    LimitReached,
    /// The board moved on one generation; the watcher's verdict on it.
    Stepped(Option<Ending>),
}

/// What a run is: its board, the boards its watcher remembers, how many
/// generations it has gone through, and where it must stop.
pub struct RunState {
    pub board: Board,
    pub memory: Seq<Seq<bool>>,
    pub generation: nat,
    pub limit: Option<usize>,
}

/// One move of a run: at the limit it stays; otherwise the board takes one
/// step, the generation count grows by one and the watcher judges the new
/// board.
pub open spec fn advanced(r: RunState) -> (RunState, Advance) {
    if r.limit matches Some(limit) && r.generation >= limit {
        (r, Advance::LimitReached)
    } else {
        let board = r.board.next();
        let (memory, ending) = judge(r.memory, board.cells);
        (
            RunState { board, memory, generation: r.generation + 1, limit: r.limit },
            Advance::Stepped(ending),
        )
    }
}

/// A board being run, with the watcher that decides when it is over.
pub struct Run {
    grid: Grid,
    watcher: Watcher,
    generation: usize,
    limit: Option<usize>,
}

impl View for Run {
    type V = RunState;

    closed spec fn view(&self) -> RunState {
        RunState {
            board: self.grid@,
            memory: self.watcher@,
            generation: self.generation as nat,
            limit: self.limit,
        }
    }
}

impl Run {
    pub closed spec fn wf(&self) -> bool {
        self.grid.wf()
    }

    /// A run of `grid` from generation 0 that stops at generation `limit`,
    /// if there is one.
    pub fn new(grid: Grid, limit: Option<usize>) -> (run: Self)
        requires
            grid.wf(),
        ensures
            run.wf(),
            run@ == (RunState { board: grid@, memory: Seq::empty(), generation: 0, limit }),
    {
        Run { grid, watcher: Watcher::new(), generation: 0, limit }
    }

    pub fn grid(&self) -> (grid: &Grid)
        requires
            self.wf(),
        ensures
            grid@ == self@.board,
            grid.wf(),
    {
        &self.grid
    }

    pub fn generation(&self) -> (generation: usize)
        ensures
            generation == self@.generation,
    {
        self.generation
    }

    pub fn limit(&self) -> (limit: Option<usize>)
        ensures
            limit == self@.limit,
    {
        self.limit
    }

    /// Moves the run on by one generation, whatever its limit.
    pub fn step_unlimited(&mut self) -> (ending: Option<Ending>)
        requires
            old(self).wf(),
            old(self)@.generation < usize::MAX,
        ensures
            final(self).wf(),
            ({
                let r = old(self)@;
                let board = r.board.next();
                let (memory, e) = judge(r.memory, board.cells);
                &&& ending == e
                &&& final(self)@ == (RunState {
                    board,
                    memory,
                    generation: r.generation + 1,
                    limit: r.limit,
                })
            }),
    {
        self.grid.step();
        self.generation += 1;
        self.watcher.verdict(&self.grid)
    }

    /// Moves the run on by one generation, unless it is at its limit.
    pub fn advance(&mut self) -> (outcome: Advance)
        requires
            old(self).wf(),
            old(self)@.generation < usize::MAX,
        ensures
            final(self).wf(),
            (final(self)@, outcome) == advanced(old(self)@),
    {
        if let Some(limit) = self.limit {
            if self.generation >= limit {
                return Advance::LimitReached;
            }
        }
        Advance::Stepped(self.step_unlimited())
    }

    /// Starts the run over from `grid`, at generation 0, with a watcher that
    /// remembers nothing; the limit stays.
    pub fn restart(&mut self, grid: Grid)
        requires
            grid.wf(),
        ensures
            final(self).wf(),
            final(self)@ == (RunState {
                board: grid@,
                memory: Seq::empty(),
                generation: 0,
                limit: old(self)@.limit,
            }),
    {
        self.grid = grid;
        self.watcher = Watcher::new();
        self.generation = 0;
    }
}

} // verus!
