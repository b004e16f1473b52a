//! Deciding when a run of the game is over.

use vstd::prelude::*;
use crate::grid::{Grid, count_alive};

verus! {

/// Why a run stopped.
#[derive(Clone, Copy, Debug, PartialEq, Eq, Structural)]
pub enum Ending {
    /// No cell is alive.
    Extinct,
    /// The board repeats one of the last two boards.
    Settled,
    /// The generation limit was reached.
    Limit,
    /// The user quit.
    Quit,
}

impl Ending {
    /// The words that `describe` returns.
    pub open spec fn description(self) -> Seq<char> {
        match self {
            Ending::Extinct => "everything died"@,
            Ending::Settled => "the board settled"@,
            Ending::Limit => "generation limit reached"@,
            Ending::Quit => "quit"@,
        }
    }

    /// A short description of the ending, for the user.
    pub fn describe(&self) -> (text: &'static str)
        ensures
            text@ == self.description(),
    {
        match self {
            Ending::Extinct => "everything died",
            Ending::Settled => "the board settled",
            Ending::Limit => "generation limit reached",
            Ending::Quit => "quit",
        }
    }
}

/// What a watcher that remembers `previous` decides on seeing `cells`, and
/// what it remembers afterwards: an empty board is extinct; a board equal to
/// one it remembers has settled; otherwise it remembers the board, and
/// forgets the oldest one when it would remember more than two.
pub open spec fn judge(previous: Seq<Seq<bool>>, cells: Seq<bool>) -> (Seq<Seq<bool>>, Option<Ending>) {
    if count_alive(cells) == 0 {
        (previous, Some(Ending::Extinct))
    } else if previous.contains(cells) {
        (previous, Some(Ending::Settled))
    } else if previous.len() + 1 > 2 {
        (previous.push(cells).drop_first(), None)
    } else {
        (previous.push(cells), None)
    }
}

/// Watches the boards of a run for an ending.
pub struct Watcher {
    previous: Vec<Vec<bool>>,
}

impl View for Watcher {
    type V = Seq<Seq<bool>>;

    /// The boards it remembers, oldest first.
    closed spec fn view(&self) -> Seq<Seq<bool>> {
        self.previous@.map_values(|state: Vec<bool>| state@)
    }
}

/// Whether two boards hold the same cells.
fn same_cells(a: &[bool], b: &[bool]) -> (same: bool)
    ensures
        same == (a@ == b@),
{
    if a.len() != b.len() {
        return false;
    }
    let mut i: usize = 0;
    while i < a.len()
        invariant
            a@.len() == b@.len(),
            i <= a@.len(),
            forall|k: int| 0 <= k < i ==> a@[k] == b@[k],
        decreases a@.len() - i,
    {
        if a[i] != b[i] {
            return false;
        }
        i += 1;
    }
    assert(a@ =~= b@);
    true
}

impl Watcher {
    /// A watcher that remembers no board.
    pub fn new() -> (watcher: Self)
        ensures
            watcher@ == Seq::<Seq<bool>>::empty(),
    {
        let watcher = Self { previous: Vec::new() };
        assert(watcher@ =~= Seq::<Seq<bool>>::empty());
        watcher
    }

    /// Looks at the board of `grid`: whether the run is over, and why.
    pub fn verdict(&mut self, grid: &Grid) -> (ending: Option<Ending>)
        ensures
            (final(self)@, ending) == judge(old(self)@, grid@.cells),
    {
        if grid.population() == 0 {
            return Some(Ending::Extinct);
        }
        let cells = grid.cells();
        let mut i: usize = 0;
        while i < self.previous.len()
            invariant
                i <= self.previous@.len(),
                self@ == old(self)@,
                cells@ == grid@.cells,
                count_alive(grid@.cells) != 0,
                forall|k: int| 0 <= k < i ==> self@[k] != cells@,
            decreases self.previous@.len() - i,
        {
            if same_cells(self.previous[i].as_slice(), cells) {
                assert(self@[i as int] == cells@);
                assert(self@.contains(cells@));
                return Some(Ending::Settled);
            }
            i += 1;
        }
        assert(!self@.contains(cells@));
        let ghost before = self@;
        self.previous.push(vstd::slice::slice_to_vec(cells));
        assert(self@ =~= before.push(cells@));
        if self.previous.len() > 2 {
            self.previous.remove(0);
            assert(self@ =~= before.push(cells@).drop_first());
        }
        None
    }
}

} // verus!
