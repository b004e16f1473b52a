//! The board of the Game of Life and its rules.

use vstd::prelude::*;
use vstd::arithmetic::div_mod::lemma_fundamental_div_mod_converse;
use crate::text::push_char;

verus! {

/// How a live cell is drawn.
pub const LIVE_CELL: char = '\u{2588}';

/// How a dead cell is drawn when the whole board is printed.
pub const DEAD_CELL: char = '\u{b7}';

/// What a grid is: its dimensions and its cells in row-major order.
pub struct Board {
    pub width: nat,
    pub height: nat,
    pub cells: Seq<bool>,
}

/// The coordinate `value + delta` on an axis of `limit` cells: axes of three
/// or more cells wrap around; on shorter axes there is nothing past the edge.
pub open spec fn wrap(value: int, delta: int, limit: nat) -> Option<int> {
    let next = value + delta;
    if limit >= 3 {
        Some(next % (limit as int))
    } else if 0 <= next < limit {
        Some(next)
    } else {
        None
    }
}

/// The rule of the game: a live cell with two or three live neighbours
/// lives on, a dead cell with exactly three comes alive, all others die.
pub open spec fn rule(alive: bool, neighbors: nat) -> bool {
    (alive && (neighbors == 2 || neighbors == 3)) || (!alive && neighbors == 3)
}

/// How many cells of `cells` are alive.
pub open spec fn count_alive(cells: Seq<bool>) -> nat
    decreases cells.len(),
{
    if cells.len() == 0 {
        0
    } else {
        count_alive(cells.drop_last()) + if cells.last() { 1nat } else { 0nat }
    }
}

impl Board {
    pub open spec fn wf(self) -> bool {
        self.cells.len() == self.width * self.height
    }

    pub open spec fn index(self, x: int, y: int) -> int {
        y * self.width + x
    }

    pub open spec fn alive(self, x: int, y: int) -> bool {
        self.cells[self.index(x, y)]
    }

    /// 1 when the cell at offset `(dx, dy)` from `(x, y)` exists and is alive.
    pub open spec fn neighbor(self, x: int, y: int, dx: int, dy: int) -> nat {
        match (wrap(x, dx, self.width), wrap(y, dy, self.height)) {
            (Some(nx), Some(ny)) => if self.alive(nx, ny) { 1 } else { 0 },
            _ => 0,
        }
    }

    /// The live cells among the eight around `(x, y)`.
    pub open spec fn live_neighbors(self, x: int, y: int) -> nat {
        self.neighbor(x, y, -1, -1) + self.neighbor(x, y, 0, -1) + self.neighbor(x, y, 1, -1)
            + self.neighbor(x, y, -1, 0) + self.neighbor(x, y, 1, 0)
            + self.neighbor(x, y, -1, 1) + self.neighbor(x, y, 0, 1) + self.neighbor(x, y, 1, 1)
    }

    /// The next generation: every cell follows `rule` at once.
    pub open spec fn next(self) -> Board {
        Board {
            width: self.width,
            height: self.height,
            cells: Seq::new(
                self.cells.len(),
                |i: int|
                    rule(
                        self.cells[i],
                        self.live_neighbors(i % (self.width as int), i / (self.width as int)),
                    ),
            ),
        }
    }

    pub open spec fn population(self) -> nat {
        count_alive(self.cells)
    }
}

/// Where `(x, y)` with `x < width` and `y < height` lies in a row-major
/// sequence, and how to get `x` and `y` back from it.
pub proof fn lemma_cell_index(x: int, y: int, width: int, height: int)
    requires
        0 <= x < width,
        0 <= y < height,
    ensures
        0 <= y * width + x < width * height,
        (y * width + x) % width == x,
        (y * width + x) / width == y,
{
    assert(0 <= y * width + x < width * height) by (nonlinear_arith)
        requires
            0 <= x < width,
            0 <= y < height,
    ;
    lemma_fundamental_div_mod_converse(y * width + x, width, y, x);
}

/// One of the eight neighbours, or nothing for the cell itself.
spec fn around(b: Board, x: int, y: int, dx: int, dy: int) -> nat {
    if dx == 0 && dy == 0 {
        0
    } else {
        b.neighbor(x, y, dx, dy)
    }
}

/// The first `n` cells of the row at offset `dy`, from `dx == -1` on.
spec fn row_sum(b: Board, x: int, y: int, dy: int, n: int) -> nat
    decreases n,
{
    if n <= 0 {
        0
    } else {
        row_sum(b, x, y, dy, n - 1) + around(b, x, y, n - 2, dy)
    }
}

/// The first `m` rows around `(x, y)`, from `dy == -1` on.
spec fn rows_sum(b: Board, x: int, y: int, m: int) -> nat
    decreases m,
{
    if m <= 0 {
        0
    } else {
        rows_sum(b, x, y, m - 1) + row_sum(b, x, y, m - 2, 3)
    }
}

proof fn lemma_rows_sum_is_live_neighbors(b: Board, x: int, y: int)
    ensures
        rows_sum(b, x, y, 3) == b.live_neighbors(x, y),
        b.live_neighbors(x, y) <= 8,
{
    reveal_with_fuel(rows_sum, 4);
    reveal_with_fuel(row_sum, 4);
}

/// Row `y` of the board as text, one character per cell.
pub open spec fn row_text(b: Board, y: int) -> Seq<char> {
    Seq::new(b.width, |x: int| if b.alive(x, y) { LIVE_CELL } else { DEAD_CELL })
}

/// The first `n` rows of the board as text, one line per row.
pub open spec fn rows_text(b: Board, n: int) -> Seq<char>
    decreases n,
{
    if n <= 0 {
        Seq::empty()
    } else if n == 1 {
        row_text(b, 0)
    } else {
        rows_text(b, n - 1) + seq!['\n'] + row_text(b, n - 1)
    }
}

pub struct Grid {
    width: usize,
    height: usize,
    cells: Vec<bool>,
}

impl View for Grid {
    type V = Board;

    closed spec fn view(&self) -> Board {
        Board { width: self.width as nat, height: self.height as nat, cells: self.cells@ }
    }
}

/// The coordinate `value + delta` on an axis of `limit` cells, as `wrap`
/// says, `value` read as a signed number.
fn offset(value: usize, delta: isize, limit: usize) -> (next: Option<usize>)
    requires
        limit <= isize::MAX,
        isize::MIN <= (value as isize) + delta <= isize::MAX,
    ensures
        next matches Some(n) ==> wrap((value as isize) as int, delta as int, limit as nat) == Some(
            n as int,
        ),
        next is None ==> wrap((value as isize) as int, delta as int, limit as nat) is None,
{
    let next: isize = value as isize + delta;
    if limit >= 3 {
        return match next.checked_rem_euclid(limit as isize) {
            Some(r) => Some(r as usize),
            None => None,
        };
    }
    if 0 <= next && next < limit as isize {
        Some(next as usize)
    } else {
        None
    }
}

impl Grid {
    /// The grid holds one cell per position, and no more than a `Vec` can.
    pub open spec fn wf(&self) -> bool {
        &&& self@.wf()
        &&& self@.width * self@.height <= isize::MAX
    }

    /// An all-dead grid of `width` by `height` cells.
    pub fn new(width: usize, height: usize) -> (grid: Self)
        requires
            width * height <= isize::MAX,
        ensures
            grid.wf(),
            grid@.width == width,
            grid@.height == height,
            grid@.cells == Seq::new((width * height) as nat, |i: int| false),
    {
        let count = width * height;
        let mut cells: Vec<bool> = Vec::with_capacity(count);
        while cells.len() < count
            invariant
                cells@.len() <= count,
                forall|i: int| 0 <= i < cells@.len() ==> !cells@[i],
            decreases count - cells@.len(),
        {
            cells.push(false);
        }
        Self { width, height, cells }
    }

    pub fn width(&self) -> (width: usize)
        ensures
            width == self@.width,
    {
        self.width
    }

    pub fn height(&self) -> (height: usize)
        ensures
            height == self@.height,
    {
        self.height
    }

    pub fn cells(&self) -> (cells: &[bool])
        ensures
            cells@ == self@.cells,
    {
        self.cells.as_slice()
    }

    /// Whether the cell at `(x, y)` is alive.
    pub fn get(&self, x: usize, y: usize) -> (alive: bool)
        requires
            self.wf(),
            self@.index(x as int, y as int) < self@.width * self@.height,
        ensures
            alive == self@.alive(x as int, y as int),
    {
        self.cells[y * self.width + x]
    }

    /// Makes the cell at `(x, y)` alive or dead.
    pub fn set(&mut self, x: usize, y: usize, alive: bool)
        requires
            old(self).wf(),
            old(self)@.index(x as int, y as int) < old(self)@.width * old(self)@.height,
        ensures
            final(self).wf(),
            final(self)@ == (Board {
                cells: old(self)@.cells.update(old(self)@.index(x as int, y as int), alive),
                ..old(self)@
            }),
    {
        let index = y * self.width + x;
        self.cells.set(index, alive);
    }

    /// How many of the eight cells around `(x, y)` are alive; on an axis of
    /// three or more cells the edges wrap around. The coordinates are read as
    /// signed numbers, as a cell one step beyond them must be one too.
    pub fn live_neighbors(&self, x: usize, y: usize) -> (count: usize)
        requires
            self.wf(),
            isize::MIN < (x as isize) < isize::MAX,
            isize::MIN < (y as isize) < isize::MAX,
        ensures
            count == self@.live_neighbors((x as isize) as int, (y as isize) as int),
    {
        let ghost b = self@;
        if self.width == 0 || self.height == 0 {
            // an empty axis has no cell next to anything
            return 0;
        }
        proof {
            assert(b.width <= b.width * b.height && b.height <= b.width * b.height) by (nonlinear_arith)
                requires
                    b.width >= 1,
                    b.height >= 1,
            ;
        }
        let deltas: [isize; 3] = [-1, 0, 1];
        let mut count: usize = 0;
        let mut j: usize = 0;
        while j < 3
            invariant
                self.wf(),
                b == self@,
                isize::MIN < (x as isize) < isize::MAX,
                isize::MIN < (y as isize) < isize::MAX,
                b.width <= isize::MAX,
                b.height <= isize::MAX,
                j <= 3,
                deltas@ == seq![-1isize, 0, 1],
                count == rows_sum(b, (x as isize) as int, (y as isize) as int, j as int),
                count <= 3 * j,
            decreases 3 - j,
        {
            let dy = deltas[j];
            let mut i: usize = 0;
            while i < 3
                invariant
                    self.wf(),
                    b == self@,
                    isize::MIN < (x as isize) < isize::MAX,
                    isize::MIN < (y as isize) < isize::MAX,
                    b.width <= isize::MAX,
                    b.height <= isize::MAX,
                    i <= 3,
                    j < 3,
                    dy == j - 1,
                    deltas@ == seq![-1isize, 0, 1],
                    count == rows_sum(b, (x as isize) as int, (y as isize) as int, j as int) + row_sum(
                        b,
                        (x as isize) as int,
                        (y as isize) as int,
                        dy as int,
                        i as int,
                    ),
                    count <= 3 * j + i,
                decreases 3 - i,
            {
                let dx = deltas[i];
                if !(dx == 0 && dy == 0) {
                    if let Some(nx) = offset(x, dx, self.width) {
                        if let Some(ny) = offset(y, dy, self.height) {
                            proof {
                                lemma_cell_index(nx as int, ny as int, b.width as int, b.height as int);
                            }
                            if self.get(nx, ny) {
                                count += 1;
                            }
                        }
                    }
                }
                i += 1;
            }
            j += 1;
        }
        proof {
            lemma_rows_sum_is_live_neighbors(b, (x as isize) as int, (y as isize) as int);
        }
        count
    }

    /// Advances the grid by one generation.
    pub fn step(&mut self)
        requires
            old(self).wf(),
        ensures
            final(self).wf(),
            final(self)@ == old(self)@.next(),
    {
        let ghost b = self@;
        let ghost target = b.next();
        let width = self.width;
        let height = self.height;
        let mut next: Vec<bool> = Vec::with_capacity(self.cells.len());
        let mut y: usize = 0;
        while y < height
            invariant
                self.wf(),
                self@ == b,
                width == b.width,
                height == b.height,
                target == b.next(),
                y <= height,
                next@.len() == y * width,
                forall|i: int| 0 <= i < next@.len() ==> next@[i] == target.cells[i],
            decreases height - y,
        {
            let mut x: usize = 0;
            while x < width
                invariant
                    self.wf(),
                    self@ == b,
                    width == b.width,
                    height == b.height,
                    target == b.next(),
                    y < height,
                    x <= width,
                    next@.len() == y * width + x,
                    forall|i: int| 0 <= i < next@.len() ==> next@[i] == target.cells[i],
                decreases width - x,
            {
                proof {
                    lemma_cell_index(x as int, y as int, width as int, height as int);
                    assert(width <= width * height) by (nonlinear_arith)
                        requires
                            y < height,
                    ;
                    assert(height <= width * height) by (nonlinear_arith)
                        requires
                            x < width,
                    ;
                }
                let neighbors = self.live_neighbors(x, y);
                let alive = matches!(
                    (self.get(x, y), neighbors),
                    (true, 2) | (true, 3) | (false, 3)
                );
                next.push(alive);
                x += 1;
            }
            assert(y * width + width == (y + 1) * width) by (nonlinear_arith);
            y += 1;
        }
        assert(height * width == width * height) by (nonlinear_arith);
        assert(next@ =~= target.cells);
        self.cells = next;
    }

    /// The board as text: one line per row, `LIVE_CELL` for a live cell and
    /// `DEAD_CELL` for a dead one, lines separated by a newline.
    pub fn render(&self) -> (text: String)
        requires
            self.wf(),
        ensures
            text@ == rows_text(self@, self@.height as int),
    {
        let ghost b = self@;
        let mut text = String::new();
        let mut y: usize = 0;
        while y < self.height
            invariant
                self.wf(),
                b == self@,
                y <= b.height,
                text@ == rows_text(b, y as int),
            decreases b.height - y,
        {
            if y > 0 {
                push_char(&mut text, '\n');
            }
            let ghost prefix = text@;
            let mut x: usize = 0;
            while x < self.width
                invariant
                    self.wf(),
                    b == self@,
                    y < b.height,
                    x <= b.width,
                    prefix == if y > 0 { rows_text(b, y as int) + seq!['\n'] } else { rows_text(b, y as int) },
                    text@ == prefix + row_text(b, y as int).subrange(0, x as int),
                decreases b.width - x,
            {
                proof {
                    lemma_cell_index(x as int, y as int, b.width as int, b.height as int);
                }
                let cell = if self.get(x, y) { LIVE_CELL } else { DEAD_CELL };
                push_char(&mut text, cell);
                assert(prefix + row_text(b, y as int).subrange(0, x + 1) =~= (prefix + row_text(b, y as int).subrange(0, x as int)).push(cell));
                x += 1;
            }
            assert(row_text(b, y as int).subrange(0, x as int) =~= row_text(b, y as int));
            proof {
                if y == 0 {
                    assert(rows_text(b, 0) =~= Seq::<char>::empty());
                    assert(text@ =~= rows_text(b, 1));
                }
            }
            y += 1;
        }
        text
    }

    /// How many cells are alive.
    pub fn population(&self) -> (count: usize)
        ensures
            count == self@.population(),
    {
        let mut count: usize = 0;
        let mut i: usize = 0;
        while i < self.cells.len()
            invariant
                i <= self.cells@.len(),
                count == count_alive(self.cells@.subrange(0, i as int)),
                count <= i,
            decreases self.cells@.len() - i,
        {
            assert(self.cells@.subrange(0, i + 1).drop_last() =~= self.cells@.subrange(0, i as int));
            if self.cells[i] {
                count += 1;
            }
            i += 1;
        }
        assert(self.cells@.subrange(0, i as int) =~= self.cells@);
        count
    }
}

} // verus!
