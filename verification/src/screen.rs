//! What the interactive viewer puts on the terminal: the visible part of the
//! board and the status bar.

use vstd::prelude::*;
use crate::grid::{Board, Grid, LIVE_CELL, lemma_cell_index};
use crate::text::{blanks, decimal, decimal_string, push_blanks, push_char};

verus! {

/// Terminal size assumed when the terminal cannot tell its own.
pub const FALLBACK_COLUMNS: u16 = 80;

/// Terminal rows assumed when the terminal cannot tell its own.
pub const FALLBACK_ROWS: u16 = 24;

/// Columns and rows of board that a terminal of `size` shows: every column,
/// and every row but the one for the status bar; at least one of each. A
/// terminal that cannot tell its size counts as 80 by 24.
pub open spec fn viewport_of(size: Option<(u16, u16)>) -> (int, int) {
    let (columns, rows) = match size {
        Some(s) => s,
        None => (FALLBACK_COLUMNS, FALLBACK_ROWS),
    };
    (if columns < 1 { 1 } else { columns as int }, if rows < 2 { 1 } else { rows - 1 })
}

/// The board size for a terminal of `size`; see `viewport_of`.
pub fn viewport_for(size: Option<(u16, u16)>) -> (view: (usize, usize))
    ensures
        (view.0 as int, view.1 as int) == viewport_of(size),
{
    let (columns, rows) = match size {
        Some(s) => s,
        None => (FALLBACK_COLUMNS, FALLBACK_ROWS),
    };
    let columns = columns as usize;
    let rows = (rows as usize).saturating_sub(1);
    (if columns < 1 { 1 } else { columns }, if rows < 1 { 1 } else { rows })
}

/// Line `y` of the viewer, `columns` wide: the board's row `y` with live
/// cells as `LIVE_CELL` and dead ones blank, cut or padded with blanks to
/// the width; blank below the board.
pub open spec fn screen_line_text(b: Board, y: int, columns: nat) -> Seq<char> {
    Seq::new(
        columns,
        |x: int|
            if y < b.height && x < b.width && b.alive(x, y) {
                LIVE_CELL
            } else {
                ' '
            },
    )
}

/// Line `y` of the viewer; see `screen_line_text`.
pub fn screen_line(grid: &Grid, y: usize, columns: usize) -> (line: String)
    requires
        grid.wf(),
    ensures
        line@ == screen_line_text(grid@, y as int, columns as nat),
{
    let ghost b = grid@;
    let target = Ghost(screen_line_text(b, y as int, columns as nat));
    let mut line = String::new();
    let mut x: usize = 0;
    while x < columns
        invariant
            grid.wf(),
            b == grid@,
            target@ == screen_line_text(b, y as int, columns as nat),
            x <= columns,
            line@ == target@.subrange(0, x as int),
        decreases columns - x,
    {
        let live = if y < grid.height() && x < grid.width() {
            proof {
                lemma_cell_index(x as int, y as int, b.width as int, b.height as int);
            }
            grid.get(x, y)
        } else {
            false
        };
        let cell = if live { LIVE_CELL } else { ' ' };
        push_char(&mut line, cell);
        assert(target@.subrange(0, x + 1) =~= target@.subrange(0, x as int).push(cell));
        x += 1;
    }
    assert(target@.subrange(0, x as int) =~= target@);
    line
}

/// The left part of the status bar: generation, population and status.
pub open spec fn bar_left(generation: nat, population: nat, status: Seq<char>) -> Seq<char> {
    " gen "@ + decimal(generation) + "   pop "@ + decimal(population) + "   "@ + status
}

/// The status bar, `columns` characters at most: the left part, then, when
/// there is room for it with two blanks before it, the hint against the
/// right edge.
pub open spec fn status_bar_text(
    generation: nat,
    population: nat,
    status: Seq<char>,
    hint: Seq<char>,
    columns: nat,
) -> Seq<char> {
    let left = bar_left(generation, population, status);
    let full = if left.len() + hint.len() + 2 <= columns {
        left + blanks((columns - (left.len() + hint.len() + 2)) as nat) + "  "@ + hint
    } else {
        left
    };
    if full.len() <= columns {
        full
    } else {
        full.subrange(0, columns as int)
    }
}

/// The status bar; see `status_bar_text`.
pub fn status_bar(generation: usize, population: usize, status: &str, hint: &str, columns: usize) -> (bar:
    String)
    ensures
        bar@ == status_bar_text(generation as nat, population as nat, status@, hint@, columns as nat),
{
    let mut left = String::from_str(" gen ");
    left.append(decimal_string(generation).as_str());
    left.append("   pop ");
    left.append(decimal_string(population).as_str());
    left.append("   ");
    left.append(status);
    let ghost left_text = bar_left(generation as nat, population as nat, status@);
    assert(left@ =~= left_text);
    let left_len = left.as_str().unicode_len();
    let hint_len = hint.unicode_len();
    let needed: u128 = left_len as u128 + hint_len as u128 + 2;
    let mut bar = left;
    if needed <= columns as u128 {
        let gap = columns - (left_len + hint_len + 2);
        push_blanks(&mut bar, gap);
        bar.append("  ");
        bar.append(hint);
    }
    let bar_len = bar.as_str().unicode_len();
    if bar_len <= columns {
        bar
    } else {
        String::from_str(bar.as_str().substring_char(0, columns))
    }
}

} // verus!
