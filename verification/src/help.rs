//! The program's help screen: a glider drawn in block characters beside the
//! usage, then the commands and options.

use vstd::prelude::*;
use crate::grid::LIVE_CELL;
use crate::text::{blanks, push_blanks, push_char};

verus! {

pub const RESET: &'static str = "\u{1b}[0m";
pub const BOLD: &'static str = "\u{1b}[1m";
pub const DIM: &'static str = "\u{1b}[90m";
pub const HEAD: &'static str = "\u{1b}[1;32m";
pub const NAME: &'static str = "\u{1b}[36m";
pub const LIVE: &'static str = "\u{1b}[97m";

/// Characters each cell of the glider is drawn across.
pub const BLOCK_W: usize = 4;

/// Lines each cell of the glider is drawn down.
pub const BLOCK_H: usize = 2;

/// Column where the description of a command or option starts.
pub const DESC_COL: usize = 33;

/// The glider: row `r`, column `c`.
pub open spec fn glider(r: int, c: int) -> bool {
    (r == 0 && c == 1) || (r == 1 && c == 2) || (r == 2 && 0 <= c < 3)
}

fn glider_cell(r: usize, c: usize) -> (alive: bool)
    ensures
        alive == glider(r as int, c as int),
{
    (r == 0 && c == 1) || (r == 1 && c == 2) || (r == 2 && c < 3)
}

/// Line `k` of the drawing of the glider.
pub open spec fn art_line(k: int) -> Seq<char> {
    Seq::new(
        (3 * BLOCK_W) as nat,
        |i: int| if glider(k / BLOCK_H as int, i / BLOCK_W as int) { LIVE_CELL } else { ' ' },
    )
}

/// The glider drawn with `LIVE_CELL`, each cell `BLOCK_W` characters wide and
/// `BLOCK_H` lines tall.
pub fn art_lines() -> (lines: Vec<String>)
    ensures
        lines@.len() == 3 * BLOCK_H,
        forall|k: int| 0 <= k < lines@.len() ==> #[trigger] lines@[k]@ == art_line(k),
{
    let mut lines: Vec<String> = Vec::new();
    let mut row: usize = 0;
    while row < 3
        invariant
            row <= 3,
            lines@.len() == row * BLOCK_H,
            forall|k: int| 0 <= k < lines@.len() ==> #[trigger] lines@[k]@ == art_line(k),
        decreases 3 - row,
    {
        let mut copy: usize = 0;
        while copy < BLOCK_H
            invariant
                row < 3,
                copy <= BLOCK_H,
                lines@.len() == row * BLOCK_H + copy,
                forall|k: int| 0 <= k < lines@.len() ==> #[trigger] lines@[k]@ == art_line(k),
            decreases BLOCK_H - copy,
        {
            let ghost k = lines@.len() as int;
            let mut line = String::new();
            let mut col: usize = 0;
            while col < 3
                invariant
                    row < 3,
                    col <= 3,
                    k / BLOCK_H as int == row,
                    line@ == art_line(k).subrange(0, (col * BLOCK_W) as int),
                decreases 3 - col,
            {
                let cell = if glider_cell(row, col) { LIVE_CELL } else { ' ' };
                let mut n: usize = 0;
                while n < BLOCK_W
                    invariant
                        row < 3,
                        col < 3,
                        n <= BLOCK_W,
                        k / BLOCK_H as int == row,
                        cell == if glider(row as int, col as int) { LIVE_CELL } else { ' ' },
                        line@ == art_line(k).subrange(0, (col * BLOCK_W + n) as int),
                    decreases BLOCK_W - n,
                {
                    push_char(&mut line, cell);
                    assert((col * BLOCK_W + n) / BLOCK_W as int == col);
                    assert(art_line(k).subrange(0, (col * BLOCK_W + n + 1) as int) =~= art_line(
                        k,
                    ).subrange(0, (col * BLOCK_W + n) as int).push(cell));
                    n += 1;
                }
                col += 1;
            }
            assert(line@ =~= art_line(k));
            lines.push(line);
            copy += 1;
        }
        row += 1;
    }
    lines
}

/// `line` with the colour switched to bright white before each run of live
/// cells and reset after it.
pub open spec fn colorized(line: Seq<char>, live: bool) -> Seq<char>
    decreases line.len(),
{
    if line.len() == 0 {
        if live {
            RESET@
        } else {
            Seq::empty()
        }
    } else {
        let alive = line[0] == LIVE_CELL;
        let switch = if alive == live {
            Seq::empty()
        } else if alive {
            LIVE@
        } else {
            RESET@
        };
        switch + seq![line[0]] + colorized(line.drop_first(), alive)
    }
}

/// Colours the runs of live cells of `line`; see `colorized`.
pub fn colorize(line: &str) -> (out: String)
    ensures
        out@ == colorized(line@, false),
{
    let mut out = String::new();
    let mut live = false;
    let n = line.unicode_len();
    let mut i: usize = 0;
    assert(line@.skip(0) =~= line@);
    assert(out@ + colorized(line@.skip(0), live) =~= colorized(line@, false));
    while i < n
        invariant
            n == line@.len(),
            i <= n,
            out@ + colorized(line@.skip(i as int), live) == colorized(line@, false),
        decreases n - i,
    {
        let cell = line.get_char(i);
        let alive = cell == LIVE_CELL;
        assert(line@.skip(i as int).drop_first() =~= line@.skip(i + 1));
        let ghost before = out@;
        let ghost was_live = live;
        let ghost switch = if alive == live {
            Seq::<char>::empty()
        } else if alive {
            LIVE@
        } else {
            RESET@
        };
        assert(line@.skip(i as int)[0] == cell);
        assert(colorized(line@.skip(i as int), was_live) == switch + seq![cell] + colorized(
            line@.skip(i + 1),
            alive,
        ));
        if alive != live {
            out.append(if alive { LIVE } else { RESET });
            live = alive;
        }
        push_char(&mut out, cell);
        assert(out@ =~= before + switch + seq![cell]);
        assert(out@ + colorized(line@.skip(i + 1), live) =~= before + colorized(
            line@.skip(i as int),
            was_live,
        ));
        i += 1;
    }
    assert(line@.skip(i as int) =~= Seq::<char>::empty());
    let ghost before = out@;
    if live {
        out.append(RESET);
    }
    assert(out@ =~= before + colorized(line@.skip(i as int), live));
    out
}

/// Blanks between a command or option called `name` and its description:
/// enough to start the description at `DESC_COL`, and at least one.
pub open spec fn entry_pad(name_len: int) -> int {
    if DESC_COL - (2 + name_len) < 1 {
        1
    } else {
        DESC_COL - (2 + name_len)
    }
}

/// A line of the help listing `name` and what it does.
pub open spec fn entry_text(name: Seq<char>, description: Seq<char>) -> Seq<char> {
    "  "@ + NAME@ + name + RESET@ + blanks(entry_pad(name.len() as int) as nat) + description
}

/// A line of the help listing `name` and what it does; see `entry_text`.
pub fn entry(name: &str, description: &str) -> (line: String)
    ensures
        line@ == entry_text(name@, description@),
{
    let name_len = name.unicode_len();
    let pad = if name_len < DESC_COL - 2 { DESC_COL - 2 - name_len } else { 0 };
    let pad = if pad < 1 { 1 } else { pad };
    let mut line = String::from_str("  ");
    line.append(NAME);
    line.append(name);
    line.append(RESET);
    push_blanks(&mut line, pad);
    line.append(description);
    assert(line@ =~= entry_text(name@, description@));
    line
}

/// `line` without the blanks at its end.
pub open spec fn without_trailing_blanks(line: Seq<char>) -> Seq<char>
    decreases line.len(),
{
    if line.len() > 0 && line.last() == ' ' {
        without_trailing_blanks(line.drop_last())
    } else {
        line
    }
}

/// `line` without the blanks at its end.
fn trim_blanks(line: &str) -> (trimmed: &str)
    ensures
        trimmed@ == without_trailing_blanks(line@),
{
    let mut end = line.unicode_len();
    assert(line@.subrange(0, end as int) =~= line@);
    while end > 0 && line.get_char(end - 1) == ' '
        invariant
            end <= line@.len(),
            without_trailing_blanks(line@.subrange(0, end as int)) == without_trailing_blanks(line@),
        decreases end,
    {
        assert(line@.subrange(0, end as int).drop_last() =~= line@.subrange(0, end - 1));
        end -= 1;
    }
    assert(without_trailing_blanks(line@.subrange(0, end as int)) == line@.subrange(0, end as int));
    proof {
        if end == line@.len() {
            assert(line@.subrange(0, end as int) =~= line@);
        }
    }
    line.substring_char(0, end)
}

/// The text beside line `i` of the glider on the help screen.
pub open spec fn side_text(i: int, version: Seq<char>) -> Seq<char> {
    if i == 0 {
        BOLD@ + "conway v"@ + version + RESET@
    } else if i == 1 {
        "Turn any file into Conway's Game of Life"@
    } else if i == 2 {
        Seq::empty()
    } else if i == 3 {
        HEAD@ + "usage:"@ + RESET@
    } else if i == 4 {
        "  "@ + NAME@ + "conway"@ + RESET@ + " <file> [options]"@
    } else {
        "  cat <file> | "@ + NAME@ + "conway"@ + RESET@
    }
}

/// Line `i` of the top of the help screen: line `i` of the glider, in
/// colour, and the text beside it, if any.
pub open spec fn header_line(i: int, version: Seq<char>) -> Seq<char> {
    if side_text(i, version).len() > 0 {
        colorized(art_line(i), false) + "   "@ + side_text(i, version) + "\n"@
    } else {
        colorized(without_trailing_blanks(art_line(i)), false) + "\n"@
    }
}

/// The first `n` lines of the top of the help screen.
pub open spec fn header(n: int, version: Seq<char>) -> Seq<char>
    decreases n,
{
    if n <= 0 {
        Seq::empty()
    } else {
        header(n - 1, version) + header_line(n - 1, version)
    }
}

/// The commands part of the help screen.
pub open spec fn commands_listing() -> Seq<char> {
    "\n"@ + HEAD@ + "commands:"@ + RESET@ + "\n"@
    + entry_text("run [file]"@, "seed a grid from a file and run it"@) + "\n"@
    + entry_text("seed [file]"@, "print the starting grid, don't simulate"@) + "\n"@
    + entry_text("help [command]"@, "this message"@) + "\n"@
}

/// The options part of the help screen.
pub open spec fn options_listing() -> Seq<char> {
    "\n"@ + HEAD@ + "options:"@ + RESET@ + "\n"@
    + entry_text("-n, --generations <N>"@, "stop after N generations (default: until the board dies)"@) + "\n"@
    + entry_text("-d, --delay <MS>"@, "milliseconds between generations (default 120)"@) + "\n"@
    + entry_text("-w, --width <COLS>"@, "grid width in cells (default: terminal width)"@) + "\n"@
    + entry_text("-H, --height <ROWS>"@, "grid height in cells (default: terminal height)"@) + "\n"@
    + entry_text("--raw"@, "treat piped input as data, even if it looks like a path"@) + "\n"@
}

/// The closing line of the help screen.
pub open spec fn footer() -> Seq<char> {
    "\n"@ + DIM@ + " need help with a specific command? run"@ + RESET@ + " "@ + NAME@
    + "conway help <command>"@ + RESET@ + "\n"@
}

/// The whole help screen for version `version` of the program.
pub open spec fn help_screen(version: Seq<char>) -> Seq<char> {
    header(6, version) + commands_listing() + options_listing() + footer()
}

/// Appends `line` and a newline to `out`.
fn push_line(out: &mut String, line: &str)
    ensures
        final(out)@ == old(out)@ + line@ + "\n"@,
{
    out.append(line);
    out.append("\n");
}

/// Appends `text` in `color` to `out`, the colour reset after it.
fn push_colored(out: &mut String, color: &str, text: &str)
    ensures
        final(out)@ == old(out)@ + color@ + text@ + RESET@,
{
    out.append(color);
    out.append(text);
    out.append(RESET);
}

/// The lines beside the glider.
fn side_lines(version: &str) -> (side: Vec<String>)
    ensures
        side@.len() == 6,
        forall|i: int| 0 <= i < 6 ==> #[trigger] side@[i]@ == side_text(i, version@),
{
    let mut side: Vec<String> = Vec::new();
    let mut first = String::from_str(BOLD);
    first.append("conway v");
    first.append(version);
    first.append(RESET);
    side.push(first);
    side.push(String::from_str("Turn any file into Conway's Game of Life"));
    side.push(String::new());
    let mut usage = String::from_str(HEAD);
    usage.append("usage:");
    usage.append(RESET);
    side.push(usage);
    let mut run = String::from_str("  ");
    run.append(NAME);
    run.append("conway");
    run.append(RESET);
    run.append(" <file> [options]");
    side.push(run);
    let mut piped = String::from_str("  cat <file> | ");
    piped.append(NAME);
    piped.append("conway");
    piped.append(RESET);
    side.push(piped);
    assert forall|i: int| 0 <= i < 6 implies #[trigger] side@[i]@ == side_text(i, version@) by {
        assert(side@[0]@ =~= side_text(0, version@));
        assert(side@[3]@ =~= side_text(3, version@));
        assert(side@[4]@ =~= side_text(4, version@));
        assert(side@[5]@ =~= side_text(5, version@));
    }
    side
}

/// The glider and the usage beside it.
fn help_header(version: &str) -> (text: String)
    ensures
        text@ == header(6, version@),
{
    let side = side_lines(version);
    let art = art_lines();
    let mut out = String::new();
    let mut index: usize = 0;
    while index < 6
        invariant
            index <= 6,
            side@.len() == 6,
            art@.len() == 6,
            forall|i: int| 0 <= i < 6 ==> #[trigger] side@[i]@ == side_text(i, version@),
            forall|k: int| 0 <= k < art@.len() ==> #[trigger] art@[k]@ == art_line(k),
            out@ == header(index as int, version@),
        decreases 6 - index,
    {
        let line = art[index].as_str();
        let text = side[index].as_str();
        let ghost before = out@;
        assert(line@ == art_line(index as int));
        assert(text@ == side_text(index as int, version@));
        if !text.is_empty() {
            out.append(colorize(line).as_str());
            out.append("   ");
            push_line(&mut out, text);
        } else {
            push_line(&mut out, colorize(trim_blanks(line)).as_str());
        }
        assert(out@ =~= before + header_line(index as int, version@));
        index += 1;
    }
    out
}

fn commands_text() -> (text: String)
    ensures
        text@ == commands_listing(),
{
    let mut out = String::from_str("\n");
    push_colored(&mut out, HEAD, "commands:");
    out.append("\n");
    push_line(&mut out, entry("run [file]", "seed a grid from a file and run it").as_str());
    push_line(&mut out, entry("seed [file]", "print the starting grid, don't simulate").as_str());
    push_line(&mut out, entry("help [command]", "this message").as_str());
    assert(out@ =~= commands_listing());
    out
}

fn options_text() -> (text: String)
    ensures
        text@ == options_listing(),
{
    let mut out = String::from_str("\n");
    push_colored(&mut out, HEAD, "options:");
    out.append("\n");
    push_line(
        &mut out,
        entry(
            "-n, --generations <N>",
            "stop after N generations (default: until the board dies)",
        ).as_str(),
    );
    push_line(
        &mut out,
        entry("-d, --delay <MS>", "milliseconds between generations (default 120)").as_str(),
    );
    push_line(
        &mut out,
        entry("-w, --width <COLS>", "grid width in cells (default: terminal width)").as_str(),
    );
    push_line(
        &mut out,
        entry("-H, --height <ROWS>", "grid height in cells (default: terminal height)").as_str(),
    );
    push_line(
        &mut out,
        entry("--raw", "treat piped input as data, even if it looks like a path").as_str(),
    );
    assert(out@ =~= options_listing());
    out
}

fn footer_text() -> (text: String)
    ensures
        text@ == footer(),
{
    let mut out = String::from_str("\n");
    push_colored(&mut out, DIM, " need help with a specific command? run");
    out.append(" ");
    push_colored(&mut out, NAME, "conway help <command>");
    out.append("\n");
    assert(out@ =~= footer());
    out
}

/// The help screen for version `version`; see `help_screen`.
pub fn help_text(version: &str) -> (text: String)
    ensures
        text@ == help_screen(version@),
{
    let mut out = help_header(version);
    out.append(commands_text().as_str());
    out.append(options_text().as_str());
    out.append(footer_text().as_str());
    out
}

} // verus!
