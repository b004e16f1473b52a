//! Properties of the game, the seeding and the watcher as a whole.

use vstd::prelude::*;
use vstd::arithmetic::div_mod::{
    lemma_add_mod_noop_right,
    lemma_mod_bound,
    lemma_div_by_multiple,
    lemma_fundamental_div_mod,
    lemma_fundamental_div_mod_converse,
};
use crate::bits::{stream_bit, ones_in};
use crate::grid::{Board, count_alive, lemma_cell_index, rule, wrap};
use crate::seed::{
    seeded,
    seeded_in,
    seeded_cell,
    source_width,
    source_height,
    least_wide_enough,
    wide_enough,
    chunk_start,
    chunk_end,
    ceil_div,
    dimensions,
    DEFAULT_WIDTH,
    MAX_AUTO_HEIGHT,
    lemma_chunk,
    lemma_split_index,
};
use crate::watch::{judge, Ending};
use crate::text::{decimal, digit_char};
use crate::input::{
    path_text_of,
    trimmed,
    first_solid,
    last_solid,
    is_space,
    MAX_PATH_INPUT,
};
use vstd::utf8::{valid_utf8, decode_utf8};
use crate::run::{RunState, Advance, advanced};
use crate::session::{
    SessionState,
    Key,
    Action,
    Response,
    respond,
    restarted,
    action_of,
    idle,
    skip_begun,
    skipped,
    ticked,
    MAX_PROMPT_DIGITS,
    is_digit,
    digits_value,
};

verus! {

/// A board has no live cell exactly when each of its cells is dead.
pub proof fn lemma_count_alive_zero(cells: Seq<bool>)
    ensures
        count_alive(cells) == 0 <==> forall|i: int| 0 <= i < cells.len() ==> !cells[i],
    decreases cells.len(),
{
    if cells.len() > 0 {
        lemma_count_alive_zero(cells.drop_last());
        if count_alive(cells) == 0 {
            assert forall|i: int| 0 <= i < cells.len() implies !cells[i] by {
                if i < cells.len() - 1 {
                    assert(cells.drop_last()[i] == cells[i]);
                }
            }
        }
        if forall|i: int| 0 <= i < cells.len() ==> !cells[i] {
            assert forall|i: int| 0 <= i < cells.drop_last().len() implies !cells.drop_last()[i] by {
                assert(cells.drop_last()[i] == cells[i]);
            }
        }
    }
}

/// On a board with no live cell, no neighbour is alive.
proof fn lemma_no_live_neighbor(b: Board, x: int, y: int, dx: int, dy: int)
    requires
        b.wf(),
        forall|i: int| 0 <= i < b.cells.len() ==> !b.cells[i],
    ensures
        b.neighbor(x, y, dx, dy) == 0,
{
    match (wrap(x, dx, b.width), wrap(y, dy, b.height)) {
        (Some(nx), Some(ny)) => {
            lemma_cell_index(nx, ny, b.width as int, b.height as int);
        },
        _ => {},
    }
}

/// An extinct board stays extinct: nothing comes alive without live
/// neighbours.
pub proof fn law_extinct_stays_extinct(b: Board)
    requires
        b.wf(),
        b.population() == 0,
    ensures
        b.next().population() == 0,
        b.next().wf(),
{
    lemma_count_alive_zero(b.cells);
    let n = b.next();
    assert forall|i: int| 0 <= i < n.cells.len() implies !n.cells[i] by {
        let x = i % (b.width as int);
        let y = i / (b.width as int);
        lemma_no_live_neighbor(b, x, y, -1, -1);
        lemma_no_live_neighbor(b, x, y, 0, -1);
        lemma_no_live_neighbor(b, x, y, 1, -1);
        lemma_no_live_neighbor(b, x, y, -1, 0);
        lemma_no_live_neighbor(b, x, y, 1, 0);
        lemma_no_live_neighbor(b, x, y, -1, 1);
        lemma_no_live_neighbor(b, x, y, 0, 1);
        lemma_no_live_neighbor(b, x, y, 1, 1);
    }
    lemma_count_alive_zero(n.cells);
}

/// On one axis, two different steps of at most one cell from a cell on the
/// board never land on the same cell.
proof fn lemma_wrap_distinct(x: int, d1: int, d2: int, limit: nat)
    requires
        0 <= x < limit,
        -1 <= d1 <= 1,
        -1 <= d2 <= 1,
        d1 != d2,
        wrap(x, d1, limit) is Some,
        wrap(x, d2, limit) is Some,
    ensures
        wrap(x, d1, limit) != wrap(x, d2, limit),
{
    if limit >= 3 {
        let l = limit as int;
        assert forall|d: int| -1 <= d <= 1 implies #[trigger] ((x + d) % l) == if x + d < 0 {
            l - 1
        } else if x + d >= l {
            0
        } else {
            x + d
        } by {
            if x + d < 0 {
                lemma_fundamental_div_mod_converse(x + d, l, -1, l - 1);
            } else if x + d >= l {
                lemma_fundamental_div_mod_converse(x + d, l, 1, 0);
            } else {
                lemma_fundamental_div_mod_converse(x + d, l, 0, x + d);
            }
        }
    }
}

/// A cell's eight neighbours are eight different cells, none of them the
/// cell itself, however narrow the board: no live cell is counted twice.
pub proof fn law_neighbors_are_distinct(
    b: Board,
    x: int,
    y: int,
    dx1: int,
    dy1: int,
    dx2: int,
    dy2: int,
)
    requires
        0 <= x < b.width,
        0 <= y < b.height,
        -1 <= dx1 <= 1 && -1 <= dy1 <= 1,
        -1 <= dx2 <= 1 && -1 <= dy2 <= 1,
        dx1 != dx2 || dy1 != dy2,
        wrap(x, dx1, b.width) is Some && wrap(y, dy1, b.height) is Some,
        wrap(x, dx2, b.width) is Some && wrap(y, dy2, b.height) is Some,
    ensures
        (wrap(x, dx1, b.width), wrap(y, dy1, b.height)) != (wrap(x, dx2, b.width), wrap(
            y,
            dy2,
            b.height,
        )),
        wrap(x, 0, b.width) == Some(x) && wrap(y, 0, b.height) == Some(y),
{
    if dx1 != dx2 {
        lemma_wrap_distinct(x, dx1, dx2, b.width);
    } else {
        lemma_wrap_distinct(y, dy1, dy2, b.height);
    }
    if b.width >= 3 {
        lemma_fundamental_div_mod_converse(x, b.width as int, 0, x);
    }
    if b.height >= 3 {
        lemma_fundamental_div_mod_converse(y, b.height as int, 0, y);
    }
}

/// The board moved `a` cells to the right and `c` cells down, what leaves
/// one edge coming back in at the other.
pub open spec fn shifted(b: Board, a: int, c: int) -> Board {
    Board {
        width: b.width,
        height: b.height,
        cells: Seq::new(
            b.cells.len(),
            |i: int|
                b.alive(
                    (i % (b.width as int) - a) % (b.width as int),
                    (i / (b.width as int) - c) % (b.height as int),
                ),
        ),
    }
}

/// Reducing before adding changes nothing modulo `m`.
proof fn lemma_mod_then_add(u: int, v: int, m: int)
    requires
        0 < m,
    ensures
        ((u % m) + v) % m == (u + v) % m,
{
    lemma_add_mod_noop_right(v, u, m);
    assert(v + u % m == u % m + v);
    assert(v + u == u + v);
}

/// A neighbour of a cell of the shifted board is the neighbour of the
/// matching cell of the board.
proof fn lemma_shifted_neighbor(b: Board, a: int, c: int, x: int, y: int, dx: int, dy: int)
    requires
        b.wf(),
        b.width >= 3,
        b.height >= 3,
        0 <= x < b.width,
        0 <= y < b.height,
    ensures
        shifted(b, a, c).neighbor(x, y, dx, dy) == b.neighbor(
            (x - a) % (b.width as int),
            (y - c) % (b.height as int),
            dx,
            dy,
        ),
{
    let w = b.width as int;
    let h = b.height as int;
    let nx = (x + dx) % w;
    let ny = (y + dy) % h;
    lemma_mod_bound(x + dx, w);
    lemma_mod_bound(y + dy, h);
    lemma_cell_index(nx, ny, w, h);
    lemma_mod_then_add(x + dx, -a, w);
    lemma_mod_then_add(y + dy, -c, h);
    lemma_mod_then_add(x - a, dx, w);
    lemma_mod_then_add(y - c, dy, h);
    assert(x + dx + -a == x - a + dx);
    assert(y + dy + -c == y - c + dy);
}

/// A generation does the same wherever the board is cut open: on a board at
/// least three cells wide and tall the edges wrap like a torus, so moving
/// the board and then stepping it gives the board stepped and then moved.
pub proof fn law_step_commutes_with_shift(b: Board, a: int, c: int)
    requires
        b.wf(),
        b.width >= 3,
        b.height >= 3,
    ensures
        shifted(b, a, c).next() == shifted(b.next(), a, c),
{
    let w = b.width as int;
    let h = b.height as int;
    let s = shifted(b, a, c);
    let lhs = s.next();
    let rhs = shifted(b.next(), a, c);
    assert forall|i: int| 0 <= i < lhs.cells.len() implies lhs.cells[i] == rhs.cells[i] by {
        lemma_split_index(i, w, h);
        let x = i % w;
        let y = i / w;
        let sx = (x - a) % w;
        let sy = (y - c) % h;
        lemma_mod_bound(x - a, w);
        lemma_mod_bound(y - c, h);
        lemma_cell_index(sx, sy, w, h);
        lemma_shifted_neighbor(b, a, c, x, y, -1, -1);
        lemma_shifted_neighbor(b, a, c, x, y, 0, -1);
        lemma_shifted_neighbor(b, a, c, x, y, 1, -1);
        lemma_shifted_neighbor(b, a, c, x, y, -1, 0);
        lemma_shifted_neighbor(b, a, c, x, y, 1, 0);
        lemma_shifted_neighbor(b, a, c, x, y, -1, 1);
        lemma_shifted_neighbor(b, a, c, x, y, 0, 1);
        lemma_shifted_neighbor(b, a, c, x, y, 1, 1);
        assert(s.live_neighbors(x, y) == b.live_neighbors(sx, sy));
        assert(lhs.cells[i] == rule(s.cells[i], s.live_neighbors(x, y)));
        assert(rhs.cells[i] == b.next().alive(sx, sy));
    }
    assert(lhs.cells =~= rhs.cells);
}

/// A cell never has more than eight live neighbours.
pub proof fn law_at_most_eight_neighbors(b: Board, x: int, y: int)
    ensures
        b.live_neighbors(x, y) <= 8,
{
}

/// A generation keeps the size of the board.
pub proof fn law_next_keeps_size(b: Board)
    requires
        b.wf(),
    ensures
        b.next().wf(),
        b.next().width == b.width,
        b.next().height == b.height,
{
}

/// The search for the width of the block ends at `cap` when no smaller
/// width is enough.
proof fn lemma_least_reaches_cap(from: int, cap: int, bits: int, width: int, height: int)
    requires
        from <= cap,
        forall|s: int| from <= s < cap ==> !wide_enough(s, bits, width, height),
    ensures
        least_wide_enough(from, cap, bits, width, height) == cap,
    decreases cap - from,
{
    if from < cap {
        lemma_least_reaches_cap(from + 1, cap, bits, width, height);
    }
}

/// An input with exactly one bit per cell is laid out one bit per cell, row
/// by row.
pub proof fn law_exact_fit_is_bit_per_cell(bytes: Seq<u8>, width: nat, height: nat, i: int)
    requires
        8 * bytes.len() == width * height,
        width * height > 0,
        0 <= i < width * height,
    ensures
        seeded(bytes, width, height).cells[i] == stream_bit(bytes, i),
{
    let w = width as int;
    let h = height as int;
    let bits = w * h;
    assert(w >= 1 && h >= 1) by (nonlinear_arith)
        requires
            w >= 0,
            h >= 0,
            w * h > 0,
    ;
    assert(w <= bits) by (nonlinear_arith)
        requires
            h >= 1,
            w >= 1,
            bits == w * h,
    ;
    assert forall|s: int| 1 <= s < w implies !wide_enough(s, bits, w, h) by {
        assert(s * s * h < bits * w) by (nonlinear_arith)
            requires
                1 <= s < w,
                h >= 1,
                bits == w * h,
        ;
    }
    lemma_least_reaches_cap(1, w, bits, w, h);
    assert(source_width(bits, w, h) == w);
    lemma_div_by_multiple(h, w);
    assert(bits == h * w) by (nonlinear_arith)
        requires
            bits == w * h,
    ;
    lemma_fundamental_div_mod(bits, w);
    assert(bits % w == 0) by {
        vstd::arithmetic::div_mod::lemma_mod_multiples_basic(h, w);
    }
    assert(ceil_div(bits, w) == h);
    assert(source_height(bits, w, h) == h);
    lemma_split_index(i, w, h);
    let x = i % w;
    let y = i / w;
    lemma_div_by_multiple(y, h);
    lemma_div_by_multiple(x, w);
    assert(y * h == h * y && x * w == w * x) by (nonlinear_arith);
    assert(seeded_cell(bytes, w, h, i) == stream_bit(bytes, i));
}

/// Every bit of a stream of zero bytes is clear.
proof fn lemma_zero_bits(bytes: Seq<u8>, start: int, end: int)
    requires
        forall|j: int| 0 <= j < bytes.len() ==> bytes[j] == 0,
    ensures
        forall|i: int| !stream_bit(bytes, i),
        ones_in(bytes, start, end) == 0,
    decreases end - start,
{
    assert forall|i: int| !stream_bit(bytes, i) by {
        if 0 <= i && i / 8 < bytes.len() {
            let k = (7 - i % 8) as u8;
            assert(0u8 >> k & 1u8 == 0u8) by (bit_vector);
        }
    }
    if end > start {
        lemma_zero_bits(bytes, start, end - 1);
    }
}

/// Every bit of a stream of `0xff` bytes is set.
proof fn lemma_full_bits(bytes: Seq<u8>, start: int, end: int)
    requires
        forall|j: int| 0 <= j < bytes.len() ==> bytes[j] == 0xff,
        0 <= start <= end <= 8 * bytes.len(),
    ensures
        forall|i: int| 0 <= i < 8 * bytes.len() ==> stream_bit(bytes, i),
        ones_in(bytes, start, end) == end - start,
    decreases end - start,
{
    assert forall|i: int| 0 <= i < 8 * bytes.len() implies stream_bit(bytes, i) by {
        let k = (7 - i % 8) as u8;
        assert(k < 8);
        assert(k < 8 ==> 0xffu8 >> k & 1u8 == 1u8) by (bit_vector);
    }
    if end > start {
        lemma_full_bits(bytes, start, end - 1);
    }
}

/// The first generation depends on the bytes and the size alone: the same
/// input always seeds the same board, of the size asked for.
pub proof fn law_seeding_is_deterministic(a: Seq<u8>, b: Seq<u8>, width: nat, height: nat)
    requires
        a == b,
    ensures
        seeded(a, width, height) == seeded(b, width, height),
        seeded(a, width, height).wf(),
        seeded(a, width, height).width == width,
        seeded(a, width, height).height == height,
{
}

/// A stream of zero bytes seeds a board with no live cell.
pub proof fn law_zero_bytes_seed_nothing(bytes: Seq<u8>, width: nat, height: nat)
    requires
        forall|j: int| 0 <= j < bytes.len() ==> bytes[j] == 0,
    ensures
        seeded(bytes, width, height).population() == 0,
{
    let b = seeded(bytes, width, height);
    let bits = 8 * bytes.len() as int;
    let cells = width * height;
    lemma_zero_bits(bytes, 0, bits);
    assert forall|i: int| 0 <= i < b.cells.len() implies !b.cells[i] by {
        if bits > 0 && cells > 0 && bits > cells {
            lemma_chunk(i, bits, cells as int);
            lemma_zero_bits(bytes, chunk_start(i, bits, cells as int), chunk_end(i, bits, cells as int));
        }
    }
    lemma_count_alive_zero(b.cells);
}

/// A stream of `0xff` bytes at least as long as the board has cells brings
/// every cell to life.
pub proof fn law_full_bytes_fill_the_board(bytes: Seq<u8>, width: nat, height: nat)
    requires
        forall|j: int| 0 <= j < bytes.len() ==> bytes[j] == 0xff,
        8 * bytes.len() >= width * height > 0,
    ensures
        forall|i: int|
            0 <= i < width * height ==> #[trigger] seeded(bytes, width, height).cells[i],
{
    let bits = 8 * bytes.len() as int;
    let cells = (width * height) as int;
    lemma_full_bits(bytes, 0, bits);
    assert forall|i: int| 0 <= i < width * height implies #[trigger] seeded(bytes, width, height).cells[i] by {
        if bits > cells {
            lemma_chunk(i, bits, cells);
            let start = chunk_start(i, bits, cells);
            let end = chunk_end(i, bits, cells);
            lemma_full_bits(bytes, start, end);
            lemma_full_bits(bytes, 0, bits);
            assert((end - start) * bits == bits * (end - start)) by (nonlinear_arith);
        } else {
            law_exact_fit_is_bit_per_cell(bytes, width, height, i);
        }
    }
}

/// With more bits than cells, the cells share out the whole input: the first
/// region starts at the first bit, each region is not empty and ends where
/// the next begins, and the last one ends at the last bit; so every byte
/// counts, even past what the board can show one bit per cell.
pub proof fn law_regions_cover_the_input(bits: int, cells: int)
    requires
        0 < cells < bits,
    ensures
        chunk_start(0, bits, cells) == 0,
        chunk_end(cells - 1, bits, cells) == bits,
        forall|i: int|
            0 <= i < cells ==> chunk_start(i, bits, cells) < #[trigger] chunk_end(i, bits, cells),
        forall|i: int|
            0 <= i < cells - 1 ==> #[trigger] chunk_end(i, bits, cells) == chunk_start(
                i + 1,
                bits,
                cells,
            ),
{
    assert forall|i: int| 0 <= i < cells implies chunk_start(i, bits, cells) < #[trigger] chunk_end(
        i,
        bits,
        cells,
    ) && chunk_end(i, bits, cells) == chunk_start(i + 1, bits, cells) by {
        lemma_chunk(i, bits, cells);
    }
    lemma_chunk(cells - 1, bits, cells);
    lemma_div_by_multiple(bits, cells);
    assert(cells * bits == bits * cells) by (nonlinear_arith);
}

/// A watcher never remembers more than the last two boards.
pub proof fn law_watcher_remembers_at_most_two(previous: Seq<Seq<bool>>, cells: Seq<bool>)
    requires
        previous.len() <= 2,
    ensures
        judge(previous, cells).0.len() <= 2,
{
}

/// The run is over as extinct exactly when the board has no live cell.
pub proof fn law_extinct_iff_empty(previous: Seq<Seq<bool>>, cells: Seq<bool>)
    ensures
        (judge(previous, cells).1 == Some(Ending::Extinct)) <==> count_alive(cells) == 0,
{
}

/// A board that stops changing is reported settled the next time it is
/// seen.
pub proof fn law_still_life_settles(previous: Seq<Seq<bool>>, cells: Seq<bool>)
    requires
        count_alive(cells) != 0,
    ensures
        judge(judge(previous, cells).0, cells).1 == Some(Ending::Settled),
{
    let after = judge(previous, cells).0;
    if !previous.contains(cells) {
        assert(after[after.len() - 1] == cells);
    }
    assert(after.contains(cells));
}

/// A board that flips between two states is reported settled no later than
/// when the first state comes back.
pub proof fn law_blinker_settles(
    previous: Seq<Seq<bool>>,
    first: Seq<bool>,
    second: Seq<bool>,
)
    requires
        previous.len() <= 2,
        count_alive(first) != 0,
        count_alive(second) != 0,
    ensures
        ({
            let (p1, e1) = judge(previous, first);
            let (p2, e2) = judge(p1, second);
            let (p3, e3) = judge(p2, first);
            e1 is Some || e2 is Some || e3 == Some(Ending::Settled)
        }),
{
    let (p1, e1) = judge(previous, first);
    let (p2, e2) = judge(p1, second);
    if e1 is None && e2 is None {
        assert(p1[p1.len() - 1] == first);
        assert(p2[p2.len() - 2] == first);
        assert(p2.contains(first));
    }
}

/// A height the user asks for is kept as it is, when it is at least one;
/// a height chosen from the input is between 1 and `MAX_AUTO_HEIGHT`; both
/// sides are at least one.
pub proof fn law_auto_height_is_capped(byte_count: int, width: Option<usize>, height: Option<usize>)
    requires
        0 <= byte_count,
    ensures
        dimensions(byte_count, width, height).0 >= 1,
        dimensions(byte_count, width, height).1 >= 1,
        height is None ==> dimensions(byte_count, width, height).1 <= MAX_AUTO_HEIGHT,
        forall|h: usize| height == Some(h) && h >= 1 ==> dimensions(byte_count, width, height).1 == h,
{
}

/// A run never goes past its generation limit, and it stops exactly there.
pub proof fn law_run_stops_at_limit(r: RunState, limit: usize)
    requires
        r.limit == Some(limit),
        r.generation <= limit,
    ensures
        advanced(r).0.generation <= limit,
        (advanced(r).1 == Advance::LimitReached) <==> r.generation == limit,
{
}

/// Skipping ahead never goes past the generation limit.
pub proof fn law_skip_stays_within_limit(s: SessionState, key: Key, control_only: bool, limit: usize)
    requires
        s.run.limit == Some(limit),
    ensures
        respond(s, key, control_only).1 matches Response::SkipTo(target) ==> target <= limit,
{
}

/// The generation prompt never holds more than `MAX_PROMPT_DIGITS` digits.
pub proof fn law_prompt_stays_short(s: SessionState, key: Key, control_only: bool)
    requires
        s.prompt matches Some(digits) ==> digits.len() <= MAX_PROMPT_DIGITS,
    ensures
        respond(s, key, control_only).0.prompt matches Some(digits) ==> digits.len()
            <= MAX_PROMPT_DIGITS,
{
}

/// Restarting brings back the seeded board at generation 0, running, with a
/// watcher that remembers nothing; the same seed gives the same board.
pub proof fn law_restart_reseeds(s: SessionState)
    requires
        s.prompt is None,
    ensures
        ({
            let (after, response) = respond(s, Key::Char('r'), false);
            &&& response == Response::Continue
            &&& after.run == restarted(s)
            &&& after.run.board == seeded_in(
                s.seed,
                s.run.board.width,
                s.run.board.height,
                s.block.0 as int,
                s.block.1 as int,
            )
            &&& after.run.generation == 0
            &&& after.run.memory.len() == 0
            &&& !after.paused
            &&& after.finished is None
        }),
{
}

/// Quitting reports how the run ended, or that the user quit while it ran.
pub proof fn law_quit_reports_ending(s: SessionState)
    requires
        s.prompt is None,
    ensures
        respond(s, Key::Char('q'), false).1 == Response::Quit(
            match s.finished {
                Some(e) => e,
                None => Ending::Quit,
            },
        ),
        respond(s, Key::Esc, false).1 == respond(s, Key::Char('q'), false).1,
        respond(s, Key::Char('c'), true).1 == respond(s, Key::Char('q'), false).1,
{
}

/// Pausing twice leaves the viewer as it was.
pub proof fn law_pause_toggles(s: SessionState)
    requires
        s.prompt is None,
    ensures
        respond(respond(s, Key::Char(' '), false).0, Key::Char(' '), false).0 == s,
        respond(s, Key::Char(' '), false).0.paused != s.paused,
{
}

/// The board `b` after `k` generations.
pub open spec fn generations(b: Board, k: nat) -> Board
    decreases k,
{
    if k == 0 {
        b
    } else {
        generations(b, (k - 1) as nat).next()
    }
}

/// What can happen to the viewer: a key press, the steps of a skip, or the
/// end of a round that began idle or not.
pub enum Happening {
    Press(Key, bool),
    BeginSkip(usize),
    SkipToward(usize),
    EndSkip(Option<Ending>),
    Tick(bool),
}

/// The viewer after `h`.
pub open spec fn happen(s: SessionState, h: Happening) -> SessionState {
    match h {
        Happening::Press(key, control_only) => respond(s, key, control_only).0,
        Happening::BeginSkip(target) => skip_begun(s, target),
        Happening::SkipToward(target) => skipped(s, target).0,
        Happening::EndSkip(ending) => SessionState { finished: ending, ..s },
        Happening::Tick(was_idle) => ticked(s, was_idle).0,
    }
}

/// The viewer after each of `trace` in turn.
pub open spec fn session_after(s: SessionState, trace: Seq<Happening>) -> SessionState
    decreases trace.len(),
{
    if trace.len() == 0 {
        s
    } else {
        happen(session_after(s, trace.drop_last()), trace.last())
    }
}

/// A skip to `target` stays within the viewer's limit; the viewer only
/// skips to targets its prompt gave, which do.
pub open spec fn within_limit(limit: Option<usize>, h: Happening) -> bool {
    match h {
        Happening::BeginSkip(target) | Happening::SkipToward(target) => match limit {
            Some(n) => target <= n,
            None => true,
        },
        _ => true,
    }
}

/// What holds at every moment of a session on `start` seeded from `seed`:
/// the board keeps its size, the run is within its limit, and the board is
/// the starting board or the one seeded in `block`, gone through as many
/// generations as the run counts.
pub open spec fn faithful(
    s: SessionState,
    start: Board,
    seed: Seq<u8>,
    block: (usize, usize),
    limit: Option<usize>,
) -> bool {
    &&& s.seed == seed
    &&& s.block == block
    &&& s.run.limit == limit
    &&& s.run.board.wf()
    &&& s.run.board.width == start.width
    &&& s.run.board.height == start.height
    &&& (limit matches Some(n) ==> s.run.generation <= n)
    &&& (s.run.board == generations(start, s.run.generation) || s.run.board == generations(
        seeded_in(seed, start.width, start.height, block.0 as int, block.1 as int),
        s.run.generation,
    ))
}

/// A generation of a board so far keeps it so.
proof fn lemma_generations_next(b: Board, k: nat)
    ensures
        generations(b, k + 1) == generations(b, k).next(),
{
}

/// One happening keeps a session faithful.
proof fn lemma_happen_keeps_faithful(
    s: SessionState,
    h: Happening,
    start: Board,
    seed: Seq<u8>,
    block: (usize, usize),
    limit: Option<usize>,
)
    requires
        start.wf(),
        faithful(s, start, seed, block, limit),
        within_limit(limit, h),
    ensures
        faithful(happen(s, h), start, seed, block, limit),
{
    let g = s.run.generation;
    lemma_generations_next(start, g);
    let reseeded = seeded_in(seed, start.width, start.height, block.0 as int, block.1 as int);
    lemma_generations_next(reseeded, g);
    assert(generations(reseeded, 0) == reseeded);
}

/// Over a whole session of the viewer, whatever keys come and however its
/// rounds and skips go: the board keeps its size; the run never passes its
/// limit; and the board is always the starting board, or after a restart
/// the seeded one, gone through exactly as many generations as the run
/// counts.
pub proof fn law_session_stays_faithful(s: SessionState, trace: Seq<Happening>)
    requires
        s.run.board.wf(),
        s.run.generation == 0,
        forall|i: int| 0 <= i < trace.len() ==> within_limit(s.run.limit, #[trigger] trace[i]),
    ensures
        faithful(session_after(s, trace), s.run.board, s.seed, s.block, s.run.limit),
    decreases trace.len(),
{
    if trace.len() == 0 {
        assert(generations(s.run.board, 0) == s.run.board);
    } else {
        let rest = trace.drop_last();
        assert forall|i: int| 0 <= i < rest.len() implies within_limit(s.run.limit, #[trigger] rest[i]) by {
            assert(rest[i] == trace[i]);
        }
        law_session_stays_faithful(s, rest);
        lemma_happen_keeps_faithful(
            session_after(s, rest),
            trace.last(),
            s.run.board,
            s.seed,
            s.block,
            s.run.limit,
        );
    }
}

/// A round that began paused, with the prompt open, or after the run ended
/// leaves the viewer as it was: nothing is stepped then.
pub proof fn law_idle_round_steps_nothing(s: SessionState)
    requires
        idle(s),
    ensures
        ticked(s, idle(s)) == (s, false),
{
}

/// A key never steps the board: it leaves the run as it is or, for a
/// restart, starts it over from the seed.
pub proof fn law_keys_never_step(s: SessionState, key: Key, control_only: bool)
    ensures
        respond(s, key, control_only).0.run == s.run || respond(s, key, control_only).0.run
            == restarted(s),
{
}

/// Once the run has ended, it stays ended, and so idle, until a restart or a
/// skip.
pub proof fn law_ending_lasts(s: SessionState, key: Key, control_only: bool)
    requires
        s.finished is Some,
        s.prompt is Some || action_of(key, control_only) != Action::Restart,
    ensures
        respond(s, key, control_only).0.finished == s.finished,
        idle(respond(s, key, control_only).0),
        ticked(s, idle(s)).0 == s,
{
}

/// The standard rules of the game, B3/S23: in the next generation a dead
/// cell comes alive exactly when three of its neighbours are alive, and a
/// live cell stays alive exactly when two or three are; so `Grid::step`,
/// which gives `next`, follows them on every cell.
pub proof fn law_standard_life_rules(b: Board, i: int)
    requires
        b.wf(),
        0 <= i < b.cells.len(),
    ensures
        ({
            let n = b.live_neighbors(i % (b.width as int), i / (b.width as int));
            &&& b.next().cells.len() == b.cells.len()
            &&& !b.cells[i] ==> (b.next().cells[i] <==> n == 3)
            &&& b.cells[i] ==> (b.next().cells[i] <==> (n == 2 || n == 3))
        }),
{
}

/// The same rules cell by cell on the grid: the cell at `(x, y)` is alive in
/// the next generation exactly when it has three live neighbours, or has two
/// and is alive now.
pub proof fn law_cell_fate(b: Board, x: int, y: int)
    requires
        b.wf(),
        0 <= x < b.width,
        0 <= y < b.height,
    ensures
        b.next().alive(x, y) <==> (b.live_neighbors(x, y) == 3 || (b.alive(x, y)
            && b.live_neighbors(x, y) == 2)),
{
    lemma_cell_index(x, y, b.width as int, b.height as int);
}

/// The digits of a number, as the prompt would hold them, are digits and
/// read back as the number.
proof fn lemma_decimal_reads_back(n: nat)
    ensures
        decimal(n).len() > 0,
        forall|k: int| 0 <= k < decimal(n).len() ==> is_digit(#[trigger] decimal(n)[k]),
        digits_value(decimal(n)) == n,
    decreases n,
{
    let last = (n % 10) as int;
    assert((digit_char(last) as int) == '0' as int + last);
    if n < 10 {
        assert(decimal(n).drop_last() =~= Seq::<char>::empty());
        assert(decimal(n).last() == digit_char(last));
        assert(digits_value(Seq::<char>::empty()) == 0);
        assert(n % 10 == n);
    } else {
        lemma_decimal_reads_back(n / 10);
        let d = decimal(n);
        assert(d.drop_last() =~= decimal(n / 10));
        assert(d.last() == digit_char(last));
        lemma_fundamental_div_mod(n as int, 10);
        assert forall|k: int| 0 <= k < d.len() implies is_digit(#[trigger] d[k]) by {
            if k < d.len() - 1 {
                assert(d[k] == decimal(n / 10)[k]);
            }
        }
    }
}

/// Going to a typed generation: with the prompt holding the digits of `n`,
/// Enter skips to `n` itself when there is no limit or `n` is within it, and
/// to the limit only when `n` lies beyond it; the prompt closes.
pub proof fn law_go_to_typed_generation(s: SessionState, n: usize)
    requires
        s.prompt == Some(decimal(n as nat)),
    ensures
        respond(s, Key::Enter, false).1 == Response::SkipTo(
            match s.run.limit {
                Some(limit) => if n <= limit { n } else { limit },
                None => n,
            },
        ),
        respond(s, Key::Enter, false).0.prompt is None,
        respond(s, Key::Enter, false).0.run == s.run,
{
    lemma_decimal_reads_back(n as nat);
}

/// The block a short input is laid out as is never wider than the input has
/// bits, nor than the grid, nor taller than the grid.
pub proof fn law_block_within_input(bits: int, width: int, height: int)
    requires
        0 <= width,
        0 <= height,
        0 < bits <= width * height,
    ensures
        1 <= source_width(bits, width, height) <= bits,
        source_width(bits, width, height) <= width,
        1 <= source_height(bits, width, height) <= height,
{
    assert(width >= 1 && height >= 1) by (nonlinear_arith)
        requires
            0 <= width,
            0 <= height,
            0 < bits <= width * height,
    ;
    lemma_least_bounds(1, if bits <= width { bits } else { width }, bits, width, height);
}

/// The search for the block's width ends between where it starts and its
/// cap.
proof fn lemma_least_bounds(from: int, cap: int, bits: int, width: int, height: int)
    requires
        from <= cap,
    ensures
        from <= least_wide_enough(from, cap, bits, width, height) <= cap,
    decreases cap - from,
{
    if from < cap && !wide_enough(from, bits, width, height) {
        lemma_least_bounds(from + 1, cap, bits, width, height);
    }
}

/// However short a stream of `0xff` bytes, it lights the whole first row:
/// the first row of the block holds only bits of the input.
pub proof fn law_full_bytes_light_the_first_row(bytes: Seq<u8>, width: nat, height: nat, x: int)
    requires
        forall|j: int| 0 <= j < bytes.len() ==> bytes[j] == 0xff,
        bytes.len() > 0,
        width * height > 0,
        0 <= x < width,
    ensures
        seeded(bytes, width, height).cells[x],
{
    let bits = 8 * bytes.len() as int;
    let w = width as int;
    let h = height as int;
    assert(w >= 1 && h >= 1) by (nonlinear_arith)
        requires
            w >= 0,
            h >= 0,
            w * h > 0,
    ;
    assert(x < w * h) by (nonlinear_arith)
        requires
            0 <= x < w,
            h >= 1,
    ;
    if bits >= w * h {
        law_full_bytes_fill_the_board(bytes, width, height);
        assert(seeded(bytes, width, height).cells[x]);
    } else {
        lemma_full_bits(bytes, 0, bits);
        law_block_within_input(bits, w, h);
        let sw = source_width(bits, w, h);
        let sh = source_height(bits, w, h);
        lemma_fundamental_div_mod_converse(x, w, 0, x);
        assert(0 * sh / h == 0);
        assert(x * sw / w < sw) by (nonlinear_arith)
            requires
                0 <= x < w,
                1 <= sw,
        {
            lemma_fundamental_div_mod(x * sw, w);
        }
        assert(0 <= x * sw / w) by (nonlinear_arith)
            requires
                0 <= x,
                1 <= sw,
                1 <= w,
        ;
        assert(stream_bit(bytes, x * sw / w));
    }
}

/// A width asked for is kept when it is at least one, and so is a height;
/// nothing asked for gives `DEFAULT_WIDTH`, and asking for 0 gives 1.
pub proof fn law_asked_size_is_kept(byte_count: int, width: Option<usize>, height: Option<usize>)
    requires
        0 <= byte_count,
    ensures
        forall|w: usize| width == Some(w) && w >= 1 ==> dimensions(byte_count, width, height).0 == w,
        width == Some(0usize) ==> dimensions(byte_count, width, height).0 == 1,
        width is None ==> dimensions(byte_count, width, height).0 == DEFAULT_WIDTH,
        forall|h: usize| height == Some(h) && h >= 1 ==> dimensions(byte_count, width, height).1 == h,
        height == Some(0usize) ==> dimensions(byte_count, width, height).1 == 1,
{
}

/// Piped input is taken for a path exactly when it is UTF-8 of at most
/// `MAX_PATH_INPUT` bytes whose text, without the white space at its ends, is
/// one line that is not empty; the path is that text, whatever characters
/// it holds, blanks inside it included.
pub proof fn law_piped_path_is_the_trimmed_line(buffer: Seq<u8>)
    ensures
        (buffer.len() <= MAX_PATH_INPUT && valid_utf8(buffer) && trimmed(decode_utf8(buffer)).len()
            > 0 && !trimmed(decode_utf8(buffer)).contains('\n')) ==> path_text_of(buffer) == Some(
            trimmed(decode_utf8(buffer)),
        ),
        !(buffer.len() <= MAX_PATH_INPUT && valid_utf8(buffer) && trimmed(decode_utf8(buffer)).len()
            > 0 && !trimmed(decode_utf8(buffer)).contains('\n')) ==> path_text_of(buffer) is None,
{
}

/// What trimming leaves: the text between the white space at its ends. It
/// starts and ends with a character that is not white space, and the text
/// is it with only white space before and after.
pub proof fn law_trimmed_drops_only_end_space(text: Seq<char>)
    ensures
        ({
            let t = trimmed(text);
            t.len() > 0 ==> !is_space(t[0]) && !is_space(t.last())
        }),
        exists|start: int, end: int|
            0 <= start <= end <= text.len() && #[trigger] text.subrange(start, end) == trimmed(text)
                && (forall|k: int| 0 <= k < start ==> is_space(text[k])) && (forall|k: int|
                end <= k < text.len() ==> is_space(text[k])),
{
    lemma_first_solid(text, 0);
    let start = first_solid(text, 0);
    if start >= text.len() {
        assert(text.subrange(text.len() as int, text.len() as int) =~= trimmed(text));
        assert(forall|k: int| 0 <= k < text.len() ==> is_space(text[k]));
    } else {
        lemma_last_solid(text, text.len() as int, start);
        let end = last_solid(text, text.len() as int);
        assert(text.subrange(start, end) == trimmed(text));
    }
}

/// Everything before `first_solid` from `from` is white space, and it stops
/// at a character that is not.
proof fn lemma_first_solid(text: Seq<char>, from: int)
    requires
        0 <= from <= text.len(),
    ensures
        from <= first_solid(text, from) <= text.len(),
        forall|k: int| from <= k < first_solid(text, from) ==> is_space(#[trigger] text[k]),
        first_solid(text, from) < text.len() ==> !is_space(text[first_solid(text, from)]),
    decreases text.len() - from,
{
    if from < text.len() && is_space(text[from]) {
        lemma_first_solid(text, from + 1);
    }
}

/// Everything from `last_solid` below `to` on is white space, and the
/// character before it is not.
proof fn lemma_last_solid(text: Seq<char>, to: int, start: int)
    requires
        0 <= start < to <= text.len(),
        !is_space(text[start]),
    ensures
        start < last_solid(text, to) <= to,
        forall|k: int| last_solid(text, to) <= k < to ==> is_space(#[trigger] text[k]),
        !is_space(text[last_solid(text, to) - 1]),
    decreases to,
{
    if is_space(text[to - 1]) {
        lemma_last_solid(text, to - 1, start);
    }
}

} // verus!
