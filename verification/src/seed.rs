//! Turning the bits of a byte stream into the first generation of a grid,
//! and choosing the size of that grid.

use vstd::prelude::*;
use vstd::arithmetic::div_mod::{
    lemma_fundamental_div_mod,
    lemma_div_is_ordered,
    lemma_div_plus_one,
    lemma_div_by_multiple,
};
use crate::bits::{stream_bit, ones_in, ones_between, bit_at, lemma_ones_split, lemma_ones_bound};
use crate::grid::{Board, Grid, lemma_cell_index};

verus! {

/// Width of a grid whose width nobody chose.
pub const DEFAULT_WIDTH: usize = 64;

/// Tallest grid chosen from the size of the input alone.
pub const MAX_AUTO_HEIGHT: usize = 32;

pub open spec fn min(a: int, b: int) -> int {
    if a <= b { a } else { b }
}

pub open spec fn max(a: int, b: int) -> int {
    if a >= b { a } else { b }
}

/// `n / d` rounded up.
pub open spec fn ceil_div(n: int, d: int) -> int {
    n / d + if n % d != 0 { 1int } else { 0int }
}

/// Whether a region holding `ones` set bits out of `span` is denser than the
/// input as a whole, `total_ones` out of `total_bits`; a region exactly as
/// dense as the whole counts when at least half of it is set.
pub open spec fn denser(ones: int, span: int, total_ones: int, total_bits: int) -> bool {
    if ones * total_bits != total_ones * span {
        ones * total_bits > total_ones * span
    } else {
        ones * 2 >= span
    }
}

/// First bit of the region of a long input that cell `i` of `cells` stands for.
pub open spec fn chunk_start(i: int, bits: int, cells: int) -> int {
    i * bits / cells
}

/// End of the region of a long input that cell `i` of `cells` stands for.
pub open spec fn chunk_end(i: int, bits: int, cells: int) -> int {
    max((i + 1) * bits / cells, chunk_start(i, bits, cells) + 1)
}

/// Whether `s` columns are enough: `s * s >= bits * width / height`.
pub open spec fn wide_enough(s: int, bits: int, width: int, height: int) -> bool {
    s * s * height >= bits * width
}

/// The least `s` in `from ..= cap` that is wide enough, or `cap`.
pub open spec fn least_wide_enough(from: int, cap: int, bits: int, width: int, height: int) -> int
    decreases cap - from,
{
    if from >= cap || wide_enough(from, bits, width, height) {
        from
    } else {
        least_wide_enough(from + 1, cap, bits, width, height)
    }
}

/// Columns of the block of the input that a short input is laid out as: the
/// square root of `bits * width / height` rounded up, so that the block has
/// the shape of the grid, and at most `bits` and `width`.
///
/// The square root is the exact one, found in integer arithmetic: the least
/// `s` with `s * s * height >= bits * width`. A program that takes the
/// square root in `f64` and rounds it up can get another width where the
/// rounding errs; for 27 bytes on a 25 by 24 grid, `f64` gives 16 columns
/// (and 14 rows) where this rule gives 15 (and 15), and the grids differ.
pub open spec fn source_width(bits: int, width: int, height: int) -> int {
    least_wide_enough(1, min(bits, width), bits, width, height)
}

/// Rows of that block: enough to hold all bits, at most `height`, at least 1.
pub open spec fn source_height(bits: int, width: int, height: int) -> int {
    max(1, min(ceil_div(bits, source_width(bits, width, height)), height))
}

/// Cell `i` of the first generation of a `width` by `height` grid seeded from
/// `bytes`, a short input being laid out as a block of `columns` by `rows`.
/// - With no bits or no cells, every cell is dead.
/// - With more bits than cells, each cell stands for a run of bits and lives
///   when its run is denser than the input as a whole.
/// - Otherwise the bits are laid out row by row as a block of `columns`
///   columns and `rows` rows, and the block is stretched over the grid.
pub open spec fn seeded_cell_in(
    bytes: Seq<u8>,
    width: int,
    height: int,
    columns: int,
    rows: int,
    i: int,
) -> bool {
    let bits = 8 * bytes.len() as int;
    let cells = width * height;
    if bits == 0 || cells == 0 {
        false
    } else if bits > cells {
        let start = chunk_start(i, bits, cells);
        let end = chunk_end(i, bits, cells);
        denser(ones_in(bytes, start, end) as int, end - start, ones_in(bytes, 0, bits) as int, bits)
    } else {
        let x = i % width;
        let y = i / width;
        stream_bit(bytes, (y * rows / height) * columns + x * columns / width)
    }
}

/// The first generation of a `width` by `height` grid seeded from `bytes`,
/// a short input being laid out as a block of `columns` by `rows`.
pub open spec fn seeded_in(bytes: Seq<u8>, width: nat, height: nat, columns: int, rows: int) -> Board {
    Board {
        width,
        height,
        cells: Seq::new(
            width * height,
            |i: int| seeded_cell_in(bytes, width as int, height as int, columns, rows, i),
        ),
    }
}

/// Cell `i` of the first generation of a `width` by `height` grid seeded from
/// `bytes`, a short input being laid out as a block of `source_width`
/// columns and `source_height` rows; see `seeded_cell_in`.
pub open spec fn seeded_cell(bytes: Seq<u8>, width: int, height: int, i: int) -> bool {
    let bits = 8 * bytes.len() as int;
    seeded_cell_in(
        bytes,
        width,
        height,
        source_width(bits, width, height),
        source_height(bits, width, height),
        i,
    )
}

/// The first generation of a `width` by `height` grid seeded from `bytes`.
///
/// On an input with fewer bits than cells, the shape of the block the bits
/// are laid out in comes from `source_width`, which takes an exact integer
/// square root; where a floating-point square root would round to another
/// width, the block, and so the grid, differs from one seeded that way.
/// `seeded_in` seeds with a block of any shape given.
pub open spec fn seeded(bytes: Seq<u8>, width: nat, height: nat) -> Board {
    Board {
        width,
        height,
        cells: Seq::new(width * height, |i: int| seeded_cell(bytes, width as int, height as int, i)),
    }
}

/// Whether `columns` by `rows` is a block a short input can be laid out as
/// on a `width` by `height` grid: no wider and no taller than the grid, and
/// not empty. Only an input with bits, but no more than there are cells, is
/// laid out as a block.
pub open spec fn block_fits(bits: int, width: int, height: int, columns: int, rows: int) -> bool {
    0 < bits <= width * height ==> 1 <= columns <= width && 1 <= rows <= height
}

/// With more bits than cells, the regions of consecutive cells are
/// consecutive, non-empty and within the input.
pub proof fn lemma_chunk(i: int, bits: int, cells: int)
    requires
        0 <= i < cells < bits,
    ensures
        chunk_end(i, bits, cells) == (i + 1) * bits / cells,
        chunk_end(i, bits, cells) == chunk_start(i + 1, bits, cells),
        0 <= chunk_start(i, bits, cells) < chunk_end(i, bits, cells) <= bits,
{
    let q = i * bits / cells;
    let r = i * bits % cells;
    lemma_fundamental_div_mod(i * bits, cells);
    assert((i + 1) * bits == cells * q + r + bits) by (nonlinear_arith)
        requires
            i * bits == cells * q + r,
    ;
    assert(cells * q + cells <= (i + 1) * bits);
    lemma_div_is_ordered(cells * q + cells, (i + 1) * bits, cells);
    lemma_div_plus_one(cells * q, cells);
    lemma_div_by_multiple(q, cells);
    assert(cells * q == q * cells) by (nonlinear_arith);
    assert(0 <= i * bits) by (nonlinear_arith)
        requires
            0 <= i,
            0 <= bits,
    ;
    assert(0 <= q) by (nonlinear_arith)
        requires
            0 <= i * bits,
            0 < cells,
            q == i * bits / cells,
    ;
    assert((i + 1) * bits <= cells * bits) by (nonlinear_arith)
        requires
            i + 1 <= cells,
            0 <= bits,
    ;
    lemma_div_is_ordered((i + 1) * bits, cells * bits, cells);
    lemma_div_by_multiple(bits, cells);
    assert(cells * bits == bits * cells) by (nonlinear_arith);
}

/// Row and column of position `i` of a row-major `width` by `height` grid.
pub proof fn lemma_split_index(i: int, width: int, height: int)
    requires
        0 <= width,
        0 <= height,
        0 <= i < width * height,
    ensures
        0 <= i % width < width,
        0 <= i / width < height,
        (i / width) * width + i % width == i,
{
    assert(width > 0) by (nonlinear_arith)
        requires
            0 <= width,
            0 <= height,
            0 <= i < width * height,
    ;
    lemma_fundamental_div_mod(i, width);
    assert(width * (i / width) == (i / width) * width) by (nonlinear_arith);
    assert(0 <= i / width < height) by (nonlinear_arith)
        requires
            0 <= i < width * height,
            width > 0,
            i == width * (i / width) + i % width,
            0 <= i % width < width,
    ;
}

/// Rows of a grid `width` cells wide that fit `byte_count` bytes one bit per
/// cell, at least 1 and at most `MAX_AUTO_HEIGHT`.
pub open spec fn auto_height(byte_count: int, width: int) -> int {
    let bits = min(byte_count * 8, usize::MAX as int);
    max(1, min(ceil_div(bits, width), MAX_AUTO_HEIGHT as int))
}

/// The grid size for an input of `byte_count` bytes: the width asked for or
/// `DEFAULT_WIDTH`, the height asked for or `auto_height`, each at least 1.
pub open spec fn dimensions(byte_count: int, width: Option<usize>, height: Option<usize>) -> (int, int) {
    let w = max(
        1,
        match width {
            Some(w) => w as int,
            None => DEFAULT_WIDTH as int,
        },
    );
    let h = max(
        1,
        match height {
            Some(h) => h as int,
            None => auto_height(byte_count, w),
        },
    );
    (w, h)
}

/// The size of the grid for an input of `byte_count` bytes, given the width
/// and height that were asked for, if any.
pub fn dimensions_for(byte_count: usize, width: Option<usize>, height: Option<usize>) -> (dims: (
    usize,
    usize,
))
    ensures
        (dims.0 as int, dims.1 as int) == dimensions(byte_count as int, width, height),
{
    let width = match width {
        Some(w) => w,
        None => DEFAULT_WIDTH,
    };
    let width = if width < 1 { 1 } else { width };
    let height = match height {
        Some(h) => h,
        None => {
            let bits = match byte_count.checked_mul(8) {
                Some(bits) => bits,
                None => usize::MAX,
            };
            proof {
                if bits % width != 0 {
                    assert(bits / width < usize::MAX) by (nonlinear_arith)
                        requires
                            width >= 2,
                            bits <= usize::MAX,
                    ;
                }
            }
            let rows = bits / width + if bits % width != 0 { 1 } else { 0 };
            if rows < 1 {
                1
            } else if rows > MAX_AUTO_HEIGHT {
                MAX_AUTO_HEIGHT
            } else {
                rows
            }
        },
    };
    let height = if height < 1 { 1 } else { height };
    (width, height)
}

/// `i * num / den`, computed without overflow.
fn scale(i: usize, num: usize, den: usize) -> (r: usize)
    requires
        0 < den,
        i <= den,
    ensures
        r == (i * num) / (den as int),
        r <= num,
        i < den && num > 0 ==> r < num,
{
    proof {
        assert(i * num <= den * num && (i as int) * (num as int) <= u128::MAX) by (nonlinear_arith)
            requires
                i <= den,
                i <= usize::MAX,
                num <= usize::MAX,
                usize::MAX < 0x1_0000_0000_0000_0000int,
        ;
        lemma_div_is_ordered(i * num, den * num, den as int);
        lemma_div_by_multiple(num as int, den as int);
        assert(den * num == num * den) by (nonlinear_arith);
        if i < den && num > 0 {
            let x = i * num;
            lemma_fundamental_div_mod(x as int, den as int);
            assert(x / (den as int) < num) by (nonlinear_arith)
                requires
                    i < den,
                    num > 0,
                    x == i * num,
                    x == den * (x / (den as int)) + x % (den as int),
                    0 <= x % (den as int),
            ;
        }
    }
    let product: u128 = i as u128 * num as u128;
    (product / den as u128) as usize
}

fn denser_than_average(ones: usize, span: usize, total_ones: usize, total_bits: usize) -> (dense:
    bool)
    requires
        ones <= span,
    ensures
        dense == denser(ones as int, span as int, total_ones as int, total_bits as int),
{
    proof {
        assert((ones as int) * (total_bits as int) <= u128::MAX && (total_ones as int) * (
        span as int) <= u128::MAX) by (nonlinear_arith)
            requires
                ones <= usize::MAX,
                total_bits <= usize::MAX,
                total_ones <= usize::MAX,
                span <= usize::MAX,
                usize::MAX < 0x1_0000_0000_0000_0000int,
        ;
    }
    let here: u128 = ones as u128 * total_bits as u128;
    let average: u128 = total_ones as u128 * span as u128;
    if here != average {
        return here > average;
    }
    ones >= span - ones
}

/// Whether `s` columns are enough for `bits` bits on a `width` by `height`
/// grid.
fn is_wide_enough(s: usize, bits: usize, width: usize, height: usize) -> (enough: bool)
    requires
        s <= width,
        bits <= width * height,
        width * height <= isize::MAX,
    ensures
        enough == wide_enough(s as int, bits as int, width as int, height as int),
{
    proof {
        assert((s as int) * (s as int) <= u128::MAX && (s as int) * (s as int) * (height as int)
            <= u128::MAX && (bits as int) * (
        width as int) <= u128::MAX) by (nonlinear_arith)
            requires
                s <= width,
                bits <= width * height,
                width * height <= 0x8000_0000_0000_0000int,
                width <= 0x1_0000_0000_0000_0000int,
        ;
    }
    s as u128 * s as u128 * height as u128 >= bits as u128 * width as u128
}

/// Columns and rows of the block that a short input is laid out as.
fn source_dimensions(bits: usize, width: usize, height: usize) -> (dims: (usize, usize))
    requires
        0 < bits <= width * height,
        width * height <= isize::MAX,
    ensures
        dims.0 == source_width(bits as int, width as int, height as int),
        dims.1 == source_height(bits as int, width as int, height as int),
        1 <= dims.0 <= width,
        1 <= dims.1 <= height,
{
    proof {
        assert(width >= 1 && height >= 1) by (nonlinear_arith)
            requires
                0 < bits <= width * height,
        ;
    }
    let cap = if bits < width { bits } else { width };
    let mut s: usize = 1;
    while s < cap && !is_wide_enough(s, bits, width, height)
        invariant
            1 <= s <= cap,
            cap == min(bits as int, width as int),
            0 < bits <= width * height,
            width * height <= isize::MAX,
            cap <= width,
            least_wide_enough(1, cap as int, bits as int, width as int, height as int)
                == least_wide_enough(s as int, cap as int, bits as int, width as int, height as int),
        decreases cap - s,
    {
        s += 1;
    }
    let rows = bits / s + if bits % s != 0 { 1 } else { 0 };
    let rows = if rows < height { rows } else { height };
    let rows = if rows < 1 { 1 } else { rows };
    (s, rows)
}

impl Grid {
    /// The first generation of a `width` by `height` grid seeded from the
    /// bits of `bytes`, most significant bit of each byte first; see
    /// `seeded`.
    pub fn from_bytes(bytes: &[u8], width: usize, height: usize) -> (grid: Self)
        requires
            width * height <= isize::MAX,
            bytes@.len() * 8 <= usize::MAX,
        ensures
            grid.wf(),
            grid@ == seeded(bytes@, width as nat, height as nat),
    {
        let bits = bytes.len() * 8;
        let cells = width * height;
        let (columns, rows) = if 0 < bits && bits <= cells {
            source_dimensions(bits, width, height)
        } else {
            (1, 1)
        };
        let grid = Self::from_bytes_with_block(bytes, width, height, columns, rows);
        proof {
            let target = seeded(bytes@, width as nat, height as nat);
            assert(grid@.cells =~= target.cells);
        }
        grid
    }

    /// The first generation of a `width` by `height` grid seeded from the
    /// bits of `bytes`, most significant bit of each byte first, a short
    /// input being laid out as a block of `columns` by `rows`; see
    /// `seeded_in`.
    pub fn from_bytes_with_block(
        bytes: &[u8],
        width: usize,
        height: usize,
        columns: usize,
        rows: usize,
    ) -> (grid: Self)
        requires
            width * height <= isize::MAX,
            bytes@.len() * 8 <= usize::MAX,
            block_fits((bytes@.len() * 8) as int, width as int, height as int, columns as int, rows as int),
        ensures
            grid.wf(),
            grid@ == seeded_in(bytes@, width as nat, height as nat, columns as int, rows as int),
    {
        let mut grid = Self::new(width, height);
        let bits = bytes.len() * 8;
        let cells = width * height;
        let ghost target = seeded_in(bytes@, width as nat, height as nat, columns as int, rows as int);
        if bits == 0 || cells == 0 {
            assert(grid@.cells =~= target.cells);
            return grid;
        }
        if bits > cells {
            let mut chunks: Vec<(usize, usize)> = Vec::with_capacity(cells);
            let mut total: usize = 0;
            let mut index: usize = 0;
            while index < cells
                invariant
                    0 < cells < bits,
                    bits == bytes@.len() * 8,
                    index <= cells,
                    chunks@.len() == index,
                    total == ones_in(bytes@, 0, chunk_start(index as int, bits as int, cells as int)),
                    chunk_start(index as int, bits as int, cells as int) <= bits,
                    forall|k: int|
                        #![trigger chunks@[k]]
                        0 <= k < index ==> {
                            let start = chunk_start(k, bits as int, cells as int);
                            let end = chunk_end(k, bits as int, cells as int);
                            &&& chunks@[k].0 == ones_in(bytes@, start, end)
                            &&& chunks@[k].1 == end - start
                            &&& chunks@[k].0 <= chunks@[k].1
                        },
                decreases cells - index,
            {
                proof {
                    lemma_chunk(index as int, bits as int, cells as int);
                }
                let start = scale(index, bits, cells);
                let next = scale(index + 1, bits, cells);
                let end = if next > start + 1 { next } else { start + 1 };
                let ones = ones_between(bytes, start, end);
                proof {
                    lemma_ones_split(bytes@, 0, start as int, end as int);
                    lemma_ones_bound(bytes@, 0, end as int);
                    lemma_ones_bound(bytes@, start as int, end as int);
                }
                total += ones;
                chunks.push((ones, end - start));
                index += 1;
            }
            proof {
                assert(cells * bits / (cells as int) == bits) by {
                    lemma_div_by_multiple(bits as int, cells as int);
                    assert(cells * bits == bits * cells) by (nonlinear_arith);
                }
            }
            let mut index: usize = 0;
            while index < chunks.len()
                invariant
                    0 < cells < bits,
                    bits == bytes@.len() * 8,
                    cells == width * height,
                    width * height <= isize::MAX,
                    chunks@.len() == cells,
                    index <= cells,
                    total == ones_in(bytes@, 0, bits as int),
                    target == seeded_in(bytes@, width as nat, height as nat, columns as int, rows as int),
                    grid.wf(),
                    grid@.width == width,
                    grid@.height == height,
                    forall|k: int|
                        #![trigger chunks@[k]]
                        0 <= k < cells ==> {
                            let start = chunk_start(k, bits as int, cells as int);
                            let end = chunk_end(k, bits as int, cells as int);
                            &&& chunks@[k].0 == ones_in(bytes@, start, end)
                            &&& chunks@[k].1 == end - start
                            &&& chunks@[k].0 <= chunks@[k].1
                        },
                    forall|k: int| 0 <= k < index ==> grid@.cells[k] == target.cells[k],
                decreases cells - index,
            {
                let (ones, span) = chunks[index];
                let alive = denser_than_average(ones, span, total, bits);
                proof {
                    lemma_split_index(index as int, width as int, height as int);
                }
                grid.set(index % width, index / width, alive);
                index += 1;
            }
            assert(grid@.cells =~= target.cells);
            return grid;
        }
        let mut y: usize = 0;
        while y < height
            invariant
                0 < bits <= cells,
                bits == bytes@.len() * 8,
                cells == width * height,
                width * height <= isize::MAX,
                1 <= columns <= width,
                1 <= rows <= height,
                target == seeded_in(bytes@, width as nat, height as nat, columns as int, rows as int),
                grid.wf(),
                grid@.width == width,
                grid@.height == height,
                y <= height,
                forall|k: int| 0 <= k < y * width ==> grid@.cells[k] == target.cells[k],
            decreases height - y,
        {
            let source_y = scale(y, rows, height);
            let mut x: usize = 0;
            while x < width
                invariant
                    0 < bits <= cells,
                    bits == bytes@.len() * 8,
                    cells == width * height,
                    width * height <= isize::MAX,
                    1 <= columns <= width,
                    1 <= rows <= height,
                    target == seeded_in(bytes@, width as nat, height as nat, columns as int, rows as int),
                    grid.wf(),
                    grid@.width == width,
                    grid@.height == height,
                    y < height,
                    x <= width,
                    source_y == (y * rows) / (height as int),
                    source_y < rows,
                    forall|k: int| 0 <= k < y * width + x ==> grid@.cells[k] == target.cells[k],
                decreases width - x,
            {
                let source_x = scale(x, columns, width);
                proof {
                    lemma_cell_index(x as int, y as int, width as int, height as int);
                    assert(source_y * columns + source_x < rows * columns)
                        by (nonlinear_arith)
                        requires
                            source_y < rows,
                            source_x < columns,
                    ;
                    assert(rows * columns <= width * height) by (nonlinear_arith)
                        requires
                            1 <= columns <= width,
                            1 <= rows <= height,
                    ;
                }
                let bit = bit_at(bytes, source_y * columns + source_x);
                grid.set(x, y, bit);
                x += 1;
            }
            assert(y * width + width == (y + 1) * width) by (nonlinear_arith);
            y += 1;
        }
        assert(height * width == width * height) by (nonlinear_arith);
        assert(grid@.cells =~= target.cells);
        grid
    }
}

} // verus!
