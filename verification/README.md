# conway

Conway's Game of Life seeded from the bytes of any file, with its logic
proved correct by Verus.

`file -> bytes -> bits -> cells -> generations`

## Seeding

Each byte gives eight bits, most significant first. An input with exactly
one bit per cell fills the grid row by row. A longer input is shared out:
each cell stands for a run of bits and lives when its run is denser than the
whole. A shorter input is laid out as a block with the shape of the grid and
stretched over it.

The block's width is the rounded-up square root of
`bits * width / height`, computed exactly in integers (the least `s` with
`s * s * height >= bits * width`), since the library holds no floating
point. A square root taken in `f64` can round to another width on some
inputs: for 27 bytes on a 25 by 24 grid it gives a 16 by 14 block where this
rule gives 15 by 15, and the first generation differs.

So the program itself, in `app/`, takes that square root in `f64` and hands
the block it gives to `Grid::from_bytes_with_block`, which lays the input out
in any block it is given and is verified against `seeded_in`; the viewer
restarts in the same block. `Grid::from_bytes` seeds with the exact block.

## Layout

- `src/` — the verified library.
  - `bits.rs` — the byte stream read as bits, most significant bit first,
    and counting the set bits of a range.
  - `grid.rs` — the board, its abstract model (`Board`), the neighbourhood
    with wrapping edges, and the rules of the game.
  - `seed.rs` — the first generation from the bytes, and the grid size.
  - `watch.rs` — when a run is over: extinct or settled.
  - `run.rs` — a run, generation after generation, up to a limit.
  - `session.rs` — the decisions of the interactive viewer: keys, pause,
    restart, the go-to prompt and skipping ahead.
  - `screen.rs`, `help.rs`, `text.rs` — the text the program shows.
  - `input.rs` — whether piped input names a file.
  - `laws.rs` — properties of the whole: seeding, the game, the watcher and
    the viewer.
- `tests/` — tests of the library on concrete values.
- `app/` — the program: command line, files and standard input, and the
  terminal, around the library.
