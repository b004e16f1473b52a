use conway::grid::Grid;
use conway::run::{Advance, Run};
use conway::seed::dimensions_for;
use conway::watch::{Ending, Watcher};

fn grid_of(width: usize, height: usize, live: &[(usize, usize)]) -> Grid {
    let mut grid = Grid::new(width, height);
    for &(x, y) in live {
        grid.set(x, y, true);
    }
    grid
}

#[test]
fn an_empty_board_stays_empty() {
    let mut grid = Grid::new(7, 5);
    for _ in 0..3 {
        grid.step();
        assert_eq!(grid.population(), 0);
    }
    assert_eq!((grid.width(), grid.height()), (7, 5));
}

#[test]
fn a_full_neighbourhood_counts_eight() {
    let grid = grid_of(3, 3, &[(0, 0), (1, 0), (2, 0), (0, 1), (1, 1), (2, 1), (0, 2), (1, 2), (2, 2)]);
    assert_eq!(grid.live_neighbors(1, 1), 8);
    assert_eq!(grid.live_neighbors(0, 0), 8);
}

#[test]
fn a_lone_cell_has_no_neighbour_on_a_one_by_one_board() {
    let grid = grid_of(1, 1, &[(0, 0)]);
    assert_eq!(grid.live_neighbors(0, 0), 0);
}

#[test]
fn coordinates_past_the_board_wrap_like_the_edges() {
    let grid = grid_of(4, 4, &[(0, 0)]);
    assert_eq!(grid.live_neighbors(4, 0), grid.live_neighbors(0, 0));
    assert_eq!(grid.live_neighbors(3, 3), 1);
}

#[test]
fn step_keeps_the_size_of_the_board() {
    let mut grid = grid_of(6, 3, &[(1, 1), (2, 1), (3, 1)]);
    grid.step();
    assert_eq!((grid.width(), grid.height(), grid.cells().len()), (6, 3, 18));
}

#[test]
fn an_exact_fit_is_the_bit_stream_row_by_row() {
    let bytes = [0x5a, 0xc3, 0x0f];
    let grid = Grid::from_bytes(&bytes, 6, 4);
    for i in 0..24 {
        let bit = bytes[i / 8] >> (7 - i % 8) & 1 == 1;
        assert_eq!(grid.cells()[i], bit, "cell {i}");
    }
}

#[test]
fn zero_bytes_seed_an_empty_board() {
    for (len, width, height) in [(1, 8, 8), (4, 4, 4), (100, 5, 5), (3, 2, 12)] {
        let grid = Grid::from_bytes(&vec![0; len], width, height);
        assert_eq!(grid.population(), 0);
    }
}

#[test]
fn enough_full_bytes_fill_the_board() {
    for (len, width, height) in [(2, 4, 4), (9, 7, 10), (100, 13, 11)] {
        let grid = Grid::from_bytes(&vec![0xff; len], width, height);
        assert_eq!(grid.population(), width * height);
    }
}

#[test]
fn no_bytes_or_no_cells_seed_nothing() {
    assert_eq!(Grid::from_bytes(&[], 4, 4).population(), 0);
    assert_eq!(Grid::from_bytes(&[0xff], 0, 4).cells().len(), 0);
}

#[test]
fn the_same_bytes_seed_the_same_board() {
    let bytes: Vec<u8> = (0..=255).collect();
    let a = Grid::from_bytes(&bytes, 9, 7);
    let b = Grid::from_bytes(&bytes, 9, 7);
    assert_eq!(a.cells(), b.cells());
}

#[test]
fn the_last_byte_of_a_long_input_counts() {
    let mut bytes = vec![0x00; 64];
    let before = Grid::from_bytes(&bytes, 4, 4);
    bytes[63] = 0xff;
    let after = Grid::from_bytes(&bytes, 4, 4);
    assert_eq!(before.population(), 0);
    assert!(after.get(3, 3));
}

#[test]
fn an_empty_board_is_extinct() {
    let mut watcher = Watcher::new();
    assert_eq!(watcher.verdict(&Grid::new(3, 3)), Some(Ending::Extinct));
}

#[test]
fn a_still_life_settles_when_seen_again() {
    let grid = grid_of(4, 4, &[(1, 1), (2, 1), (1, 2), (2, 2)]);
    let mut watcher = Watcher::new();
    assert_eq!(watcher.verdict(&grid), None);
    assert_eq!(watcher.verdict(&grid), Some(Ending::Settled));
}

#[test]
fn a_blinker_settles_when_its_first_phase_returns() {
    let mut grid = grid_of(5, 5, &[(1, 2), (2, 2), (3, 2)]);
    let mut watcher = Watcher::new();
    grid.step();
    assert_eq!(watcher.verdict(&grid), None);
    grid.step();
    assert_eq!(watcher.verdict(&grid), None);
    grid.step();
    assert_eq!(watcher.verdict(&grid), Some(Ending::Settled));
}

#[test]
fn the_watcher_forgets_all_but_the_last_two_boards() {
    let a = grid_of(3, 3, &[(0, 0)]);
    let b = grid_of(3, 3, &[(1, 1)]);
    let c = grid_of(3, 3, &[(2, 2)]);
    let mut watcher = Watcher::new();
    assert_eq!(watcher.verdict(&a), None);
    assert_eq!(watcher.verdict(&b), None);
    assert_eq!(watcher.verdict(&c), None);
    assert_eq!(watcher.verdict(&a), None);
    assert_eq!(watcher.verdict(&a), Some(Ending::Settled));
}

#[test]
fn a_run_stops_at_its_limit() {
    let grid = grid_of(5, 5, &[(1, 2), (2, 2), (3, 2)]);
    let mut run = Run::new(grid, Some(2));
    assert_eq!(run.advance(), Advance::Stepped(None));
    assert_eq!(run.advance(), Advance::Stepped(None));
    assert_eq!(run.generation(), 2);
    assert_eq!(run.advance(), Advance::LimitReached);
    assert_eq!(run.generation(), 2);
}

#[test]
fn a_run_without_a_limit_ends_when_the_board_settles() {
    let grid = grid_of(4, 4, &[(1, 1), (2, 1), (1, 2), (2, 2)]);
    let mut run = Run::new(grid, None);
    assert_eq!(run.advance(), Advance::Stepped(None));
    assert_eq!(run.advance(), Advance::Stepped(Some(Ending::Settled)));
}

#[test]
fn sizes_are_at_least_one() {
    assert_eq!(dimensions_for(0, Some(0), Some(0)), (1, 1));
    assert_eq!(dimensions_for(0, None, None), (64, 1));
    assert_eq!(dimensions_for(5, Some(3), None), (3, 14));
    assert_eq!(dimensions_for(usize::MAX, Some(1), None), (1, 32));
}

#[test]
fn a_step_does_the_same_wherever_the_board_is_cut() {
    let glider = [(1, 0), (2, 1), (0, 2), (1, 2), (2, 2)];
    let mut here = grid_of(6, 5, &glider);
    let moved: Vec<(usize, usize)> = glider.iter().map(|&(x, y)| ((x + 4) % 6, (y + 3) % 5)).collect();
    let mut there = grid_of(6, 5, &moved);
    for _ in 0..7 {
        here.step();
        there.step();
        for y in 0..5 {
            for x in 0..6 {
                assert_eq!(there.get((x + 4) % 6, (y + 3) % 5), here.get(x, y), "at ({x}, {y})");
            }
        }
    }
}

#[test]
fn a_short_input_is_stretched_from_the_block_given() {
    let bytes: Vec<u8> = (0..27u8).map(|i| i.wrapping_mul(73).wrapping_add(19)).collect();
    let exact = Grid::from_bytes(&bytes, 25, 24);
    assert_eq!(Grid::from_bytes_with_block(&bytes, 25, 24, 15, 15).cells(), exact.cells());
    let other = Grid::from_bytes_with_block(&bytes, 25, 24, 16, 14);
    assert_ne!(other.cells(), exact.cells());
    for y in 0..24 {
        for x in 0..25 {
            let source = (y * 14 / 24) * 16 + x * 16 / 25;
            let bit = source / 8 < bytes.len() && bytes[source / 8] >> (7 - source % 8) & 1 == 1;
            assert_eq!(other.get(x, y), bit, "at ({x}, {y})");
        }
    }
}

#[test]
fn long_inputs_ignore_the_block() {
    let bytes = vec![0xa5; 40];
    assert_eq!(
        Grid::from_bytes_with_block(&bytes, 6, 6, 1, 1).cells(),
        Grid::from_bytes(&bytes, 6, 6).cells()
    );
}

#[test]
fn coordinates_read_as_negative_numbers_wrap_too() {
    let grid = grid_of(5, 5, &[(3, 0), (0, 1), (4, 4)]);
    assert_eq!(grid.live_neighbors(usize::MAX, 0), grid.live_neighbors(4, 0));
    assert_eq!(grid.live_neighbors(usize::MAX, usize::MAX), grid.live_neighbors(4, 4));
}
