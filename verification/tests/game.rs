use conway::grid::Grid;
use conway::seed::{dimensions_for, DEFAULT_WIDTH, MAX_AUTO_HEIGHT};

fn from_rows(rows: &[&str]) -> Grid {
    let mut grid = Grid::new(rows[0].len(), rows.len());
    for (y, row) in rows.iter().enumerate() {
        for (x, cell) in row.chars().enumerate() {
            grid.set(x, y, cell == '#');
        }
    }
    grid
}

fn to_rows(grid: &Grid) -> Vec<String> {
    (0..grid.height())
        .map(|y| {
            (0..grid.width())
                .map(|x| if grid.get(x, y) { '#' } else { '.' })
                .collect()
        })
        .collect()
}

#[test]
fn block_is_a_still_life() {
    let mut grid = from_rows(&["......", ".##...", ".##...", "......", "......"]);
    let before = to_rows(&grid);
    grid.step();
    assert_eq!(to_rows(&grid), before);
}

#[test]
fn blinker_has_period_two() {
    let mut grid = from_rows(&[".....", ".....", ".###.", ".....", "....."]);
    let start = to_rows(&grid);

    grid.step();
    assert_eq!(to_rows(&grid), vec![".....", "..#..", "..#..", "..#..", "....."]);

    grid.step();
    assert_eq!(to_rows(&grid), start);
}

#[test]
fn glider_translates_by_one_cell_every_four_generations() {
    let mut grid = Grid::new(12, 12);
    for (x, y) in [(2, 1), (3, 2), (1, 3), (2, 3), (3, 3)] {
        grid.set(x, y, true);
    }

    for _ in 0..4 {
        grid.step();
    }

    let expected: Vec<(usize, usize)> = [(2, 1), (3, 2), (1, 3), (2, 3), (3, 3)]
        .iter()
        .map(|(x, y)| (x + 1, y + 1))
        .collect();

    for y in 0..grid.height() {
        for x in 0..grid.width() {
            assert_eq!(grid.get(x, y), expected.contains(&(x, y)), "at ({x}, {y})");
        }
    }
}

#[test]
fn edges_wrap_around() {
    let mut grid = Grid::new(5, 5);
    grid.set(0, 0, true);
    grid.set(4, 0, true);
    grid.set(0, 4, true);

    assert_eq!(grid.live_neighbors(4, 4), 3);
}

#[test]
fn narrow_grids_do_not_double_count_neighbors() {
    let mut grid = Grid::new(2, 2);
    grid.set(0, 0, true);
    grid.set(1, 0, true);

    assert_eq!(grid.live_neighbors(0, 1), 2);
}

#[test]
fn bytes_seed_cells_most_significant_bit_first() {
    let grid = Grid::from_bytes(&[0b1010_0000], 8, 1);
    assert_eq!(to_rows(&grid), vec!["#.#....."]);
}

#[test]
fn a_full_file_fills_the_grid() {
    let grid = Grid::from_bytes(&[0xff, 0xff, 0xff], 4, 2);
    assert_eq!(to_rows(&grid), vec!["####", "####"]);
}

#[test]
fn an_exact_fit_maps_one_bit_per_cell() {
    let grid = Grid::from_bytes(&[0b1010_1010, 0b1100_0011], 4, 4);
    assert_eq!(to_rows(&grid), vec!["#.#.", "#.#.", "##..", "..##"]);
}

#[test]
fn large_files_map_their_layout_onto_the_grid() {
    let mut bytes = vec![0x00; 500];
    bytes.extend(std::iter::repeat(0xff).take(500));
    let grid = Grid::from_bytes(&bytes, 10, 10);

    for y in 0..5 {
        for x in 0..10 {
            assert!(!grid.get(x, y), "expected dead at ({x}, {y})");
        }
    }
    for y in 5..10 {
        for x in 0..10 {
            assert!(grid.get(x, y), "expected alive at ({x}, {y})");
        }
    }
}

#[test]
fn a_sparse_file_still_lights_up_its_denser_regions() {
    let mut bytes = vec![0x00; 1000];
    bytes.extend(std::iter::repeat(0x01).take(1000));

    let grid = Grid::from_bytes(&bytes, 10, 10);

    assert!((0..5).all(|y| (0..10).all(|x| !grid.get(x, y))));
    assert!((5..10).all(|y| (0..10).all(|x| grid.get(x, y))));
}

#[test]
fn bytes_past_the_screen_still_change_the_grid() {
    let head = vec![0xa5; 90];

    let mut quiet = head.clone();
    quiet.extend(std::iter::repeat(0x00).take(900));

    let mut loud = head.clone();
    loud.extend(std::iter::repeat(0xff).take(900));

    let quiet = Grid::from_bytes(&quiet, 30, 24);
    let loud = Grid::from_bytes(&loud, 30, 24);

    assert_ne!(quiet.cells(), loud.cells());
}

#[test]
fn small_seeds_are_magnified_across_the_grid() {
    let grid = Grid::from_bytes(&[0xff], 16, 4);
    assert!((0..grid.width()).all(|x| grid.get(x, 0)));
}

#[test]
fn a_single_byte_reaches_every_row_and_column() {
    let grid = Grid::from_bytes(&[0b1011_0010], 40, 20);

    let live_rows = (0..grid.height())
        .filter(|y| (0..grid.width()).any(|x| grid.get(x, *y)))
        .count();
    let live_columns = (0..grid.width())
        .filter(|x| (0..grid.height()).any(|y| grid.get(*x, y)))
        .count();

    assert_eq!(live_rows, grid.height());
    assert!(live_columns > grid.width() / 2, "only {live_columns} columns");
}

#[test]
fn auto_height_is_capped_but_explicit_height_is_not() {
    let (width, height) = dimensions_for(100_000, None, None);
    assert_eq!(width, DEFAULT_WIDTH);
    assert_eq!(height, MAX_AUTO_HEIGHT);

    let (_, tall) = dimensions_for(100_000, None, Some(500));
    assert_eq!(tall, 500);
}

#[test]
fn small_files_get_a_short_grid() {
    let (_, height) = dimensions_for(16, None, None);
    assert_eq!(height, 2);
}
