use conway::grid::Grid;
use conway::help::{art_lines, colorize, entry, help_text, LIVE, NAME, RESET};
use conway::input::path_text;
use conway::watch::Ending;

#[test]
fn endings_describe_themselves() {
    assert_eq!(Ending::Extinct.describe(), "everything died");
    assert_eq!(Ending::Settled.describe(), "the board settled");
    assert_eq!(Ending::Limit.describe(), "generation limit reached");
    assert_eq!(Ending::Quit.describe(), "quit");
}

#[test]
fn a_grid_renders_as_lines_of_cells() {
    let mut grid = Grid::new(3, 2);
    grid.set(1, 0, true);
    grid.set(2, 1, true);
    assert_eq!(grid.render(), "\u{b7}\u{2588}\u{b7}\n\u{b7}\u{b7}\u{2588}");
    assert_eq!(Grid::new(0, 3).render(), "\n\n");
    assert_eq!(Grid::new(4, 0).render(), "");
}

#[test]
fn the_glider_art_is_six_lines_of_twelve() {
    let lines = art_lines();
    let full = "\u{2588}".repeat(4);
    let blank = " ".repeat(4);
    assert_eq!(lines.len(), 6);
    assert_eq!(lines[0], format!("{blank}{full}{blank}"));
    assert_eq!(lines[1], lines[0]);
    assert_eq!(lines[2], format!("{blank}{blank}{full}"));
    assert_eq!(lines[4], format!("{full}{full}{full}"));
}

#[test]
fn colorize_wraps_runs_of_live_cells() {
    assert_eq!(colorize(""), "");
    assert_eq!(colorize("  "), "  ");
    assert_eq!(colorize(" \u{2588}\u{2588} "), format!(" {LIVE}\u{2588}\u{2588}{RESET} "));
    assert_eq!(colorize("\u{2588}"), format!("{LIVE}\u{2588}{RESET}"));
}

#[test]
fn entries_line_up_their_descriptions() {
    let line = entry("run [file]", "go");
    assert_eq!(line, format!("  {NAME}run [file]{RESET}{}go", " ".repeat(21)));
    let long = "x".repeat(40);
    assert_eq!(entry(&long, "d"), format!("  {NAME}{long}{RESET} d"));
}

#[test]
fn the_help_screen_shows_version_usage_and_options() {
    let help = help_text("1.2.3");
    assert!(help.contains("conway v1.2.3"));
    assert!(help.contains("Turn any file into Conway's Game of Life"));
    assert!(help.contains("-n, --generations <N>"));
    assert!(help.ends_with(&format!("conway help <command>{RESET}\n")));
    assert_eq!(help.lines().count(), 6 + 2 + 3 + 2 + 5 + 2);
}

#[test]
fn piped_text_names_a_path_once_trimmed() {
    assert_eq!(path_text(b"  some/file.txt\t\n"), Some("some/file.txt".to_string()));
    assert_eq!(path_text("\u{a0}x\u{3000}".as_bytes()), Some("x".to_string()));
    assert_eq!(path_text(b"a\nb"), None);
    assert_eq!(path_text(b" \t "), None);
    assert_eq!(path_text(&[0xc3, 0x28]), None);
}
