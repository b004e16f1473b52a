use conway::grid::Grid;
use conway::screen::{screen_line, status_bar, viewport_for};
use conway::session::{action_for, parse_generation, Action, Key, Response, Session, Skip};
use conway::watch::Ending;

fn blinker_session(limit: Option<usize>) -> Session {
    let seed = vec![0b0000_0000, 0b0000_0000, 0b0111_0000, 0b0000_0000, 0b0000_0000];
    let grid = Grid::from_bytes_with_block(&seed, 8, 5, 8, 5);
    Session::new(grid, seed, (8, 5), limit)
}

#[test]
fn keys_map_to_actions() {
    assert_eq!(action_for(Key::Char('c'), true), Action::Quit);
    assert_eq!(action_for(Key::Char('c'), false), Action::Ignore);
    assert_eq!(action_for(Key::Char('q'), true), Action::Quit);
    assert_eq!(action_for(Key::Esc, false), Action::Quit);
    assert_eq!(action_for(Key::Char(' '), false), Action::TogglePause);
    assert_eq!(action_for(Key::Char('r'), false), Action::Restart);
    assert_eq!(action_for(Key::Char('g'), false), Action::GoTo);
    assert_eq!(action_for(Key::Enter, false), Action::Ignore);
    assert_eq!(action_for(Key::Char('x'), false), Action::Ignore);
}

#[test]
fn typed_generations_are_read_in_decimal() {
    assert_eq!(parse_generation(&vec![]), None);
    assert_eq!(parse_generation(&vec!['0']), Some(0));
    assert_eq!(parse_generation(&vec!['4', '0', '7']), Some(407));
    let too_big: Vec<char> = "99999999999999999999999".chars().collect();
    assert_eq!(parse_generation(&too_big), None);
}

#[test]
fn pausing_twice_resumes() {
    let mut session = blinker_session(None);
    assert_eq!(session.status(), "running");
    assert!(!session.is_idle());
    assert_eq!(session.press(Key::Char(' '), false), Response::Continue);
    assert_eq!(session.status(), "paused");
    assert!(session.is_idle());
    session.press(Key::Char(' '), false);
    assert_eq!(session.status(), "running");
}

#[test]
fn the_prompt_takes_digits_and_skips_within_the_limit() {
    let mut session = blinker_session(Some(10));
    session.press(Key::Char('g'), false);
    assert!(session.is_idle());
    assert_eq!(session.hint(), conway::session::PROMPT_HINT);
    session.press(Key::Char('4'), false);
    session.press(Key::Char('x'), false);
    session.press(Key::Char('2'), false);
    assert_eq!(session.status(), "go to generation: 42");
    session.press(Key::Backspace, false);
    session.press(Key::Char('7'), false);
    assert_eq!(session.status(), "go to generation: 47");
    assert_eq!(session.press(Key::Enter, false), Response::SkipTo(10));
    assert_eq!(session.status(), "running");
    assert_eq!(session.hint(), conway::session::HINT);
}

#[test]
fn the_prompt_stops_at_twelve_digits() {
    let mut session = blinker_session(None);
    session.press(Key::Char('g'), false);
    for _ in 0..20 {
        session.press(Key::Char('1'), false);
    }
    assert_eq!(session.status(), "go to generation: 111111111111");
    assert_eq!(session.press(Key::Enter, false), Response::SkipTo(111_111_111_111));
}

#[test]
fn escape_closes_the_prompt_without_skipping() {
    let mut session = blinker_session(None);
    session.press(Key::Char('g'), false);
    session.press(Key::Char('5'), false);
    assert_eq!(session.press(Key::Esc, false), Response::Continue);
    assert!(!session.is_idle());
    session.press(Key::Char('g'), false);
    assert_eq!(session.press(Key::Enter, false), Response::Continue);
}

#[test]
fn a_run_ends_at_its_limit_and_quitting_reports_it() {
    let mut session = blinker_session(Some(1));
    assert!(session.advance());
    assert_eq!(session.generation(), 1);
    assert!(!session.advance());
    assert_eq!(session.status(), "generation limit reached");
    assert!(session.is_idle());
    assert_eq!(session.press(Key::Char('q'), false), Response::Quit(Ending::Limit));
}

#[test]
fn quitting_a_running_board_reports_quit() {
    let mut session = blinker_session(None);
    assert_eq!(session.press(Key::Esc, false), Response::Quit(Ending::Quit));
}

#[test]
fn restarting_goes_back_to_the_seed() {
    let mut session = blinker_session(None);
    let start = session.grid().cells().to_vec();
    session.advance();
    session.press(Key::Char(' '), false);
    assert_ne!(session.grid().cells(), &start[..]);
    session.press(Key::Char('r'), false);
    assert_eq!(session.grid().cells(), &start[..]);
    assert_eq!(session.generation(), 0);
    assert_eq!(session.status(), "running");
}

#[test]
fn skipping_backwards_starts_over_and_skipping_finds_the_ending() {
    let mut session = blinker_session(None);
    session.advance();
    session.advance();
    assert_eq!(session.generation(), 2);
    session.begin_skip(1);
    assert_eq!(session.generation(), 0);
    assert_eq!(session.skip_toward(1), Skip::Going);
    assert_eq!(session.skip_toward(1), Skip::Arrived);
    assert_eq!(session.generation(), 1);
    assert_eq!(session.skip_toward(5), Skip::Going);
    assert_eq!(session.skip_toward(5), Skip::Ended(Ending::Settled));
    assert_eq!(session.generation(), 3);
    assert!(!session.due_for_check());
    session.end_skip(Some(Ending::Settled));
    assert_eq!(session.status(), "the board settled");
}

#[test]
fn a_board_that_dies_is_extinct() {
    let seed = vec![0b1000_0000];
    let grid = Grid::from_bytes_with_block(&seed, 8, 1, 8, 1);
    let mut session = Session::new(grid, seed, (8, 1), None);
    assert!(session.advance());
    assert_eq!(session.status(), "everything died");
}

#[test]
fn screen_lines_show_the_board_and_pad_with_blanks() {
    let mut grid = Grid::new(3, 2);
    grid.set(0, 0, true);
    grid.set(2, 1, true);
    assert_eq!(screen_line(&grid, 0, 5), "\u{2588}    ");
    assert_eq!(screen_line(&grid, 1, 2), "  ");
    assert_eq!(screen_line(&grid, 1, 3), "  \u{2588}");
    assert_eq!(screen_line(&grid, 4, 3), "   ");
}

#[test]
fn the_status_bar_puts_the_hint_on_the_right() {
    let bar = status_bar(12, 345, "running", "q quit ", 40);
    assert_eq!(bar, " gen 12   pop 345   running      q quit ");
    assert_eq!(bar.chars().count(), 40);
}

#[test]
fn a_narrow_status_bar_is_cut() {
    assert_eq!(status_bar(7, 0, "paused", "hint", 10), " gen 7   p");
    assert_eq!(status_bar(7, 0, "paused", "hint", 24), " gen 7   pop 0   paused");
}

#[test]
fn the_viewport_leaves_a_row_for_the_status_bar() {
    assert_eq!(viewport_for(Some((120, 40))), (120, 39));
    assert_eq!(viewport_for(Some((0, 1))), (1, 1));
    assert_eq!(viewport_for(None), (80, 23));
}

#[test]
fn a_round_that_began_idle_leaves_the_board() {
    let mut session = blinker_session(Some(5));
    let start = session.grid().cells().to_vec();
    session.press(Key::Char(' '), false);
    assert!(!session.tick(true));
    assert_eq!(session.grid().cells(), &start[..]);
    assert_eq!(session.generation(), 0);
    assert!(session.tick(false));
    assert_eq!(session.generation(), 1);
}

#[test]
fn a_whole_session_keeps_the_size_and_the_limit() {
    let mut session = blinker_session(Some(3));
    let keys = [
        Key::Char('g'), Key::Char('9'), Key::Enter, Key::Char(' '), Key::Char(' '),
        Key::Char('r'), Key::Other, Key::Char('g'), Key::Char('2'), Key::Enter,
    ];
    for key in keys {
        let idle = session.is_idle();
        if let Response::SkipTo(target) = session.press(key, false) {
            assert!(target <= 3);
            session.begin_skip(target);
            let ending = loop {
                match session.skip_toward(target) {
                    Skip::Arrived => break None,
                    Skip::Ended(ending) => break Some(ending),
                    Skip::Going => {}
                }
            };
            session.end_skip(ending);
        }
        session.tick(idle);
        assert_eq!((session.grid().width(), session.grid().height()), (8, 5));
        assert!(session.generation() <= 3);
    }
}

#[test]
fn a_restart_lays_the_seed_out_in_the_session_block() {
    let seed = vec![0b1011_0010];
    let grid = Grid::from_bytes_with_block(&seed, 8, 4, 2, 4);
    let start = grid.cells().to_vec();
    let mut session = Session::new(grid, seed.clone(), (2, 4), None);
    session.advance();
    session.press(Key::Char('r'), false);
    assert_eq!(session.grid().cells(), &start[..]);
    assert_ne!(session.grid().cells(), Grid::from_bytes(&seed, 8, 4).cells());
}
