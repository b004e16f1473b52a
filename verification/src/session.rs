//! The decisions of the interactive viewer: what each key does, when the
//! board moves on, and what the status line says. The viewer itself reads
//! the keys, keeps time and draws.

use vstd::prelude::*;
use crate::grid::Grid;
use crate::run::{Run, RunState, Advance, advanced};
use crate::seed::{block_fits, seeded_in};
use crate::watch::{Ending, judge};
use crate::text::push_char;

verus! {

/// Status bar hint while the board runs.
pub const HINT: &'static str = "space pause \u{b7} g goto \u{b7} r restart \u{b7} q quit ";

/// Status bar hint while the user types a generation.
pub const PROMPT_HINT: &'static str = "enter confirm \u{b7} esc cancel ";

/// Most digits the generation prompt takes.
pub const MAX_PROMPT_DIGITS: usize = 12;

/// A key, as the viewer tells it apart.
#[derive(Clone, Copy, Debug, PartialEq, Eq, Structural)]
pub enum Key {
    Char(char),
    Esc,
    Enter,
    Backspace,
    Other,
}

/// What a key asks for when no prompt is open.
#[derive(Clone, Copy, Debug, PartialEq, Eq, Structural)]
pub enum Action {
    Quit,
    TogglePause,
    Restart,
    GoTo,
    Ignore,
}

/// The action of `key`; `control_only` says that Control, and no other
/// modifier, is held.
pub open spec fn action_of(key: Key, control_only: bool) -> Action {
    match key {
        Key::Char(c) => if c == 'c' && control_only {
            Action::Quit
        } else if c == 'q' {
            Action::Quit
        } else if c == ' ' {
            Action::TogglePause
        } else if c == 'r' {
            Action::Restart
        } else if c == 'g' {
            Action::GoTo
        } else {
            Action::Ignore
        },
        Key::Esc => Action::Quit,
        _ => Action::Ignore,
    }
}

/// Control-C, `q` and Esc quit, space pauses and resumes, `r` restarts and
/// `g` asks for a generation to go to; other keys do nothing.
pub fn action_for(key: Key, control_only: bool) -> (action: Action)
    ensures
        action == action_of(key, control_only),
{
    match key {
        Key::Char('c') if control_only => Action::Quit,
        Key::Char('q') | Key::Esc => Action::Quit,
        Key::Char(' ') => Action::TogglePause,
        Key::Char('r') => Action::Restart,
        Key::Char('g') => Action::GoTo,
        _ => Action::Ignore,
    }
}

pub open spec fn is_digit(c: char) -> bool {
    '0' <= c <= '9'
}

/// The number that the decimal digits `digits` write.
pub open spec fn digits_value(digits: Seq<char>) -> nat
    decreases digits.len(),
{
    if digits.len() == 0 {
        0
    } else {
        (digits_value(digits.drop_last()) * 10 + (digits.last() as int - '0' as int)) as nat
    }
}

/// The generation that the digits typed at the prompt ask for: none when
/// nothing was typed or the number does not fit in a `usize`.
pub open spec fn typed_generation(digits: Seq<char>) -> Option<usize> {
    if digits.len() == 0 || digits_value(digits) > usize::MAX {
        None
    } else {
        Some(digits_value(digits) as usize)
    }
}

/// Reads the digits typed at the prompt as a generation.
pub fn parse_generation(digits: &Vec<char>) -> (target: Option<usize>)
    requires
        forall|i: int| 0 <= i < digits@.len() ==> is_digit(#[trigger] digits@[i]),
    ensures
        target == typed_generation(digits@),
{
    if digits.len() == 0 {
        return None;
    }
    let mut value: usize = 0;
    let mut i: usize = 0;
    while i < digits.len()
        invariant
            i <= digits@.len(),
            forall|k: int| 0 <= k < digits@.len() ==> is_digit(#[trigger] digits@[k]),
            value == digits_value(digits@.subrange(0, i as int)),
        decreases digits@.len() - i,
    {
        let c = digits[i];
        let d = (c as u32 - '0' as u32) as usize;
        assert(digits@.subrange(0, i + 1).drop_last() =~= digits@.subrange(0, i as int));
        proof {
            lemma_digits_value_grows(digits@, i as int);
        }
        match value.checked_mul(10) {
            Some(tens) => match tens.checked_add(d) {
                Some(next) => {
                    value = next;
                },
                None => {
                    proof {
                        lemma_digits_value_prefix(digits@, i + 1);
                    }
                    return None;
                },
            },
            None => {
                proof {
                    lemma_digits_value_prefix(digits@, i + 1);
                }
                return None;
            },
        }
        i += 1;
    }
    assert(digits@.subrange(0, i as int) =~= digits@);
    Some(value)
}

/// One more digit makes the value at least ten times as large.
proof fn lemma_digits_value_grows(digits: Seq<char>, i: int)
    requires
        0 <= i < digits.len(),
        forall|k: int| 0 <= k < digits.len() ==> is_digit(#[trigger] digits[k]),
    ensures
        digits_value(digits.subrange(0, i + 1)) == digits_value(digits.subrange(0, i)) * 10 + (
        digits[i] as int - '0' as int),
{
    assert(digits.subrange(0, i + 1).drop_last() =~= digits.subrange(0, i));
}

/// A number with more digits is at least as large as its first digits.
proof fn lemma_digits_value_prefix(digits: Seq<char>, n: int)
    requires
        0 <= n <= digits.len(),
        forall|k: int| 0 <= k < digits.len() ==> is_digit(#[trigger] digits[k]),
    ensures
        digits_value(digits) >= digits_value(digits.subrange(0, n)),
    decreases digits.len() - n,
{
    if n < digits.len() {
        lemma_digits_value_grows(digits, n);
        lemma_digits_value_prefix(digits, n + 1);
    } else {
        assert(digits.subrange(0, n) =~= digits);
    }
}

/// What the viewer answers to a key.
#[derive(Clone, Copy, Debug, PartialEq, Eq, Structural)]
pub enum Response {
    /// Keep going.
    Continue,
    /// Stop the viewer; the run ended this way.
    Quit(Ending),
    /// Skip ahead to this generation.
    SkipTo(usize),
}

/// How far a skip got in one generation.
#[derive(Clone, Copy, Debug, PartialEq, Eq, Structural)]
pub enum Skip {
    /// The run is at the target.
    Arrived,
    /// The run ended this way on the way.
    Ended(Ending),
    /// The run moved on one generation and goes on.
    Going,
}

/// Generations a skip goes between looks at the keys.
pub const SKIP_CHECK: usize = 16;

/// What the viewer is: the run, the bytes it was seeded from and the block
/// (columns, rows) a short seed is laid out as, whether it is paused, how the
/// run ended if it did, and the digits typed at the generation prompt if the
/// prompt is open.
pub struct SessionState {
    pub run: RunState,
    pub seed: Seq<u8>,
    pub block: (usize, usize),
    pub paused: bool,
    pub finished: Option<Ending>,
    pub prompt: Option<Seq<char>>,
}

/// The same viewer with its run started over from the seed.
pub open spec fn restarted(s: SessionState) -> RunState {
    RunState {
        board: seeded_in(
            s.seed,
            s.run.board.width,
            s.run.board.height,
            s.block.0 as int,
            s.block.1 as int,
        ),
        memory: Seq::empty(),
        generation: 0,
        limit: s.run.limit,
    }
}

/// What a key press does to the viewer, and the answer.
///
/// With the prompt open, a digit is typed when fewer than
/// `MAX_PROMPT_DIGITS` are, Backspace takes the last one back, Esc closes the
/// prompt, and Enter closes it and skips to the typed generation, or to the
/// limit when that comes first; other keys do nothing.
/// Otherwise the key's action applies: quitting answers with how the run
/// ended, or `Quit`; a restart goes back to the seeded board at generation
/// 0, running.
pub open spec fn respond(s: SessionState, key: Key, control_only: bool) -> (SessionState, Response) {
    match s.prompt {
        Some(digits) => match key {
            Key::Char(c) => if is_digit(c) && digits.len() < MAX_PROMPT_DIGITS {
                (SessionState { prompt: Some(digits.push(c)), ..s }, Response::Continue)
            } else {
                (s, Response::Continue)
            },
            Key::Backspace => if digits.len() > 0 {
                (SessionState { prompt: Some(digits.drop_last()), ..s }, Response::Continue)
            } else {
                (s, Response::Continue)
            },
            Key::Esc => (SessionState { prompt: None, ..s }, Response::Continue),
            Key::Enter => {
                let closed = SessionState { prompt: None, ..s };
                match typed_generation(digits) {
                    Some(target) => (
                        closed,
                        Response::SkipTo(
                            match s.run.limit {
                                Some(limit) => if limit < target { limit } else { target },
                                None => target,
                            },
                        ),
                    ),
                    None => (closed, Response::Continue),
                }
            },
            Key::Other => (s, Response::Continue),
        },
        None => match action_of(key, control_only) {
            Action::Quit => (
                s,
                Response::Quit(
                    match s.finished {
                        Some(e) => e,
                        None => Ending::Quit,
                    },
                ),
            ),
            Action::TogglePause => (SessionState { paused: !s.paused, ..s }, Response::Continue),
            Action::GoTo => (SessionState { prompt: Some(Seq::empty()), ..s }, Response::Continue),
            Action::Restart => (
                SessionState { run: restarted(s), finished: None, paused: false, ..s },
                Response::Continue,
            ),
            Action::Ignore => (s, Response::Continue),
        },
    }
}

/// Whether the board stands still: the run ended, is paused, or the prompt
/// is open.
pub open spec fn idle(s: SessionState) -> bool {
    s.finished is Some || s.paused || s.prompt is Some
}

/// The viewer after getting ready to skip to `target`: a target behind
/// the current generation starts the run over from the seed.
pub open spec fn skip_begun(s: SessionState, target: usize) -> SessionState {
    if target < s.run.generation {
        SessionState { run: restarted(s), ..s }
    } else {
        s
    }
}

/// One generation of a skip to `target`: at the target nothing changes;
/// otherwise the board moves on, whatever the limit, and the watcher judges
/// it.
pub open spec fn skipped(s: SessionState, target: usize) -> (SessionState, Skip) {
    let r = s.run;
    if r.generation >= target {
        (s, Skip::Arrived)
    } else {
        let board = r.board.next();
        let (memory, e) = judge(r.memory, board.cells);
        (
            SessionState {
                run: RunState { board, memory, generation: r.generation + 1, limit: r.limit },
                ..s
            },
            match e {
                Some(ending) => Skip::Ended(ending),
                None => Skip::Going,
            },
        )
    }
}

/// The viewer after its run moves on one generation, or reaches its limit;
/// and whether the board changed.
pub open spec fn session_advanced(s: SessionState) -> (SessionState, bool) {
    let (run, outcome) = advanced(s.run);
    (
        SessionState {
            run,
            finished: match outcome {
                Advance::LimitReached => Some(Ending::Limit),
                Advance::Stepped(e) => e,
            },
            ..s
        },
        outcome != Advance::LimitReached,
    )
}

/// The end of one round of the viewer that began `was_idle`: a round that
/// began idle leaves the board as it is; any other moves the run on.
pub open spec fn ticked(s: SessionState, was_idle: bool) -> (SessionState, bool) {
    if was_idle {
        (s, false)
    } else {
        session_advanced(s)
    }
}

/// The status line's text.
pub open spec fn status_text(s: SessionState) -> Seq<char> {
    match s.prompt {
        Some(digits) => "go to generation: "@ + digits,
        None => match s.finished {
            Some(e) => e.description(),
            None => if s.paused {
                "paused"@
            } else {
                "running"@
            },
        },
    }
}

/// The interactive viewer's state.
pub struct Session {
    run: Run,
    seed: Vec<u8>,
    block: (usize, usize),
    paused: bool,
    finished: Option<Ending>,
    prompt: Option<Vec<char>>,
}

impl View for Session {
    type V = SessionState;

    closed spec fn view(&self) -> SessionState {
        SessionState {
            run: self.run@,
            seed: self.seed@,
            block: self.block,
            paused: self.paused,
            finished: self.finished,
            prompt: match self.prompt {
                Some(digits) => Some(digits@),
                None => None,
            },
        }
    }
}

impl Session {
    /// The run can be restarted from its seed, and the prompt holds digits
    /// only.
    pub closed spec fn wf(&self) -> bool {
        &&& self.run.wf()
        &&& self.seed@.len() * 8 <= usize::MAX
        &&& self.run@.board.width * self.run@.board.height <= isize::MAX
        &&& block_fits(
            (self.seed@.len() * 8) as int,
            self.run@.board.width as int,
            self.run@.board.height as int,
            self.block.0 as int,
            self.block.1 as int,
        )
        &&& (self.prompt matches Some(digits) ==> forall|i: int|
            0 <= i < digits@.len() ==> is_digit(#[trigger] digits@[i]))
    }

    /// A viewer of `grid`, seeded from `seed` laid out, when it is short, as
    /// a block of `block.0` columns by `block.1` rows; running, and stopping
    /// at generation `limit` if there is one.
    pub fn new(grid: Grid, seed: Vec<u8>, block: (usize, usize), limit: Option<usize>) -> (session:
        Self)
        requires
            grid.wf(),
            seed@.len() * 8 <= usize::MAX,
            block_fits(
                (seed@.len() * 8) as int,
                grid@.width as int,
                grid@.height as int,
                block.0 as int,
                block.1 as int,
            ),
        ensures
            session.wf(),
            session@ == (SessionState {
                run: RunState { board: grid@, memory: Seq::empty(), generation: 0, limit },
                seed: seed@,
                block,
                paused: false,
                finished: None,
                prompt: None,
            }),
    {
        Session {
            run: Run::new(grid, limit),
            seed,
            block,
            paused: false,
            finished: None,
            prompt: None,
        }
    }

    pub fn grid(&self) -> (grid: &Grid)
        requires
            self.wf(),
        ensures
            grid@ == self@.run.board,
            grid.wf(),
    {
        self.run.grid()
    }

    pub fn generation(&self) -> (generation: usize)
        ensures
            generation == self@.run.generation,
    {
        self.run.generation()
    }

    pub fn is_idle(&self) -> (still: bool)
        ensures
            still == idle(self@),
    {
        self.finished.is_some() || self.paused || self.prompt.is_some()
    }

    /// The hint for the status bar: the prompt's while it is open.
    pub fn hint(&self) -> (hint: &'static str)
        ensures
            hint@ == if self@.prompt is Some { PROMPT_HINT@ } else { HINT@ },
    {
        if self.prompt.is_some() {
            PROMPT_HINT
        } else {
            HINT
        }
    }

    /// The status line: the prompt, how the run ended, or whether it runs.
    pub fn status(&self) -> (text: String)
        ensures
            text@ == status_text(self@),
    {
        match &self.prompt {
            Some(digits) => {
                let mut text = String::from_str("go to generation: ");
                let ghost start = text@;
                let mut i: usize = 0;
                while i < digits.len()
                    invariant
                        i <= digits@.len(),
                        text@ == start + digits@.subrange(0, i as int),
                    decreases digits@.len() - i,
                {
                    push_char(&mut text, digits[i]);
                    assert(start + digits@.subrange(0, i + 1) =~= (start + digits@.subrange(
                        0,
                        i as int,
                    )).push(digits@[i as int]));
                    i += 1;
                }
                assert(digits@.subrange(0, i as int) =~= digits@);
                text
            },
            None => match self.finished {
                Some(ending) => String::from_str(ending.describe()),
                None => if self.paused {
                    String::from_str("paused")
                } else {
                    String::from_str("running")
                },
            },
        }
    }

    /// Answers a key press; see `respond`.
    pub fn press(&mut self, key: Key, control_only: bool) -> (response: Response)
        requires
            old(self).wf(),
        ensures
            final(self).wf(),
            (final(self)@, response) == respond(old(self)@, key, control_only),
    {
        if self.prompt.is_some() {
            let mut digits = self.prompt.take().unwrap();
            let response = match key {
                Key::Char(c) => {
                    if '0' <= c && c <= '9' && digits.len() < MAX_PROMPT_DIGITS {
                        digits.push(c);
                    }
                    self.prompt = Some(digits);
                    Response::Continue
                },
                Key::Backspace => {
                    if digits.len() > 0 {
                        digits.pop();
                    }
                    self.prompt = Some(digits);
                    Response::Continue
                },
                Key::Esc => Response::Continue,
                Key::Enter => match parse_generation(&digits) {
                    Some(target) => {
                        let target = match self.run.limit() {
                            Some(limit) => if limit < target { limit } else { target },
                            None => target,
                        };
                        Response::SkipTo(target)
                    },
                    None => Response::Continue,
                },
                Key::Other => {
                    self.prompt = Some(digits);
                    Response::Continue
                },
            };
            return response;
        }
        match action_for(key, control_only) {
            Action::Quit => Response::Quit(
                match self.finished {
                    Some(e) => e,
                    None => Ending::Quit,
                },
            ),
            Action::TogglePause => {
                self.paused = !self.paused;
                Response::Continue
            },
            Action::GoTo => {
                self.prompt = Some(Vec::new());
                Response::Continue
            },
            Action::Restart => {
                self.restart();
                self.finished = None;
                self.paused = false;
                Response::Continue
            },
            Action::Ignore => Response::Continue,
        }
    }

    /// Starts the run over from the seed, on a board of the same size, laid
    /// out in the same block.
    fn restart(&mut self)
        requires
            old(self).wf(),
        ensures
            final(self).wf(),
            final(self)@ == (SessionState { run: restarted(old(self)@), ..old(self)@ }),
    {
        let grid = self.run.grid();
        let (width, height) = (grid.width(), grid.height());
        let fresh = Grid::from_bytes_with_block(
            self.seed.as_slice(),
            width,
            height,
            self.block.0,
            self.block.1,
        );
        self.run.restart(fresh);
    }

    /// Gets ready to skip to generation `target`: a target behind the
    /// current generation starts the run over from the seed.
    pub fn begin_skip(&mut self, target: usize)
        requires
            old(self).wf(),
        ensures
            final(self).wf(),
            final(self)@ == skip_begun(old(self)@, target),
    {
        if target < self.run.generation() {
            self.restart();
        }
    }

    /// One generation of a skip to `target`: unless the run is there
    /// already, the board moves on and the watcher judges it. The limit does
    /// not apply, as the target is already within it.
    pub fn skip_toward(&mut self, target: usize) -> (skip: Skip)
        requires
            old(self).wf(),
        ensures
            final(self).wf(),
            (final(self)@, skip) == skipped(old(self)@, target),
    {
        if self.run.generation() >= target {
            return Skip::Arrived;
        }
        match self.run.step_unlimited() {
            Some(ending) => Skip::Ended(ending),
            None => Skip::Going,
        }
    }

    /// Whether a skip has gone far enough since the last look at the keys
    /// to look again: every `SKIP_CHECK` generations.
    pub fn due_for_check(&self) -> (due: bool)
        ensures
            due == (self@.run.generation % SKIP_CHECK as nat == 0),
    {
        self.run.generation() % SKIP_CHECK == 0
    }

    /// Ends a skip: the run is over the way the skip found, or not over.
    pub fn end_skip(&mut self, ending: Option<Ending>)
        requires
            old(self).wf(),
        ensures
            final(self).wf(),
            final(self)@ == (SessionState { finished: ending, ..old(self)@ }),
    {
        self.finished = ending;
    }

    /// Moves the board on one generation, or marks the run as ended at the
    /// limit; returns whether the board changed.
    pub fn advance(&mut self) -> (changed: bool)
        requires
            old(self).wf(),
            old(self)@.run.generation < usize::MAX,
        ensures
            final(self).wf(),
            (final(self)@, changed) == session_advanced(old(self)@),
    {
        match self.run.advance() {
            Advance::LimitReached => {
                self.finished = Some(Ending::Limit);
                false
            },
            Advance::Stepped(ending) => {
                self.finished = ending;
                true
            },
        }
    }

    /// Ends a round of the viewer: unless the round began idle, the run
    /// moves on one generation or reaches its limit; returns whether the
    /// board changed.
    pub fn tick(&mut self, was_idle: bool) -> (changed: bool)
        requires
            old(self).wf(),
            was_idle || old(self)@.run.generation < usize::MAX,
        ensures
            final(self).wf(),
            (final(self)@, changed) == ticked(old(self)@, was_idle),
    {
        if was_idle {
            return false;
        }
        self.advance()
    }
}

} // verus!
