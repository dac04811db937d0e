//! The game's state machine: commands, gravity, locking, clearing and
//! spawning, as one step from state and event to the next state.

use rand::Rng;
use vstd::prelude::*;

use crate::field::{
    cleared_rows_from, clear_from, empty_field, fits, lemma_empty_field_valid, lemma_fits_on_empty,
    locked, no_collision, valid_field, Field,
};
use crate::piece::BRICK_COUNT;

verus! {

/// Gravity moves the piece one row every this many ticks.
pub const TICK_THRESHOLD: usize = 5;

/// Whether the rotate key turns clockwise; otherwise it turns counter-clockwise.
pub const ROTATE_CW: bool = false;

/// Column of a freshly spawned piece's anchor: the horizontal center.
pub const SPAWN_X: isize = 4;

/// What the player asked for.
#[derive(Clone, Copy, Debug, PartialEq, Eq, Structural)]
pub enum Command {
    Quit,
    Pause,
    Left,
    Right,
    Rotate,
    Drop,
}

/// Whether the game goes on after a step.
#[derive(Clone, Copy, Debug, PartialEq, Eq, Structural)]
pub enum Outcome {
    Running,
    Quit,
    GameOver,
}

/// What a step did that the screen needs to show.
pub struct Report {
    pub outcome: Outcome,
    /// Rows cut out after the piece locked, in the order they were met.
    pub cleared_rows: Vec<usize>,
}

/// Mathematical model of a game.
pub struct GameState {
    pub field: Seq<u8>,
    pub piece: int,
    pub rotation: int,
    pub x: int,
    pub y: int,
    pub score: int,
    pub ticks: int,
    pub paused: bool,
    pub free_fall: bool,
    pub over: bool,
}

/// A valid game: a valid field, a catalog piece in one of four rotation
/// states, a tick count below the threshold, values that fit the machine
/// types, and, while the game runs, a falling piece that does not collide.
pub open spec fn valid_state(s: GameState) -> bool {
    &&& valid_field(s.field)
    &&& 0 <= s.piece < BRICK_COUNT
    &&& 0 <= s.rotation < 4
    &&& 0 <= s.ticks < TICK_THRESHOLD
    &&& 0 <= s.score <= usize::MAX
    &&& isize::MIN <= s.x <= isize::MAX
    &&& isize::MIN <= s.y <= isize::MAX
    &&& !s.over ==> fits(s.field, s.piece, s.rotation, s.x, s.y)
}

/// The rotation state that the rotate key asks for.
pub open spec fn next_rotation(r: int) -> int {
    if ROTATE_CW {
        (r + 1) % 4
    } else {
        (r + 3) % 4
    }
}

/// The state after command `c` (other than quitting). While paused, only the
/// pause toggle does anything; a move or rotation that would collide, or
/// push the anchor past the machine's range, is ignored.
pub open spec fn after_command(s: GameState, c: Command) -> GameState {
    if c == Command::Pause {
        GameState { paused: !s.paused, ..s }
    } else if s.paused {
        s
    } else if c == Command::Left {
        if s.x - 1 >= isize::MIN && fits(s.field, s.piece, s.rotation, s.x - 1, s.y) {
            GameState { x: s.x - 1, ..s }
        } else {
            s
        }
    } else if c == Command::Right {
        if s.x + 1 <= isize::MAX && fits(s.field, s.piece, s.rotation, s.x + 1, s.y) {
            GameState { x: s.x + 1, ..s }
        } else {
            s
        }
    } else if c == Command::Rotate {
        if fits(s.field, s.piece, next_rotation(s.rotation), s.x, s.y) {
            GameState { rotation: next_rotation(s.rotation), ..s }
        } else {
            s
        }
    } else if c == Command::Drop {
        GameState { free_fall: true, ..s }
    } else {
        s
    }
}

/// On this tick gravity is due and the piece cannot move down: it locks.
pub open spec fn lands(s: GameState) -> bool {
    &&& s.ticks + 1 >= TICK_THRESHOLD
    &&& !(s.y + 1 <= isize::MAX && fits(s.field, s.piece, s.rotation, s.x, s.y + 1))
}

/// The field right after the falling piece is written into it.
pub open spec fn landed_field(s: GameState) -> Seq<u8> {
    locked(s.field, s.piece, s.rotation, s.x, s.y)
}

/// Piece `next` enters at the top center in rotation 0 on field `f`; the
/// game is over if it collides at once.
pub open spec fn spawned(s: GameState, f: Seq<u8>, next: int) -> GameState {
    GameState {
        field: f,
        piece: next,
        rotation: 0,
        x: SPAWN_X as int,
        y: 0,
        free_fall: false,
        over: !fits(f, next, 0, SPAWN_X as int, 0),
        ..s
    }
}

/// The score plus `n`, held at the largest `usize`.
pub open spec fn add_score(score: int, n: int) -> int {
    if score + n <= usize::MAX {
        score + n
    } else {
        usize::MAX as int
    }
}

/// One tick of gravity: every `TICK_THRESHOLD`-th tick the piece moves down
/// one row, or, where it cannot, locks; full rows are then cut out (one
/// point each) and piece `next` spawns.
pub open spec fn after_gravity(s: GameState, next: int) -> GameState {
    if s.ticks + 1 < TICK_THRESHOLD {
        GameState { ticks: s.ticks + 1, ..s }
    } else if !lands(s) {
        GameState { ticks: 0, y: s.y + 1, ..s }
    } else {
        let f = landed_field(s);
        spawned(
            GameState { ticks: 0, score: add_score(s.score, cleared_rows_from(f, 0).len() as int), ..s },
            clear_from(f, 0),
            next,
        )
    }
}

/// The state after the input, before gravity.
pub open spec fn commanded(s: GameState, input: Option<Command>) -> GameState {
    match input {
        Some(c) => after_command(s, c),
        None => s,
    }
}

/// One step of the game on `input`, with `next` as the piece that spawns if
/// the falling one locks. A finished game and a quit leave the state alone;
/// a paused game does not tick.
pub open spec fn stepped(s: GameState, input: Option<Command>, next: int) -> GameState {
    if s.over || input == Some(Command::Quit) {
        s
    } else if commanded(s, input).paused {
        commanded(s, input)
    } else {
        after_gravity(commanded(s, input), next)
    }
}

/// The rows that step cuts out.
pub open spec fn step_rows(s: GameState, input: Option<Command>) -> Seq<usize> {
    let t = commanded(s, input);
    if s.over || input == Some(Command::Quit) || t.paused || !lands(t) {
        seq![]
    } else {
        cleared_rows_from(landed_field(t), 0)
    }
}

/// The outcome that step reports.
pub open spec fn step_outcome(s: GameState, input: Option<Command>, next: int) -> Outcome {
    if s.over {
        Outcome::GameOver
    } else if input == Some(Command::Quit) {
        Outcome::Quit
    } else if stepped(s, input, next).over {
        Outcome::GameOver
    } else {
        Outcome::Running
    }
}

/// A new game on an empty field with piece `first` at the spawn point.
pub open spec fn initial_state(first: int) -> GameState {
    GameState {
        field: empty_field(),
        piece: first,
        rotation: 0,
        x: SPAWN_X as int,
        y: 0,
        score: 0,
        ticks: 0,
        paused: false,
        free_fall: false,
        over: false,
    }
}

/// Relies on rand's `thread_rng` and `Rng::gen_range(low, high)`, which
/// returns a value in `[low, high)` and panics only when `low >= high`.
#[verifier::external_body]
fn random_below(high: usize) -> (r: usize)
    requires
        0 < high,
    ensures
        r < high,
{
    rand::thread_rng().gen_range(0, high)
}

/// A game: the field, the falling piece, the score and the flags.
pub struct Game {
    field: Field,
    piece: usize,
    rotation: usize,
    x: isize,
    y: isize,
    score: usize,
    ticks: usize,
    paused: bool,
    free_fall: bool,
    over: bool,
}

impl View for Game {
    type V = GameState;

    closed spec fn view(&self) -> GameState {
        GameState {
            field: self.field@,
            piece: self.piece as int,
            rotation: self.rotation as int,
            x: self.x as int,
            y: self.y as int,
            score: self.score as int,
            ticks: self.ticks as int,
            paused: self.paused,
            free_fall: self.free_fall,
            over: self.over,
        }
    }
}

impl Game {
    pub open spec fn wf(&self) -> bool {
        valid_state(self@)
    }

    /// A new game on an empty field, with piece `first` falling from the top
    /// center. It never starts over: every piece fits there.
    pub fn new(first: usize) -> (g: Game)
        requires
            first < BRICK_COUNT,
        ensures
            g.wf(),
            g@ == initial_state(first as int),
    {
        let field = Field::new();
        proof {
            lemma_empty_field_valid();
            lemma_fits_on_empty(first as int, SPAWN_X as int);
        }
        Game {
            field,
            piece: first,
            rotation: 0,
            x: SPAWN_X,
            y: 0,
            score: 0,
            ticks: 0,
            paused: false,
            free_fall: false,
            over: false,
        }
    }

    /// A new game with a piece drawn at random.
    pub fn start() -> (g: Game)
        ensures
            g.wf(),
            exists|first: int| 0 <= first < BRICK_COUNT && g@ == initial_state(first),
    {
        let first = random_below(BRICK_COUNT);
        Game::new(first)
    }

    fn apply(&mut self, c: Command)
        requires
            old(self).wf(),
            !old(self)@.over,
            c != Command::Quit,
        ensures
            final(self).wf(),
            final(self)@ == after_command(old(self)@, c),
    {
        match c {
            Command::Pause => {
                self.paused = !self.paused;
            },
            _ => {
                if self.paused {
                    return;
                }
                match c {
                    Command::Left => {
                        if self.x > isize::MIN && no_collision(
                            &self.field,
                            self.piece,
                            self.rotation,
                            self.x - 1,
                            self.y,
                        ) {
                            self.x = self.x - 1;
                        }
                    },
                    Command::Right => {
                        if self.x < isize::MAX && no_collision(
                            &self.field,
                            self.piece,
                            self.rotation,
                            self.x + 1,
                            self.y,
                        ) {
                            self.x = self.x + 1;
                        }
                    },
                    Command::Rotate => {
                        let new_rot = if ROTATE_CW {
                            if self.rotation == 3 {
                                0
                            } else {
                                self.rotation + 1
                            }
                        } else {
                            if self.rotation == 0 {
                                3
                            } else {
                                self.rotation - 1
                            }
                        };
                        if no_collision(&self.field, self.piece, new_rot, self.x, self.y) {
                            self.rotation = new_rot;
                        }
                    },
                    Command::Drop => {
                        self.free_fall = true;
                    },
                    _ => {},
                }
            },
        }
    }

    fn fall(&mut self, next: usize) -> (rows: Vec<usize>)
        requires
            old(self).wf(),
            !old(self)@.over,
            !old(self)@.paused,
            next < BRICK_COUNT,
        ensures
            final(self).wf(),
            final(self)@ == after_gravity(old(self)@, next as int),
            rows@ == (if lands(old(self)@) {
                cleared_rows_from(landed_field(old(self)@), 0)
            } else {
                seq![]
            }),
    {
        if self.ticks + 1 < TICK_THRESHOLD {
            self.ticks = self.ticks + 1;
            return Vec::new();
        }
        self.ticks = 0;
        if self.y < isize::MAX && no_collision(&self.field, self.piece, self.rotation, self.x, self.y + 1) {
            self.y = self.y + 1;
            return Vec::new();
        }
        self.field.lock(self.piece, self.rotation, self.x, self.y);
        let rows = self.field.clear_full_rows();
        let n = rows.len();
        self.score = if self.score <= usize::MAX - n {
            self.score + n
        } else {
            usize::MAX
        };
        self.piece = next;
        self.rotation = 0;
        self.x = SPAWN_X;
        self.y = 0;
        self.free_fall = false;
        self.over = !no_collision(&self.field, next, 0, SPAWN_X, 0);
        rows
    }

    /// One step of the game on `input`, with `next` as the piece that spawns
    /// if the falling one locks.
    pub fn step_with(&mut self, input: Option<Command>, next: usize) -> (rep: Report)
        requires
            old(self).wf(),
            next < BRICK_COUNT,
        ensures
            final(self).wf(),
            final(self)@ == stepped(old(self)@, input, next as int),
            rep.cleared_rows@ == step_rows(old(self)@, input),
            rep.outcome == step_outcome(old(self)@, input, next as int),
    {
        if self.over {
            return Report { outcome: Outcome::GameOver, cleared_rows: Vec::new() };
        }
        match input {
            Some(Command::Quit) => {
                return Report { outcome: Outcome::Quit, cleared_rows: Vec::new() };
            },
            Some(c) => {
                self.apply(c);
            },
            None => {},
        }
        if self.paused {
            return Report { outcome: Outcome::Running, cleared_rows: Vec::new() };
        }
        let rows = self.fall(next);
        let outcome = if self.over {
            Outcome::GameOver
        } else {
            Outcome::Running
        };
        Report { outcome, cleared_rows: rows }
    }

    /// One step of the game on `input`; a piece that spawns is drawn at random.
    pub fn step(&mut self, input: Option<Command>) -> (rep: Report)
        requires
            old(self).wf(),
        ensures
            final(self).wf(),
            exists|next: int|
                0 <= next < BRICK_COUNT && final(self)@ == stepped(old(self)@, input, next)
                    && rep.outcome == step_outcome(old(self)@, input, next),
            rep.cleared_rows@ == step_rows(old(self)@, input),
    {
        let next = random_below(BRICK_COUNT);
        self.step_with(input, next)
    }
    /// The field with the falling piece drawn in, as the screen shows it.
    pub fn frame(&self) -> (v: Vec<u8>)
        requires
            self.wf(),
        ensures
            v@ == landed_field(self@),
    {
        self.field.with_piece(self.piece, self.rotation, self.x, self.y)
    }

    /// The settled field, without the falling piece.
    pub fn field(&self) -> (f: &Field)
        ensures
            f@ == self@.field,
    {
        &self.field
    }

    /// Catalog index of the falling piece.
    pub fn piece(&self) -> (b: usize)
        ensures
            b == self@.piece,
    {
        self.piece
    }

    /// Rotation state of the falling piece.
    pub fn rotation(&self) -> (r: usize)
        ensures
            r == self@.rotation,
    {
        self.rotation
    }

    /// Field coordinate of the falling piece's template top-left cell.
    pub fn position(&self) -> (p: (isize, isize))
        ensures
            p.0 == self@.x,
            p.1 == self@.y,
    {
        (self.x, self.y)
    }

    pub fn score(&self) -> (n: usize)
        ensures
            n == self@.score,
    {
        self.score
    }

    pub fn is_paused(&self) -> (b: bool)
        ensures
            b == self@.paused,
    {
        self.paused
    }

    /// Whether the piece drops without waiting for input.
    pub fn is_free_fall(&self) -> (b: bool)
        ensures
            b == self@.free_fall,
    {
        self.free_fall
    }

    /// Whether the last spawned piece collided at once, ending the game.
    pub fn is_over(&self) -> (b: bool)
        ensures
            b == self@.over,
    {
        self.over
    }
}

/// A rotation whose candidate state collides with the field or a wall leaves
/// the rotation state as it was; unless the piece also locks on that tick,
/// it keeps it after the whole step.
pub proof fn lemma_blocked_rotation_keeps_state(s: GameState, next: int)
    requires
        valid_state(s),
        !fits(s.field, s.piece, next_rotation(s.rotation), s.x, s.y),
    ensures
        after_command(s, Command::Rotate) == s,
        !lands(s) ==> stepped(s, Some(Command::Rotate), next).rotation == s.rotation,
{
}

} // verus!
