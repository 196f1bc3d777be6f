//! Game orchestration: spawning, move and rotate attempts with exact
//! rollback, lock-in with line-clear scoring, and the play/game-over
//! state machine.

use vstd::prelude::*;

use crate::board::{
    can_place_spec, count_full, empty_grid, empty_rows, lemma_can_place_pos_bounds, lock_spec,
    rows_not_full, Board,
};
use crate::tetromino::{moved_piece, rotated_ccw, rotated_cw, Direction, Shape, Tetromino};

verus! {

/// The two phases of a game; `GameOver` is terminal.
#[derive(Debug, Copy, Clone, PartialEq, Eq, Structural)]
pub enum GameState {
    Playing,
    GameOver,
}

/// A rejected command: all of these are expected, recoverable outcomes,
/// never failures of the engine itself.
#[derive(Debug, Copy, Clone, PartialEq, Eq, Structural)]
pub enum GameError {
    InvalidMove,
    InvalidRotation,
    NoActivePiece,
}

/// The whole game: board, active piece (present exactly while playing),
/// phase and cumulative score.
pub struct Game {
    pub board: Board,
    pub current_piece: Option<Tetromino>,
    pub state: GameState,
    pub score: u32,
}

/// The shape picked by each of the seven indices, with `T` for any
/// index past them.
pub open spec fn shape_of_index(i: int) -> Shape {
    if i == 0 {
        Shape::I
    } else if i == 1 {
        Shape::O
    } else if i == 2 {
        Shape::T
    } else if i == 3 {
        Shape::S
    } else if i == 4 {
        Shape::Z
    } else if i == 5 {
        Shape::J
    } else if i == 6 {
        Shape::L
    } else {
        Shape::T
    }
}

/// A piece of shape `s` at the fixed spawn anchor, in orientation 0.
pub open spec fn spawn_piece(s: Shape) -> Tetromino {
    Tetromino { pos: (3, 0), shape: s, rotation: 0 }
}

/// Whether any of the seven shapes fits at the spawn anchor on `g`.
pub open spec fn spawnable(g: Seq<Seq<bool>>) -> bool {
    exists|i: int| 0 <= i < 7 && can_place_spec(g, spawn_piece(#[trigger] shape_of_index(i)))
}

/// The points one lock awards for clearing `n` rows at once.
pub open spec fn score_for(n: int) -> int {
    if n == 1 {
        100
    } else if n == 2 {
        300
    } else if n == 3 {
        500
    } else if n == 4 {
        800
    } else {
        0
    }
}

/// The candidate index tried `j` steps after a first pick `r`, cycling
/// through the seven shapes.
pub open spec fn wrap_index(r: int, j: int) -> int {
    if r + j < 7 {
        r + j
    } else {
        r + j - 7
    }
}

/// The observable game state is the same.
pub open spec fn game_unchanged(pre: Game, post: Game) -> bool {
    &&& post.board@ == pre.board@
    &&& post.current_piece == pre.current_piece
    &&& post.state == pre.state
    &&& post.score == pre.score
}

/// What a spawn attempt leaves behind: board and score untouched; when
/// some shape fits at the spawn anchor the game keeps its phase and
/// holds a fresh placeable piece there, and otherwise it is over with no
/// active piece.
pub open spec fn spawn_outcome(pre: Game, post: Game) -> bool {
    &&& post.board@ == pre.board@
    &&& post.score == pre.score
    &&& spawnable(pre.board@) ==> {
        &&& post.state == pre.state
        &&& (post.current_piece matches Some(p)
            && p.pos == (3i32, 0i32)
            && p.rotation == 0
            && can_place_spec(post.board@, p))
    }
    &&& !spawnable(pre.board@) ==> post.state is GameOver && post.current_piece is None
}

/// What locking a piece `p` leaves behind: the piece's cells written to
/// the board, full rows cleared, the fixed score awarded for the rows
/// this one lock cleared, and the next piece spawned (which may end the
/// game).
pub open spec fn lock_outcome(pre: Game, post: Game, p: Tetromino) -> bool {
    let locked = lock_spec(pre.board@, p);
    let n = count_full(locked);
    &&& post.board@ == empty_rows(n) + rows_not_full(locked)
    &&& post.score == pre.score + score_for(n)
    &&& spawnable(post.board@) ==> {
        &&& post.state is Playing
        &&& (post.current_piece matches Some(q)
            && q.pos == (3i32, 0i32)
            && q.rotation == 0
            && can_place_spec(post.board@, q))
    }
    &&& !spawnable(post.board@) ==> post.state is GameOver && post.current_piece is None
}

/// Relies on fastrand::u8: a random value drawn from the given range.
/// The range 0..7 is never empty, so the call returns and the result is
/// below seven. Nothing else can be promised of a random draw.
#[verifier::external_body]
fn random_shape_index() -> (r: u8)
    ensures
        r < 7,
{
    fastrand::u8(0..7)
}

/// The executable counterpart of `shape_of_index`.
pub fn match_shape(shape_index: u8) -> (r: Shape)
    ensures
        r == shape_of_index(shape_index as int),
{
    match shape_index {
        0 => Shape::I,
        1 => Shape::O,
        2 => Shape::T,
        3 => Shape::S,
        4 => Shape::Z,
        5 => Shape::J,
        6 => Shape::L,
        _ => Shape::T,
    }
}

impl Game {
    /// The game invariant: the board is well-formed; while playing there
    /// is an active piece whose four cells are free on the board, and
    /// once the game is over there is none.
    pub open spec fn wf(self) -> bool {
        &&& self.board.wf()
        &&& match self.current_piece {
            Some(p) => self.state is Playing && p.wf() && p.pos_ok() && can_place_spec(
                self.board@,
                p,
            ),
            None => self.state is GameOver,
        }
    }

    /// Starts a game: empty board, score zero, playing, and a first
    /// piece spawned. On an empty board a piece always fits at the spawn
    /// anchor, so a fresh game is in play.
    pub fn new() -> (g: Game)
        ensures
            g.wf(),
            g.board@ == empty_grid(),
            g.score == 0,
            g.state is Playing,
            g.current_piece is Some,
    {
        let mut game = Self {
            board: Board::new(),
            current_piece: None,
            state: GameState::Playing,
            score: 0,
        };
        proof {
            let p = spawn_piece(shape_of_index(1));
            assert(p.cells() =~= seq![(3int, 0int), (4int, 0int), (3int, 1int), (4int, 1int)]);
            assert forall|i: int|
                0 <= i < 4 implies crate::board::cell_free(
                empty_grid(),
                (#[trigger] p.cells()[i]).0,
                p.cells()[i].1,
            ) by {
                assert(empty_grid()[p.cells()[i].1] == crate::board::empty_row());
                assert(!empty_grid()[p.cells()[i].1][p.cells()[i].0]);
            }
            assert(can_place_spec(empty_grid(), p));
            assert(spawnable(empty_grid()));
        }
        game.set_random_piece();
        game
    }

    /// Spawns a new piece: a shape is drawn at random and every shape is
    /// tried once, in a fixed cyclic order from the drawn one, until one
    /// fits at the spawn anchor; when none of the seven fits, the game
    /// ends with no active piece.
    pub fn set_random_piece(&mut self)
        requires
            old(self).board.wf(),
            old(self).state is Playing,
        ensures
            final (self).wf(),
            spawn_outcome(*old(self), *final (self)),
    {
        let rand_piece_index = random_shape_index();
        let mut counter: u8 = 0;
        while counter < 7
            invariant
                self.board@ == old(self).board@,
                self.current_piece == old(self).current_piece,
                self.state == old(self).state,
                self.score == old(self).score,
                old(self).board.wf(),
                old(self).state is Playing,
                self.board.wf(),
                rand_piece_index < 7,
                counter <= 7,
                forall|j: int|
                    0 <= j < counter as int ==> !can_place_spec(
                        old(self).board@,
                        spawn_piece(shape_of_index(#[trigger] wrap_index(rand_piece_index as int, j))),
                    ),
            decreases 7 - counter,
        {
            let mut idx: u8 = rand_piece_index + counter;
            if idx >= 7 {
                idx = idx - 7;
            }
            let candidate = Tetromino::new((3, 0), match_shape(idx));
            if self.board.can_place(&candidate) {
                self.current_piece = Some(candidate);
                proof {
                    assert(idx as int == wrap_index(rand_piece_index as int, counter as int));
                    assert(candidate == spawn_piece(shape_of_index(idx as int)));
                    assert(spawnable(old(self).board@));
                }
                return;
            }
            proof {
                assert(candidate == spawn_piece(
                    shape_of_index(wrap_index(rand_piece_index as int, counter as int)),
                ));
            }
            counter = counter + 1;
        }
        self.state = GameState::GameOver;
        self.current_piece = None;
        proof {
            let r = rand_piece_index as int;
            assert forall|t: int| 0 <= t < 7 implies !can_place_spec(
                old(self).board@,
                spawn_piece(#[trigger] shape_of_index(t)),
            ) by {
                let j = if t >= r {
                    t - r
                } else {
                    t + 7 - r
                };
                assert(0 <= j < 7);
                assert(wrap_index(r, j) == t);
                assert(!can_place_spec(
                    old(self).board@,
                    spawn_piece(shape_of_index(wrap_index(r, j))),
                ));
            }
            assert(!spawnable(old(self).board@));
        }
    }

    /// Attempts one step in `direction`: the move is kept only when the
    /// piece's new cells are all free; otherwise the piece is left
    /// exactly as it was and the move is reported invalid. With no
    /// active piece the command is rejected.
    pub fn try_move(&mut self, direction: Direction) -> (r: Result<(), GameError>)
        requires
            old(self).wf(),
        ensures
            final (self).wf(),
            final (self).board@ == old(self).board@,
            final (self).score == old(self).score,
            final (self).state == old(self).state,
            match old(self).current_piece {
                None => r == Err::<(), GameError>(GameError::NoActivePiece) && final (self).current_piece == old(self).current_piece,
                Some(p) => ({
                    let m = moved_piece(p, direction);
                    if can_place_spec(old(self).board@, m) {
                        r == Ok::<(), GameError>(()) && final (self).current_piece == Some(m)
                    } else {
                        r == Err::<(), GameError>(GameError::InvalidMove) && final (self).current_piece == old(self).current_piece
                    }
                }),
            },
    {
        match self.current_piece {
            None => Err(GameError::NoActivePiece),
            Some(p) => {
                proof {
                    lemma_can_place_pos_bounds(self.board@, p);
                }
                let mut moved = p;
                moved.move_piece(direction);
                proof {
                    assert(moved == moved_piece(p, direction));
                }
                if self.board.can_place(&moved) {
                    self.current_piece = Some(moved);
                    Ok(())
                } else {
                    Err(GameError::InvalidMove)
                }
            },
        }
    }

    /// Attempts a clockwise rotation: kept only when the rotated cells
    /// are all free, and otherwise rolled back exactly. With no active
    /// piece the command is rejected.
    pub fn try_rotate_clock(&mut self) -> (r: Result<(), GameError>)
        requires
            old(self).wf(),
        ensures
            final (self).wf(),
            final (self).board@ == old(self).board@,
            final (self).score == old(self).score,
            final (self).state == old(self).state,
            match old(self).current_piece {
                None => r == Err::<(), GameError>(GameError::NoActivePiece) && final (self).current_piece == old(self).current_piece,
                Some(p) => ({
                    let m = rotated_cw(p);
                    if can_place_spec(old(self).board@, m) {
                        r == Ok::<(), GameError>(()) && final (self).current_piece == Some(m)
                    } else {
                        r == Err::<(), GameError>(GameError::InvalidRotation) && final (self).current_piece == old(self).current_piece
                    }
                }),
            },
    {
        match self.current_piece {
            None => Err(GameError::NoActivePiece),
            Some(p) => {
                proof {
                    lemma_can_place_pos_bounds(self.board@, p);
                }
                let mut rotated = p;
                rotated.rotate_cw();
                proof {
                    assert(rotated == rotated_cw(p));
                }
                if self.board.can_place(&rotated) {
                    self.current_piece = Some(rotated);
                    Ok(())
                } else {
                    Err(GameError::InvalidRotation)
                }
            },
        }
    }

    /// Attempts a counter-clockwise rotation: kept only when the rotated
    /// cells are all free, and otherwise rolled back exactly. With no
    /// active piece the command is rejected.
    pub fn try_rotate_counter(&mut self) -> (r: Result<(), GameError>)
        requires
            old(self).wf(),
        ensures
            final (self).wf(),
            final (self).board@ == old(self).board@,
            final (self).score == old(self).score,
            final (self).state == old(self).state,
            match old(self).current_piece {
                None => r == Err::<(), GameError>(GameError::NoActivePiece) && final (self).current_piece == old(self).current_piece,
                Some(p) => ({
                    let m = rotated_ccw(p);
                    if can_place_spec(old(self).board@, m) {
                        r == Ok::<(), GameError>(()) && final (self).current_piece == Some(m)
                    } else {
                        r == Err::<(), GameError>(GameError::InvalidRotation) && final (self).current_piece == old(self).current_piece
                    }
                }),
            },
    {
        match self.current_piece {
            None => Err(GameError::NoActivePiece),
            Some(p) => {
                proof {
                    lemma_can_place_pos_bounds(self.board@, p);
                }
                let mut rotated = p;
                rotated.rotate_ccw();
                proof {
                    assert(rotated == rotated_ccw(p));
                }
                if self.board.can_place(&rotated) {
                    self.current_piece = Some(rotated);
                    Ok(())
                } else {
                    Err(GameError::InvalidRotation)
                }
            },
        }
    }

    /// Locks the active piece into the board, clears full rows, awards
    /// 100, 300, 500 or 800 points for clearing one, two, three or four
    /// rows in this single lock (and nothing for any other count), then
    /// spawns the next piece — which may end the game. With no active
    /// piece the command is rejected.
    pub fn lock_current_piece(&mut self) -> (r: Result<(), GameError>)
        requires
            old(self).wf(),
            old(self).score <= u32::MAX - 800,
        ensures
            final (self).wf(),
            match old(self).current_piece {
                None => r == Err::<(), GameError>(GameError::NoActivePiece) && game_unchanged(
                    *old(self),
                    *final (self),
                ),
                Some(p) => r == Ok::<(), GameError>(()) && lock_outcome(
                    *old(self),
                    *final (self),
                    p,
                ),
            },
    {
        match self.current_piece {
            None => Err(GameError::NoActivePiece),
            Some(p) => {
                proof {
                    lemma_can_place_pos_bounds(self.board@, p);
                }
                self.board.lock_piece(&p);
                let lines = self.board.clear_lines();
                let points: u32 = if lines == 1 {
                    100
                } else if lines == 2 {
                    300
                } else if lines == 3 {
                    500
                } else if lines == 4 {
                    800
                } else {
                    0
                };
                self.score = self.score + points;
                self.set_random_piece();
                Ok(())
            },
        }
    }

    /// One gravity step: the piece moves down when it can, and locks
    /// where it is when it cannot (scoring and spawning included). A
    /// tick never reports an error; with no active piece it changes
    /// nothing.
    pub fn tick_down(&mut self)
        requires
            old(self).wf(),
            old(self).score <= u32::MAX - 800,
        ensures
            final (self).wf(),
            match old(self).current_piece {
                None => game_unchanged(*old(self), *final (self)),
                Some(p) => ({
                    let m = moved_piece(p, Direction::Down);
                    if can_place_spec(old(self).board@, m) {
                        &&& final (self).board@ == old(self).board@
                        &&& final (self).score == old(self).score
                        &&& final (self).state == old(self).state
                        &&& final (self).current_piece == Some(m)
                    } else {
                        lock_outcome(*old(self), *final (self), p)
                    }
                }),
            },
    {
        let moved = self.try_move(Direction::Down);
        if moved.is_err() {
            let _ = self.lock_current_piece();
        }
    }

    /// A hard drop: the piece falls straight down as far as it can —
    /// every intermediate position is placeable and one step further is
    /// not — and locks there (scoring and spawning included). With no
    /// active piece it changes nothing.
    pub fn hard_lock(&mut self)
        requires
            old(self).wf(),
            old(self).score <= u32::MAX - 800,
        ensures
            final (self).wf(),
            old(self).current_piece is None ==> game_unchanged(*old(self), *final (self)),
            old(self).current_piece matches Some(p) ==> (exists|k: int|
                0 <= k <= 22 && (forall|j: int|
                    0 <= j <= k ==> can_place_spec(old(self).board@, #[trigger] dropped_piece(p, j)))
                    && !can_place_spec(old(self).board@, dropped_piece(p, k + 1)) && lock_outcome(
                    *old(self),
                    *final (self),
                    dropped_piece(p, k),
                )),
    {
        if self.current_piece.is_none() {
            return;
        }
        let ghost p0 = self.current_piece->Some_0;
        let ghost g0 = self.board@;
        let ghost mut k: int = 0;
        proof {
            lemma_can_place_pos_bounds(g0, p0);
            assert(dropped_piece(p0, 0) == p0);
        }
        let mut done = false;
        while !done
            invariant
                self.wf(),
                0 <= k <= 22,
                self.board@ == old(self).board@,
                self.board@ == g0,
                self.score == old(self).score,
                self.state == old(self).state,
                old(self).current_piece == Some(p0),
                old(self).score <= u32::MAX - 800,
                p0.wf(),
                -3 <= p0.pos.0 <= 9,
                -3 <= p0.pos.1 <= 19,
                self.current_piece == Some(dropped_piece(p0, k)),
                forall|j: int|
                    0 <= j <= k ==> can_place_spec(g0, #[trigger] dropped_piece(p0, j)),
                done ==> !can_place_spec(g0, dropped_piece(p0, k + 1)),
            decreases 23 - k, (if done { 0int } else { 1int }),
        {
            let ghost cur = dropped_piece(p0, k);
            proof {
                lemma_can_place_pos_bounds(g0, cur);
                assert(moved_piece(cur, Direction::Down) == dropped_piece(p0, k + 1));
            }
            match self.try_move(Direction::Down) {
                Ok(_) => {
                    proof {
                        assert(can_place_spec(g0, dropped_piece(p0, k + 1)));
                        lemma_can_place_pos_bounds(g0, dropped_piece(p0, k + 1));
                        k = k + 1;
                    }
                },
                Err(_) => {
                    done = true;
                },
            }
        }
        let _ = self.lock_current_piece();
        proof {
            assert(lock_outcome(*old(self), *self, dropped_piece(p0, k)));
            assert(0 <= k <= 22 && (forall|j: int|
                0 <= j <= k ==> can_place_spec(old(self).board@, #[trigger] dropped_piece(p0, j)))
                && !can_place_spec(old(self).board@, dropped_piece(p0, k + 1)) && lock_outcome(
                *old(self),
                *self,
                dropped_piece(p0, k),
            ));
        }
    }
}

/// The piece `k` rows straight down from `p`.
pub open spec fn dropped_piece(p: Tetromino, k: int) -> Tetromino {
    Tetromino { pos: (p.pos.0, (p.pos.1 + k) as i32), ..p }
}

} // verus!
