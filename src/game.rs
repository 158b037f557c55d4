//! The game session: grid, active piece, gravity timer and game-over flag,
//! advanced one frame at a time.
use vstd::prelude::*;
use crate::shapes::{NUM_KINDS, anchor, lemma_anchor_occupied};
use crate::board::{
    Board, WIDTH, HEIGHT, board_wf, board_view, collides_spec, fits, merge_spec, clear_spec,
    cell_blocked, empty_board, merge, clear_lines,
};
use crate::piece::{Piece, Move, attempt, attempt_spec, moved, spawned, spawn_piece, new_piece};

verus! {

/// Gravity period in microseconds: the piece falls one row when the timer
/// passes it.
pub const GRAVITY_MICROS: u64 = 500_000;

/// Extra time in microseconds added to the gravity timer on each frame in
/// which soft drop is held.
pub const SOFT_DROP_MICROS: u64 = 50_000;

/// The player's intents for one frame. Left, right and rotate are
/// edge-triggered presses; soft drop is held.
#[derive(Clone, Copy, Debug, PartialEq, Eq, Structural)]
pub struct Input {
    pub left: bool,
    pub right: bool,
    pub rotate: bool,
    pub soft_drop: bool,
}

/// The state of one game.
pub struct Game {
    pub board: Board,
    pub piece: Piece,
    /// Microseconds accumulated towards the next forced descent.
    pub timer: u64,
    pub game_over: bool,
}

/// The piece has a legal kind and rotation, lies within the walls and
/// above the floor, and its position stays in the range that play reaches.
pub open spec fn piece_ok(p: Piece) -> bool {
    &&& p.valid()
    &&& fits(p)
    &&& -3 <= p.x < WIDTH
    &&& -1 <= p.y < HEIGHT
}

/// The piece after the frame's left, right and rotate intents, tried in
/// that order.
pub open spec fn after_inputs(b: Seq<Seq<u8>>, p: Piece, input: Input) -> Piece {
    let p1 = if input.left { attempt_spec(b, p, Move::Left) } else { p };
    let p2 = if input.right { attempt_spec(b, p1, Move::Right) } else { p1 };
    if input.rotate { attempt_spec(b, p2, Move::Rotate) } else { p2 }
}

/// `a + b`, held at `u64::MAX`.
pub open spec fn sat_add(a: u64, b: u64) -> u64 {
    if a + b > u64::MAX { u64::MAX } else { (a + b) as u64 }
}

/// The gravity timer after the frame's elapsed time and soft drop.
pub open spec fn timer_after(t: u64, dt: u64, soft_drop: bool) -> u64 {
    let t1 = sat_add(t, dt);
    if soft_drop { sat_add(t1, SOFT_DROP_MICROS) } else { t1 }
}

/// The piece, blocked from falling, locks into the grid during this frame.
pub open spec fn locks(b: Seq<Seq<u8>>, p: Piece, t: u64, over: bool, input: Input, dt: u64) -> bool {
    let p1 = after_inputs(b, p, input);
    &&& !over
    &&& timer_after(t, dt, input.soft_drop) > GRAVITY_MICROS
    &&& collides_spec(b, moved(p1, Move::Down))
    &&& p1.y >= 0
}

/// Grid, piece, timer and game-over flag after one frame, where a piece
/// that appears after a lock has kind `next_kind`.
pub open spec fn step_spec(
    b: Seq<Seq<u8>>,
    p: Piece,
    t: u64,
    over: bool,
    input: Input,
    dt: u64,
    next_kind: usize,
) -> (Seq<Seq<u8>>, Piece, u64, bool) {
    let p1 = after_inputs(b, p, input);
    let t1 = timer_after(t, dt, input.soft_drop);
    if over {
        (b, p, t, true)
    } else if t1 <= GRAVITY_MICROS {
        (b, p1, t1, false)
    } else if !collides_spec(b, moved(p1, Move::Down)) {
        (b, moved(p1, Move::Down), 0, false)
    } else if p1.y < 0 {
        (b, p1, 0, true)
    } else {
        (clear_spec(merge_spec(b, p1)), spawned(next_kind), 0, false)
    }
}

/// A piece that does not collide lies within the walls and above the floor.
proof fn lemma_free_fits(b: Seq<Seq<u8>>, p: Piece)
    requires
        !collides_spec(b, p),
    ensures
        fits(p),
{
    assert forall|my: int, mx: int| #[trigger] p.block(my, mx) implies 0 <= p.x + mx < WIDTH
        && p.y + my < HEIGHT by {
        assert(!cell_blocked(b, p.y + my, p.x + mx));
    }
}

/// A legal piece stays in the range of positions that play reaches.
proof fn lemma_free_in_range(b: Seq<Seq<u8>>, p: Piece)
    requires
        p.valid(),
        !collides_spec(b, p),
    ensures
        -3 <= p.x < WIDTH,
        p.y < HEIGHT,
{
    lemma_anchor_occupied(p.kind as int, p.rot as int);
    let a = anchor(p.rot as int);
    assert(p.block(a.0, a.1));
    assert(!cell_blocked(b, p.y + a.0, p.x + a.1));
}

impl Game {
    /// The grid has its height and the piece is in play.
    pub open spec fn wf(&self) -> bool {
        board_wf(&self.board) && piece_ok(self.piece)
    }

    /// A new game on an empty grid, with a first piece of the given kind.
    pub fn start(kind: usize) -> (g: Game)
        requires
            kind < NUM_KINDS,
        ensures
            g.wf(),
            forall|i: int, j: int| 0 <= i < HEIGHT && 0 <= j < WIDTH ==> board_view(&g.board)[i][j] == 0,
            g.piece == spawned(kind),
            g.timer == 0,
            !g.game_over,
    {
        Game { board: empty_board(), piece: spawn_piece(kind), timer: 0, game_over: false }
    }

    /// A new game on an empty grid, with a first piece of a random kind.
    pub fn new() -> (g: Game)
        ensures
            g.wf(),
            forall|i: int, j: int| 0 <= i < HEIGHT && 0 <= j < WIDTH ==> board_view(&g.board)[i][j] == 0,
            g.piece == spawned(g.piece.kind),
            g.timer == 0,
            !g.game_over,
    {
        Game { board: empty_board(), piece: new_piece(), timer: 0, game_over: false }
    }

    fn try_move(&mut self, m: Move)
        requires
            old(self).wf(),
            m != Move::Down,
        ensures
            final(self).wf(),
            final(self).piece == attempt_spec(board_view(&old(self).board), old(self).piece, m),
            final(self).board == old(self).board,
            final(self).timer == old(self).timer,
            final(self).game_over == old(self).game_over,
    {
        let ghost b = board_view(&self.board);
        let ghost p0 = self.piece;
        let _ = attempt(&self.board, &mut self.piece, m);
        proof {
            if !collides_spec(b, moved(p0, m)) {
                lemma_free_fits(b, moved(p0, m));
                lemma_free_in_range(b, moved(p0, m));
            }
        }
    }

    /// Runs one frame up to the point where a new piece would appear.
    /// Returns whether the piece locked; the piece is then left where it
    /// locked, for the caller to replace.
    fn advance(&mut self, input: &Input, dt: u64) -> (locked: bool)
        requires
            old(self).wf(),
        ensures
            final(self).wf(),
            locked == locks(
                board_view(&old(self).board),
                old(self).piece,
                old(self).timer,
                old(self).game_over,
                *input,
                dt,
            ),
            ({
                let s = step_spec(
                    board_view(&old(self).board),
                    old(self).piece,
                    old(self).timer,
                    old(self).game_over,
                    *input,
                    dt,
                    0,
                );
                &&& board_view(&final(self).board) == s.0
                &&& final(self).timer == s.2
                &&& final(self).game_over == s.3
                &&& !locked ==> final(self).piece == s.1
            }),
    {
        if self.game_over {
            return false;
        }
        if input.left {
            self.try_move(Move::Left);
        }
        if input.right {
            self.try_move(Move::Right);
        }
        if input.rotate {
            self.try_move(Move::Rotate);
        }
        let mut t: u64 = self.timer.saturating_add(dt);
        if input.soft_drop {
            t = t.saturating_add(SOFT_DROP_MICROS);
        }
        if t <= GRAVITY_MICROS {
            self.timer = t;
            return false;
        }
        self.timer = 0;
        let ghost b = board_view(&self.board);
        let ghost p1 = self.piece;
        if attempt(&self.board, &mut self.piece, Move::Down) {
            proof {
                lemma_free_fits(b, moved(p1, Move::Down));
                lemma_free_in_range(b, moved(p1, Move::Down));
            }
            false
        } else if self.piece.y < 0 {
            self.game_over = true;
            false
        } else {
            merge(&mut self.board, &self.piece);
            clear_lines(&mut self.board);
            true
        }
    }

    /// Runs one frame: applies the intents, feeds `dt` microseconds (and
    /// soft drop) to the gravity timer, and when it passes the gravity
    /// period moves the piece down one row, or, where it cannot fall,
    /// either ends the game (piece still above the grid) or locks it,
    /// clears full rows and brings in a piece of kind `next_kind`.
    pub fn step(&mut self, input: &Input, dt: u64, next_kind: usize)
        requires
            old(self).wf(),
            next_kind < NUM_KINDS,
        ensures
            final(self).wf(),
            (board_view(&final(self).board), final(self).piece, final(self).timer, final(self).game_over)
                == step_spec(
                board_view(&old(self).board),
                old(self).piece,
                old(self).timer,
                old(self).game_over,
                *input,
                dt,
                next_kind,
            ),
    {
        if self.advance(input, dt) {
            self.piece = spawn_piece(next_kind);
        }
    }

    /// Runs one frame as `step` does, with a random kind for a piece that
    /// appears after a lock.
    pub fn update(&mut self, input: &Input, dt: u64)
        requires
            old(self).wf(),
        ensures
            final(self).wf(),
            exists|k: usize|
                k < NUM_KINDS && (board_view(&final(self).board), final(self).piece, final(self).timer,
                    final(self).game_over) == #[trigger] step_spec(
                    board_view(&old(self).board),
                    old(self).piece,
                    old(self).timer,
                    old(self).game_over,
                    *input,
                    dt,
                    k,
                ),
    {
        let ghost g0 = *self;
        let locked = self.advance(input, dt);
        if locked {
            self.piece = new_piece();
        }
        proof {
            let k: usize = if locked { self.piece.kind } else { 0 };
            let s = step_spec(board_view(&g0.board), g0.piece, g0.timer, g0.game_over, *input, dt, k);
            assert((board_view(&self.board), self.piece, self.timer, self.game_over) == s);
        }
    }
}

} // verus!
