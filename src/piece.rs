//! The active piece and the attempt protocol for moving it.
use vstd::prelude::*;
use vstd::seq_lib::lemma_seq_contains_after_push;
use crate::shapes::{NUM_KINDS, piece_mask, piece_shape, mask_view};
use crate::board::{Board, board_wf, board_view, collides, collides_spec};

verus! {

/// A piece on the grid: its kind, the grid position of its mask's top-left
/// corner (the row may be negative above the grid) and its rotation index.
#[derive(Clone, Copy, Debug, PartialEq, Eq, Structural)]
pub struct Piece {
    pub x: i32,
    pub y: i32,
    pub kind: usize,
    pub rot: usize,
}

impl Piece {
    /// Kind and rotation index are in range.
    pub open spec fn valid(&self) -> bool {
        self.kind < NUM_KINDS && self.rot < 4
    }

    /// The rotated mask has a block at mask row `my`, mask column `mx`.
    pub open spec fn block(&self, my: int, mx: int) -> bool {
        0 <= my < 4 && 0 <= mx < 4 && piece_mask(self.kind as int, self.rot as int)[my][mx] != 0
    }

    /// One of the piece's blocks lies on grid row `row`, column `col`.
    pub open spec fn covers(&self, row: int, col: int) -> bool {
        self.block(row - self.y, col - self.x)
    }
}

/// Column at which new pieces appear.
pub const SPAWN_X: i32 = 3;

/// Row at which new pieces appear: one row above the grid.
pub const SPAWN_Y: i32 = -1;

/// A change that a player or gravity proposes for the active piece.
#[derive(Clone, Copy, Debug, PartialEq, Eq, Structural)]
pub enum Move {
    Left,
    Right,
    Rotate,
    Down,
}

/// The move can be applied without leaving `i32`.
pub open spec fn move_in_range(p: Piece) -> bool {
    i32::MIN < p.x < i32::MAX && p.y < i32::MAX
}

/// The piece after the move, legal or not.
pub open spec fn moved(p: Piece, m: Move) -> Piece {
    match m {
        Move::Left => Piece { x: (p.x - 1) as i32, ..p },
        Move::Right => Piece { x: (p.x + 1) as i32, ..p },
        Move::Rotate => Piece { rot: ((p.rot + 1) % 4) as usize, ..p },
        Move::Down => Piece { y: (p.y + 1) as i32, ..p },
    }
}

/// The piece after an attempt: the moved piece if it is legal, else the
/// piece as it was.
pub open spec fn attempt_spec(b: Seq<Seq<u8>>, p: Piece, m: Move) -> Piece {
    if collides_spec(b, moved(p, m)) {
        p
    } else {
        moved(p, m)
    }
}

/// The piece that appears after a lock: of the given kind, at the spawn
/// position, unrotated.
pub open spec fn spawned(kind: usize) -> Piece {
    Piece { x: SPAWN_X, y: SPAWN_Y, kind, rot: 0 }
}

/// Builds a candidate with the move applied, and takes it only where it
/// does not collide. Returns whether the move was taken; a rejected move
/// leaves the piece exactly as it was.
pub fn attempt(board: &Board, piece: &mut Piece, m: Move) -> (r: bool)
    requires
        board_wf(board),
        old(piece).valid(),
        move_in_range(*old(piece)),
    ensures
        r == !collides_spec(board_view(board), moved(*old(piece), m)),
        *final(piece) == attempt_spec(board_view(board), *old(piece), m),
        !r ==> *final(piece) == *old(piece),
        final(piece).valid(),
{
    let mut cand = *piece;
    match m {
        Move::Left => cand.x = cand.x - 1,
        Move::Right => cand.x = cand.x + 1,
        Move::Rotate => cand.rot = (cand.rot + 1) % 4,
        Move::Down => cand.y = cand.y + 1,
    }
    assert(cand == moved(*piece, m));
    if collides(board, &cand) {
        false
    } else {
        *piece = cand;
        true
    }
}

/// Returns a fresh piece of the given kind at the spawn position.
pub fn spawn_piece(kind: usize) -> (r: Piece)
    ensures
        r == spawned(kind),
{
    Piece { x: SPAWN_X, y: SPAWN_Y, kind, rot: 0 }
}

/// Relies on macroquad::rand::gen_range (quad-rand's global generator): for
/// integer types it scales a draw from [0, 1) onto the span from `low` to
/// `high` and truncates, so the result is at least `low` and below `high`.
#[verifier::external_body]
fn gen_range_usize(low: usize, high: usize) -> (r: usize)
    requires
        low < high <= 1024,
    ensures
        low <= r < high,
{
    macroquad::rand::gen_range(low, high)
}

/// Returns a fresh piece of a random kind at the spawn position.
pub fn new_piece() -> (r: Piece)
    ensures
        r == spawned(r.kind),
        r.valid(),
{
    spawn_piece(gen_range_usize(0, NUM_KINDS))
}

/// The grid cells (column, row) that the piece shows on the grid: its
/// blocks, without those above the top row.
pub open spec fn visible(p: Piece, c: (i32, i32)) -> bool {
    c.1 >= 0 && p.covers(c.1 as int, c.0 as int)
}

/// The visible cells of mask row `my` among mask columns `0..n`, left to
/// right.
pub open spec fn row_cells(p: Piece, my: int, n: nat) -> Seq<(i32, i32)>
    decreases n,
{
    if n == 0 {
        Seq::empty()
    } else {
        let mx = n - 1;
        let prev = row_cells(p, my, (n - 1) as nat);
        if p.block(my, mx) && p.y + my >= 0 {
            prev.push(((p.x + mx) as i32, (p.y + my) as i32))
        } else {
            prev
        }
    }
}

/// The visible cells of mask rows `0..n`, row by row.
pub open spec fn rows_cells(p: Piece, n: nat) -> Seq<(i32, i32)>
    decreases n,
{
    if n == 0 {
        Seq::empty()
    } else {
        rows_cells(p, (n - 1) as nat) + row_cells(p, n - 1, 4)
    }
}

/// The cells that the piece shows on the grid, in row-major order of its
/// mask.
pub open spec fn visible_seq(p: Piece) -> Seq<(i32, i32)> {
    rows_cells(p, 4)
}

/// Lists the grid cells (column, row) that the piece's blocks cover inside
/// the grid, for drawing.
pub fn visible_cells(p: &Piece) -> (r: Vec<(i32, i32)>)
    requires
        p.valid(),
        p.x < i32::MAX - 4,
        p.y < i32::MAX - 4,
    ensures
        r@ == visible_seq(*p),
        r@.no_duplicates(),
        forall|c: (i32, i32)| r@.contains(c) <==> visible(*p, c),
{
    let s = piece_shape(p.kind, p.rot);
    let mut out: Vec<(i32, i32)> = Vec::new();
    let mut y: usize = 0;
    assert(out@ =~~= rows_cells(*p, 0));
    while y < 4
        invariant
            y <= 4,
            p.valid(),
            p.x < i32::MAX - 4,
            p.y < i32::MAX - 4,
            mask_view(s) == piece_mask(p.kind as int, p.rot as int),
            forall|c: (i32, i32)|
                #[trigger] out@.contains(c) <==> (visible(*p, c) && c.1 - p.y < y),
            out@ == rows_cells(*p, y as nat),
            out@.no_duplicates(),
        decreases 4 - y,
    {
        let mut x: usize = 0;
        assert(out@ =~~= rows_cells(*p, y as nat) + row_cells(*p, y as int, 0));
        while x < 4
            invariant
                y < 4,
                x <= 4,
                p.valid(),
                p.x < i32::MAX - 4,
                p.y < i32::MAX - 4,
                mask_view(s) == piece_mask(p.kind as int, p.rot as int),
                forall|c: (i32, i32)|
                    #[trigger] out@.contains(c) <==> (visible(*p, c) && (c.1 - p.y < y || (c.1 - p.y == y
                        && c.0 - p.x < x))),
                out@ == rows_cells(*p, y as nat) + row_cells(*p, y as int, x as nat),
                out@.no_duplicates(),
            decreases 4 - x,
        {
            let py: i32 = p.y + y as i32;
            let px: i32 = p.x + x as i32;
            let ghost prev = out@;
            assert(visible(*p, (px, py)) == (s[y as int][x as int] != 0 && py >= 0));
            if s[y][x] != 0 && py >= 0 {
                out.push((px, py));
                proof {
                    assert forall|i: int, j: int|
                        0 <= i < out@.len() && 0 <= j < out@.len() && i != j implies out@[i]
                        != out@[j] by {
                        if j == prev.len() {
                            assert(prev.contains(out@[i]));
                        } else if i == prev.len() {
                            assert(prev.contains(out@[j]));
                        }
                    }
                }
            }
            assert(out@ =~~= rows_cells(*p, y as nat) + row_cells(*p, y as int, (x + 1) as nat));
            proof {
                assert forall|c: (i32, i32)|
                    #[trigger] out@.contains(c) <==> (visible(*p, c) && (c.1 - p.y < y || (c.1 - p.y == y
                        && c.0 - p.x < x + 1))) by {
                    if s[y as int][x as int] != 0 && py >= 0 {
                        lemma_seq_contains_after_push(prev, (px, py), c);
                    }
                    if c.0 == px && c.1 == py {
                        assert(c == (px, py));
                    }
                }
            }
            x = x + 1;
        }
        assert(out@ =~~= rows_cells(*p, (y + 1) as nat));
        y = y + 1;
    }
    out
}

} // verus!
