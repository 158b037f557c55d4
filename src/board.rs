//! The grid of settled blocks: collision test, merge and line clearing.
use vstd::prelude::*;
use crate::shapes::{piece_shape, piece_mask, mask_view};
use crate::piece::Piece;

verus! {

/// Number of columns of the grid.
pub const WIDTH: usize = 10;

/// Number of rows of the grid.
pub const HEIGHT: usize = 20;

/// One row of the grid: 0 is an empty cell, any other value the kind id
/// (kind + 1) of the piece that left a block there.
pub type Row = [u8; WIDTH];

/// The grid, top row first.
pub type Board = Vec<Row>;

/// The grid as a sequence of rows of cells.
pub open spec fn board_view(b: &Board) -> Seq<Seq<u8>> {
    Seq::new(b@.len(), |i: int| b@[i]@)
}

/// The grid has its fixed height (each row has its width by type).
pub open spec fn board_wf(b: &Board) -> bool {
    b@.len() == HEIGHT
}

/// A block at grid row `row`, column `col` is illegal: outside the side
/// walls, at or below the floor, or on a settled block. Rows above the
/// grid are free.
pub open spec fn cell_blocked(b: Seq<Seq<u8>>, row: int, col: int) -> bool {
    col < 0 || col >= WIDTH || row >= HEIGHT || (row >= 0 && b[row][col] != 0)
}

/// Some block of the piece lies on an illegal cell.
pub open spec fn collides_spec(b: Seq<Seq<u8>>, p: Piece) -> bool {
    exists|my: int, mx: int| #[trigger] p.block(my, mx) && cell_blocked(b, p.y + my, p.x + mx)
}

/// Returns an empty grid.
pub fn empty_board() -> (b: Board)
    ensures
        board_wf(&b),
        forall|i: int, j: int| 0 <= i < HEIGHT && 0 <= j < WIDTH ==> board_view(&b)[i][j] == 0,
{
    let mut b: Board = Vec::new();
    let mut i: usize = 0;
    while i < HEIGHT
        invariant
            i <= HEIGHT,
            b@.len() == i,
            forall|k: int, j: int| 0 <= k < i && 0 <= j < WIDTH ==> b@[k]@[j] == 0,
        decreases HEIGHT - i,
    {
        b.push([0u8; WIDTH]);
        i = i + 1;
    }
    b
}

/// Tells whether piece `p` would overlap a wall, the floor or a settled
/// block of `board`.
pub fn collides(board: &Board, p: &Piece) -> (r: bool)
    requires
        board_wf(board),
        p.valid(),
    ensures
        r == collides_spec(board_view(board), *p),
{
    let s = piece_shape(p.kind, p.rot);
    let ghost b = board_view(board);
    let mut y: usize = 0;
    while y < 4
        invariant
            y <= 4,
            mask_view(s) == piece_mask(p.kind as int, p.rot as int),
            b == board_view(board),
            board_wf(board),
            forall|my: int, mx: int| 0 <= my < y && #[trigger] p.block(my, mx) ==> !cell_blocked(b, p.y + my, p.x + mx),
        decreases 4 - y,
    {
        let mut x: usize = 0;
        while x < 4
            invariant
                y < 4,
                x <= 4,
                mask_view(s) == piece_mask(p.kind as int, p.rot as int),
                b == board_view(board),
                board_wf(board),
                forall|my: int, mx: int| 0 <= my < y && #[trigger] p.block(my, mx) ==> !cell_blocked(b, p.y + my, p.x + mx),
                forall|mx: int| 0 <= mx < x && #[trigger] p.block(y as int, mx) ==> !cell_blocked(b, p.y + y, p.x + mx),
            decreases 4 - x,
        {
            if s[y][x] != 0 {
                assert(p.block(y as int, x as int));
                let nx: i64 = p.x as i64 + x as i64;
                let ny: i64 = p.y as i64 + y as i64;
                if nx < 0 || nx >= WIDTH as i64 || ny >= HEIGHT as i64 {
                    return true;
                }
                if ny >= 0 && board[ny as usize][nx as usize] != 0 {
                    return true;
                }
            }
            x = x + 1;
        }
        y = y + 1;
    }
    proof {
        assert forall|my: int, mx: int| #[trigger] p.block(my, mx) implies !cell_blocked(b, p.y + my, p.x + mx) by {}
    }
    false
}

/// Every block of the piece lies between the side walls and above the
/// floor (it may lie above the grid or on settled blocks).
pub open spec fn fits(p: Piece) -> bool {
    forall|my: int, mx: int|
        #[trigger] p.block(my, mx) ==> 0 <= p.x + mx < WIDTH && p.y + my < HEIGHT
}

/// Every block of the piece that lies in or below the top row lies between
/// the side walls and above the floor; blocks above the grid may lie
/// anywhere.
pub open spec fn lands_inside(p: Piece) -> bool {
    forall|my: int, mx: int|
        #[trigger] p.block(my, mx) && p.y + my >= 0 ==> 0 <= p.x + mx < WIDTH && p.y + my < HEIGHT
}

/// The grid after writing the piece's kind id into each cell it covers
/// inside the grid; every other cell is kept.
pub open spec fn merge_spec(b: Seq<Seq<u8>>, p: Piece) -> Seq<Seq<u8>> {
    Seq::new(
        b.len(),
        |i: int|
            Seq::new(
                WIDTH as nat,
                |j: int| if p.covers(i, j) { (p.kind + 1) as u8 } else { b[i][j] },
            ),
    )
}

/// The first `n` mask cells (row-major) of `p` merged into `b`.
spec fn merged_upto(b: Seq<Seq<u8>>, p: Piece, n: int) -> Seq<Seq<u8>> {
    Seq::new(
        b.len(),
        |i: int|
            Seq::new(
                WIDTH as nat,
                |j: int|
                    if p.covers(i, j) && 4 * (i - p.y) + (j - p.x) < n {
                        (p.kind + 1) as u8
                    } else {
                        b[i][j]
                    },
            ),
    )
}

/// Writes the kind id of `p` into every grid cell that one of its blocks
/// covers; blocks above the grid are skipped.
pub fn merge(board: &mut Board, p: &Piece)
    requires
        board_wf(old(board)),
        p.valid(),
        lands_inside(*p),
    ensures
        board_wf(final(board)),
        board_view(final(board)) == merge_spec(board_view(old(board)), *p),
{
    let s = piece_shape(p.kind, p.rot);
    let ghost b0 = board_view(board);
    let v: u8 = (p.kind + 1) as u8;
    let mut y: usize = 0;
    proof {
        assert(merged_upto(b0, *p, 0) =~~= b0);
    }
    while y < 4
        invariant
            y <= 4,
            mask_view(s) == piece_mask(p.kind as int, p.rot as int),
            board_wf(board),
            b0.len() == HEIGHT,
            forall|i: int| 0 <= i < HEIGHT ==> #[trigger] b0[i].len() == WIDTH,
            p.valid(),
            lands_inside(*p),
            v == (p.kind + 1) as u8,
            board_view(board) == merged_upto(b0, *p, 4 * y),
        decreases 4 - y,
    {
        let mut x: usize = 0;
        while x < 4
            invariant
                y < 4,
                x <= 4,
                mask_view(s) == piece_mask(p.kind as int, p.rot as int),
                board_wf(board),
                b0.len() == HEIGHT,
                forall|i: int| 0 <= i < HEIGHT ==> #[trigger] b0[i].len() == WIDTH,
                p.valid(),
                lands_inside(*p),
                v == (p.kind + 1) as u8,
                board_view(board) == merged_upto(b0, *p, 4 * y + x),
            decreases 4 - x,
        {
            let ghost before = board_view(board);
            if s[y][x] != 0 {
                assert(p.block(y as int, x as int));
                let nx: i64 = p.x as i64 + x as i64;
                let ny: i64 = p.y as i64 + y as i64;
                if ny >= 0 {
                    let mut row: Row = board[ny as usize];
                    row[nx as usize] = v;
                    board.set(ny as usize, row);
                    proof {
                        let n = 4 * y + x;
                        let after = merged_upto(b0, *p, n + 1);
                        assert forall|i: int, j: int| 0 <= i < HEIGHT && 0 <= j < WIDTH implies
                            #[trigger] board_view(board)[i][j] == after[i][j] by {
                            if i == ny && j == nx {
                            } else {
                                assert(before[i][j] == board_view(board)[i][j]);
                            }
                        }
                        assert(board_view(board) =~~= after);
                    }
                } else {
                    assert(board_view(board) =~~= merged_upto(b0, *p, 4 * y + x + 1));
                }
            } else {
                assert(board_view(board) =~~= merged_upto(b0, *p, 4 * y + x + 1));
            }
            x = x + 1;
        }
        y = y + 1;
    }
    assert(board_view(board) =~~= merge_spec(b0, *p));
}

/// Every cell of the row holds a block.
pub open spec fn row_full(r: Seq<u8>) -> bool {
    forall|j: int| 0 <= j < r.len() ==> r[j] != 0
}

/// A row of empty cells.
pub open spec fn empty_row() -> Seq<u8> {
    Seq::new(WIDTH as nat, |j: int| 0u8)
}

/// The rows that are not full, in their order.
pub open spec fn surviving(b: Seq<Seq<u8>>) -> Seq<Seq<u8>> {
    b.filter(not_full())
}

/// The predicate that keeps a row through line clearing.
pub open spec fn not_full() -> spec_fn(Seq<u8>) -> bool {
    |r: Seq<u8>| !row_full(r)
}

/// The grid with its full rows removed and as many empty rows added on top
/// as it takes to restore its height.
pub open spec fn clear_spec(b: Seq<Seq<u8>>) -> Seq<Seq<u8>> {
    Seq::new((HEIGHT - surviving(b).len()) as nat, |i: int| empty_row()) + surviving(b)
}

fn row_is_full(r: &Row) -> (res: bool)
    ensures
        res == row_full(r@),
{
    let mut j: usize = 0;
    while j < WIDTH
        invariant
            j <= WIDTH,
            forall|k: int| 0 <= k < j ==> r@[k] != 0,
        decreases WIDTH - j,
    {
        if r[j] == 0 {
            return false;
        }
        j = j + 1;
    }
    true
}

/// Removes every full row and pads the grid with empty rows at the top, so
/// that the surviving rows keep their order and settle at the bottom.
pub fn clear_lines(board: &mut Board)
    requires
        board_wf(old(board)),
    ensures
        board_wf(final(board)),
        board_view(final(board)) == clear_spec(board_view(old(board))),
{
    let ghost b0 = board_view(board);
    let mut kept: Vec<Row> = Vec::new();
    let mut i: usize = 0;
    while i < board.len()
        invariant
            i <= board@.len(),
            b0 == board_view(board),
            b0.len() == board@.len(),
            board_view(&kept) == b0.take(i as int).filter(not_full()),
        decreases board@.len() - i,
    {
        let ghost prev = board_view(&kept);
        let full = row_is_full(&board[i]);
        if !full {
            kept.push(board[i]);
            assert(board_view(&kept) =~~= prev.push(b0[i as int]));
        } else {
            assert(board_view(&kept) =~~= prev);
        }
        proof {
            let t = b0.take(i + 1);
            assert(t.drop_last() =~~= b0.take(i as int));
            assert(t.last() == b0[i as int]);
            reveal_with_fuel(Seq::filter, 1);
            assert(board_view(&kept) == t.filter(not_full()));
        }
        i = i + 1;
    }
    proof {
        assert(b0.take(HEIGHT as int) =~~= b0);
        b0.lemma_filter_len(not_full());
    }
    let mut out: Board = Vec::new();
    let pad: usize = HEIGHT - kept.len();
    let mut k: usize = 0;
    proof {
        assert(board_view(&out) =~~= Seq::new(0, |i: int| empty_row()));
    }
    while k < pad
        invariant
            k <= pad,
            pad == HEIGHT - kept@.len(),
            out@.len() == k,
            board_view(&out) == Seq::new(k as nat, |i: int| empty_row()),
        decreases pad - k,
    {
        let ghost prev = board_view(&out);
        out.push([0u8; WIDTH]);
        proof {
            assert(board_view(&out) =~~= prev.push(out@[k as int]@));
            assert(out@[k as int]@ =~~= empty_row());
            assert(board_view(&out) =~~= Seq::new((k + 1) as nat, |i: int| empty_row()));
        }
        k = k + 1;
    }
    let ghost top = board_view(&out);
    let mut m: usize = 0;
    proof {
        assert(board_view(&out) =~~= top + board_view(&kept).take(0));
    }
    while m < kept.len()
        invariant
            m <= kept@.len(),
            out@.len() == top.len() + m,
            board_view(&kept).len() == kept@.len(),
            board_view(&out) == top + board_view(&kept).take(m as int),
        decreases kept@.len() - m,
    {
        let ghost prev = board_view(&out);
        out.push(kept[m]);
        proof {
            assert(board_view(&out) =~~= prev.push(kept@[m as int]@));
            assert(board_view(&out) =~~= top + board_view(&kept).take(m + 1));
        }
        m = m + 1;
    }
    proof {
        assert(board_view(&kept).take(kept@.len() as int) =~~= board_view(&kept));
        assert(board_view(&out) =~~= clear_spec(b0));
    }
    *board = out;
}

/// The predicate that picks the full rows.
pub open spec fn is_full() -> spec_fn(Seq<u8>) -> bool {
    |r: Seq<u8>| row_full(r)
}

proof fn lemma_filter_partition(b: Seq<Seq<u8>>)
    ensures
        b.filter(is_full()).len() + b.filter(not_full()).len() == b.len(),
    decreases b.len(),
{
    reveal_with_fuel(Seq::filter, 1);
    if b.len() > 0 {
        lemma_filter_partition(b.drop_last());
    }
}

/// What line clearing keeps and what it removes: the grid keeps its height,
/// no full row is left, exactly as many rows are removed (and empty rows
/// added at the top) as there were full rows, and the surviving rows keep
/// their order at the bottom.
pub proof fn lemma_clear_lines_laws(b: Seq<Seq<u8>>)
    requires
        b.len() == HEIGHT,
        forall|i: int| 0 <= i < HEIGHT ==> #[trigger] b[i].len() == WIDTH,
    ensures
        clear_spec(b).len() == HEIGHT,
        forall|i: int| 0 <= i < HEIGHT ==> !row_full(#[trigger] clear_spec(b)[i]),
        HEIGHT - surviving(b).len() == b.filter(is_full()).len(),
        forall|i: int| 0 <= i < HEIGHT - surviving(b).len() ==> #[trigger] clear_spec(b)[i] == empty_row(),
        clear_spec(b).subrange(HEIGHT - surviving(b).len(), HEIGHT as int) == surviving(b),
{
    lemma_filter_partition(b);
    b.lemma_filter_len(not_full());
    let n = HEIGHT - surviving(b).len();
    assert forall|i: int| 0 <= i < HEIGHT implies !row_full(#[trigger] clear_spec(b)[i]) by {
        if i < n {
            assert(empty_row()[0] == 0);
        } else {
            b.lemma_filter_pred(not_full(), i - n);
        }
    }
    assert(clear_spec(b).subrange(n, HEIGHT as int) =~~= surviving(b));
}

/// What merging writes: each grid cell under a block of the piece holds the
/// piece's kind id, which is never 0, and every other cell keeps its
/// value. Only cells inside the grid exist, so blocks above the top row
/// write nothing.
pub proof fn lemma_merge_laws(b: Seq<Seq<u8>>, p: Piece)
    requires
        b.len() == HEIGHT,
        forall|i: int| 0 <= i < HEIGHT ==> #[trigger] b[i].len() == WIDTH,
        p.valid(),
    ensures
        merge_spec(b, p).len() == HEIGHT,
        forall|i: int, j: int|
            0 <= i < HEIGHT && 0 <= j < WIDTH && p.covers(i, j) ==> #[trigger] merge_spec(b, p)[i][j]
                == p.kind + 1 && merge_spec(b, p)[i][j] != 0,
        forall|i: int, j: int|
            0 <= i < HEIGHT && 0 <= j < WIDTH && !p.covers(i, j) ==> #[trigger] merge_spec(b, p)[i][j]
                == b[i][j],
{
}

/// Line clearing moves a surviving row down by the number of full rows
/// below it.
pub proof fn lemma_clear_lines_shift(b: Seq<Seq<u8>>, i: int)
    requires
        b.len() == HEIGHT,
        forall|k: int| 0 <= k < HEIGHT ==> #[trigger] b[k].len() == WIDTH,
        0 <= i < HEIGHT,
        !row_full(b[i]),
    ensures
        i + b.subrange(i + 1, HEIGHT as int).filter(is_full()).len() < HEIGHT,
        clear_spec(b)[i + b.subrange(i + 1, HEIGHT as int).filter(is_full()).len()] == b[i],
{
    let front = b.take(i);
    let back = b.subrange(i + 1, HEIGHT as int);
    assert(b =~~= front.push(b[i]) + back);
    assert(front.push(b[i]).drop_last() =~~= front);
    reveal_with_fuel(Seq::filter, 1);
    Seq::filter_distributes_over_add(front.push(b[i]), back, not_full());
    lemma_filter_partition(back);
    b.lemma_filter_len(not_full());
    let sf = front.filter(not_full());
    assert(surviving(b) == sf.push(b[i]) + back.filter(not_full()));
    assert(surviving(b)[sf.len() as int] == b[i]);
}

} // verus!
