//! The seven tetromino shapes as 4x4 occupancy masks, and their rotation.
use vstd::prelude::*;

verus! {

/// Number of piece kinds in the shape table.
pub const NUM_KINDS: usize = 7;

/// A 4x4 occupancy mask: `m[y][x]` is 1 where the piece has a block.
pub type Mask = [[u8; 4]; 4];

/// The mask as a sequence of rows, each a sequence of cells.
pub open spec fn mask_view(m: Mask) -> Seq<Seq<u8>> {
    Seq::new(4, |y: int| m@[y]@)
}

/// Canonical (rotation 0) mask of each kind.
pub open spec fn tetromino_spec(kind: int) -> Seq<Seq<u8>> {
    if kind == 0 {
        seq![seq![0u8, 1, 0, 0], seq![1u8, 1, 1, 0], seq![0u8, 0, 0, 0], seq![0u8, 0, 0, 0]]
    } else if kind == 1 {
        seq![seq![0u8, 0, 0, 0], seq![1u8, 1, 1, 1], seq![0u8, 0, 0, 0], seq![0u8, 0, 0, 0]]
    } else if kind == 2 {
        seq![seq![1u8, 1, 0, 0], seq![0u8, 1, 1, 0], seq![0u8, 0, 0, 0], seq![0u8, 0, 0, 0]]
    } else if kind == 3 {
        seq![seq![0u8, 1, 1, 0], seq![1u8, 1, 0, 0], seq![0u8, 0, 0, 0], seq![0u8, 0, 0, 0]]
    } else if kind == 4 {
        seq![seq![1u8, 0, 0, 0], seq![1u8, 1, 1, 0], seq![0u8, 0, 0, 0], seq![0u8, 0, 0, 0]]
    } else if kind == 5 {
        seq![seq![0u8, 0, 1, 0], seq![1u8, 1, 1, 0], seq![0u8, 0, 0, 0], seq![0u8, 0, 0, 0]]
    } else {
        seq![seq![1u8, 1, 0, 0], seq![1u8, 1, 0, 0], seq![0u8, 0, 0, 0], seq![0u8, 0, 0, 0]]
    }
}

/// One clockwise quarter turn: the cell at `[y][x]` moves to `[x][3 - y]`.
pub open spec fn rotate_once_spec(m: Seq<Seq<u8>>) -> Seq<Seq<u8>> {
    Seq::new(4, |i: int| Seq::new(4, |j: int| m[3 - j][i]))
}

/// `n` clockwise quarter turns.
pub open spec fn rotate_spec(m: Seq<Seq<u8>>, n: nat) -> Seq<Seq<u8>>
    decreases n,
{
    if n == 0 {
        m
    } else {
        rotate_once_spec(rotate_spec(m, (n - 1) as nat))
    }
}

/// Mask of piece `kind` turned `rot` times.
pub open spec fn piece_mask(kind: int, rot: int) -> Seq<Seq<u8>> {
    rotate_spec(tetromino_spec(kind), rot as nat)
}

/// A 4x4 mask of rows of four cells.
pub open spec fn is_mask(m: Seq<Seq<u8>>) -> bool {
    m.len() == 4 && forall|y: int| 0 <= y < 4 ==> #[trigger] m[y].len() == 4
}

/// Returns the canonical mask of piece `kind`.
pub fn tetromino(kind: usize) -> (r: Mask)
    requires
        kind < NUM_KINDS,
    ensures
        mask_view(r) == tetromino_spec(kind as int),
{
    let r: Mask = if kind == 0 {
        [[0, 1, 0, 0], [1, 1, 1, 0], [0, 0, 0, 0], [0, 0, 0, 0]]
    } else if kind == 1 {
        [[0, 0, 0, 0], [1, 1, 1, 1], [0, 0, 0, 0], [0, 0, 0, 0]]
    } else if kind == 2 {
        [[1, 1, 0, 0], [0, 1, 1, 0], [0, 0, 0, 0], [0, 0, 0, 0]]
    } else if kind == 3 {
        [[0, 1, 1, 0], [1, 1, 0, 0], [0, 0, 0, 0], [0, 0, 0, 0]]
    } else if kind == 4 {
        [[1, 0, 0, 0], [1, 1, 1, 0], [0, 0, 0, 0], [0, 0, 0, 0]]
    } else if kind == 5 {
        [[0, 0, 1, 0], [1, 1, 1, 0], [0, 0, 0, 0], [0, 0, 0, 0]]
    } else {
        [[1, 1, 0, 0], [1, 1, 0, 0], [0, 0, 0, 0], [0, 0, 0, 0]]
    };
    assert(mask_view(r) =~~= tetromino_spec(kind as int));
    r
}

fn rotate_once(s: Mask) -> (t: Mask)
    ensures
        mask_view(t) == rotate_once_spec(mask_view(s)),
{
    let t: Mask = [
        [s[3][0], s[2][0], s[1][0], s[0][0]],
        [s[3][1], s[2][1], s[1][1], s[0][1]],
        [s[3][2], s[2][2], s[1][2], s[0][2]],
        [s[3][3], s[2][3], s[1][3], s[0][3]],
    ];
    assert(mask_view(t) =~~= rotate_once_spec(mask_view(s)));
    t
}

/// Turns `shape` clockwise `r` times.
pub fn rotate(shape: Mask, r: usize) -> (out: Mask)
    ensures
        mask_view(out) == rotate_spec(mask_view(shape), r as nat),
{
    let mut s = shape;
    let mut k: usize = 0;
    while k < r
        invariant
            k <= r,
            mask_view(s) == rotate_spec(mask_view(shape), k as nat),
        decreases r - k,
    {
        s = rotate_once(s);
        k = k + 1;
    }
    s
}

/// Returns the mask of piece `kind` turned `rot` times.
pub fn piece_shape(kind: usize, rot: usize) -> (r: Mask)
    requires
        kind < NUM_KINDS,
    ensures
        mask_view(r) == piece_mask(kind as int, rot as int),
{
    rotate(tetromino(kind), rot)
}

proof fn lemma_rotate_four(m: Seq<Seq<u8>>)
    requires
        is_mask(m),
    ensures
        rotate_spec(m, 4) == m,
{
    reveal_with_fuel(rotate_spec, 5);
    assert(rotate_spec(m, 4) =~~= m);
}

proof fn lemma_rotate_add(m: Seq<Seq<u8>>, a: nat, b: nat)
    ensures
        rotate_spec(rotate_spec(m, a), b) == rotate_spec(m, a + b),
    decreases b,
{
    if b > 0 {
        lemma_rotate_add(m, a, (b - 1) as nat);
    }
}

proof fn lemma_rotate_is_mask(m: Seq<Seq<u8>>, n: nat)
    requires
        is_mask(m),
    ensures
        is_mask(rotate_spec(m, n)),
    decreases n,
{
    if n > 0 {
        lemma_rotate_is_mask(m, (n - 1) as nat);
    }
}

/// Four quarter turns bring any mask back to itself, from any starting
/// rotation: turning a piece `r + 4` times gives the same mask as `r` times.
pub proof fn lemma_full_turn(m: Seq<Seq<u8>>, r: nat)
    requires
        is_mask(m),
    ensures
        rotate_spec(rotate_spec(m, r), 4) == rotate_spec(m, r),
        rotate_spec(m, r + 4) == rotate_spec(m, r),
{
    lemma_rotate_is_mask(m, r);
    lemma_rotate_four(rotate_spec(m, r));
    lemma_rotate_add(m, r, 4);
}

/// Every shape's canonical mask is a 4x4 mask of zeros and ones.
pub proof fn lemma_tetromino_is_mask(kind: int)
    ensures
        is_mask(tetromino_spec(kind)),
        forall|y: int, x: int|
            0 <= y < 4 && 0 <= x < 4 ==> #[trigger] tetromino_spec(kind)[y][x] <= 1,
{
}

/// The mask of a piece keeps its shape under rotation: the rotation index
/// only matters modulo four.
pub proof fn lemma_piece_mask_period(kind: int, rot: int)
    requires
        rot >= 0,
    ensures
        piece_mask(kind, rot + 4) == piece_mask(kind, rot),
        piece_mask(kind, rot % 4) == piece_mask(kind, rot),
    decreases rot,
{
    lemma_tetromino_is_mask(kind);
    lemma_full_turn(tetromino_spec(kind), rot as nat);
    if rot >= 4 {
        lemma_piece_mask_period(kind, rot - 4);
        assert((rot - 4) % 4 == rot % 4);
    }
}

/// A cell that every rotation of every shape occupies: the block at row 1,
/// column 1 of the canonical mask, carried along by each turn.
pub open spec fn anchor(rot: int) -> (int, int) {
    if rot == 0 {
        (1, 1)
    } else if rot == 1 {
        (1, 2)
    } else if rot == 2 {
        (2, 2)
    } else {
        (2, 1)
    }
}

/// Each rotation of each shape has a block at its anchor cell.
pub proof fn lemma_anchor_occupied(kind: int, rot: int)
    requires
        0 <= rot < 4,
    ensures
        piece_mask(kind, rot)[anchor(rot).0][anchor(rot).1] != 0,
{
    reveal_with_fuel(rotate_spec, 4);
}

} // verus!
