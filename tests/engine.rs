use tetrs::board::{clear_lines, collides, empty_board, merge, Board, HEIGHT, WIDTH};
use tetrs::game::{Game, Input, GRAVITY_MICROS, SOFT_DROP_MICROS};
use tetrs::piece::{attempt, new_piece, spawn_piece, visible_cells, Move, Piece, SPAWN_X, SPAWN_Y};
use tetrs::shapes::{piece_shape, rotate, tetromino, NUM_KINDS};

const NO_INPUT: Input = Input { left: false, right: false, rotate: false, soft_drop: false };

fn fall_frame() -> u64 {
    GRAVITY_MICROS + 1
}

fn piece(kind: usize, x: i32, y: i32, rot: usize) -> Piece {
    Piece { x, y, kind, rot }
}

#[test]
fn four_turns_restore_every_shape() {
    for kind in 0..NUM_KINDS {
        let t = tetromino(kind);
        assert_eq!(rotate(t, 4), t);
        for r in 0..4 {
            assert_eq!(rotate(rotate(t, r), 4), rotate(t, r));
            assert_eq!(rotate(t, r + 4), rotate(t, r));
        }
    }
}

#[test]
fn quarter_turn_moves_cells_clockwise() {
    let t = tetromino(0);
    assert_eq!(t, [[0, 1, 0, 0], [1, 1, 1, 0], [0, 0, 0, 0], [0, 0, 0, 0]]);
    assert_eq!(rotate(t, 1), [[0, 0, 1, 0], [0, 0, 1, 1], [0, 0, 1, 0], [0, 0, 0, 0]]);
    assert_eq!(rotate(t, 2), [[0, 0, 0, 0], [0, 0, 0, 0], [0, 1, 1, 1], [0, 0, 1, 0]]);
    assert_eq!(piece_shape(1, 1), [[0, 0, 1, 0], [0, 0, 1, 0], [0, 0, 1, 0], [0, 0, 1, 0]]);
    assert_eq!(rotate(t, 0), t);
}

#[test]
fn shape_table_has_seven_tetrominoes() {
    for kind in 0..NUM_KINDS {
        let t = tetromino(kind);
        let blocks: u32 = t.iter().flatten().map(|&c| c as u32).sum();
        assert_eq!(blocks, 4);
    }
    assert_eq!(tetromino(6), [[1, 1, 0, 0], [1, 1, 0, 0], [0, 0, 0, 0], [0, 0, 0, 0]]);
}

#[test]
fn empty_board_has_fixed_size() {
    let b = empty_board();
    assert_eq!(b.len(), HEIGHT);
    assert!(b.iter().all(|r| r.iter().all(|&c| c == 0)));
    assert_eq!(WIDTH, 10);
    assert_eq!(HEIGHT, 20);
}

#[test]
fn collides_with_walls_and_floor() {
    let b = empty_board();
    for kind in 0..NUM_KINDS {
        assert!(!collides(&b, &spawn_piece(kind)));
    }
    // T at rotation 0 has blocks in mask columns 0..=2.
    assert!(!collides(&b, &piece(0, 0, 5, 0)));
    assert!(collides(&b, &piece(0, -1, 5, 0)));
    assert!(!collides(&b, &piece(0, 7, 5, 0)));
    assert!(collides(&b, &piece(0, 8, 5, 0)));
    // Its lowest blocks are on mask row 1.
    assert!(!collides(&b, &piece(0, 3, 18, 0)));
    assert!(collides(&b, &piece(0, 3, 19, 0)));
}

#[test]
fn collides_with_settled_blocks_only_inside_grid() {
    let mut b = empty_board();
    b[0][4] = 3;
    b[10][5] = 1;
    // T at (3, 9): blocks at (4, 9), (3, 10), (4, 10), (5, 10).
    assert!(collides(&b, &piece(0, 3, 9, 0)));
    assert!(!collides(&b, &piece(0, 3, 8, 0)));
    // Blocks above the grid never meet settled blocks.
    assert!(!collides(&b, &piece(0, 3, -2, 0)));
    assert!(collides(&b, &piece(0, 3, -1, 0)));
    // Far outside the walls, even above the grid.
    assert!(collides(&b, &piece(1, -10, -3, 0)));
}

#[test]
fn merge_writes_kind_id_inside_grid() {
    let mut b = empty_board();
    let before = b.clone();
    let p = piece(0, 3, 18, 0);
    merge(&mut b, &p);
    assert_eq!(b[18][4], 1);
    assert_eq!(b[19][3], 1);
    assert_eq!(b[19][4], 1);
    assert_eq!(b[19][5], 1);
    let changed = (0..HEIGHT)
        .flat_map(|i| (0..WIDTH).map(move |j| (i, j)))
        .filter(|&(i, j)| b[i][j] != before[i][j])
        .count();
    assert_eq!(changed, 4);
}

#[test]
fn merge_skips_blocks_above_grid() {
    let mut b = empty_board();
    // O (kind 6) at y = -1: its top row is above the grid.
    merge(&mut b, &piece(6, 3, -1, 0));
    assert_eq!(b.len(), HEIGHT);
    assert_eq!(b[0][3], 7);
    assert_eq!(b[0][4], 7);
    let filled: usize = b.iter().map(|r| r.iter().filter(|&&c| c != 0).count()).sum();
    assert_eq!(filled, 2);
}

#[test]
fn clear_lines_removes_full_rows_and_keeps_order() {
    let mut b: Board = empty_board();
    b[19] = [1; WIDTH];
    b[18][0] = 2;
    b[17] = [3; WIDTH];
    b[16][9] = 4;
    clear_lines(&mut b);
    assert_eq!(b.len(), HEIGHT);
    assert_eq!(b[19][0], 2);
    assert_eq!(b[18][9], 4);
    assert!(b[..18].iter().all(|r| r.iter().all(|&c| c == 0)));
    assert!(b.iter().all(|r| r.iter().any(|&c| c == 0)));
}

#[test]
fn merge_ignores_walls_above_grid() {
    let mut b = empty_board();
    // S (kind 2) at (-1, -1): its top blocks lie above the grid, one of
    // them left of the wall; its lower blocks land at (0, 0) and (1, 0).
    merge(&mut b, &piece(2, -1, -1, 0));
    assert_eq!(b[0], [3, 3, 0, 0, 0, 0, 0, 0, 0, 0]);
    assert!(b[1..].iter().all(|r| r.iter().all(|&c| c == 0)));
}

#[test]
fn surviving_rows_fall_by_cleared_rows_below() {
    let mut b: Board = empty_board();
    b[12][1] = 4;
    b[14] = [1; WIDTH];
    b[15][2] = 5;
    b[17] = [2; WIDTH];
    b[18] = [6; WIDTH];
    b[19][3] = 3;
    clear_lines(&mut b);
    // Three full rows below row 12, two below row 15, none below row 19.
    assert_eq!(b[15][1], 4);
    assert_eq!(b[17][2], 5);
    assert_eq!(b[19][3], 3);
    let filled: usize = b.iter().map(|r| r.iter().filter(|&&c| c != 0).count()).sum();
    assert_eq!(filled, 3);
}

#[test]
fn clear_lines_without_full_rows_changes_nothing() {
    let mut b: Board = empty_board();
    b[19] = [1, 1, 1, 1, 1, 1, 1, 1, 1, 0];
    b[5][2] = 5;
    let before = b.clone();
    clear_lines(&mut b);
    assert_eq!(b, before);
}

#[test]
fn clear_lines_on_full_grid_empties_it() {
    let mut b: Board = vec![[2; WIDTH]; HEIGHT];
    clear_lines(&mut b);
    assert_eq!(b, empty_board());
}

#[test]
fn rejected_attempt_leaves_piece_unchanged() {
    let b = empty_board();
    let mut p = piece(0, 0, 5, 0);
    let before = p;
    assert!(!attempt(&b, &mut p, Move::Left));
    assert_eq!(p, before);
    let mut low = piece(0, 3, 18, 0);
    assert!(!attempt(&b, &mut low, Move::Down));
    assert_eq!(low, piece(0, 3, 18, 0));
    // I (kind 1) lying flat against the floor cannot stand up.
    let mut flat = piece(1, 0, 18, 0);
    assert!(!attempt(&b, &mut flat, Move::Rotate));
    assert_eq!(flat, piece(1, 0, 18, 0));
}

#[test]
fn accepted_attempts_apply_the_move() {
    let b = empty_board();
    let mut p = spawn_piece(2);
    assert!(attempt(&b, &mut p, Move::Left));
    assert_eq!(p, piece(2, 2, -1, 0));
    assert!(attempt(&b, &mut p, Move::Right));
    assert!(attempt(&b, &mut p, Move::Right));
    assert_eq!(p, piece(2, 4, -1, 0));
    assert!(attempt(&b, &mut p, Move::Down));
    assert_eq!(p, piece(2, 4, 0, 0));
    assert!(attempt(&b, &mut p, Move::Rotate));
    assert_eq!(p, piece(2, 4, 0, 1));
    p.rot = 3;
    assert!(attempt(&b, &mut p, Move::Rotate));
    assert_eq!(p.rot, 0);
}

#[test]
fn spawn_position_is_above_grid_center() {
    assert_eq!(spawn_piece(4), piece(4, 3, -1, 0));
    assert_eq!((SPAWN_X, SPAWN_Y), (3, -1));
}

#[test]
fn random_pieces_cover_several_kinds() {
    let mut seen = [false; NUM_KINDS];
    for _ in 0..200 {
        let p = new_piece();
        assert!(p.kind < NUM_KINDS);
        assert_eq!((p.x, p.y, p.rot), (3, -1, 0));
        seen[p.kind] = true;
    }
    assert!(seen.iter().filter(|&&s| s).count() >= 2);
    let g = Game::new();
    assert!(g.piece.kind < NUM_KINDS);
    assert!(!g.game_over);
}

#[test]
fn visible_cells_hide_rows_above_grid() {
    assert_eq!(visible_cells(&piece(6, 3, -1, 0)), vec![(3, 0), (4, 0)]);
    assert_eq!(visible_cells(&piece(0, 5, 7, 0)), vec![(6, 7), (5, 8), (6, 8), (7, 8)]);
    assert_eq!(visible_cells(&piece(1, 0, -3, 1)), vec![(2, 0)]);
    assert!(visible_cells(&piece(0, 3, -2, 0)).is_empty());
}

#[test]
fn o_piece_falls_to_floor_and_locks() {
    let mut g = Game::start(6);
    assert_eq!(g.piece, piece(6, 3, -1, 0));
    let mut frames = 0;
    while g.board.iter().all(|r| r.iter().all(|&c| c == 0)) {
        g.step(&NO_INPUT, fall_frame(), 2);
        frames += 1;
        assert!(frames <= 25);
    }
    assert_eq!(frames, 20);
    for row in 18..20 {
        for col in 0..WIDTH {
            let expected = if col == 3 || col == 4 { 7 } else { 0 };
            assert_eq!(g.board[row][col], expected);
        }
    }
    assert!(g.board[..18].iter().all(|r| r.iter().all(|&c| c == 0)));
    assert_eq!(g.piece, piece(2, 3, -1, 0));
    assert!(!g.game_over);
}

#[test]
fn completing_bottom_row_clears_it() {
    let mut g = Game::start(0);
    g.board[19] = [5, 5, 5, 5, 0, 5, 5, 5, 5, 5];
    // T turned twice at (2, 16): blocks (3..=5, 18) and (4, 19).
    g.piece = piece(0, 2, 16, 2);
    g.step(&NO_INPUT, fall_frame(), 1);
    assert!(!g.game_over);
    assert_eq!(g.board.len(), HEIGHT);
    assert_eq!(g.board[0], [0; WIDTH]);
    assert_eq!(g.board[19], [0, 0, 0, 1, 1, 1, 0, 0, 0, 0]);
    assert!(g.board[..19].iter().all(|r| r.iter().all(|&c| c == 0)));
    assert_eq!(g.piece, spawn_piece(1));
}

#[test]
fn blocked_spawn_ends_game() {
    let mut g = Game::start(6);
    g.board[0][3] = 1;
    g.board[0][4] = 1;
    let before = g.board.clone();
    g.step(&NO_INPUT, fall_frame(), 3);
    assert!(g.game_over);
    assert_eq!(g.board, before);
    assert_eq!(g.piece, piece(6, 3, -1, 0));
    assert_eq!(g.timer, 0);
    // Nothing moves once the game is over.
    let all = Input { left: true, right: true, rotate: true, soft_drop: true };
    g.step(&all, fall_frame(), 3);
    assert!(g.game_over);
    assert_eq!(g.board, before);
    assert_eq!(g.piece, piece(6, 3, -1, 0));
}

#[test]
fn gravity_waits_for_timer() {
    let mut g = Game::start(3);
    g.step(&NO_INPUT, GRAVITY_MICROS, 0);
    assert_eq!(g.piece.y, -1);
    assert_eq!(g.timer, GRAVITY_MICROS);
    g.step(&NO_INPUT, 1, 0);
    assert_eq!(g.piece.y, 0);
    assert_eq!(g.timer, 0);
}

#[test]
fn soft_drop_speeds_up_the_timer() {
    let mut g = Game::start(3);
    let dt = GRAVITY_MICROS - SOFT_DROP_MICROS + 1;
    g.step(&NO_INPUT, dt, 0);
    assert_eq!(g.piece.y, -1);
    assert_eq!(g.timer, dt);
    let mut h = Game::start(3);
    let soft = Input { soft_drop: true, ..NO_INPUT };
    h.step(&soft, dt, 0);
    assert_eq!(h.piece.y, 0);
    assert_eq!(h.timer, 0);
    let mut k = Game::start(3);
    k.step(&soft, u64::MAX, 0);
    assert_eq!(k.piece.y, 0);
}

#[test]
fn frame_applies_moves_in_order() {
    let mut g = Game::start(1);
    let left = Input { left: true, ..NO_INPUT };
    for _ in 0..10 {
        g.step(&left, 0, 0);
    }
    // I lying flat on mask row 1 stops at the left wall.
    assert_eq!(g.piece.x, 0);
    let both = Input { left: true, right: true, rotate: true, soft_drop: false };
    g.step(&both, 0, 0);
    assert_eq!(g.piece, piece(1, 1, -1, 1));
}
