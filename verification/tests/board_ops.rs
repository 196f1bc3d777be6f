use tetris_core::board::{Board, BOARD_HEIGHT, BOARD_WIDTH};
use tetris_core::tetromino::{get_shape, Shape, Tetromino};

fn fill_row_except(board: &mut Board, y: i32, skip: &[i32]) {
    let mut x: i32 = 0;
    while (x as usize) < BOARD_WIDTH {
        if !skip.contains(&x) {
            assert!(board.fill_pos(x, y));
        }
        x += 1;
    }
}

#[test]
fn bounds_corners_are_in() {
    assert!(Board::pos_in_bounds(0, 0));
    assert!(Board::pos_in_bounds(9, 19));
    assert!(Board::pos_in_bounds(5, 10));
}

#[test]
fn bounds_outside_is_out() {
    assert!(!Board::pos_in_bounds(-1, 0));
    assert!(!Board::pos_in_bounds(0, -1));
    assert!(!Board::pos_in_bounds(10, 0));
    assert!(!Board::pos_in_bounds(0, 20));
    assert!(!Board::pos_in_bounds(i32::MIN, i32::MIN));
    assert!(!Board::pos_in_bounds(i32::MAX, i32::MAX));
}

#[test]
fn out_of_bounds_never_free() {
    let mut board = Board::new();
    assert!(!board.pos_free(-1, 0));
    assert!(!board.pos_free(0, -1));
    assert!(!board.pos_free(10, 5));
    assert!(!board.pos_free(5, 20));
    // grid contents do not matter
    for x in 0..BOARD_WIDTH as i32 {
        for y in 0..BOARD_HEIGHT as i32 {
            board.fill_pos(x, y);
        }
    }
    assert!(!board.pos_free(-1, 0));
    assert!(!board.pos_free(10, 5));
}

#[test]
fn new_board_is_empty() {
    let board = Board::new();
    for x in 0..BOARD_WIDTH as i32 {
        for y in 0..BOARD_HEIGHT as i32 {
            assert!(board.pos_free(x, y));
        }
    }
}

#[test]
fn fill_makes_cell_not_free() {
    let mut board = Board::new();
    assert!(board.pos_free(5, 5));
    assert!(board.fill_pos(5, 5));
    assert!(!board.pos_free(5, 5));
}

#[test]
fn fill_out_of_bounds_fails_without_mutation() {
    let mut board = Board::new();
    assert!(!board.fill_pos(-1, 0));
    assert!(!board.fill_pos(10, 0));
    assert!(!board.fill_pos(0, 20));
    for x in 0..BOARD_WIDTH as i32 {
        for y in 0..BOARD_HEIGHT as i32 {
            assert!(board.pos_free(x, y));
        }
    }
}

#[test]
fn fill_is_idempotent() {
    let mut board = Board::new();
    assert!(board.fill_pos(2, 3));
    assert!(board.fill_pos(2, 3));
    assert!(!board.pos_free(2, 3));
    assert!(board.pos_free(3, 3));
}

#[test]
fn row_full_detection() {
    let mut board = Board::new();
    assert!(!board.is_row_full(19));
    fill_row_except(&mut board, 19, &[4]);
    assert!(!board.is_row_full(19));
    assert!(board.fill_pos(4, 19));
    assert!(board.is_row_full(19));
    assert!(!board.is_row_full(18));
    // out of range rows are reported not full
    assert!(!board.is_row_full(-1));
    assert!(!board.is_row_full(20));
}

#[test]
fn clear_row_shifts_rows_above_down() {
    let mut board = Board::new();
    board.fill_pos(2, 19);
    board.fill_pos(3, 10);
    board.fill_pos(5, 0);
    board.clear_row(19);
    // row 19 was removed; everything above moved down one
    assert!(board.pos_free(2, 19));
    assert!(!board.pos_free(3, 11));
    assert!(board.pos_free(3, 10));
    assert!(!board.pos_free(5, 1));
    assert!(board.pos_free(5, 0));
}

#[test]
fn clear_row_leaves_rows_below_unchanged() {
    let mut board = Board::new();
    board.fill_pos(7, 15);
    board.fill_pos(1, 9);
    board.clear_row(12);
    // below the cleared row: untouched
    assert!(!board.pos_free(7, 15));
    // above: shifted down by one
    assert!(!board.pos_free(1, 10));
    assert!(board.pos_free(1, 9));
}

#[test]
fn clear_row_out_of_range_does_nothing() {
    let mut board = Board::new();
    board.fill_pos(4, 12);
    board.clear_row(20);
    board.clear_row(-1);
    assert!(!board.pos_free(4, 12));
}

#[test]
fn clear_until_not_full_clears_consecutive_rows() {
    let mut board = Board::new();
    fill_row_except(&mut board, 18, &[]);
    fill_row_except(&mut board, 19, &[]);
    board.fill_pos(0, 17);
    let cleared = board.clear_until_not_full(19);
    assert_eq!(cleared, 2);
    assert!(!board.pos_free(0, 19));
    assert!(board.pos_free(1, 19));
    assert!(board.pos_free(0, 17));
}

#[test]
fn clear_lines_two_bottom_rows() {
    let mut board = Board::new();
    fill_row_except(&mut board, 18, &[]);
    fill_row_except(&mut board, 19, &[]);
    board.fill_pos(6, 17);
    let cleared = board.clear_lines();
    assert_eq!(cleared, 2);
    // the two topmost rows are empty
    for x in 0..BOARD_WIDTH as i32 {
        assert!(board.pos_free(x, 0));
        assert!(board.pos_free(x, 1));
    }
    // prior row 17 contents now occupy row 19
    assert!(!board.pos_free(6, 19));
    for x in 0..BOARD_WIDTH as i32 {
        if x != 6 {
            assert!(board.pos_free(x, 19));
        }
    }
}

#[test]
fn clear_lines_separated_rows() {
    let mut board = Board::new();
    fill_row_except(&mut board, 19, &[]);
    fill_row_except(&mut board, 17, &[]);
    board.fill_pos(2, 18);
    board.fill_pos(9, 16);
    let cleared = board.clear_lines();
    assert_eq!(cleared, 2);
    // the not-full rows keep their order at the bottom
    assert!(!board.pos_free(2, 19));
    assert!(!board.pos_free(9, 18));
    assert!(board.pos_free(2, 18));
    assert!(board.pos_free(9, 19));
}

#[test]
fn clear_lines_whole_board() {
    let mut board = Board::new();
    for y in 0..BOARD_HEIGHT as i32 {
        fill_row_except(&mut board, y, &[]);
    }
    let cleared = board.clear_lines();
    assert_eq!(cleared, BOARD_HEIGHT as u32);
    for x in 0..BOARD_WIDTH as i32 {
        for y in 0..BOARD_HEIGHT as i32 {
            assert!(board.pos_free(x, y));
        }
    }
}

#[test]
fn clear_lines_empty_board_clears_nothing() {
    let mut board = Board::new();
    assert_eq!(board.clear_lines(), 0);
}

#[test]
fn can_place_requires_all_four_cells_free() {
    let mut board = Board::new();
    let piece = Tetromino::new((3, 3), Shape::O);
    assert!(board.can_place(&piece));
    // occupying any one of the four cells blocks placement
    board.fill_pos(4, 4);
    assert!(!board.can_place(&piece));
}

#[test]
fn can_place_false_outside_the_board() {
    let board = Board::new();
    assert!(!board.can_place(&Tetromino::new((-1, 0), Shape::O)));
    assert!(!board.can_place(&Tetromino::new((9, 0), Shape::O)));
    assert!(!board.can_place(&Tetromino::new((3, 19), Shape::O)));
}

#[test]
fn lock_piece_leaves_no_cell_of_the_piece_free() {
    let mut board = Board::new();
    let piece = Tetromino::new((3, 3), Shape::T);
    assert!(board.can_place(&piece));
    board.lock_piece(&piece);
    for (x, y) in piece.get_cords() {
        assert!(!board.pos_free(x, y));
    }
}

#[test]
fn shape_catalog_exact_offsets() {
    assert_eq!(get_shape(&Shape::I, 0), [(0, 0), (1, 0), (2, 0), (3, 0)]);
    assert_eq!(get_shape(&Shape::I, 1), [(1, 0), (1, 1), (1, 2), (1, 3)]);
    assert_eq!(get_shape(&Shape::I, 2), get_shape(&Shape::I, 0));
    assert_eq!(get_shape(&Shape::O, 3), [(0, 0), (1, 0), (0, 1), (1, 1)]);
    assert_eq!(get_shape(&Shape::T, 2), [(1, 0), (0, 1), (1, 1), (2, 1)]);
    assert_eq!(get_shape(&Shape::S, 0), [(1, 0), (2, 0), (0, 1), (1, 1)]);
    assert_eq!(get_shape(&Shape::Z, 1), [(1, 0), (0, 1), (1, 1), (0, 2)]);
    assert_eq!(get_shape(&Shape::J, 3), [(0, 0), (1, 0), (0, 1), (0, 2)]);
    assert_eq!(get_shape(&Shape::L, 2), [(2, 0), (0, 1), (1, 1), (2, 1)]);
}

#[test]
fn get_cords_translates_by_anchor() {
    let piece = Tetromino::new((2, 3), Shape::S);
    assert_eq!(piece.get_cords(), [(3, 3), (4, 3), (2, 4), (3, 4)]);
}
