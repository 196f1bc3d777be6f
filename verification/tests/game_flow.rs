use tetris_core::board::{Board, BOARD_HEIGHT, BOARD_WIDTH};
use tetris_core::game::{match_shape, Game, GameError, GameState};
use tetris_core::tetromino::{Direction, Shape, Tetromino};

fn fill_row_except(board: &mut Board, y: i32, skip: &[i32]) {
    let mut x: i32 = 0;
    while (x as usize) < BOARD_WIDTH {
        if !skip.contains(&x) {
            assert!(board.fill_pos(x, y));
        }
        x += 1;
    }
}

fn playing_game(board: Board, piece: Tetromino) -> Game {
    assert!(board.can_place(&piece));
    Game { board, current_piece: Some(piece), state: GameState::Playing, score: 0 }
}

#[test]
fn new_game_is_playing_with_a_spawned_piece() {
    let game = Game::new();
    assert!(matches!(game.state, GameState::Playing));
    let piece = game.current_piece.expect("a fresh game has an active piece");
    assert_eq!(piece.pos, (3, 0));
    assert_eq!(piece.rotation, 0);
    assert_eq!(game.score, 0);
    assert!(game.board.can_place(&piece));
}

#[test]
fn match_shape_covers_the_seven_shapes() {
    assert_eq!(match_shape(0), Shape::I);
    assert_eq!(match_shape(1), Shape::O);
    assert_eq!(match_shape(2), Shape::T);
    assert_eq!(match_shape(3), Shape::S);
    assert_eq!(match_shape(4), Shape::Z);
    assert_eq!(match_shape(5), Shape::J);
    assert_eq!(match_shape(6), Shape::L);
    assert_eq!(match_shape(7), Shape::T);
    assert_eq!(match_shape(255), Shape::T);
}

#[test]
fn o_piece_fits_at_spawn_on_empty_board() {
    let board = Board::new();
    let piece = Tetromino::new((3, 0), Shape::O);
    assert!(board.can_place(&piece));
}

#[test]
fn rotate_four_times_restores_cells() {
    let mut piece = Tetromino::new((4, 7), Shape::T);
    let before = piece.get_cords();
    let rotation_before = piece.rotation;
    for _ in 0..4 {
        piece.rotate_cw();
    }
    assert_eq!(piece.rotation, rotation_before);
    assert_eq!(piece.get_cords(), before);
}

#[test]
fn rotate_cw_then_ccw_is_a_no_op() {
    let mut piece = Tetromino::new((4, 7), Shape::L);
    piece.rotate_cw();
    let rotation_before = piece.rotation;
    let before = piece.get_cords();
    piece.rotate_cw();
    piece.rotate_ccw();
    assert_eq!(piece.rotation, rotation_before);
    assert_eq!(piece.get_cords(), before);
}

#[test]
fn move_piece_each_direction() {
    let mut piece = Tetromino::new((4, 7), Shape::Z);
    piece.move_piece(Direction::Left);
    assert_eq!(piece.pos, (3, 7));
    piece.move_piece(Direction::Right);
    assert_eq!(piece.pos, (4, 7));
    piece.move_piece(Direction::Down);
    assert_eq!(piece.pos, (4, 8));
    piece.move_piece(Direction::Up);
    assert_eq!(piece.pos, (4, 7));
}

#[test]
fn update_pos_replaces_the_anchor() {
    let mut piece = Tetromino::new((4, 7), Shape::J);
    piece.update_pos((1, 2));
    assert_eq!(piece.pos, (1, 2));
    assert_eq!(piece.shape, Shape::J);
}

#[test]
fn rejected_move_leaves_cells_identical() {
    let mut game = playing_game(Board::new(), Tetromino::new((3, 0), Shape::O));
    let mut rejected = false;
    for _ in 0..BOARD_WIDTH {
        let before = game.current_piece.unwrap().get_cords();
        match game.try_move(Direction::Left) {
            Ok(()) => {}
            Err(e) => {
                assert_eq!(e, GameError::InvalidMove);
                assert_eq!(game.current_piece.unwrap().get_cords(), before);
                rejected = true;
                break;
            }
        }
    }
    assert!(rejected, "the left wall must eventually reject the move");
}

#[test]
fn rejected_rotation_rolls_back_exactly() {
    let mut board = Board::new();
    // an I piece lying at the top cannot stand upright when a cell of
    // its upright column is occupied
    board.fill_pos(4, 2);
    let mut game = playing_game(board, Tetromino::new((3, 0), Shape::I));
    let before = game.current_piece.unwrap().get_cords();
    assert_eq!(game.try_rotate_clock(), Err(GameError::InvalidRotation));
    assert_eq!(game.current_piece.unwrap().get_cords(), before);
    assert_eq!(game.try_rotate_counter(), Err(GameError::InvalidRotation));
    assert_eq!(game.current_piece.unwrap().get_cords(), before);
}

#[test]
fn commands_without_a_piece_report_no_active_piece() {
    let mut game = Game { board: Board::new(), current_piece: None, state: GameState::GameOver, score: 0 };
    assert_eq!(game.try_move(Direction::Down), Err(GameError::NoActivePiece));
    assert_eq!(game.try_rotate_clock(), Err(GameError::NoActivePiece));
    assert_eq!(game.try_rotate_counter(), Err(GameError::NoActivePiece));
    assert_eq!(game.lock_current_piece(), Err(GameError::NoActivePiece));
    game.tick_down();
    assert!(game.current_piece.is_none());
    assert!(matches!(game.state, GameState::GameOver));
    assert_eq!(game.score, 0);
}

#[test]
fn lock_awards_100_for_one_row() {
    let mut board = Board::new();
    fill_row_except(&mut board, 19, &[0, 1]);
    let piece = Tetromino::new((0, 18), Shape::O);
    let mut game = playing_game(board, piece);
    assert_eq!(game.lock_current_piece(), Ok(()));
    assert_eq!(game.score, 100);
}

#[test]
fn lock_awards_300_for_two_rows() {
    let mut board = Board::new();
    fill_row_except(&mut board, 18, &[0, 1]);
    fill_row_except(&mut board, 19, &[0, 1]);
    let piece = Tetromino::new((0, 18), Shape::O);
    let mut game = playing_game(board, piece);
    assert_eq!(game.lock_current_piece(), Ok(()));
    assert_eq!(game.score, 300);
}

#[test]
fn lock_awards_500_for_three_rows() {
    let mut board = Board::new();
    fill_row_except(&mut board, 17, &[0]);
    fill_row_except(&mut board, 18, &[0]);
    fill_row_except(&mut board, 19, &[0]);
    let mut piece = Tetromino::new((-1, 16), Shape::I);
    piece.rotation = 1;  // upright: cells (0,16)..(0,19)
    let mut game = playing_game(board, piece);
    assert_eq!(game.lock_current_piece(), Ok(()));
    assert_eq!(game.score, 500);
}

#[test]
fn lock_awards_800_for_four_rows() {
    let mut board = Board::new();
    fill_row_except(&mut board, 16, &[0]);
    fill_row_except(&mut board, 17, &[0]);
    fill_row_except(&mut board, 18, &[0]);
    fill_row_except(&mut board, 19, &[0]);
    let mut piece = Tetromino::new((-1, 16), Shape::I);
    piece.rotation = 1;
    let mut game = playing_game(board, piece);
    assert_eq!(game.lock_current_piece(), Ok(()));
    assert_eq!(game.score, 800);
}

#[test]
fn lock_awards_nothing_for_zero_rows() {
    let mut game = playing_game(Board::new(), Tetromino::new((3, 17), Shape::O));
    assert_eq!(game.lock_current_piece(), Ok(()));
    assert_eq!(game.score, 0);
    // the piece's cells were written to the board
    assert!(!game.board.pos_free(3, 17));
    assert!(!game.board.pos_free(4, 18));
}

#[test]
fn completing_the_last_gap_clears_the_row_and_scores_100() {
    let mut board = Board::new();
    fill_row_except(&mut board, 19, &[0]);
    let mut piece = Tetromino::new((-1, 16), Shape::I);
    piece.rotation = 1;
    let mut game = playing_game(board, piece);
    assert_eq!(game.lock_current_piece(), Ok(()));
    assert_eq!(game.score, 100);
    // row 19 now holds what the piece left above the cleared row
    assert!(!game.board.pos_free(0, 19));
    for x in 1..BOARD_WIDTH as i32 {
        assert!(game.board.pos_free(x, 19));
    }
}

#[test]
fn spawn_on_a_full_board_ends_the_game() {
    let mut board = Board::new();
    for y in 0..BOARD_HEIGHT as i32 {
        fill_row_except(&mut board, y, &[]);
    }
    // with every cell occupied no shape fits at the spawn anchor
    let mut game = Game { board, current_piece: None, state: GameState::Playing, score: 0 };
    game.set_random_piece();
    assert!(matches!(game.state, GameState::GameOver));
    assert!(game.current_piece.is_none());
}

#[test]
fn spawn_falls_back_to_a_shape_that_fits() {
    // block every spawn cell except the O footprint at the anchor
    let mut board = Board::new();
    for y in 0..4 {
        fill_row_except(&mut board, y, &[3, 4]);
    }
    let mut game = Game { board, current_piece: None, state: GameState::Playing, score: 0 };
    game.set_random_piece();
    assert!(matches!(game.state, GameState::Playing));
    let piece = game.current_piece.expect("the O shape fits, so a piece spawns");
    assert_eq!(piece.shape, Shape::O);
    assert_eq!(piece.pos, (3, 0));
}

#[test]
fn tick_moves_the_piece_down_when_free() {
    let mut game = playing_game(Board::new(), Tetromino::new((3, 0), Shape::O));
    game.tick_down();
    assert_eq!(game.current_piece.unwrap().pos, (3, 1));
    assert_eq!(game.score, 0);
}

#[test]
fn tick_locks_when_the_cell_below_is_occupied() {
    let mut board = Board::new();
    board.fill_pos(3, 19);
    board.fill_pos(4, 19);
    let piece = Tetromino::new((3, 17), Shape::O);
    let mut game = playing_game(board, piece);
    game.tick_down();
    // locked in place, not moved
    assert!(!game.board.pos_free(3, 17));
    assert!(!game.board.pos_free(4, 17));
    assert!(!game.board.pos_free(3, 18));
    assert!(!game.board.pos_free(4, 18));
    assert_eq!(game.score, 0);
    assert!(matches!(game.state, GameState::Playing));
}

#[test]
fn tick_locks_on_the_floor() {
    let mut game = playing_game(Board::new(), Tetromino::new((3, 18), Shape::O));
    game.tick_down();
    assert!(!game.board.pos_free(3, 18));
    assert!(!game.board.pos_free(4, 19));
}

#[test]
fn hard_lock_drops_to_the_bottom() {
    let mut game = playing_game(Board::new(), Tetromino::new((3, 0), Shape::O));
    game.hard_lock();
    assert!(!game.board.pos_free(3, 18));
    assert!(!game.board.pos_free(4, 18));
    assert!(!game.board.pos_free(3, 19));
    assert!(!game.board.pos_free(4, 19));
    assert!(game.board.pos_free(3, 17));
    assert_eq!(game.score, 0);
}

#[test]
fn hard_lock_rests_on_occupied_cells() {
    let mut board = Board::new();
    board.fill_pos(4, 10);
    let mut game = playing_game(board, Tetromino::new((3, 0), Shape::O));
    game.hard_lock();
    assert!(!game.board.pos_free(3, 8));
    assert!(!game.board.pos_free(4, 8));
    assert!(!game.board.pos_free(3, 9));
    assert!(!game.board.pos_free(4, 9));
    assert!(game.board.pos_free(3, 10));
}

#[test]
fn game_over_is_reached_by_stacking() {
    // drive a game with hard drops until it ends; the score and state
    // stay coherent throughout
    let mut game = Game::new();
    for _ in 0..400 {
        if matches!(game.state, GameState::GameOver) {
            break;
        }
        assert!(game.current_piece.is_some());
        game.hard_lock();
    }
    if matches!(game.state, GameState::GameOver) {
        assert!(game.current_piece.is_none());
    }
}
