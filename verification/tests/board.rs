use eight_puzzle::board::Board;
use eight_puzzle::board::Direction;

#[test]
fn test_new_board() {
    let board = Board::new();
    assert_eq!(board.tiles, [1, 2, 3, 4, 5, 6, 7, 8, 0]);
}

#[test]
fn test_shuffle_board() {
    let mut board = Board::new();
    let initial_board = board.clone();
    board.shuffle();
    assert_ne!(board, initial_board);
}

#[test]
fn test_is_solved() {
    let mut board = Board::new();
    board.shuffle();
    assert!(!board.is_solved());
    board.tiles = vec![1, 2, 3, 4, 5, 6, 7, 8, 0];
    assert!(board.is_solved());
}

#[test]
fn test_get_blank_position() {
    let board = Board::new();
    assert_eq!(board.get_blank_position(), 8);
}

#[test]
fn test_move_tiles() {
    let mut board = Board::new();
    board.move_tile(Direction::Up);
    assert_eq!(board.tiles, [1, 2, 3, 4, 5, 6, 7, 8, 0]);
    board.move_tile(Direction::Left);
    assert_eq!(board.tiles, [1, 2, 3, 4, 5, 6, 7, 8, 0]);
    board.move_tile(Direction::Down);
    assert_eq!(board.tiles, [1, 2, 3, 4, 5, 0, 7, 8, 6]);
    board.move_tile(Direction::Right);
    assert_eq!(board.tiles, [1, 2, 3, 4, 0, 5, 7, 8, 6]);
    board.move_tile(Direction::Right);
    assert_eq!(board.tiles, [1, 2, 3, 0, 4, 5, 7, 8, 6]);
    board.move_tile(Direction::Down);
    assert_eq!(board.tiles, [0, 2, 3, 1, 4, 5, 7, 8, 6]);
    board.move_tile(Direction::Up);
    assert_eq!(board.tiles, [1, 2, 3, 0, 4, 5, 7, 8, 6]);
}

#[test]
fn test_wall_moves_are_noops() {
    // Blank at index 8: bottom row and rightmost column.
    let mut board = Board::new();
    board.move_tile(Direction::Up);
    assert_eq!(board.tiles, [1, 2, 3, 4, 5, 6, 7, 8, 0]);
    board.move_tile(Direction::Left);
    assert_eq!(board.tiles, [1, 2, 3, 4, 5, 6, 7, 8, 0]);

    // Walk the blank to index 0: top row and leftmost column.
    board.move_tile(Direction::Down);
    board.move_tile(Direction::Down);
    board.move_tile(Direction::Right);
    board.move_tile(Direction::Right);
    assert_eq!(board.get_blank_position(), 0);
    let before = board.tiles.clone();
    board.move_tile(Direction::Down);
    assert_eq!(board.tiles, before);
    board.move_tile(Direction::Right);
    assert_eq!(board.tiles, before);
}

#[test]
fn test_is_solved_rejects_other_layouts() {
    let mut board = Board::new();
    board.move_tile(Direction::Down);
    assert!(!board.is_solved());
    board.tiles = vec![2, 1, 3, 4, 5, 6, 7, 8, 0];
    assert!(!board.is_solved());
    board.tiles = vec![1, 2, 3, 4, 5, 6, 7, 8];
    assert!(!board.is_solved());
}

#[test]
fn test_blank_position_tracks_moves() {
    let mut board = Board::new();
    board.move_tile(Direction::Down);
    assert_eq!(board.get_blank_position(), 5);
    board.move_tile(Direction::Right);
    assert_eq!(board.get_blank_position(), 4);
    board.move_tile(Direction::Up);
    assert_eq!(board.get_blank_position(), 7);
    board.move_tile(Direction::Left);
    assert_eq!(board.get_blank_position(), 8);
}

#[test]
fn test_moves_keep_board_well_formed() {
    let mut board = Board::new();
    assert!(board.is_well_formed());
    let moves = [
        Direction::Down,
        Direction::Right,
        Direction::Down,
        Direction::Left,
        Direction::Up,
        Direction::Up,
        Direction::Right,
        Direction::Right,
        Direction::Down,
        Direction::Left,
    ];
    for direction in moves {
        board.move_tile(direction);
        assert!(board.is_well_formed());
    }
}

#[test]
fn test_shuffle_keeps_board_well_formed() {
    let mut board = Board::new();
    board.shuffle();
    assert!(board.is_well_formed());
}

#[test]
fn test_is_well_formed_rejects_bad_boards() {
    let mut board = Board::new();
    board.tiles = vec![1, 1, 2, 3, 4, 5, 6, 7, 8];
    assert!(!board.is_well_formed());
    board.tiles = vec![1, 2, 3, 4, 5, 6, 7, 8, 9];
    assert!(!board.is_well_formed());
    board.tiles = vec![1, 2, 3, 4, 5, 6, 7, 0];
    assert!(!board.is_well_formed());
}
