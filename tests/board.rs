use othlib::board::Board;

#[test]
fn new_board_is_empty() {
    let board = Board::with_size(3, 5);
    assert_eq!(3, board.rows());
    assert_eq!(5, board.cols());
    for row in 0..3 {
        for col in 0..5 {
            assert!(board.is_cell_empty(row, col));
            assert_eq!(None, board.get_cell(row, col));
        }
    }
    assert!(!board.is_full());
    assert_eq!(None, board.char_counts().get('X'));
}

#[test]
fn set_cell_writes_one_cell() {
    let mut board = Board::with_size(2, 3);
    board.set_cell(1, 2, 'X');
    assert_eq!(Some('X'), board.get_cell(1, 2));
    assert!(!board.is_cell_empty(1, 2));
    assert!(board.is_cell_empty(0, 2));
    assert!(board.is_cell_empty(1, 1));
    board.set_cell(1, 2, 'O');
    assert_eq!(Some('O'), board.get_cell(1, 2));
}

#[test]
fn bounds_are_exclusive() {
    let board = Board::with_size(2, 3);
    assert!(board.is_in_bounds(0, 0));
    assert!(board.is_in_bounds(1, 2));
    assert!(!board.is_in_bounds(2, 0));
    assert!(!board.is_in_bounds(0, 3));
    assert!(!board.is_in_bounds(usize::MAX, usize::MAX));
}

#[test]
fn char_counts_count_each_symbol() {
    let grid = vec![
        vec![Some('X'), None, Some('O')],
        vec![Some('X'), Some('X'), None],
    ];
    let board = Board::with_state(2, 3, grid);
    let counts = board.char_counts();
    assert_eq!(Some(3), counts.get('X'));
    assert_eq!(Some(1), counts.get('O'));
    assert_eq!(None, counts.get('Z'));
}

#[test]
fn full_board_is_full() {
    let grid = vec![vec![Some('X'), Some('O')], vec![Some('O'), Some('O')]];
    let board = Board::with_state(2, 2, grid);
    assert!(board.is_full());
    assert_eq!(Some(3), board.char_counts().get('O'));
    let mut board = Board::with_size(1, 2);
    board.set_cell(0, 0, 'X');
    assert!(!board.is_full());
    board.set_cell(0, 1, 'X');
    assert!(board.is_full());
}
