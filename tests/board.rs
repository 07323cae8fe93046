use connectfour::{Board, SlotState};

fn drops(board: &mut Board, moves: &[(usize, SlotState)]) {
    for &(column, mark) in moves {
        assert!(board.drop_into(column, mark));
    }
}

#[test]
fn board_with_one_item() {
    let mut board = Board::new();
    board.drop_into(2, SlotState::Red);
    assert!(!board.check_for_winner());
}

#[test]
fn board_with_winning_row() {
    let mut board = Board::new();
    board.drop_into(1, SlotState::Red);
    board.drop_into(7, SlotState::Blue);
    board.drop_into(2, SlotState::Red);
    board.drop_into(6, SlotState::Blue);
    board.drop_into(3, SlotState::Red);
    board.drop_into(5, SlotState::Blue);
    board.drop_into(4, SlotState::Red);
    assert!(board.check_for_winner());
}

#[test]
fn board_with_winning_column() {
    let mut board = Board::new();
    board.drop_into(1, SlotState::Red);
    board.drop_into(2, SlotState::Blue);
    board.drop_into(2, SlotState::Red);
    board.drop_into(1, SlotState::Blue);
    board.drop_into(2, SlotState::Red);
    board.drop_into(1, SlotState::Blue);
    board.drop_into(2, SlotState::Red);
    board.drop_into(1, SlotState::Blue);
    board.drop_into(2, SlotState::Red);
    assert!(board.check_for_winner());
}

#[test]
fn board_with_winning_diagonal_below_mid() {
    let mut board = Board::new();
    board.drop_into(7, SlotState::Red);
    board.drop_into(7, SlotState::Blue);
    board.drop_into(7, SlotState::Red);
    board.drop_into(7, SlotState::Blue);
    board.drop_into(6, SlotState::Red);
    board.drop_into(6, SlotState::Blue);
    board.drop_into(1, SlotState::Red);
    board.drop_into(6, SlotState::Blue);
    board.drop_into(5, SlotState::Red);
    board.drop_into(5, SlotState::Blue);
    board.drop_into(1, SlotState::Red);
    board.drop_into(4, SlotState::Blue);
    assert!(board.check_for_winner());
}

#[test]
fn board_with_winning_antidiagonal_above_mid() {
    let mut board = Board::new();
    board.drop_into(7, SlotState::Red);
    board.drop_into(6, SlotState::Blue);
    board.drop_into(6, SlotState::Red);
    board.drop_into(1, SlotState::Blue);
    board.drop_into(5, SlotState::Red);
    board.drop_into(5, SlotState::Blue);
    board.drop_into(5, SlotState::Red);
    board.drop_into(4, SlotState::Blue);
    board.drop_into(4, SlotState::Red);
    board.drop_into(4, SlotState::Blue);
    board.drop_into(4, SlotState::Red);
    assert!(board.check_for_winner());
}

#[test]
fn board_with_gap_in_row() {
    let mut board = Board::new();
    board.drop_into(1, SlotState::Red);
    board.drop_into(4, SlotState::Blue);
    board.drop_into(2, SlotState::Red);
    board.drop_into(4, SlotState::Blue);
    board.drop_into(7, SlotState::Red);
    board.drop_into(4, SlotState::Blue);
    board.drop_into(6, SlotState::Red);
    board.drop_into(7, SlotState::Blue);
    board.drop_into(5, SlotState::Red);
    board.drop_into(6, SlotState::Blue);
    board.drop_into(3, SlotState::Red);
    assert!(!board.check_for_winner());
}

#[test]
fn empty_board_has_no_winner() {
    let board = Board::new();
    assert!(!board.check_for_winner());
    assert!(!board.is_full());
}

#[test]
fn three_pieces_in_a_row_do_not_win() {
    let mut board = Board::new();
    drops(&mut board, &[(2, SlotState::Red), (3, SlotState::Red), (4, SlotState::Red)]);
    assert!(!board.check_for_winner());
}

#[test]
fn four_in_one_column_win() {
    let mut board = Board::new();
    drops(&mut board, &[(3, SlotState::Blue); 4]);
    assert!(board.check_for_winner());
}

#[test]
fn three_in_one_column_do_not_win() {
    let mut board = Board::new();
    drops(&mut board, &[(3, SlotState::Red), (3, SlotState::Blue), (3, SlotState::Blue), (3, SlotState::Blue)]);
    assert!(!board.check_for_winner());
}

#[test]
fn drop_lands_on_lowest_empty_cell() {
    let mut board = Board::new();
    assert!(board.drop_into(5, SlotState::Red));
    assert!(board.drop_into(5, SlotState::Blue));
    assert_eq!(board.mark_at(4, 0), SlotState::Red);
    assert_eq!(board.mark_at(4, 1), SlotState::Blue);
    assert_eq!(board.mark_at(4, 2), SlotState::Empty);
    assert_eq!(board.mark_at(3, 0), SlotState::Empty);
}

#[test]
fn drop_into_full_column_changes_nothing() {
    let mut board = Board::new();
    let column = [
        SlotState::Red,
        SlotState::Blue,
        SlotState::Red,
        SlotState::Blue,
        SlotState::Red,
        SlotState::Blue,
    ];
    for &mark in column.iter() {
        assert!(board.drop_into(7, mark));
    }
    assert!(!board.drop_into(7, SlotState::Red));
    assert!(!board.drop_into(7, SlotState::Blue));
    for (row, &mark) in column.iter().enumerate() {
        assert_eq!(board.mark_at(6, row), mark);
    }
    assert!(!board.check_for_winner());
    assert!(board.drop_into(6, SlotState::Red));
    assert_eq!(board.mark_at(5, 0), SlotState::Red);
}

#[test]
fn row_with_gap_then_filled() {
    let mut board = Board::new();
    drops(&mut board, &[(1, SlotState::Red), (2, SlotState::Red), (3, SlotState::Red), (5, SlotState::Red)]);
    assert!(!board.check_for_winner());
    drops(&mut board, &[(4, SlotState::Red)]);
    assert!(board.check_for_winner());
}

#[test]
fn checking_twice_gives_the_same_answer() {
    let mut board = Board::new();
    drops(&mut board, &[(1, SlotState::Red), (2, SlotState::Red), (3, SlotState::Red)]);
    let first = board.check_for_winner();
    assert_eq!(board.check_for_winner(), first);
    assert!(!first);
    drops(&mut board, &[(4, SlotState::Red)]);
    let first = board.check_for_winner();
    assert_eq!(board.check_for_winner(), first);
    assert!(first);
}

#[test]
fn rising_diagonal_ending_bottom_left_corner() {
    let mut board = Board::new();
    drops(&mut board, &[
        (2, SlotState::Blue), (2, SlotState::Red),
        (3, SlotState::Blue), (3, SlotState::Blue), (3, SlotState::Red),
        (4, SlotState::Blue), (4, SlotState::Red), (4, SlotState::Blue), (4, SlotState::Red),
    ]);
    assert!(!board.check_for_winner());
    drops(&mut board, &[(1, SlotState::Red)]);
    assert!(board.check_for_winner());
}

#[test]
fn falling_diagonal_ending_bottom_right_corner() {
    let mut board = Board::new();
    drops(&mut board, &[
        (6, SlotState::Blue), (6, SlotState::Red),
        (5, SlotState::Blue), (5, SlotState::Blue), (5, SlotState::Red),
        (4, SlotState::Blue), (4, SlotState::Red), (4, SlotState::Blue), (4, SlotState::Red),
    ]);
    drops(&mut board, &[(7, SlotState::Red)]);
    assert!(board.check_for_winner());
}

#[test]
fn falling_diagonal_ending_top_left_corner() {
    let mut board = Board::new();
    drops(&mut board, &[
        (4, SlotState::Blue), (4, SlotState::Red), (4, SlotState::Red),
        (3, SlotState::Blue), (3, SlotState::Red), (3, SlotState::Blue), (3, SlotState::Red),
        (2, SlotState::Blue), (2, SlotState::Red), (2, SlotState::Blue), (2, SlotState::Blue), (2, SlotState::Red),
        (1, SlotState::Blue), (1, SlotState::Red), (1, SlotState::Blue), (1, SlotState::Red), (1, SlotState::Blue),
    ]);
    drops(&mut board, &[(1, SlotState::Red)]);
    assert_eq!(board.mark_at(0, 5), SlotState::Red);
    assert!(board.check_for_winner());
}

#[test]
fn rising_diagonal_ending_top_right_corner() {
    let mut board = Board::new();
    drops(&mut board, &[
        (4, SlotState::Blue), (4, SlotState::Red), (4, SlotState::Blue),
        (5, SlotState::Blue), (5, SlotState::Red), (5, SlotState::Blue), (5, SlotState::Blue),
        (6, SlotState::Blue), (6, SlotState::Red), (6, SlotState::Blue), (6, SlotState::Red), (6, SlotState::Blue),
        (7, SlotState::Red), (7, SlotState::Blue), (7, SlotState::Red), (7, SlotState::Blue), (7, SlotState::Red),
    ]);
    assert!(!board.check_for_winner());
    drops(&mut board, &[(7, SlotState::Blue)]);
    assert_eq!(board.mark_at(6, 5), SlotState::Blue);
    assert!(board.check_for_winner());
}

#[test]
fn corner_piece_without_a_line_does_not_win() {
    let mut board = Board::new();
    drops(&mut board, &[
        (2, SlotState::Blue), (2, SlotState::Red),
        (3, SlotState::Blue), (3, SlotState::Blue), (3, SlotState::Red),
        (4, SlotState::Red), (4, SlotState::Red), (4, SlotState::Blue), (4, SlotState::Red),
    ]);
    drops(&mut board, &[(1, SlotState::Blue)]);
    assert!(!board.check_for_winner());
}

#[test]
fn glyphs_of_cells() {
    let mut board = Board::new();
    drops(&mut board, &[(1, SlotState::Red), (2, SlotState::Blue)]);
    assert_eq!(board.glyph_at(0, 0), "R");
    assert_eq!(board.glyph_at(1, 0), "B");
    assert_eq!(board.glyph_at(2, 0), " ");
    assert_eq!(board.glyph_at(0, 1), " ");
}
