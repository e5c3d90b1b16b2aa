use scrabble_engine::{Board, BoardError, Direction, LetterValues, Move};

fn alphabet_values() -> LetterValues {
    let mut values = LetterValues::new();
    let mut points = 1;
    for letter in "ABCDEFGHIJKLMNOPQRSTUVWXYZ".chars() {
        values.insert(letter, points);
        points += 1;
    }
    values
}

fn plain_board(width: usize, height: usize) -> Board {
    Board::new(width, height, "-".repeat(width * height)).unwrap()
}

fn mv(row: usize, col: usize, direction: Direction, word: &str, mask: &str) -> Move {
    Move::new(row, col, direction, word.to_string(), mask.to_string())
}

fn line(text: &str) -> Vec<char> {
    text.chars().collect()
}

#[test]
fn new_board_is_empty_and_keeps_its_layout() {
    let board = Board::new(3, 2, "-lLwW*".to_string()).unwrap();
    assert_eq!(board.width(), 3);
    assert_eq!(board.height(), 2);
    assert!(board.is_empty());
    assert_eq!(board.get_row(0), line("..."));
    assert_eq!(board.get_row(1), line("..."));
    assert_eq!(board.get_col(2), line(".."));
    assert_eq!(board.get_mult_row(0), line("-lL"));
    assert_eq!(board.get_mult_row(1), line("wW*"));
    assert_eq!(board.get_mult_col(0), line("-w"));
    assert_eq!(board.get_mult_col(2), line("L*"));
}

#[test]
fn new_board_rejects_a_layout_of_the_wrong_length() {
    assert_eq!(Board::new(3, 2, "-----".to_string()).err(), Some(BoardError::ConfigurationError));
    assert_eq!(Board::new(3, 2, "-------".to_string()).err(), Some(BoardError::ConfigurationError));
    assert_eq!(Board::new(1, 1, String::new()).err(), Some(BoardError::ConfigurationError));
}

#[test]
fn new_board_rejects_an_unknown_tag() {
    assert_eq!(Board::new(2, 2, "--x-".to_string()).err(), Some(BoardError::ConfigurationError));
    assert_eq!(Board::new(2, 2, "--.-".to_string()).err(), Some(BoardError::ConfigurationError));
    assert_eq!(Board::new(2, 2, "---A".to_string()).err(), Some(BoardError::ConfigurationError));
}

#[test]
fn new_board_rejects_a_dimension_of_zero() {
    assert_eq!(Board::new(0, 2, String::new()).err(), Some(BoardError::ConfigurationError));
    assert_eq!(Board::new(2, 0, String::new()).err(), Some(BoardError::ConfigurationError));
    assert_eq!(Board::new(0, 0, String::new()).err(), Some(BoardError::ConfigurationError));
}

#[test]
fn new_board_rejects_a_size_that_overflows() {
    assert_eq!(
        Board::new(usize::MAX, 2, "--".to_string()).err(),
        Some(BoardError::ConfigurationError)
    );
}

#[test]
fn rows_have_the_width_and_columns_the_height() {
    let board = plain_board(4, 2);
    assert_eq!(board.get_row(1).len(), 4);
    assert_eq!(board.get_col(3).len(), 2);
    assert_eq!(board.get_mult_row(0).len(), 4);
    assert_eq!(board.get_mult_col(0).len(), 2);
}

#[test]
fn hello_on_an_empty_plain_board() {
    let board = plain_board(7, 7);
    let values = alphabet_values();
    let (placed, score) =
        board.make_move(&mv(0, 0, Direction::Right, "HELLO", "....."), &values).unwrap();
    assert_eq!(score, 8 + 5 + 12 + 12 + 15);
    assert_eq!(placed.get_row(0), line("HELLO.."));
    for row in 1..7 {
        assert_eq!(placed.get_row(row), line("......."));
    }
    assert!(!placed.is_empty());
}

#[test]
fn laying_a_move_leaves_the_board_as_it_was() {
    let board = plain_board(7, 7);
    let values = alphabet_values();
    let before = board.clone();
    let (placed, _) =
        board.make_move(&mv(2, 1, Direction::Down, "HELLO", "....."), &values).unwrap();
    assert_eq!(board, before);
    assert!(board.is_empty());
    assert_eq!(placed.get_col(1), line("..HELLO"));
    assert_eq!(board.get_col(1), line("......."));
}

#[test]
fn the_same_move_twice_gives_the_same_board_and_score() {
    let board = Board::new(5, 1, "lLwW*".to_string()).unwrap();
    let values = alphabet_values();
    let hello = mv(0, 0, Direction::Right, "HELLO", ".....");
    let first = board.make_move(&hello, &values).unwrap();
    let second = board.make_move(&hello, &values).unwrap();
    assert_eq!(first, second);
}

#[test]
fn letter_multipliers_count_for_their_own_letter() {
    let board = Board::new(3, 1, "l-L".to_string()).unwrap();
    let values = alphabet_values();
    let (_, score) = board.make_move(&mv(0, 0, Direction::Right, "CAB", "..."), &values).unwrap();
    assert_eq!(score, 3 * 2 + 1 + 2 * 3);
}

#[test]
fn word_multipliers_count_once_for_the_whole_word() {
    let board = Board::new(3, 1, "w-W".to_string()).unwrap();
    let values = alphabet_values();
    let (_, score) = board.make_move(&mv(0, 0, Direction::Right, "CAB", "..."), &values).unwrap();
    assert_eq!(score, (3 + 1 + 2) * 2 * 3);
}

#[test]
fn letter_and_word_multipliers_together() {
    let board = Board::new(1, 4, "lW-L".to_string()).unwrap();
    let values = alphabet_values();
    let (placed, score) =
        board.make_move(&mv(0, 0, Direction::Down, "BACD", "...."), &values).unwrap();
    assert_eq!(score, (2 * 2 + 1 + 3 + 4 * 3) * 3);
    assert_eq!(placed.get_col(0), line("BACD"));
}

#[test]
fn the_start_square_multiplies_nothing() {
    let board = Board::new(3, 1, "-*-".to_string()).unwrap();
    let values = alphabet_values();
    let (_, score) = board.make_move(&mv(0, 0, Direction::Right, "CAB", "..."), &values).unwrap();
    assert_eq!(score, 3 + 1 + 2);
}

#[test]
fn a_square_passed_through_counts_its_letter_without_multiplier() {
    let board = Board::new(5, 3, "----W-----L----".to_string()).unwrap();
    let values = alphabet_values();
    let (with_hello, first) =
        board.make_move(&mv(0, 0, Direction::Right, "HELLO", "....."), &values).unwrap();
    assert_eq!(first, (8 + 5 + 12 + 12 + 15) * 3);
    let (with_owl, second) =
        with_hello.make_move(&mv(0, 4, Direction::Down, "OWL", "O.."), &values).unwrap();
    assert_eq!(second, 15 + 23 + 12);
    assert_eq!(with_owl.get_col(4), line("OWL"));
    assert_eq!(with_owl.get_row(0), line("HELLO"));
}

#[test]
fn squares_passed_through_after_the_last_tile_count_too() {
    let board = plain_board(5, 1);
    let values = alphabet_values();
    let (with_ello, _) =
        board.make_move(&mv(0, 1, Direction::Right, "ELLO", "...."), &values).unwrap();
    let (with_hello, score) =
        with_ello.make_move(&mv(0, 0, Direction::Right, "HELLO", ".ELLO"), &values).unwrap();
    assert_eq!(score, 8 + 5 + 12 + 12 + 15);
    assert_eq!(with_hello.get_row(0), line("HELLO"));
}

#[test]
fn a_letter_on_the_board_is_never_overwritten() {
    let board = plain_board(3, 1);
    let values = alphabet_values();
    let (with_cab, _) =
        board.make_move(&mv(0, 0, Direction::Right, "CAB", "..."), &values).unwrap();
    let (after, score) =
        with_cab.make_move(&mv(0, 0, Direction::Right, "DOG", "..."), &values).unwrap();
    assert_eq!(after.get_row(0), line("CAB"));
    assert_eq!(score, 0);
}

#[test]
fn a_move_that_lays_no_tile_scores_nothing() {
    let board = plain_board(3, 3);
    let values = alphabet_values();
    let (with_cab, _) =
        board.make_move(&mv(1, 0, Direction::Right, "CAB", "..."), &values).unwrap();
    let (again, score) =
        with_cab.make_move(&mv(1, 0, Direction::Right, "CAB", "CAB"), &values).unwrap();
    assert_eq!(score, 0);
    assert_eq!(again, with_cab);
}

#[test]
fn an_empty_word_lays_nothing() {
    let board = plain_board(2, 2);
    let values = alphabet_values();
    let (same, score) = board.make_move(&mv(5, 5, Direction::Right, "", ""), &values).unwrap();
    assert_eq!(score, 0);
    assert_eq!(same, board);
}

#[test]
fn a_word_that_runs_past_the_width_is_out_of_bounds() {
    let board = plain_board(7, 7);
    let values = alphabet_values();
    let outcome = board.make_move(&mv(0, 3, Direction::Right, "HELLO", "....."), &values);
    assert_eq!(outcome.err(), Some(BoardError::OutOfBounds));
    let fits = board.make_move(&mv(0, 2, Direction::Right, "HELLO", "....."), &values);
    assert!(fits.is_ok());
}

#[test]
fn a_word_that_runs_past_the_height_is_out_of_bounds() {
    let board = plain_board(7, 7);
    let values = alphabet_values();
    let outcome = board.make_move(&mv(3, 0, Direction::Down, "HELLO", "....."), &values);
    assert_eq!(outcome.err(), Some(BoardError::OutOfBounds));
    let fits = board.make_move(&mv(2, 6, Direction::Down, "HELLO", "....."), &values);
    assert!(fits.is_ok());
}

#[test]
fn an_anchor_off_the_board_is_out_of_bounds() {
    let board = plain_board(3, 3);
    let values = alphabet_values();
    assert_eq!(
        board.make_move(&mv(3, 0, Direction::Right, "A", "."), &values).err(),
        Some(BoardError::OutOfBounds)
    );
    assert_eq!(
        board.make_move(&mv(0, 3, Direction::Down, "A", "."), &values).err(),
        Some(BoardError::OutOfBounds)
    );
    assert_eq!(
        board.make_move(&mv(usize::MAX, usize::MAX, Direction::Down, "AB", ".."), &values).err(),
        Some(BoardError::OutOfBounds)
    );
}

#[test]
fn a_letter_without_a_value_is_unknown() {
    let board = plain_board(3, 1);
    let mut values = LetterValues::new();
    values.insert('C', 3);
    values.insert('A', 1);
    let outcome = board.make_move(&mv(0, 0, Direction::Right, "CAB", "..."), &values);
    assert_eq!(outcome.err(), Some(BoardError::UnknownLetter));
}

#[test]
fn a_letter_on_the_board_without_a_value_is_unknown() {
    let board = plain_board(3, 1);
    let values = alphabet_values();
    let (with_a, _) = board.make_move(&mv(0, 0, Direction::Right, "A", "."), &values).unwrap();
    let mut fewer = LetterValues::new();
    fewer.insert('B', 2);
    let outcome = with_a.make_move(&mv(0, 0, Direction::Right, "AB", "A."), &fewer);
    assert_eq!(outcome.err(), Some(BoardError::UnknownLetter));
}

#[test]
fn out_of_bounds_comes_before_unknown_letter() {
    let board = plain_board(2, 1);
    let values = LetterValues::new();
    let outcome = board.make_move(&mv(0, 0, Direction::Right, "CAB", "..."), &values);
    assert_eq!(outcome.err(), Some(BoardError::OutOfBounds));
}

#[test]
fn a_score_that_does_not_fit_overflows() {
    let board = Board::new(2, 1, "l-".to_string()).unwrap();
    let mut values = LetterValues::new();
    values.insert('A', usize::MAX);
    values.insert('B', 1);
    assert_eq!(
        board.make_move(&mv(0, 0, Direction::Right, "A", "."), &values).err(),
        Some(BoardError::ScoreOverflow)
    );
    assert_eq!(
        board.make_move(&mv(0, 1, Direction::Right, "A", "."), &values).unwrap().1,
        usize::MAX
    );
    assert_eq!(
        board.make_move(&mv(0, 0, Direction::Right, "BA", ".."), &values).err(),
        Some(BoardError::ScoreOverflow)
    );
}

#[test]
fn unknown_letter_comes_before_score_overflow() {
    let board = Board::new(2, 1, "l-".to_string()).unwrap();
    let mut values = LetterValues::new();
    values.insert('A', usize::MAX);
    assert_eq!(
        board.make_move(&mv(0, 0, Direction::Right, "AB", ".."), &values).err(),
        Some(BoardError::UnknownLetter)
    );
}

#[test]
fn letters_worth_nothing_score_nothing_under_any_multiplier() {
    let board = Board::new(50, 1, "W".repeat(50)).unwrap();
    let mut values = LetterValues::new();
    values.insert('A', 0);
    let word = "A".repeat(50);
    let mask = ".".repeat(50);
    let (placed, score) =
        board.make_move(&mv(0, 0, Direction::Right, &word, &mask), &values).unwrap();
    assert_eq!(score, 0);
    assert_eq!(placed.get_row(0), line(&word));
    values.insert('A', 1);
    assert_eq!(
        board.make_move(&mv(0, 0, Direction::Right, &word, &mask), &values).err(),
        Some(BoardError::ScoreOverflow)
    );
}

#[test]
fn affected_lines_are_those_of_the_new_tiles() {
    let board = plain_board(5, 5);
    let values = alphabet_values();
    let hello = mv(0, 0, Direction::Right, "HELLO", ".....");
    assert_eq!(board.affected_rows_cols(&hello), (vec![0, 0, 0, 0, 0], vec![0, 1, 2, 3, 4]));
    let (with_hello, _) = board.make_move(&hello, &values).unwrap();
    let owl = mv(0, 4, Direction::Down, "OWL", "O..");
    assert_eq!(with_hello.affected_rows_cols(&owl), (vec![1, 2], vec![4, 4]));
    assert_eq!(with_hello.affected_rows_cols(&hello), (vec![], vec![]));
}

#[test]
fn a_move_that_does_not_fit_affects_no_line() {
    let board = plain_board(3, 3);
    let long = mv(0, 1, Direction::Right, "CAB", "...");
    assert_eq!(board.affected_rows_cols(&long), (vec![], vec![]));
    let empty = mv(0, 0, Direction::Down, "", "");
    assert_eq!(board.affected_rows_cols(&empty), (vec![], vec![]));
}

#[test]
fn clone_and_from_copy_the_board() {
    let board = Board::new(2, 2, "-lwW".to_string()).unwrap();
    let values = alphabet_values();
    let (placed, _) = board.make_move(&mv(1, 0, Direction::Right, "AB", ".."), &values).unwrap();
    let copy = placed.clone();
    let other = Board::from(&placed);
    assert_eq!(copy, placed);
    assert_eq!(other, placed);
    assert_eq!(copy.get_row(1), line("AB"));
    assert_eq!(other.get_mult_row(1), line("wW"));
}

#[test]
fn is_empty_sees_a_single_letter() {
    let board = plain_board(3, 3);
    let values = alphabet_values();
    assert!(board.is_empty());
    let (placed, _) = board.make_move(&mv(2, 2, Direction::Right, "A", "."), &values).unwrap();
    assert!(!placed.is_empty());
}

#[test]
fn render_writes_each_row_on_a_line() {
    let board = plain_board(3, 2);
    let values = alphabet_values();
    let (placed, _) = board.make_move(&mv(0, 1, Direction::Down, "AB", ".."), &values).unwrap();
    assert_eq!(placed.render(), ". A . \n. B . \n");
    let hello = plain_board(7, 1)
        .make_move(&mv(0, 0, Direction::Right, "HELLO", "....."), &values)
        .unwrap()
        .0;
    assert_eq!(hello.render(), "H E L L O . . \n");
}

#[test]
fn letter_values_keep_the_last_value_given() {
    let mut values = LetterValues::new();
    assert_eq!(values.get('A'), None);
    values.insert('A', 1);
    values.insert('B', 2);
    values.insert('A', 7);
    assert_eq!(values.get('A'), Some(7));
    assert_eq!(values.get('B'), Some(2));
    assert_eq!(values.get('a'), None);
}
