use scrabble_engine::{Board, Direction, LetterValues, Move, Shell, MAX_TILES};

fn values() -> LetterValues {
    let mut values = LetterValues::new();
    for letter in "ABCDEFGHIJKLMNOPQRSTUVWXYZ".chars() {
        values.insert(letter, 1);
    }
    values
}

fn plain(width: usize, height: usize) -> Board {
    Board::new(width, height, "-".repeat(width * height)).unwrap()
}

fn with_word(board: &Board, row: usize, col: usize, direction: Direction, word: &str) -> Board {
    let mv = Move::new(row, col, direction, word.to_string(), ".".repeat(word.len()));
    board.make_move(&mv, &values()).unwrap().0
}

fn pattern(line: &str, spaces: usize, start: usize) -> String {
    Board::get_shell_from_vec(line.chars().collect(), spaces, start)
}

fn shell(row: usize, col: usize, direction: Direction, text: &str) -> Shell {
    Shell::new(row, col, direction, text.to_string())
}

#[test]
fn pattern_takes_the_blanks_and_the_letters_after_them() {
    assert_eq!(pattern("..AB.C", 2, 0), "..AB");
    assert_eq!(pattern("..AB.C", 1, 0), ".");
    assert_eq!(pattern("..AB.C", 3, 0), "..AB.C");
    assert_eq!(pattern(".HI..", 1, 0), ".HI");
    assert_eq!(pattern(".HI..", 2, 0), ".HI.");
    assert_eq!(pattern(".HI..", 3, 0), ".HI..");
}

#[test]
fn pattern_stops_at_the_end_of_the_line() {
    assert_eq!(pattern(".HI..", 4, 0), ".HI..");
    assert_eq!(pattern(".HI..", 7, 0), ".HI..");
    assert_eq!(pattern("ABC", 1, 0), "ABC");
    assert_eq!(pattern("", 1, 0), "");
}

#[test]
fn pattern_starts_with_the_letters_before_the_start() {
    assert_eq!(pattern("AB..C", 1, 2), "AB.");
    assert_eq!(pattern("AB..C", 2, 2), "AB..C");
    assert_eq!(pattern("XAB.", 1, 3), "XAB.");
}

#[test]
fn pattern_forgets_what_stands_before_an_empty_square() {
    assert_eq!(pattern("A.B..", 1, 3), "B.");
    assert_eq!(pattern("A..B.", 1, 2), ".B");
    assert_eq!(pattern("AB.CD.", 1, 5), "CD.");
}

#[test]
fn pattern_from_a_letter_takes_the_run_and_the_blanks() {
    assert_eq!(pattern("H..", 1, 0), "H.");
    assert_eq!(pattern("H..", 2, 0), "H..");
    assert_eq!(pattern(".H.I.", 1, 1), "H.I");
}

#[test]
fn pattern_without_blanks_is_the_run_of_letters() {
    assert_eq!(pattern("AB.C", 0, 0), "AB");
    assert_eq!(pattern(".AB", 0, 1), "AB");
    assert_eq!(pattern("..", 0, 0), "");
}

#[test]
fn pattern_from_past_the_end_is_the_last_run() {
    assert_eq!(pattern("AB", 1, 5), "AB");
    assert_eq!(pattern("A.B", 1, 3), "B");
    assert_eq!(pattern("AB.", 2, 9), "");
}

#[test]
fn shell_counts_its_blanks_and_lists_its_letters() {
    let slot = shell(2, 0, Direction::Right, ".HI..");
    assert_eq!(slot.spaces(), 3);
    assert_eq!(slot.letters(), vec!['H', 'I']);
    let blank = shell(0, 0, Direction::Down, "....");
    assert_eq!(blank.spaces(), 4);
    assert_eq!(blank.letters(), Vec::<char>::new());
    let full = shell(0, 0, Direction::Down, "CAB");
    assert_eq!(full.spaces(), 0);
    assert_eq!(full.letters(), vec!['C', 'A', 'B']);
    let none = shell(0, 0, Direction::Right, "");
    assert_eq!(none.spaces(), 0);
    assert_eq!(none.letters(), Vec::<char>::new());
}

#[test]
fn shell_new_keeps_what_it_is_given() {
    let slot = Shell::new(3, 4, Direction::Down, "A.".to_string());
    assert_eq!(slot.row, 3);
    assert_eq!(slot.col, 4);
    assert_eq!(slot.direction, Direction::Down);
    assert_eq!(slot.text, "A.");
}

#[test]
fn initial_shells_of_a_seven_by_seven_board() {
    let shells = plain(7, 7).get_initial_shells();
    assert_eq!(shells.len(), 30);
    assert_eq!(shells[0], shell(3, 3, Direction::Down, ".."));
    assert_eq!(shells[1], shell(3, 3, Direction::Right, ".."));
    assert_eq!(shells[2], shell(2, 3, Direction::Down, ".."));
    assert_eq!(shells[3], shell(3, 2, Direction::Right, ".."));
    assert_eq!(shells[4], shell(3, 3, Direction::Down, "..."));
    assert_eq!(shells[28], shell(0, 3, Direction::Down, "......."));
    assert_eq!(shells[29], shell(3, 0, Direction::Right, "......."));
}

#[test]
fn initial_shells_lie_on_the_board_across_the_centre() {
    for (width, height) in [(7, 7), (3, 5), (11, 11), (8, 2), (1, 9), (15, 4)] {
        let board = plain(width, height);
        let shells = board.get_initial_shells();
        let (mid_row, mid_col) = (height / 2, width / 2);
        for slot in shells.iter() {
            let len = slot.text.chars().count();
            assert!(slot.text.chars().all(|c| c == '.'));
            assert!(2 <= len && len <= MAX_TILES);
            match slot.direction {
                Direction::Right => {
                    assert_eq!(slot.row, mid_row);
                    assert!(slot.col <= mid_col && mid_col < slot.col + len);
                    assert!(slot.col + len <= width);
                }
                Direction::Down => {
                    assert_eq!(slot.col, mid_col);
                    assert!(slot.row <= mid_row && mid_row < slot.row + len);
                    assert!(slot.row + len <= height);
                }
            }
        }
    }
}

#[test]
fn initial_shells_have_every_length_that_the_board_has_room_for() {
    for (width, height) in [(7, 7), (3, 5), (11, 11), (8, 2), (1, 9), (15, 4), (1, 1)] {
        let shells = plain(width, height).get_initial_shells();
        for len in 2..=MAX_TILES {
            let down = shells
                .iter()
                .any(|s| s.direction == Direction::Down && s.text.chars().count() == len);
            let right = shells
                .iter()
                .any(|s| s.direction == Direction::Right && s.text.chars().count() == len);
            assert_eq!(down, len <= height);
            assert_eq!(right, len <= width);
        }
    }
}

#[test]
fn a_board_of_one_square_has_no_initial_shell() {
    assert_eq!(plain(1, 1).get_initial_shells(), Vec::<Shell>::new());
    assert_eq!(plain(1, 1).find_shells(), Vec::<Shell>::new());
}

#[test]
fn find_shells_on_an_empty_board_gives_the_initial_shells() {
    let board = plain(7, 7);
    assert_eq!(board.find_shells(), board.get_initial_shells());
    let narrow = plain(3, 5);
    assert_eq!(narrow.find_shells(), narrow.get_initial_shells());
}

#[test]
fn find_shells_around_a_word() {
    let board = with_word(&plain(5, 5), 2, 1, Direction::Right, "HI");
    let shells = board.find_shells();
    let expected = vec![
        shell(2, 0, Direction::Right, ".HI"),
        shell(2, 0, Direction::Right, ".HI."),
        shell(2, 0, Direction::Right, ".HI.."),
        shell(2, 0, Direction::Right, ".HI.."),
        shell(1, 1, Direction::Down, ".H"),
        shell(1, 2, Direction::Down, ".I"),
        shell(2, 1, Direction::Down, "H."),
        shell(2, 2, Direction::Down, "I."),
        shell(0, 1, Direction::Down, "..H"),
        shell(0, 2, Direction::Down, "..I"),
        shell(1, 1, Direction::Down, ".H."),
        shell(1, 2, Direction::Down, ".I."),
        shell(2, 1, Direction::Down, "H.."),
        shell(2, 2, Direction::Down, "I.."),
        shell(0, 1, Direction::Down, "..H."),
        shell(0, 2, Direction::Down, "..I."),
        shell(1, 1, Direction::Down, ".H.."),
        shell(1, 2, Direction::Down, ".I.."),
        shell(0, 1, Direction::Down, "..H.."),
        shell(0, 2, Direction::Down, "..I.."),
    ];
    assert_eq!(shells, expected);
}

#[test]
fn find_shells_below_a_word_in_the_first_row() {
    let board = with_word(&plain(5, 3), 0, 0, Direction::Right, "HELLO");
    let shells = board.find_shells();
    let mut expected = Vec::new();
    for (col, letter) in "HELLO".chars().enumerate() {
        expected.push(shell(0, col, Direction::Down, &format!("{}.", letter)));
    }
    for (col, letter) in "HELLO".chars().enumerate() {
        expected.push(shell(0, col, Direction::Down, &format!("{}..", letter)));
    }
    assert_eq!(shells, expected);
}

#[test]
fn find_shells_reaches_the_last_row() {
    let board = with_word(&plain(4, 3), 2, 1, Direction::Right, "A");
    let shells = board.find_shells();
    assert!(shells.contains(&shell(2, 0, Direction::Right, ".A")));
    assert!(shells.contains(&shell(2, 0, Direction::Right, ".A.")));
    assert!(shells.contains(&shell(1, 1, Direction::Down, ".A")));
    assert!(shells.contains(&shell(0, 1, Direction::Down, "..A")));
}

#[test]
fn no_shell_starts_right_after_a_letter() {
    let mut board = with_word(&plain(9, 9), 4, 2, Direction::Right, "HELLO");
    board = with_word(&board, 4, 6, Direction::Down, "OWL");
    board = with_word(&board, 6, 3, Direction::Right, "ALL");
    let shells = board.find_shells();
    assert!(!shells.is_empty());
    for slot in shells.iter() {
        assert!(slot.row < 9 && slot.col < 9);
        match slot.direction {
            Direction::Right => {
                assert!(slot.col == 0 || board.get_row(slot.row)[slot.col - 1] == '.');
            }
            Direction::Down => {
                assert!(slot.row == 0 || board.get_col(slot.col)[slot.row - 1] == '.');
            }
        }
    }
}

#[test]
fn every_shell_of_a_board_with_letters_has_a_blank_and_a_letter() {
    let mut board = with_word(&plain(9, 9), 4, 2, Direction::Right, "HELLO");
    board = with_word(&board, 4, 6, Direction::Down, "OWL");
    for slot in board.find_shells().iter() {
        assert!(slot.spaces() >= 1);
        assert!(slot.spaces() <= MAX_TILES);
        assert!(!slot.letters().is_empty());
        let line = match slot.direction {
            Direction::Right => board.get_row(slot.row),
            Direction::Down => board.get_col(slot.col),
        };
        let start = match slot.direction {
            Direction::Right => slot.col,
            Direction::Down => slot.row,
        };
        let text: Vec<char> = slot.text.chars().collect();
        assert_eq!(&line[start..start + text.len()], &text[..]);
    }
}
