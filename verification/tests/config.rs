use scrabble_engine::{
    build_letter_values, build_score_string, Board, InitializeRequest, Letter, MoveRequest,
    MoveResponse, PlayerInfo, ScrabbleWord, Tile,
};
use std::collections::HashMap;

#[test]
fn letter_values_cover_the_capital_letters() {
    let values = build_letter_values();
    for letter in "ABCDEFGHIJKLMNOPQRSTUVWXYZ".chars() {
        let value = values.get(letter);
        assert!(matches!(value, Some(points) if points < 10));
    }
    assert_eq!(values.get('a'), None);
    assert_eq!(values.get('@'), None);
    assert_eq!(values.get('['), None);
    assert_eq!(values.get('.'), None);
}

#[test]
fn score_string_has_a_drawn_tag_for_each_square() {
    for (width, height) in [(11, 11), (4, 3), (1, 1), (1, 20)] {
        let layout = build_score_string(width, height);
        assert_eq!(layout.chars().count(), width * height);
        assert!(layout.chars().all(|tag| "-wWlL".contains(tag)));
        let board = Board::new(width, height, layout.clone()).unwrap();
        let mut tags = String::new();
        for row in 0..height {
            tags.extend(board.get_mult_row(row));
        }
        assert_eq!(tags, layout);
    }
}

#[test]
fn score_string_of_no_squares_is_empty() {
    assert_eq!(build_score_string(0, 5), "");
    assert_eq!(build_score_string(5, 0), "");
}

#[test]
fn requests_and_responses_hold_their_fields() {
    let tile = Tile { square: "dl".to_string(), letter: String::new() };
    let request = MoveRequest {
        board: vec![vec![tile.clone()]],
        tilesLeft: 86,
        players: vec![PlayerInfo { tilesInHand: 7, points: 12 }],
        letters: vec!['A', 'B'],
        playerIndex: 0,
    };
    assert_eq!(request.board[0][0].square, "dl");
    assert_eq!(request.tilesLeft, 86);
    assert_eq!(request.players[0].tilesInHand, 7);
    assert_eq!(request.players[0].points, 12);
    assert_eq!(request.letters, vec!['A', 'B']);
    assert_eq!(request.playerIndex, 0);
    let response = MoveResponse { bank: vec![1, 3], board: request.board.clone() };
    assert_eq!(response.bank, vec![1, 3]);
    assert_eq!(response.board[0][0].letter, "");
    let mut letters = HashMap::new();
    letters.insert("A".to_string(), Letter { value: 1, n: 9, left: 8 });
    let opening =
        InitializeRequest { board: Vec::new(), words: vec!["OWL".to_string()], letters };
    assert_eq!(opening.words, vec!["OWL".to_string()]);
    assert_eq!(opening.letters["A"].value, 1);
    assert_eq!(opening.letters["A"].n, 9);
    assert_eq!(opening.letters["A"].left, 8);
    let word = ScrabbleWord { start: vec![0, 0], end: vec![0, 2], word: "OWL".to_string() };
    assert_eq!(word.start, vec![0, 0]);
    assert_eq!(word.end, vec![0, 2]);
    assert_eq!(word.word, "OWL");
}
