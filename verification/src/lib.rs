//! A move-generation and scoring engine for a crossword tile game.
//!
//! Given a board, a rack of tiles and a dictionary, the engine finds every
//! slot in which a word could be laid, builds the candidate moves that the
//! rack allows, scores each placement and keeps those whose cross-words are
//! all in the dictionary.

pub mod board;
pub mod dictionary;
pub mod error;
pub mod generate;
pub mod json_types;
pub mod laws;
pub mod legality;
pub mod letter_places;
pub mod moves;
pub mod placement;
pub mod search;
pub mod seqs;
pub mod shells;
pub mod text;
pub mod values;

pub use board::{Board, BoardView};
pub use dictionary::{build_letters_word_map, AnagramIndex};
pub use error::BoardError;
pub use json_types::{
    InitializeRequest, Letter, MoveRequest, MoveResponse, PlayerInfo, ScrabbleWord, Tile,
};
pub use legality::line_is_legal;
pub use letter_places::{build_letter_place_map, LetterPlace, LetterPlaceIndex};
pub use moves::{Direction, Move, MoveView, Shell, ShellView};
pub use shells::MAX_TILES;
pub use values::{build_letter_values, build_score_string, LetterValues};
