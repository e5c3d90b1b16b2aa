//! The data of the requests and responses that a game server exchanges
//! with a player.

use std::collections::HashMap;
use vstd::prelude::*;

verus! {

/// A request for a move.
#[allow(non_snake_case)]
#[derive(Debug, Clone)]
pub struct MoveRequest {
    /// The board, row by row. Words are spelled in growing row or column.
    pub board: Vec<Vec<Tile>>,
    /// The number of tiles that are left to draw.
    pub tilesLeft: usize,
    /// What is public of each player.
    pub players: Vec<PlayerInfo>,
    /// The letters in the hand of the player who is asked.
    pub letters: Vec<char>,
    /// The place in `players` of the player who is asked.
    pub playerIndex: usize,
}

/// What is public of a player.
#[allow(non_snake_case)]
#[derive(Debug, Clone)]
pub struct PlayerInfo {
    /// The number of tiles in the player's hand.
    pub tilesInHand: usize,
    /// The player's points.
    pub points: usize,
}

/// The answer to a request for a move.
#[derive(Debug, Clone)]
pub struct MoveResponse {
    /// The places in the hand of the tiles to exchange. Where there are
    /// any, the turn is skipped.
    pub bank: Vec<usize>,
    /// The board with the move laid on it.
    pub board: Vec<Vec<Tile>>,
}

/// The request that opens a game.
#[derive(Debug, Clone)]
pub struct InitializeRequest {
    /// The board, row by row.
    pub board: Vec<Vec<Tile>>,
    /// The words of the dictionary.
    pub words: Vec<String>,
    /// What is known of each letter, by the letter.
    pub letters: HashMap<String, Letter>,
}

/// A square of the board.
#[derive(Debug, Clone)]
pub struct Tile {
    /// The kind of the square: `" "`, `"dl"`, `"tl"`, `"dw"`, `"tw"` or
    /// `"st"`.
    pub square: String,
    /// The letter on the square, or the empty string.
    pub letter: String,
}

/// What is known of a letter.
#[derive(Debug, Clone)]
pub struct Letter {
    /// The letter's point value.
    pub value: usize,
    /// The number of tiles with the letter in the game.
    pub n: usize,
    /// The number of these that are left to draw.
    pub left: usize,
}

/// A word on the board, with its first and its last square.
#[derive(Debug, Clone)]
pub struct ScrabbleWord {
    /// The row and the column of the first letter.
    pub start: Vec<usize>,
    /// The row and the column of the last letter.
    pub end: Vec<usize>,
    /// The word.
    pub word: String,
}

} // verus!
