//! What laying a move on a board gives: the new board, the score, and the
//! rows and columns that the move touches.
//!
//! The word of a move covers one square for each of its letters, from the
//! anchor on in the move's direction. Where a covered square is empty the
//! letter of the word is laid on it; where it is filled the word passes
//! through, and the letter on the board stays.

use crate::board::{letter_factor, word_factor, Board, BoardView};
use crate::error::BoardError;
use crate::moves::{Direction, MoveView};
use crate::text::EMPTY;
use vstd::prelude::*;

verus! {

impl BoardView {
    /// Every square that the word of `mv` covers is on the board.
    pub open spec fn fits(self, mv: MoveView) -> bool {
        mv.word.len() == 0 || (mv.row < self.height && mv.col < self.width && match mv.direction {
            Direction::Right => mv.col + mv.word.len() <= self.width,
            Direction::Down => mv.row + mv.word.len() <= self.height,
        })
    }

    /// The square under the `i`-th letter of the word is empty, so that the
    /// move lays a new tile on it.
    pub open spec fn fills(self, mv: MoveView, i: int) -> bool {
        self.cells[mv.cell_row(i)][mv.cell_col(i)] == EMPTY
    }

    /// The letter on the square under the `i`-th letter of the word once
    /// the move is laid: the word's letter on an empty square, and else the
    /// letter that the board holds there.
    pub open spec fn letter_under(self, mv: MoveView, i: int) -> char {
        if self.fills(mv, i) {
            mv.word[i]
        } else {
            self.cells[mv.cell_row(i)][mv.cell_col(i)]
        }
    }

    /// Each letter that the move scores has a point value.
    pub open spec fn letters_known(self, mv: MoveView, values: Map<char, usize>) -> bool {
        forall|i: int|
            0 <= i < mv.word.len() ==> values.contains_key(#[trigger] self.letter_under(mv, i))
    }

    /// What the square under the `i`-th letter adds to the sum of the move:
    /// the value of the letter, times the square's letter multiplier where
    /// the tile is newly laid.
    pub open spec fn tile_points(self, mv: MoveView, values: Map<char, usize>, i: int) -> nat {
        let value = values[self.letter_under(mv, i)] as nat;
        if self.fills(mv, i) {
            value * letter_factor(self.multipliers[mv.cell_row(i)][mv.cell_col(i)])
        } else {
            value
        }
    }

    /// The sum of what the squares under the first `n` letters add.
    pub open spec fn letter_sum(self, mv: MoveView, values: Map<char, usize>, n: nat) -> nat
        decreases n,
    {
        if n == 0 {
            0
        } else {
            self.letter_sum(mv, values, (n - 1) as nat) + self.tile_points(mv, values, n - 1)
        }
    }

    /// The word multiplier of the square under the `i`-th letter, which
    /// counts only where the tile is newly laid.
    pub open spec fn tile_factor(self, mv: MoveView, i: int) -> nat {
        if self.fills(mv, i) {
            word_factor(self.multipliers[mv.cell_row(i)][mv.cell_col(i)])
        } else {
            1
        }
    }

    /// The product of the word multipliers of the squares under the first
    /// `n` letters.
    pub open spec fn word_multiplier(self, mv: MoveView, n: nat) -> nat
        decreases n,
    {
        if n == 0 {
            1
        } else {
            self.word_multiplier(mv, (n - 1) as nat) * self.tile_factor(mv, n - 1)
        }
    }

    /// The number of tiles that the first `n` letters newly lay.
    pub open spec fn tiles_laid(self, mv: MoveView, n: nat) -> nat
        decreases n,
    {
        if n == 0 {
            0
        } else {
            self.tiles_laid(mv, (n - 1) as nat) + if self.fills(mv, n - 1) {
                1nat
            } else {
                0nat
            }
        }
    }

    /// The score of the move: the sum of its letters times the product of
    /// its word multipliers, and 0 for a move that lays no tile.
    pub open spec fn score(self, mv: MoveView, values: Map<char, usize>) -> nat {
        if self.tiles_laid(mv, mv.word.len()) == 0 {
            0
        } else {
            self.letter_sum(mv, values, mv.word.len()) * self.word_multiplier(mv, mv.word.len())
        }
    }

    /// The letter on the square `(row, col)` once the first `n` letters of
    /// the word are laid.
    pub open spec fn laid_cell(self, mv: MoveView, n: int, row: int, col: int) -> char {
        if self.cells[row][col] == EMPTY && mv.covers(row, col) && mv.offset_of(row, col) < n {
            mv.word[mv.offset_of(row, col)]
        } else {
            self.cells[row][col]
        }
    }

    /// The board once the move is laid. The multipliers stay as they are.
    pub open spec fn placed(self, mv: MoveView) -> BoardView {
        BoardView {
            width: self.width,
            height: self.height,
            cells: Seq::new(
                self.height,
                |r: int|
                    Seq::new(self.width, |c: int| self.laid_cell(mv, mv.word.len() as int, r, c)),
            ),
            multipliers: self.multipliers,
        }
    }

    /// What laying the move gives: the new board and the score, or the
    /// reason why the move cannot be laid.
    pub open spec fn apply(self, mv: MoveView, values: Map<char, usize>) -> Result<
        (BoardView, nat),
        BoardError,
    > {
        if !self.fits(mv) {
            Err(BoardError::OutOfBounds)
        } else if !self.letters_known(mv, values) {
            Err(BoardError::UnknownLetter)
        } else if self.score(mv, values) > usize::MAX {
            Err(BoardError::ScoreOverflow)
        } else {
            Ok((self.placed(mv), self.score(mv, values)))
        }
    }

    /// The predicate on indices into the word that holds where the move
    /// lays a new tile.
    pub open spec fn fills_at(self, mv: MoveView) -> spec_fn(int) -> bool {
        |i: int| self.fills(mv, i)
    }

    /// The indices of the letters that the move newly lays, in ascending
    /// order. A move that does not fit lays none.
    pub open spec fn laid_offsets(self, mv: MoveView) -> Seq<int> {
        if self.fits(mv) {
            offsets(mv.word.len()).filter(self.fills_at(mv))
        } else {
            Seq::empty()
        }
    }

    /// The row of each newly laid tile, in the order of the word.
    pub open spec fn affected_rows(self, mv: MoveView) -> Seq<int> {
        self.laid_offsets(mv).map_values(|i: int| mv.cell_row(i))
    }

    /// The column of each newly laid tile, in the order of the word.
    pub open spec fn affected_cols(self, mv: MoveView) -> Seq<int> {
        self.laid_offsets(mv).map_values(|i: int| mv.cell_col(i))
    }
}

/// `outcome` is what `expected` says: the same error, or a board with the
/// expected value and the expected score.
pub open spec fn reports(
    outcome: Result<(Board, usize), BoardError>,
    expected: Result<(BoardView, nat), BoardError>,
) -> bool {
    match outcome {
        Ok((board, score)) => expected == Ok::<(BoardView, nat), BoardError>(
            (board@, score as nat),
        ),
        Err(e) => expected == Err::<(BoardView, nat), BoardError>(e),
    }
}

/// The numbers from 0 up to, not including, `n`.
pub open spec fn offsets(n: nat) -> Seq<int> {
    Seq::new(n, |i: int| i)
}

/// The numbers held in a vector of indices.
pub open spec fn indices_view(indices: Seq<usize>) -> Seq<int> {
    indices.map_values(|i: usize| i as int)
}

/// The sum of a move's letters grows with each letter, and the product of
/// its word multipliers is at least 1 and grows too.
pub proof fn lemma_score_terms_grow(
    board: BoardView,
    mv: MoveView,
    values: Map<char, usize>,
    m: nat,
    n: nat,
)
    requires
        m <= n,
    ensures
        board.letter_sum(mv, values, m) <= board.letter_sum(mv, values, n),
        1 <= board.word_multiplier(mv, m) <= board.word_multiplier(mv, n),
        board.tiles_laid(mv, m) <= board.tiles_laid(mv, n) <= n,
    decreases n,
{
    if n > 0 {
        let lower = if m < n {
            m
        } else {
            (n - 1) as nat
        };
        lemma_score_terms_grow(board, mv, values, lower, (n - 1) as nat);
        let before = board.word_multiplier(mv, (n - 1) as nat);
        let factor = board.tile_factor(mv, n - 1);
        assert(before <= before * factor) by (nonlinear_arith)
            requires
                1 <= factor,
                0 <= before,
        ;
    }
}

} // verus!
