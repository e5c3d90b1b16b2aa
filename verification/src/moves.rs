//! Moves and the slots ("shells") in which a move can be laid.

use crate::seqs::lemma_filter_step;
use crate::text::{chars_of, EMPTY};
use vstd::prelude::*;

verus! {

/// The direction in which a word runs on the board.
#[derive(Debug, Clone, Copy, PartialEq, Eq, Structural)]
pub enum Direction {
    /// Along a row, with the column growing.
    Right,
    /// Along a column, with the row growing.
    Down,
}

/// The predicate that holds of the marker of an empty square.
pub open spec fn is_blank() -> spec_fn(char) -> bool {
    |c: char| c == EMPTY
}

/// The predicate that holds of every character but the marker of an empty
/// square.
pub open spec fn is_letter() -> spec_fn(char) -> bool {
    |c: char| c != EMPTY
}

/// `word` can be laid over `pattern`: both have the same length, and where
/// the pattern holds a letter the word holds the same letter.
pub open spec fn matches_pattern(word: Seq<char>, pattern: Seq<char>) -> bool {
    &&& word.len() == pattern.len()
    &&& forall|i: int| 0 <= i < pattern.len() && pattern[i] != EMPTY ==> word[i] == pattern[i]
}

/// A word to lay on the board from an anchor square in a direction.
///
/// `mask` marks, square by square, what the word meets: `'.'` where a new
/// tile is laid, and the letter itself where the word passes through a
/// square that is already filled.
#[derive(Debug, Clone, PartialEq, Eq)]
pub struct Move {
    pub row: usize,
    pub col: usize,
    pub direction: Direction,
    pub word: String,
    pub mask: String,
}

/// The mathematical value of a [`Move`].
pub struct MoveView {
    pub row: nat,
    pub col: nat,
    pub direction: Direction,
    pub word: Seq<char>,
    pub mask: Seq<char>,
}

impl View for Move {
    type V = MoveView;

    open spec fn view(&self) -> MoveView {
        MoveView {
            row: self.row as nat,
            col: self.col as nat,
            direction: self.direction,
            word: self.word@,
            mask: self.mask@,
        }
    }
}

impl MoveView {
    /// The move's invariant: the mask is as long as the word, and the word
    /// agrees with every letter of the mask.
    pub open spec fn well_formed(self) -> bool {
        matches_pattern(self.word, self.mask)
    }

    /// The row of the square under the `i`-th letter of the word.
    pub open spec fn cell_row(self, i: int) -> int {
        match self.direction {
            Direction::Right => self.row as int,
            Direction::Down => self.row + i,
        }
    }

    /// The column of the square under the `i`-th letter of the word.
    pub open spec fn cell_col(self, i: int) -> int {
        match self.direction {
            Direction::Right => self.col + i,
            Direction::Down => self.col as int,
        }
    }

    /// The word covers the square `(row, col)`.
    pub open spec fn covers(self, row: int, col: int) -> bool {
        match self.direction {
            Direction::Right => row == self.row && self.col <= col < self.col + self.word.len(),
            Direction::Down => col == self.col && self.row <= row < self.row + self.word.len(),
        }
    }

    /// The index in the word of the letter over the square `(row, col)`,
    /// where the word covers it.
    pub open spec fn offset_of(self, row: int, col: int) -> int {
        match self.direction {
            Direction::Right => col - self.col,
            Direction::Down => row - self.row,
        }
    }
}

impl Move {
    /// A move that lays `word` from `(row, col)` in `direction` over `mask`.
    pub fn new(row: usize, col: usize, direction: Direction, word: String, mask: String) -> (mv:
        Move)
        ensures
            mv@ == (MoveView {
                row: row as nat,
                col: col as nat,
                direction,
                word: word@,
                mask: mask@,
            }),
    {
        Move { row, col, direction, word, mask }
    }
}

/// A slot for a word: an anchor square, a direction and a pattern.
///
/// In the pattern `'.'` stands for an empty square that the word must fill,
/// and a letter for a square that already holds that letter.
#[derive(Debug, Clone, PartialEq, Eq)]
pub struct Shell {
    pub row: usize,
    pub col: usize,
    pub direction: Direction,
    pub text: String,
}

/// The mathematical value of a [`Shell`].
pub struct ShellView {
    pub row: nat,
    pub col: nat,
    pub direction: Direction,
    pub text: Seq<char>,
}

impl View for Shell {
    type V = ShellView;

    open spec fn view(&self) -> ShellView {
        ShellView {
            row: self.row as nat,
            col: self.col as nat,
            direction: self.direction,
            text: self.text@,
        }
    }
}

impl ShellView {
    /// The number of empty squares in the pattern.
    pub open spec fn blank_count(self) -> nat {
        self.text.filter(is_blank()).len()
    }

    /// The letters that the pattern fixes, in their order.
    pub open spec fn fixed_letters(self) -> Seq<char> {
        self.text.filter(is_letter())
    }

    /// The move that lays `word` in this slot.
    pub open spec fn with_word(self, word: Seq<char>) -> MoveView {
        MoveView {
            row: self.row,
            col: self.col,
            direction: self.direction,
            word,
            mask: self.text,
        }
    }
}

impl Shell {
    /// A slot anchored at `(row, col)` that runs in `direction` over the
    /// pattern `text`.
    pub fn new(row: usize, col: usize, direction: Direction, text: String) -> (shell: Shell)
        ensures
            shell@ == (ShellView { row: row as nat, col: col as nat, direction, text: text@ }),
    {
        Shell { row, col, direction, text }
    }

    /// The number of empty squares in the pattern.
    pub fn spaces(&self) -> (total: usize)
        ensures
            total == self@.blank_count(),
    {
        let text = chars_of(self.text.as_str());
        let mut total: usize = 0;
        let mut i: usize = 0;
        while i < text.len()
            invariant
                i <= text.len(),
                total <= i,
                total == text@.take(i as int).filter(is_blank()).len(),
            decreases text.len() - i,
        {
            proof {
                lemma_filter_step(text@, is_blank(), i as int);
            }
            if text[i] == EMPTY {
                total += 1;
            }
            i += 1;
        }
        assert(text@.take(i as int) == text@);
        total
    }

    /// The letters that the pattern fixes, in their order.
    pub fn letters(&self) -> (chars: Vec<char>)
        ensures
            chars@ == self@.fixed_letters(),
    {
        let text = chars_of(self.text.as_str());
        let mut chars: Vec<char> = Vec::new();
        let mut i: usize = 0;
        while i < text.len()
            invariant
                i <= text.len(),
                chars@ == text@.take(i as int).filter(is_letter()),
            decreases text.len() - i,
        {
            proof {
                lemma_filter_step(text@, is_letter(), i as int);
            }
            if text[i] != EMPTY {
                chars.push(text[i]);
            }
            i += 1;
        }
        assert(text@.take(i as int) == text@);
        chars
    }
}

} // verus!
