//! Choosing a move: laying a candidate, checking the words it forms, and
//! picking the best of the candidates.

use crate::board::{Board, BoardView};
use crate::dictionary::AnagramIndex;
use crate::error::BoardError;
use crate::generate::moves_view;
use crate::moves::{Move, MoveView};
use crate::placement::reports;
use crate::values::LetterValues;
use vstd::prelude::*;

verus! {

impl BoardView {
    /// What playing the move gives: what laying it gives, if the rows and
    /// columns of the newly laid tiles are legal on the new board, and
    /// `IllegalPlacement` if the move can be laid and one of them is not.
    pub open spec fn play(
        self,
        mv: MoveView,
        values: Map<char, usize>,
        index: Map<Seq<char>, Seq<Seq<char>>>,
    ) -> Result<(BoardView, nat), BoardError> {
        match self.apply(mv, values) {
            Ok((board, score)) => if board.lines_legal(
                self.affected_rows(mv),
                self.affected_cols(mv),
                index,
            ) {
                Ok((board, score))
            } else {
                Err(BoardError::IllegalPlacement)
            },
            Err(e) => Err(e),
        }
    }

    /// What the move is worth to the search: its score where it can be
    /// played, and 0 where it cannot.
    pub open spec fn gain(
        self,
        mv: MoveView,
        values: Map<char, usize>,
        index: Map<Seq<char>, Seq<Seq<char>>>,
    ) -> nat {
        match self.play(mv, values, index) {
            Ok((_, score)) => score,
            Err(_) => 0,
        }
    }

    /// Playing the move fails for a reason that ends the search: any but
    /// running off the board and forming a word that is not in the
    /// dictionary, for which the move is only passed over.
    pub open spec fn fails(
        self,
        mv: MoveView,
        values: Map<char, usize>,
        index: Map<Seq<char>, Seq<Seq<char>>>,
    ) -> bool {
        match self.play(mv, values, index) {
            Ok(_) => false,
            Err(e) => e != BoardError::OutOfBounds && e != BoardError::IllegalPlacement,
        }
    }

    /// The `i`-th candidate is the one to play: it scores more than 0, no
    /// candidate scores more, and none before it scores as much.
    pub open spec fn is_best(
        self,
        candidates: Seq<MoveView>,
        values: Map<char, usize>,
        index: Map<Seq<char>, Seq<Seq<char>>>,
        i: int,
    ) -> bool {
        &&& 0 <= i < candidates.len()
        &&& self.gain(candidates[i], values, index) > 0
        &&& forall|j: int|
            0 <= j < candidates.len() ==> self.gain(#[trigger] candidates[j], values, index)
                <= self.gain(candidates[i], values, index)
        &&& forall|j: int|
            0 <= j < i ==> self.gain(#[trigger] candidates[j], values, index) < self.gain(
                candidates[i],
                values,
                index,
            )
    }

    /// What the search gives for the candidates: the error of the first
    /// candidate that fails, if one does; else nothing, if no candidate
    /// scores more than 0; else the board and the score of the best one.
    pub open spec fn picks(
        self,
        candidates: Seq<MoveView>,
        values: Map<char, usize>,
        index: Map<Seq<char>, Seq<Seq<char>>>,
        best: Result<Option<(BoardView, nat)>, BoardError>,
    ) -> bool {
        match best {
            Err(e) => exists|i: int|
                0 <= i < candidates.len() && self.play(#[trigger] candidates[i], values, index)
                    == Err::<(BoardView, nat), BoardError>(e) && self.fails(
                    candidates[i],
                    values,
                    index,
                ) && forall|j: int|
                    0 <= j < i ==> !self.fails(#[trigger] candidates[j], values, index),
            Ok(None) => forall|i: int|
                0 <= i < candidates.len() ==> !self.fails(#[trigger] candidates[i], values, index)
                    && self.gain(candidates[i], values, index) == 0,
            Ok(Some(chosen)) => {
                &&& forall|i: int|
                    0 <= i < candidates.len() ==> !self.fails(
                        #[trigger] candidates[i],
                        values,
                        index,
                    )
                &&& exists|i: int|
                    self.is_best(candidates, values, index, i) && self.play(
                        #[trigger] candidates[i],
                        values,
                        index,
                    ) == Ok::<(BoardView, nat), BoardError>(chosen)
            },
        }
    }
}

/// The value of what a search returns.
pub open spec fn choice_view(best: Result<Option<(Board, usize)>, BoardError>) -> Result<
    Option<(BoardView, nat)>,
    BoardError,
> {
    match best {
        Ok(Some((board, score))) => Ok(Some((board@, score as nat))),
        Ok(None) => Ok(None),
        Err(e) => Err(e),
    }
}

impl Board {
    /// Lays `mv` on a copy of this board, as `make_move` does, and checks
    /// the words that it forms: each run of two letters or more in the row
    /// and in the column of each newly laid tile must be a word of the
    /// dictionary.
    ///
    /// Fails as `make_move` does, and with `IllegalPlacement` where the
    /// move can be laid and forms a run that is not a word.
    pub fn validate_move(
        &self,
        mv: &Move,
        letter_values: &LetterValues,
        letters_word_map: &AnagramIndex,
    ) -> (outcome: Result<(Board, usize), BoardError>)
        ensures
            reports(outcome, self@.play(mv@, letter_values@, letters_word_map@)),
            outcome matches Ok((board, _)) ==> board@.wf(),
    {
        let (new_board, move_score) = match self.make_move(mv, letter_values) {
            Ok(laid) => laid,
            Err(e) => {
                return Err(e);
            },
        };
        let (rows, cols) = self.affected_rows_cols(mv);
        if new_board.is_legal(&rows, &cols, letters_word_map) {
            Ok((new_board, move_score))
        } else {
            Err(BoardError::IllegalPlacement)
        }
    }

    /// The best of the moves `moves` on this board: the new board and the
    /// score of the move that scores most among those that can be played
    /// and score more than 0, and of the first of these where several score
    /// as much. `None` where no move does.
    ///
    /// A move that runs off the board or forms a word that is not in the
    /// dictionary is passed over. Any other failure ends the search, which
    /// then fails in the same way.
    pub fn pick_best(
        &self,
        moves: &Vec<Move>,
        letter_values: &LetterValues,
        letters_word_map: &AnagramIndex,
    ) -> (best: Result<Option<(Board, usize)>, BoardError>)
        ensures
            self@.picks(moves_view(moves@), letter_values@, letters_word_map@, choice_view(best)),
            best matches Ok(Some((board, _))) ==> board@.wf(),
    {
        let ghost candidates = moves_view(moves@);
        let ghost values = letter_values@;
        let ghost index = letters_word_map@;
        let mut best: Option<(Board, usize)> = None;
        let mut best_score: usize = 0;
        let ghost mut best_at: int = 0;
        let mut i: usize = 0;
        while i < moves.len()
            invariant
                i <= moves.len(),
                candidates == moves_view(moves@),
                values == letter_values@,
                index == letters_word_map@,
                forall|j: int| 0 <= j < i ==> !self@.fails(#[trigger] candidates[j], values, index),
                forall|j: int|
                    0 <= j < i ==> self@.gain(#[trigger] candidates[j], values, index)
                        <= best_score,
                match best {
                    None => best_score == 0,
                    Some((board, score)) => {
                        &&& score == best_score
                        &&& score > 0
                        &&& 0 <= best_at < i
                        &&& board@.wf()
                        &&& self@.play(candidates[best_at], values, index) == Ok::<
                            (BoardView, nat),
                            BoardError,
                        >((board@, score as nat))
                        &&& forall|j: int|
                            0 <= j < best_at ==> self@.gain(#[trigger] candidates[j], values, index)
                                < score
                    },
                },
            decreases moves.len() - i,
        {
            assert(candidates[i as int] == moves@[i as int]@);
            match self.validate_move(&moves[i], letter_values, letters_word_map) {
                Ok((new_board, move_score)) => {
                    if best_score < move_score {
                        best_score = move_score;
                        best = Some((new_board, move_score));
                        proof {
                            best_at = i as int;
                        }
                    }
                },
                Err(BoardError::OutOfBounds) => {},
                Err(BoardError::IllegalPlacement) => {},
                Err(e) => {
                    return Err(e);
                },
            }
            i += 1;
        }
        proof {
            if best is Some {
                assert(self@.is_best(candidates, values, index, best_at));
            }
        }
        Ok(best)
    }

    /// One ply of the search: the best of the candidate moves that the rack
    /// `tiles` allows on this board, as `pick_best` picks it among the
    /// moves of `get_moves`.
    pub fn best_move(
        &self,
        tiles: &Vec<char>,
        letters_word_map: &AnagramIndex,
        letter_values: &LetterValues,
    ) -> (best: Result<Option<(Board, usize)>, BoardError>)
        ensures
            self@.picks(
                self@.generated_moves(tiles@, letters_word_map@),
                letter_values@,
                letters_word_map@,
                choice_view(best),
            ),
            best matches Ok(Some((board, _))) ==> board@.wf(),
    {
        let moves = self.get_moves(tiles, letters_word_map);
        self.pick_best(&moves, letter_values, letters_word_map)
    }
}

} // verus!
