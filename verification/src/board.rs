//! The board: a grid of squares with a multiplier on each.

use crate::error::BoardError;
use crate::moves::{Direction, Move};
use crate::seqs::{concat, lemma_concat_step, lemma_filter_step};
use crate::placement::{indices_view, lemma_score_terms_grow, offsets, reports};
use crate::text::{chars_of, EMPTY};
use crate::values::LetterValues;
use vstd::prelude::*;

verus! {

/// The tag of a square without a multiplier.
pub const PLAIN: char = '-';

/// The tag of a square that doubles the letter laid on it.
pub const DOUBLE_LETTER: char = 'l';

/// The tag of a square that triples the letter laid on it.
pub const TRIPLE_LETTER: char = 'L';

/// The tag of a square that doubles the word laid across it.
pub const DOUBLE_WORD: char = 'w';

/// The tag of a square that triples the word laid across it.
pub const TRIPLE_WORD: char = 'W';

/// The tag of the start square, which multiplies nothing.
pub const START: char = '*';

/// `tag` is one of the six multiplier tags.
pub open spec fn is_multiplier_tag(tag: char) -> bool {
    tag == PLAIN || tag == DOUBLE_LETTER || tag == TRIPLE_LETTER || tag == DOUBLE_WORD || tag
        == TRIPLE_WORD || tag == START
}

/// The factor by which a square with this tag multiplies the letter newly
/// laid on it.
pub open spec fn letter_factor(tag: char) -> nat {
    if tag == DOUBLE_LETTER {
        2
    } else if tag == TRIPLE_LETTER {
        3
    } else {
        1
    }
}

/// The factor by which a square with this tag multiplies the whole word,
/// when a letter is newly laid on it.
pub open spec fn word_factor(tag: char) -> nat {
    if tag == DOUBLE_WORD {
        2
    } else if tag == TRIPLE_WORD {
        3
    } else {
        1
    }
}

/// A multiplier layout for a board of `width` by `height` squares: one tag
/// for each square, row after row.
pub open spec fn layout_fits(width: nat, height: nat, layout: Seq<char>) -> bool {
    &&& width > 0
    &&& height > 0
    &&& layout.len() == width * height
    &&& forall|i: int| 0 <= i < layout.len() ==> is_multiplier_tag(#[trigger] layout[i])
}

/// The mathematical value of a [`Board`]: `height` rows of `width` squares.
///
/// `cells[r][c]` is the letter on the square in row `r` and column `c`, or
/// `'.'` where the square is empty; `multipliers[r][c]` is its tag.
pub struct BoardView {
    pub width: nat,
    pub height: nat,
    pub cells: Seq<Seq<char>>,
    pub multipliers: Seq<Seq<char>>,
}

impl BoardView {
    /// The grid has positive dimensions, every row has `width` squares, and
    /// every square has one of the six multiplier tags.
    pub open spec fn wf(self) -> bool {
        &&& self.width > 0
        &&& self.height > 0
        &&& self.cells.len() == self.height
        &&& self.multipliers.len() == self.height
        &&& forall|r: int| 0 <= r < self.height ==> (#[trigger] self.cells[r]).len() == self.width
        &&& forall|r: int|
            0 <= r < self.height ==> (#[trigger] self.multipliers[r]).len() == self.width
        &&& forall|r: int, c: int|
            0 <= r < self.height && 0 <= c < self.width ==> is_multiplier_tag(
                #[trigger] self.multipliers[r][c],
            )
    }

    /// The board of the given size with every square empty and the tags of
    /// `layout`, read row after row.
    pub open spec fn empty(width: nat, height: nat, layout: Seq<char>) -> BoardView {
        BoardView {
            width,
            height,
            cells: Seq::new(height, |r: int| Seq::new(width, |c: int| EMPTY)),
            multipliers: Seq::new(height, |r: int| Seq::new(width, |c: int| layout[r * width + c])),
        }
    }

    /// No square holds a letter.
    pub open spec fn is_empty(self) -> bool {
        forall|r: int, c: int|
            0 <= r < self.height && 0 <= c < self.width ==> (#[trigger] self.cells[r][c]) == EMPTY
    }

    /// The squares of row `i`, from the first column to the last.
    pub open spec fn row(self, i: int) -> Seq<char> {
        self.cells[i]
    }

    /// The squares of column `j`, from the first row to the last.
    pub open spec fn col(self, j: int) -> Seq<char> {
        Seq::new(self.height, |r: int| self.cells[r][j])
    }

    /// `line_text` of each row, as a function of the row.
    pub open spec fn text_by_row(self) -> spec_fn(int) -> Seq<char> {
        |r: int| line_text(self.cells[r])
    }

    /// The board as text: one line for each row, from the first to the
    /// last.
    pub open spec fn text(self) -> Seq<char> {
        concat(self.height, self.text_by_row())
    }

    /// The tags of row `i`, from the first column to the last.
    pub open spec fn mult_row(self, i: int) -> Seq<char> {
        self.multipliers[i]
    }

    /// The tags of column `j`, from the first row to the last.
    pub open spec fn mult_col(self, j: int) -> Seq<char> {
        Seq::new(self.height, |r: int| self.multipliers[r][j])
    }
}

/// A square of `line` followed by a space, as a function of the square's
/// place.
pub open spec fn spaced(line: Seq<char>) -> spec_fn(int) -> Seq<char> {
    |c: int| seq![line[c], ' ']
}

/// A line of the board as text: each square followed by a space, and a
/// line feed at the end.
pub open spec fn line_text(line: Seq<char>) -> Seq<char> {
    concat(line.len(), spaced(line)).push('\n')
}

/// A square's place in the row-major order is within the grid.
pub proof fn lemma_flat_index(width: int, height: int, row: int, col: int)
    requires
        0 <= row < height,
        0 <= col < width,
    ensures
        0 <= row * width + col < width * height,
        row * width + col < (row + 1) * width,
        (row + 1) * width <= width * height,
{
    assert(row * width + col < (row + 1) * width) by (nonlinear_arith)
        requires
            0 <= col < width,
    ;
    assert((row + 1) * width <= width * height) by (nonlinear_arith)
        requires
            0 <= row < height,
            0 < width,
    ;
    assert(0 <= row * width) by (nonlinear_arith)
        requires
            0 <= row,
            0 <= width,
    ;
}

/// Two squares with the same place in the row-major order are the same
/// square.
pub proof fn lemma_flat_index_injective(width: int, r1: int, c1: int, r2: int, c2: int)
    requires
        0 <= c1 < width,
        0 <= c2 < width,
        0 <= r1,
        0 <= r2,
        r1 * width + c1 == r2 * width + c2,
    ensures
        r1 == r2,
        c1 == c2,
{
    if r1 < r2 {
        assert(r1 * width + width <= r2 * width) by (nonlinear_arith)
            requires
                r1 < r2,
                0 < width,
        ;
    } else if r2 < r1 {
        assert(r2 * width + width <= r1 * width) by (nonlinear_arith)
            requires
                r2 < r1,
                0 < width,
        ;
    }
}

/// A board: a grid of squares, each empty or holding one letter, and a
/// multiplier tag on each square.
///
/// The squares are kept row after row. The tags are fixed when the board is
/// made; laying a move gives a new board and leaves this one as it was.
#[derive(Debug, PartialEq, Eq)]
pub struct Board {
    squares: Vec<char>,
    w: usize,
    h: usize,
    mults: Vec<char>,
}

impl View for Board {
    type V = BoardView;

    closed spec fn view(&self) -> BoardView {
        BoardView {
            width: self.w as nat,
            height: self.h as nat,
            cells: Seq::new(
                self.h as nat,
                |r: int| Seq::new(self.w as nat, |c: int| self.squares@[r * self.w + c]),
            ),
            multipliers: Seq::new(
                self.h as nat,
                |r: int| Seq::new(self.w as nat, |c: int| self.mults@[r * self.w + c]),
            ),
        }
    }
}

impl Board {
    #[verifier::type_invariant]
    spec fn inv(self) -> bool {
        &&& self.w > 0
        &&& self.h > 0
        &&& self.squares@.len() == self.w * self.h
        &&& self.mults@.len() == self.w * self.h
        &&& forall|i: int|
            0 <= i < self.mults@.len() ==> is_multiplier_tag(#[trigger] self.mults@[i])
    }

    proof fn lemma_view_wf(self)
        requires
            self.inv(),
        ensures
            self@.wf(),
    {
        assert forall|r: int, c: int|
            0 <= r < self@.height && 0 <= c < self@.width implies is_multiplier_tag(
            #[trigger] self@.multipliers[r][c],
        ) by {
            lemma_flat_index(self.w as int, self.h as int, r, c);
        }
    }

    /// An empty board of `width` by `height` squares whose tags are the
    /// characters of `score_str`, row after row.
    ///
    /// Fails with `ConfigurationError` unless both dimensions are positive,
    /// `score_str` has one character for each square and each character is
    /// one of the six multiplier tags.
    pub fn new(width: usize, height: usize, score_str: String) -> (made: Result<Board, BoardError>)
        ensures
            match made {
                Ok(board) => layout_fits(width as nat, height as nat, score_str@) && board@
                    == BoardView::empty(width as nat, height as nat, score_str@) && board@.wf(),
                Err(e) => e == BoardError::ConfigurationError && !layout_fits(
                    width as nat,
                    height as nat,
                    score_str@,
                ),
            },
    {
        let mults = chars_of(score_str.as_str());
        let tags = mults.len();
        if width == 0 || height == 0 {
            return Err(BoardError::ConfigurationError);
        }
        let size = match width.checked_mul(height) {
            Some(size) => size,
            None => {
                assert(tags < width * height);
                return Err(BoardError::ConfigurationError);
            },
        };
        if tags != size {
            return Err(BoardError::ConfigurationError);
        }
        let mut i: usize = 0;
        while i < size
            invariant
                i <= size,
                size == mults@.len(),
                mults@ == score_str@,
                forall|k: int| 0 <= k < i ==> is_multiplier_tag(#[trigger] mults@[k]),
            decreases size - i,
        {
            let tag = mults[i];
            if !(tag == PLAIN || tag == DOUBLE_LETTER || tag == TRIPLE_LETTER || tag == DOUBLE_WORD
                || tag == TRIPLE_WORD || tag == START) {
                assert(!is_multiplier_tag(score_str@[i as int]));
                return Err(BoardError::ConfigurationError);
            }
            i += 1;
        }
        let mut squares: Vec<char> = Vec::new();
        let mut k: usize = 0;
        while k < size
            invariant
                k <= size,
                squares@.len() == k,
                forall|j: int| 0 <= j < k ==> squares@[j] == EMPTY,
            decreases size - k,
        {
            squares.push(EMPTY);
            k += 1;
        }
        let board = Board { squares, w: width, h: height, mults };
        proof {
            board.lemma_view_wf();
            let target = BoardView::empty(width as nat, height as nat, score_str@);
            assert forall|r: int| 0 <= r < height implies #[trigger] board@.cells[r]
                == target.cells[r] by {
                assert forall|c: int| 0 <= c < width implies board@.cells[r][c]
                    == target.cells[r][c] by {
                    lemma_flat_index(width as int, height as int, r, c);
                }
                assert(board@.cells[r] =~= target.cells[r]);
            }
            assert(board@.cells =~= target.cells);
            assert forall|r: int| 0 <= r < height implies #[trigger] board@.multipliers[r]
                =~= target.multipliers[r] by {
            }
            assert(board@.multipliers =~= target.multipliers);
        }
        Ok(board)
    }
}

/// A running total kept in a `usize`: `Some` of the exact number while it
/// fits, and `None` once it has grown past `usize::MAX`.
spec fn tracks(total: Option<usize>, exact: int) -> bool {
    match total {
        Some(held) => held == exact,
        None => exact > usize::MAX,
    }
}

/// Adds `value * factor` to a running total.
fn add_points(
    total: Option<usize>,
    value: usize,
    factor: usize,
    Ghost(exact): Ghost<int>,
) -> (grown: Option<usize>)
    requires
        tracks(total, exact),
        1 <= factor <= 3,
    ensures
        tracks(grown, exact + value * factor),
{
    assert(value <= value * factor) by (nonlinear_arith)
        requires
            1 <= factor,
            0 <= value,
    ;
    match (total, value.checked_mul(factor)) {
        (Some(held), Some(points)) => held.checked_add(points),
        _ => None,
    }
}

/// Multiplies a running product by `factor`.
fn times_factor(product: Option<usize>, factor: usize, Ghost(exact): Ghost<int>) -> (grown:
    Option<usize>)
    requires
        tracks(product, exact),
        0 <= exact,
        1 <= factor <= 3,
    ensures
        tracks(grown, exact * factor),
{
    assert(exact <= exact * factor) by (nonlinear_arith)
        requires
            1 <= factor,
            0 <= exact,
    ;
    match product {
        Some(held) => held.checked_mul(factor),
        None => None,
    }
}

/// A copy of the given characters.
fn copy_of(letters: &Vec<char>) -> (copy: Vec<char>)
    ensures
        copy@ == letters@,
{
    let mut copy: Vec<char> = Vec::new();
    let mut i: usize = 0;
    while i < letters.len()
        invariant
            i <= letters.len(),
            copy@ == letters@.take(i as int),
        decreases letters.len() - i,
    {
        copy.push(letters[i]);
        i += 1;
    }
    assert(letters@.take(i as int) == letters@);
    copy
}

impl Board {
    /// The place of the square `(row, col)` in the row-major order.
    spec fn flat(self, row: int, col: int) -> int {
        row * self.w + col
    }

    fn index_of(&self, row: usize, col: usize) -> (idx: usize)
        requires
            row < self.h,
            col < self.w,
        ensures
            idx == self.flat(row as int, col as int),
            idx < self.squares@.len(),
            idx < self.mults@.len(),
    {
        proof {
            use_type_invariant(self);
            lemma_flat_index(self.w as int, self.h as int, row as int, col as int);
            assert(0 <= row * self.w) by (nonlinear_arith)
                requires
                    0 <= row,
                    0 <= self.w,
            ;
        }
        let total = self.squares.len();
        assert(row * self.w + col < total);
        row * self.w + col
    }

    /// The number of columns.
    pub fn width(&self) -> (width: usize)
        ensures
            width == self@.width,
            self@.wf(),
    {
        proof {
            use_type_invariant(self);
            self.lemma_view_wf();
        }
        self.w
    }

    /// The number of rows.
    pub fn height(&self) -> (height: usize)
        ensures
            height == self@.height,
            self@.wf(),
    {
        proof {
            use_type_invariant(self);
            self.lemma_view_wf();
        }
        self.h
    }

    /// Lays `mv` on a copy of this board and scores it.
    ///
    /// Each letter of the word meets one square, from the anchor on. On an
    /// empty square the letter is laid and counts with the square's letter
    /// multiplier, and the square's word multiplier counts for the whole
    /// move. A filled square keeps its letter, which counts once. The score
    /// is the sum of the letters times the product of the word multipliers;
    /// a move that lays no tile scores 0.
    ///
    /// Fails with `OutOfBounds` where the word runs past an edge, else with
    /// `UnknownLetter` where a letter has no value in `letter_values`, else
    /// with `ScoreOverflow` where the score does not fit a `usize`.
    pub fn make_move(&self, mv: &Move, letter_values: &LetterValues) -> (outcome: Result<
        (Board, usize),
        BoardError,
    >)
        ensures
            reports(outcome, self@.apply(mv@, letter_values@)),
            outcome matches Ok((board, _)) ==> board@.wf(),
    {
        proof {
            use_type_invariant(self);
            self.lemma_view_wf();
        }
        let word = chars_of(mv.word.as_str());
        let n = word.len();
        let room = n == 0 || (mv.row < self.h && mv.col < self.w && match mv.direction {
            Direction::Right => n <= self.w - mv.col,
            Direction::Down => n <= self.h - mv.row,
        });
        if !room {
            return Err(BoardError::OutOfBounds);
        }
        let ghost values = letter_values@;
        let mut squares = copy_of(&self.squares);
        let mut sum: Option<usize> = Some(0);
        let mut product: Option<usize> = Some(1);
        let mut laid: usize = 0;
        let mut i: usize = 0;
        while i < n
            invariant
                i <= n,
                n == word@.len(),
                word@ == mv@.word,
                values == letter_values@,
                self.inv(),
                self@.wf(),
                self@.fits(mv@),
                squares@.len() == self.squares@.len(),
                forall|r: int, c: int|
                    0 <= r < self.h && 0 <= c < self.w ==> squares@[self.flat(r, c)]
                        == #[trigger] self@.laid_cell(mv@, i as int, r, c),
                forall|j: int|
                    0 <= j < i ==> values.contains_key(#[trigger] self@.letter_under(mv@, j)),
                tracks(sum, self@.letter_sum(mv@, values, i as nat) as int),
                tracks(product, self@.word_multiplier(mv@, i as nat) as int),
                laid == self@.tiles_laid(mv@, i as nat),
                laid <= i,
            decreases n - i,
        {
            let (row, col) = match mv.direction {
                Direction::Right => (mv.row, mv.col + i),
                Direction::Down => (mv.row + i, mv.col),
            };
            assert(row == mv@.cell_row(i as int) && col == mv@.cell_col(i as int));
            let idx = self.index_of(row, col);
            let held = self.squares[idx];
            assert(held == self@.cells[row as int][col as int]);
            let ghost sum_before = self@.letter_sum(mv@, values, i as nat) as int;
            let ghost product_before = self@.word_multiplier(mv@, i as nat) as int;
            if held == EMPTY {
                let letter = word[i];
                let value = match letter_values.get(letter) {
                    Some(value) => value,
                    None => {
                        assert(!values.contains_key(self@.letter_under(mv@, i as int)));
                        return Err(BoardError::UnknownLetter);
                    },
                };
                let tag = self.mults[idx];
                assert(tag == self@.multipliers[row as int][col as int]);
                let by_letter: usize = if tag == DOUBLE_LETTER {
                    2
                } else if tag == TRIPLE_LETTER {
                    3
                } else {
                    1
                };
                let by_word: usize = if tag == DOUBLE_WORD {
                    2
                } else if tag == TRIPLE_WORD {
                    3
                } else {
                    1
                };
                sum = add_points(sum, value, by_letter, Ghost(sum_before));
                product = times_factor(product, by_word, Ghost(product_before));
                squares.set(idx, letter);
                laid += 1;
            } else {
                let value = match letter_values.get(held) {
                    Some(value) => value,
                    None => {
                        assert(!values.contains_key(self@.letter_under(mv@, i as int)));
                        return Err(BoardError::UnknownLetter);
                    },
                };
                sum = add_points(sum, value, 1, Ghost(sum_before));
                assert(product_before * 1 == product_before);
            }
            proof {
                assert forall|r: int, c: int|
                    0 <= r < self.h && 0 <= c < self.w implies squares@[self.flat(r, c)]
                    == #[trigger] self@.laid_cell(mv@, i + 1, r, c) by {
                    lemma_flat_index(self.w as int, self.h as int, r, c);
                    assert(squares@[self.flat(r, c)] == self@.laid_cell(mv@, i + 1, r, c)) by {
                        let before = self@.laid_cell(mv@, i as int, r, c);
                        if r != row || c != col {
                            if self.flat(r, c) == idx {
                                lemma_flat_index_injective(
                                    self.w as int,
                                    r,
                                    c,
                                    row as int,
                                    col as int,
                                );
                            }
                        }
                    }
                }
            }
            i += 1;
        }
        let mults = copy_of(&self.mults);
        let board = Board { squares, w: self.w, h: self.h, mults };
        proof {
            board.lemma_view_wf();
            let target = self@.placed(mv@);
            assert forall|r: int| 0 <= r < self.h implies #[trigger] board@.cells[r]
                == target.cells[r] by {
                assert forall|c: int| 0 <= c < self.w implies board@.cells[r][c]
                    == target.cells[r][c] by {
                    assert(squares@[self.flat(r, c)] == self@.laid_cell(mv@, n as int, r, c));
                }
                assert(board@.cells[r] =~= target.cells[r]);
            }
            assert(board@.cells =~= target.cells);
            assert(board@.multipliers =~= target.multipliers);
            assert(board@ == target);
            lemma_score_terms_grow(self@, mv@, values, 0, n as nat);
        }
        let ghost exact_sum = self@.letter_sum(mv@, values, n as nat);
        let ghost exact_product = self@.word_multiplier(mv@, n as nat);
        let ghost exact = self@.score(mv@, values);
        assert(self@.fits(mv@) && self@.letters_known(mv@, values));
        if laid == 0 {
            return Ok((board, 0));
        }
        assert(exact == exact_sum * exact_product);
        let score = match sum {
            Some(0) => {
                assert(exact == 0) by (nonlinear_arith)
                    requires
                        exact == exact_sum * exact_product,
                        exact_sum == 0,
                ;
                Some(0)
            },
            Some(held) => match product {
                Some(factor) => held.checked_mul(factor),
                None => {
                    assert(exact_sum * exact_product > usize::MAX) by (nonlinear_arith)
                        requires
                            exact_sum >= 1,
                            exact_product > usize::MAX,
                    ;
                    None
                },
            },
            None => {
                assert(exact_sum * exact_product > usize::MAX) by (nonlinear_arith)
                    requires
                        exact_product >= 1,
                        exact_sum > usize::MAX,
                ;
                None
            },
        };
        assert(tracks(score, exact as int));
        match score {
            Some(score) => Ok((board, score)),
            None => Err(BoardError::ScoreOverflow),
        }
    }

    /// The rows and the columns of the tiles that `mv` newly lays on this
    /// board: one entry of each for every such tile, in the order of the
    /// word. Both are empty where the move does not fit the board.
    pub fn affected_rows_cols(&self, mv: &Move) -> (lines: (Vec<usize>, Vec<usize>))
        ensures
            indices_view(lines.0@) == self@.affected_rows(mv@),
            indices_view(lines.1@) == self@.affected_cols(mv@),
            forall|i: int| 0 <= i < lines.0.len() ==> lines.0[i] < self@.height,
            forall|j: int| 0 <= j < lines.1.len() ==> lines.1[j] < self@.width,
    {
        proof {
            use_type_invariant(self);
            self.lemma_view_wf();
        }
        let mut row_idxs: Vec<usize> = Vec::new();
        let mut col_idxs: Vec<usize> = Vec::new();
        let n = mv.word.as_str().unicode_len();
        let room = n == 0 || (mv.row < self.h && mv.col < self.w && match mv.direction {
            Direction::Right => n <= self.w - mv.col,
            Direction::Down => n <= self.h - mv.row,
        });
        if !room {
            assert(indices_view(row_idxs@) =~= self@.affected_rows(mv@));
            assert(indices_view(col_idxs@) =~= self@.affected_cols(mv@));
            return (row_idxs, col_idxs);
        }
        let ghost all = offsets(n as nat);
        let ghost laid = self@.fills_at(mv@);
        let mut i: usize = 0;
        while i < n
            invariant
                i <= n,
                n == mv@.word.len(),
                self.inv(),
                self@.fits(mv@),
                all == offsets(n as nat),
                laid == self@.fills_at(mv@),
                forall|k: int| 0 <= k < row_idxs.len() ==> row_idxs[k] < self.h,
                forall|k: int| 0 <= k < col_idxs.len() ==> col_idxs[k] < self.w,
                indices_view(row_idxs@) == all.take(i as int).filter(laid).map_values(
                    |k: int| mv@.cell_row(k),
                ),
                indices_view(col_idxs@) == all.take(i as int).filter(laid).map_values(
                    |k: int| mv@.cell_col(k),
                ),
            decreases n - i,
        {
            let (row, col) = match mv.direction {
                Direction::Right => (mv.row, mv.col + i),
                Direction::Down => (mv.row + i, mv.col),
            };
            let idx = self.index_of(row, col);
            proof {
                lemma_filter_step(all, laid, i as int);
                assert(self.squares@[idx as int] == self@.cells[row as int][col as int]);
            }
            let ghost rows_before = row_idxs@;
            let ghost cols_before = col_idxs@;
            if self.squares[idx] == EMPTY {
                row_idxs.push(row);
                col_idxs.push(col);
                proof {
                    let kept = all.take(i as int).filter(laid);
                    assert(indices_view(row_idxs@) =~= indices_view(rows_before).push(row as int));
                    assert(indices_view(col_idxs@) =~= indices_view(cols_before).push(col as int));
                    assert(kept.push(i as int).map_values(|k: int| mv@.cell_row(k))
                        =~= kept.map_values(|k: int| mv@.cell_row(k)).push(row as int));
                    assert(kept.push(i as int).map_values(|k: int| mv@.cell_col(k))
                        =~= kept.map_values(|k: int| mv@.cell_col(k)).push(col as int));
                }
            }
            i += 1;
        }
        assert(all.take(n as int) == all);
        (row_idxs, col_idxs)
    }

    /// A copy of this board.
    pub fn clone(&self) -> (copy: Board)
        ensures
            copy@ == self@,
    {
        Board::from(self)
    }

    /// A copy of `board`.
    pub fn from(board: &Board) -> (copy: Board)
        ensures
            copy@ == board@,
    {
        proof {
            use_type_invariant(board);
        }
        Board {
            squares: copy_of(&board.squares),
            w: board.w,
            h: board.h,
            mults: copy_of(&board.mults),
        }
    }

    /// Whether no square holds a letter.
    pub fn is_empty(&self) -> (empty: bool)
        ensures
            empty == self@.is_empty(),
    {
        proof {
            use_type_invariant(self);
        }
        let mut row: usize = 0;
        while row < self.h
            invariant
                row <= self.h,
                self.inv(),
                forall|r: int, c: int|
                    0 <= r < row && 0 <= c < self.w ==> (#[trigger] self@.cells[r][c]) == EMPTY,
            decreases self.h - row,
        {
            let mut col: usize = 0;
            while col < self.w
                invariant
                    col <= self.w,
                    row < self.h,
                    self.inv(),
                    forall|r: int, c: int|
                        0 <= r < row && 0 <= c < self.w ==> (#[trigger] self@.cells[r][c])
                            == EMPTY,
                    forall|c: int|
                        0 <= c < col ==> (#[trigger] self@.cells[row as int][c]) == EMPTY,
                decreases self.w - col,
            {
                let idx = self.index_of(row, col);
                if self.squares[idx] != EMPTY {
                    assert(self@.cells[row as int][col as int] != EMPTY);
                    return false;
                }
                col += 1;
            }
            row += 1;
        }
        true
    }

    /// The squares of row `row_idx`, from the first column to the last.
    pub fn get_row(&self, row_idx: usize) -> (row: Vec<char>)
        requires
            row_idx < self@.height,
        ensures
            row@ == self@.row(row_idx as int),
            self@.wf(),
    {
        proof {
            use_type_invariant(self);
            self.lemma_view_wf();
        }
        let cells = self.line_of(&self.squares, Direction::Right, row_idx);
        assert(cells@ =~= self@.row(row_idx as int));
        cells
    }

    /// The squares of column `col_idx`, from the first row to the last.
    pub fn get_col(&self, col_idx: usize) -> (col: Vec<char>)
        requires
            col_idx < self@.width,
        ensures
            col@ == self@.col(col_idx as int),
            self@.wf(),
    {
        proof {
            use_type_invariant(self);
            self.lemma_view_wf();
        }
        let cells = self.line_of(&self.squares, Direction::Down, col_idx);
        assert(cells@ =~= self@.col(col_idx as int));
        cells
    }

    /// The multiplier tags of row `row_idx`, from the first column to the
    /// last.
    pub fn get_mult_row(&self, row_idx: usize) -> (row: Vec<char>)
        requires
            row_idx < self@.height,
        ensures
            row@ == self@.mult_row(row_idx as int),
            self@.wf(),
    {
        proof {
            use_type_invariant(self);
            self.lemma_view_wf();
        }
        let cells = self.line_of(&self.mults, Direction::Right, row_idx);
        assert(cells@ =~= self@.mult_row(row_idx as int));
        cells
    }

    /// The multiplier tags of column `col_idx`, from the first row to the
    /// last.
    pub fn get_mult_col(&self, col_idx: usize) -> (col: Vec<char>)
        requires
            col_idx < self@.width,
        ensures
            col@ == self@.mult_col(col_idx as int),
            self@.wf(),
    {
        proof {
            use_type_invariant(self);
            self.lemma_view_wf();
        }
        let cells = self.line_of(&self.mults, Direction::Down, col_idx);
        assert(cells@ =~= self@.mult_col(col_idx as int));
        cells
    }

    /// One line of a layer of the board: row `line` where `direction` is
    /// `Right`, column `line` where it is `Down`.
    fn line_of(&self, layer: &Vec<char>, direction: Direction, line: usize) -> (cells: Vec<char>)
        requires
            layer@.len() == self.w * self.h,
            match direction {
                Direction::Right => line < self.h,
                Direction::Down => line < self.w,
            },
        ensures
            cells@ == match direction {
                Direction::Right => Seq::new(
                    self.w as nat,
                    |c: int| layer@[self.flat(line as int, c)],
                ),
                Direction::Down => Seq::new(
                    self.h as nat,
                    |r: int| layer@[self.flat(r, line as int)],
                ),
            },
    {
        proof {
            use_type_invariant(self);
        }
        let count = match direction {
            Direction::Right => self.w,
            Direction::Down => self.h,
        };
        let mut cells: Vec<char> = Vec::new();
        let mut k: usize = 0;
        while k < count
            invariant
                k <= count,
                self.inv(),
                layer@.len() == self.w * self.h,
                match direction {
                    Direction::Right => line < self.h && count == self.w,
                    Direction::Down => line < self.w && count == self.h,
                },
                cells@.len() == k,
                forall|j: int|
                    0 <= j < k ==> cells@[j] == match direction {
                        Direction::Right => layer@[self.flat(line as int, j)],
                        Direction::Down => layer@[self.flat(j, line as int)],
                    },
            decreases count - k,
        {
            let idx = match direction {
                Direction::Right => self.index_of(line, k),
                Direction::Down => self.index_of(k, line),
            };
            cells.push(layer[idx]);
            k += 1;
        }
        cells
    }

    /// The board as text: row after row, each square followed by a space
    /// and each row by a line feed.
    pub fn render(&self) -> (text: String)
        ensures
            text@ == self@.text(),
    {
        proof {
            use_type_invariant(self);
        }
        let ghost by_row = self@.text_by_row();
        let mut text = String::new();
        let mut row: usize = 0;
        proof {
            lemma_concat_step(0, by_row);
        }
        while row < self.h
            invariant
                row <= self.h,
                self.inv(),
                by_row == self@.text_by_row(),
                text@ == concat(row as nat, by_row),
            decreases self.h - row,
        {
            let ghost done = text@;
            let ghost line = self@.cells[row as int];
            let ghost by_square = spaced(line);
            let mut col: usize = 0;
            proof {
                lemma_concat_step(0, by_square);
                assert(done + Seq::<char>::empty() =~= done);
            }
            while col < self.w
                invariant
                    col <= self.w,
                    row < self.h,
                    self.inv(),
                    line == self@.cells[row as int],
                    by_square == spaced(line),
                    text@ == done + concat(col as nat, by_square),
                decreases self.w - col,
            {
                let idx = self.index_of(row, col);
                let ghost so_far = concat(col as nat, by_square);
                text.push(self.squares[idx]);
                text.push(' ');
                proof {
                    lemma_concat_step(col as nat, by_square);
                    assert(line[col as int] == self.squares@[idx as int]);
                    assert(text@ =~= done + (so_far + by_square(col as int)));
                }
                col += 1;
            }
            text.push('\n');
            proof {
                lemma_concat_step(row as nat, by_row);
                assert(text@ =~= done + line_text(line));
            }
            row += 1;
        }
        text
    }
}

} // verus!
