//! What holds of laying and playing moves, whatever the board and the move.

use crate::board::{Board, BoardView};
use crate::dictionary::index_holds;
use crate::error::BoardError;
use crate::legality::{is_run, line_legal};
use crate::moves::MoveView;
use crate::placement::{offsets, reports};
use crate::text::EMPTY;
use vstd::prelude::*;

verus! {

/// Laying a move leaves every letter of the board where it is: the new
/// board has the size and the multipliers of the old one, holds each letter
/// that the old one holds, and differs from it only on empty squares that
/// the word covers.
pub proof fn lemma_placement_keeps_letters(board: BoardView, mv: MoveView)
    requires
        board.wf(),
        board.fits(mv),
    ensures
        board.placed(mv).wf(),
        board.placed(mv).width == board.width,
        board.placed(mv).height == board.height,
        board.placed(mv).multipliers == board.multipliers,
        forall|r: int, c: int|
            0 <= r < board.height && 0 <= c < board.width && (board.cells[r][c] != EMPTY
                || !mv.covers(r, c)) ==> #[trigger] board.placed(mv).cells[r][c]
                == board.cells[r][c],
        forall|i: int|
            0 <= i < mv.word.len() ==> board.placed(mv).cells[mv.cell_row(i)][mv.cell_col(i)]
                == #[trigger] board.letter_under(mv, i),
{
}

/// Laying a move that is read off the board spells its word on the new
/// board, and lays a tile exactly where its mask has `'.'`.
pub proof fn lemma_read_move_spells_its_word(board: BoardView, mv: MoveView)
    requires
        board.wf(),
        board.reads(mv),
    ensures
        forall|i: int|
            0 <= i < mv.word.len() ==> (#[trigger] board.fills(mv, i) <==> mv.mask[i] == EMPTY),
        forall|i: int|
            0 <= i < mv.word.len() ==> #[trigger] board.letter_under(mv, i) == mv.word[i],
        forall|i: int|
            0 <= i < mv.word.len() ==> board.placed(mv).cells[mv.cell_row(i)][mv.cell_col(i)]
                == #[trigger] mv.word[i],
{
    lemma_placement_keeps_letters(board, mv);
    assert forall|i: int| 0 <= i < mv.word.len() implies board.placed(mv).cells[mv.cell_row(
        i,
    )][mv.cell_col(i)] == #[trigger] mv.word[i] by {
        assert(board.placed(mv).cells[mv.cell_row(i)][mv.cell_col(i)] == board.letter_under(mv, i));
    }
}

/// Laying the same move on the same board with the same letter values
/// twice gives the same outcome: the same error, or the same board and the
/// same score.
pub proof fn lemma_same_move_same_outcome(
    board: Board,
    mv: MoveView,
    values: Map<char, usize>,
    first: Result<(Board, usize), BoardError>,
    second: Result<(Board, usize), BoardError>,
)
    requires
        reports(first, board@.apply(mv, values)),
        reports(second, board@.apply(mv, values)),
    ensures
        match (first, second) {
            (Ok((one, score)), Ok((other, again))) => one@ == other@ && score == again,
            (Err(e), Err(f)) => e == f,
            _ => false,
        },
{
}

/// The move that a search picks fits on the board, scores more than 0 and
/// is legal: a move that runs off the board is never picked.
pub proof fn lemma_picked_move_is_playable(
    board: BoardView,
    candidates: Seq<MoveView>,
    values: Map<char, usize>,
    index: Map<Seq<char>, Seq<Seq<char>>>,
    chosen: (BoardView, nat),
)
    requires
        board.picks(candidates, values, index, Ok(Some(chosen))),
    ensures
        chosen.1 > 0,
        exists|i: int|
            0 <= i < candidates.len() && board.fits(#[trigger] candidates[i]) && board.apply(
                candidates[i],
                values,
            ) == Ok::<(BoardView, nat), BoardError>(chosen) && chosen.0.lines_legal(
                board.affected_rows(candidates[i]),
                board.affected_cols(candidates[i]),
                index,
            ),
{
    let i = choose|i: int|
        board.is_best(candidates, values, index, i) && board.play(
            #[trigger] candidates[i],
            values,
            index,
        ) == Ok::<(BoardView, nat), BoardError>(chosen);
    assert(board.fits(candidates[i]));
}

/// A letter that the move newly lays is listed among the laid offsets.
proof fn lemma_laid_offset_listed(board: BoardView, mv: MoveView, offset: int) -> (at: int)
    requires
        board.fits(mv),
        0 <= offset < mv.word.len(),
        board.fills(mv, offset),
    ensures
        0 <= at < board.laid_offsets(mv).len(),
        board.laid_offsets(mv)[at] == offset,
        board.affected_rows(mv)[at] == mv.cell_row(offset),
        board.affected_cols(mv)[at] == mv.cell_col(offset),
{
    let all = offsets(mv.word.len());
    assert(all[offset] == offset);
    all.lemma_filter_contains(board.fills_at(mv), offset);
    let laid = board.laid_offsets(mv);
    choose|at: int| 0 <= at < laid.len() && laid[at] == offset
}

/// A move that is legal on a board whose every row and column is legal
/// gives a board whose every row and column is legal: each run of two
/// letters or more on the new board is a word of the dictionary.
///
/// The move is legal when the rows and columns of its newly laid tiles are.
pub proof fn lemma_legal_move_keeps_board_legal(
    board: BoardView,
    mv: MoveView,
    index: Map<Seq<char>, Seq<Seq<char>>>,
)
    requires
        board.wf(),
        board.fits(mv),
        board.all_lines_legal(index),
        board.placed(mv).lines_legal(board.affected_rows(mv), board.affected_cols(mv), index),
    ensures
        board.placed(mv).all_lines_legal(index),
{
    let after = board.placed(mv);
    let rows = board.affected_rows(mv);
    let cols = board.affected_cols(mv);
    assert forall|r: int| 0 <= r < after.height implies line_legal(
        #[trigger] after.row(r),
        index,
    ) by {
        if exists|k: int| 0 <= k < rows.len() && rows[k] == r {
            let k = choose|k: int| 0 <= k < rows.len() && rows[k] == r;
            assert(line_legal(after.row(rows[k]), index));
        } else {
            assert forall|c: int| 0 <= c < board.width implies after.row(r)[c] == board.row(
                r,
            )[c] by {
                if board.cells[r][c] == EMPTY && mv.covers(r, c) {
                    let at = lemma_laid_offset_listed(board, mv, mv.offset_of(r, c));
                    assert(rows[at] == r);
                }
            }
            assert(after.row(r) =~= board.row(r));
        }
    }
    assert forall|c: int| 0 <= c < after.width implies line_legal(
        #[trigger] after.col(c),
        index,
    ) by {
        if exists|k: int| 0 <= k < cols.len() && cols[k] == c {
            let k = choose|k: int| 0 <= k < cols.len() && cols[k] == c;
            assert(line_legal(after.col(cols[k]), index));
        } else {
            assert forall|r: int| 0 <= r < board.height implies after.col(c)[r] == board.col(
                c,
            )[r] by {
                if board.cells[r][c] == EMPTY && mv.covers(r, c) {
                    let at = lemma_laid_offset_listed(board, mv, mv.offset_of(r, c));
                    assert(cols[at] == c);
                }
            }
            assert(after.col(c) =~= board.col(c));
        }
    }
}

/// A run of two letters or more that is not in the dictionary, in the row
/// or the column of a newly laid tile, makes the move illegal.
pub proof fn lemma_unknown_run_is_illegal(
    board: BoardView,
    rows: Seq<int>,
    cols: Seq<int>,
    index: Map<Seq<char>, Seq<Seq<char>>>,
    line: Seq<char>,
    start: int,
    end: int,
)
    requires
        (exists|i: int| 0 <= i < rows.len() && board.row(#[trigger] rows[i]) == line) || (exists|
            j: int,
        | 0 <= j < cols.len() && board.col(#[trigger] cols[j]) == line),
        is_run(line, start, end),
        end - start >= 2,
        !index_holds(index, line.subrange(start, end)),
    ensures
        !board.lines_legal(rows, cols, index),
{
}

} // verus!
