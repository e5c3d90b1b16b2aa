//! Whether the words that a move forms are in the dictionary.
//!
//! A run is a stretch of letters in a row or a column with no letter
//! before it and none after it. A line is legal when each of its runs of
//! two letters or more is a word of the dictionary.

use crate::board::{Board, BoardView};
use crate::dictionary::{index_holds, AnagramIndex};
use crate::placement::indices_view;
use crate::text::EMPTY;
use vstd::prelude::*;

verus! {

/// The squares of `line` from `start` up to, not including, `end` are a
/// run: all hold letters, and the squares just before and just after are
/// empty or off the line.
pub open spec fn is_run(line: Seq<char>, start: int, end: int) -> bool {
    &&& 0 <= start < end <= line.len()
    &&& forall|k: int| start <= k < end ==> line[k] != EMPTY
    &&& (start == 0 || line[start - 1] == EMPTY)
    &&& (end == line.len() || line[end] == EMPTY)
}

/// Each run of two letters or more in `line` is held by the index.
pub open spec fn line_legal(line: Seq<char>, index: Map<Seq<char>, Seq<Seq<char>>>) -> bool {
    forall|start: int, end: int|
        #[trigger] is_run(line, start, end) && end - start >= 2 ==> index_holds(
            index,
            line.subrange(start, end),
        )
}

impl BoardView {
    /// Each of the given rows and each of the given columns is legal.
    pub open spec fn lines_legal(
        self,
        rows: Seq<int>,
        cols: Seq<int>,
        index: Map<Seq<char>, Seq<Seq<char>>>,
    ) -> bool {
        &&& forall|i: int| 0 <= i < rows.len() ==> line_legal(self.row(#[trigger] rows[i]), index)
        &&& forall|j: int| 0 <= j < cols.len() ==> line_legal(self.col(#[trigger] cols[j]), index)
    }

    /// Every row and every column of the board is legal.
    pub open spec fn all_lines_legal(self, index: Map<Seq<char>, Seq<Seq<char>>>) -> bool {
        &&& forall|r: int| 0 <= r < self.height ==> line_legal(#[trigger] self.row(r), index)
        &&& forall|c: int| 0 <= c < self.width ==> line_legal(#[trigger] self.col(c), index)
    }
}

/// The letters of `line` from `start` up to, not including, `end`.
fn stretch(line: &Vec<char>, start: usize, end: usize) -> (letters: Vec<char>)
    requires
        start <= end <= line.len(),
    ensures
        letters@ == line@.subrange(start as int, end as int),
{
    let mut letters: Vec<char> = Vec::new();
    let mut k = start;
    while k < end
        invariant
            start <= k <= end <= line.len(),
            letters@ == line@.subrange(start as int, k as int),
        decreases end - k,
    {
        letters.push(line[k]);
        assert(line@.subrange(start as int, k as int).push(line@[k as int]) =~= line@.subrange(
            start as int,
            k + 1,
        ));
        k += 1;
    }
    letters
}

/// Whether each run of two letters or more in `line` is a word of the
/// dictionary.
pub fn line_is_legal(line: &Vec<char>, letters_word_map: &AnagramIndex) -> (legal: bool)
    ensures
        legal == line_legal(line@, letters_word_map@),
{
    let n = line.len();
    let ghost index = letters_word_map@;
    let mut start: usize = 0;
    let mut i: usize = 0;
    while i < n
        invariant
            start <= i <= n,
            n == line@.len(),
            index == letters_word_map@,
            start == 0 || line@[start - 1] == EMPTY,
            forall|k: int| start <= k < i ==> line@[k] != EMPTY,
            forall|s: int, e: int|
                #[trigger] is_run(line@, s, e) && e < i && e - s >= 2 ==> index_holds(
                    index,
                    line@.subrange(s, e),
                ),
        decreases n - i,
    {
        if line[i] == EMPTY {
            if i - start >= 2 {
                let word = stretch(line, start, i);
                if !letters_word_map.contains_word(&word) {
                    assert(is_run(line@, start as int, i as int));
                    return false;
                }
            }
            assert forall|s: int, e: int|
                #[trigger] is_run(line@, s, e) && e < i + 1 && e - s >= 2 implies index_holds(
                index,
                line@.subrange(s, e),
            ) by {
                if e == i {
                    if s < start {
                        assert(line@[start - 1] != EMPTY);
                    } else if s > start {
                        assert(line@[s - 1] == EMPTY);
                    }
                }
            }
            start = i + 1;
        }
        i += 1;
    }
    if n - start >= 2 {
        let word = stretch(line, start, n);
        if !letters_word_map.contains_word(&word) {
            assert(is_run(line@, start as int, n as int));
            return false;
        }
    }
    assert forall|s: int, e: int|
        #[trigger] is_run(line@, s, e) && e - s >= 2 implies index_holds(
        index,
        line@.subrange(s, e),
    ) by {
        if e == n {
            if s < start {
                assert(line@[start - 1] != EMPTY);
            } else if s > start {
                assert(line@[s - 1] == EMPTY);
            }
        }
    }
    true
}

impl Board {
    /// Whether each run of two letters or more in the rows `rows` and the
    /// columns `cols` of this board is a word of the dictionary.
    pub fn is_legal(
        &self,
        rows: &Vec<usize>,
        cols: &Vec<usize>,
        letters_word_map: &AnagramIndex,
    ) -> (legal: bool)
        requires
            forall|i: int| 0 <= i < rows.len() ==> rows[i] < self@.height,
            forall|j: int| 0 <= j < cols.len() ==> cols[j] < self@.width,
        ensures
            legal == self@.lines_legal(
                indices_view(rows@),
                indices_view(cols@),
                letters_word_map@,
            ),
    {
        let ghost index = letters_word_map@;
        let ghost row_lines = indices_view(rows@);
        let ghost col_lines = indices_view(cols@);
        let mut i: usize = 0;
        while i < rows.len()
            invariant
                i <= rows.len(),
                index == letters_word_map@,
                row_lines == indices_view(rows@),
                forall|k: int| 0 <= k < rows.len() ==> rows[k] < self@.height,
                forall|k: int|
                    0 <= k < i ==> line_legal(self@.row(#[trigger] row_lines[k]), index),
            decreases rows.len() - i,
        {
            let row = self.get_row(rows[i]);
            if !line_is_legal(&row, letters_word_map) {
                assert(!line_legal(self@.row(row_lines[i as int]), index));
                return false;
            }
            i += 1;
        }
        let mut j: usize = 0;
        while j < cols.len()
            invariant
                j <= cols.len(),
                index == letters_word_map@,
                row_lines == indices_view(rows@),
                col_lines == indices_view(cols@),
                forall|k: int| 0 <= k < cols.len() ==> cols[k] < self@.width,
                forall|k: int|
                    0 <= k < row_lines.len() ==> line_legal(
                        self@.row(#[trigger] row_lines[k]),
                        index,
                    ),
                forall|k: int|
                    0 <= k < j ==> line_legal(self@.col(#[trigger] col_lines[k]), index),
            decreases cols.len() - j,
        {
            let col = self.get_col(cols[j]);
            if !line_is_legal(&col, letters_word_map) {
                assert(!line_legal(self@.col(col_lines[j as int]), index));
                return false;
            }
            j += 1;
        }
        true
    }
}

} // verus!
