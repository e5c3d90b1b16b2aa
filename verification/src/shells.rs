//! Finding the slots of a board in which a word could be laid.
//!
//! On an empty board the slots lie across the centre square. On a board
//! that holds letters a slot starts at a square that has nothing before it,
//! takes in a number of empty squares and every letter up to the next empty
//! square, and must cross at least one letter.

use crate::board::{Board, BoardView};
use crate::moves::{Direction, Shell, ShellView};
use crate::seqs::{concat, lemma_concat_step};
use crate::text::EMPTY;
use vstd::prelude::*;

verus! {

/// The largest number of tiles that a move can lay.
pub const MAX_TILES: usize = 7;

/// The views of a sequence of slots.
pub open spec fn shells_view(shells: Seq<Shell>) -> Seq<ShellView> {
    shells.map_values(|shell: Shell| shell@)
}

/// A pattern of `n` empty squares.
pub open spec fn blanks(n: nat) -> Seq<char> {
    Seq::new(n, |i: int| EMPTY)
}

/// Where the run of letters that ends just before `at` begins: `at` itself
/// where the square before it is empty or there is none.
pub open spec fn run_start(line: Seq<char>, at: int) -> int
    decreases at,
{
    if at <= 0 {
        0
    } else if line[at - 1] == EMPTY {
        at
    } else {
        run_start(line, at - 1)
    }
}

/// Where a slot that starts at `from` and takes in `blanks` empty squares
/// ends: at the first empty square after these, or at the end of the line.
pub open spec fn slot_end(line: Seq<char>, from: int, blanks: nat) -> int
    decreases line.len() - from,
{
    if from >= line.len() {
        line.len() as int
    } else if line[from] != EMPTY {
        slot_end(line, from + 1, blanks)
    } else if blanks == 0 {
        from
    } else {
        slot_end(line, from + 1, (blanks - 1) as nat)
    }
}

/// The pattern of the slot of `line` that starts at `start` and takes in
/// `blanks` empty squares: the letters that stand just before `start`, then
/// the squares from `start` on up to the end of the slot.
pub open spec fn slot_pattern(line: Seq<char>, blanks: nat, start: int) -> Seq<char> {
    let from = if start < line.len() {
        start
    } else {
        line.len() as int
    };
    line.subrange(run_start(line, from), slot_end(line, from, blanks))
}

/// A slot begins and ends within its line, around its start.
pub proof fn lemma_slot_bounds(line: Seq<char>, blanks: nat, from: int)
    requires
        0 <= from <= line.len(),
    ensures
        0 <= run_start(line, from) <= from,
        from <= slot_end(line, from, blanks) <= line.len(),
        run_start(line, from) == from <==> from == 0 || line[from - 1] == EMPTY,
    decreases from, line.len() - from,
{
    if from > 0 && line[from - 1] != EMPTY {
        lemma_run_start_bounds(line, from - 1);
    }
    if from < line.len() {
        if line[from] != EMPTY {
            lemma_slot_end_bounds(line, blanks, from + 1);
        } else if blanks > 0 {
            lemma_slot_end_bounds(line, (blanks - 1) as nat, from + 1);
        }
    }
}

proof fn lemma_run_start_bounds(line: Seq<char>, at: int)
    requires
        0 <= at,
    ensures
        0 <= run_start(line, at) <= at,
    decreases at,
{
    if at > 0 && line[at - 1] != EMPTY {
        lemma_run_start_bounds(line, at - 1);
    }
}

proof fn lemma_slot_end_bounds(line: Seq<char>, blanks: nat, from: int)
    requires
        0 <= from <= line.len(),
    ensures
        from <= slot_end(line, from, blanks) <= line.len(),
    decreases line.len() - from,
{
    if from < line.len() {
        if line[from] != EMPTY {
            lemma_slot_end_bounds(line, blanks, from + 1);
        } else if blanks > 0 {
            lemma_slot_end_bounds(line, (blanks - 1) as nat, from + 1);
        }
    }
}

impl ShellView {
    /// The pattern has an empty square to fill and a letter to cross.
    pub open spec fn crosses_letters(self) -> bool {
        self.blank_count() > 0 && self.fixed_letters().len() > 0
    }
}

impl BoardView {
    /// The row of the centre square.
    pub open spec fn centre_row(self) -> nat {
        self.height / 2
    }

    /// The column of the centre square.
    pub open spec fn centre_col(self) -> nat {
        self.width / 2
    }

    /// The slots of `len` empty squares that start `offset` squares before
    /// the centre square and lie on the board: the one that runs down, then
    /// the one that runs right.
    pub open spec fn centre_slots(self, len: nat, offset: int) -> Seq<ShellView> {
        let down = if self.centre_row() >= offset && self.centre_row() - offset + len
            <= self.height {
            seq![
                ShellView {
                    row: (self.centre_row() - offset) as nat,
                    col: self.centre_col(),
                    direction: Direction::Down,
                    text: blanks(len),
                },
            ]
        } else {
            Seq::empty()
        };
        let right = if self.centre_col() >= offset && self.centre_col() - offset + len
            <= self.width {
            seq![
                ShellView {
                    row: self.centre_row(),
                    col: (self.centre_col() - offset) as nat,
                    direction: Direction::Right,
                    text: blanks(len),
                },
            ]
        } else {
            Seq::empty()
        };
        down + right
    }

    /// `centre_slots` for a fixed length, as a function of the offset.
    pub open spec fn centre_slots_at(self, len: nat) -> spec_fn(int) -> Seq<ShellView> {
        |offset: int| self.centre_slots(len, offset)
    }

    /// The slots of `len` empty squares across the centre square, by
    /// growing distance of their start from it.
    pub open spec fn centre_slots_of_length(self, len: nat) -> Seq<ShellView> {
        concat(len, self.centre_slots_at(len))
    }

    /// `centre_slots_of_length`, as a function of the length less 2.
    pub open spec fn centre_slots_by_length(self) -> spec_fn(int) -> Seq<ShellView> {
        |k: int| self.centre_slots_of_length((k + 2) as nat)
    }

    /// The slots for the first move: those across the centre square, of 2
    /// up to `MAX_TILES` empty squares, by growing length.
    pub open spec fn initial_shells(self) -> Seq<ShellView> {
        concat((MAX_TILES - 1) as nat, self.centre_slots_by_length())
    }

    /// Every square of the slot is on the board.
    pub open spec fn holds(self, shell: ShellView) -> bool {
        match shell.direction {
            Direction::Right => shell.row < self.height && shell.col + shell.text.len()
                <= self.width,
            Direction::Down => shell.col < self.width && shell.row + shell.text.len()
                <= self.height,
        }
    }

    /// The slot covers the centre square.
    pub open spec fn centred(self, shell: ShellView) -> bool {
        match shell.direction {
            Direction::Right => shell.row == self.centre_row() && shell.col <= self.centre_col()
                < shell.col + shell.text.len(),
            Direction::Down => shell.col == self.centre_col() && shell.row <= self.centre_row()
                < shell.row + shell.text.len(),
        }
    }

    /// What holds of the slots for the first move: each is a run of empty
    /// squares on the board that covers the centre square, and each length
    /// from 2 to `MAX_TILES` that the board has room for occurs in both
    /// directions.
    pub open spec fn seeds_first_move(self, shells: Seq<ShellView>) -> bool {
        &&& forall|i: int|
            0 <= i < shells.len() ==> self.holds(#[trigger] shells[i]) && self.centred(shells[i])
                && shells[i].text == blanks(shells[i].text.len())
        &&& forall|len: nat|
            2 <= len <= MAX_TILES && len <= self.height ==> #[trigger] has_seed(
                shells,
                Direction::Down,
                len,
            )
        &&& forall|len: nat|
            2 <= len <= MAX_TILES && len <= self.width ==> #[trigger] has_seed(
                shells,
                Direction::Right,
                len,
            )
    }

    /// The line along which a slot at `(row, col)` runs.
    pub open spec fn line_through(self, direction: Direction, row: int, col: int) -> Seq<char> {
        match direction {
            Direction::Right => self.row(row),
            Direction::Down => self.col(col),
        }
    }

    /// A slot that takes in `len` empty squares opens at `(row, col)`: the
    /// line goes on for more than `len` squares, the first two squares are
    /// not both filled, the square before the first is empty or off the
    /// board, and the pattern has an empty square and a letter.
    pub open spec fn slot_opens(self, direction: Direction, len: nat, row: int, col: int) -> bool {
        let line = self.line_through(direction, row, col);
        let start = along(direction, row, col);
        &&& start + len < line.len()
        &&& (line[start] == EMPTY || line[start + 1] == EMPTY)
        &&& (start == 0 || line[start - 1] == EMPTY)
        &&& self.slot_at(direction, len, row, col).crosses_letters()
    }

    /// The slot at `(row, col)` that takes in `len` empty squares.
    pub open spec fn slot_at(
        self,
        direction: Direction,
        len: nat,
        row: int,
        col: int,
    ) -> ShellView {
        ShellView {
            row: row as nat,
            col: col as nat,
            direction,
            text: slot_pattern(
                self.line_through(direction, row, col),
                len,
                along(direction, row, col),
            ),
        }
    }

    /// The slot at `(row, col)` where one opens there, and nothing else.
    pub open spec fn slot(self, direction: Direction, len: nat, row: int, col: int) -> Seq<
        ShellView,
    > {
        if self.slot_opens(direction, len, row, col) {
            seq![self.slot_at(direction, len, row, col)]
        } else {
            Seq::empty()
        }
    }

    /// `slot` for a fixed row, as a function of the column.
    pub open spec fn slot_in_row(self, direction: Direction, len: nat, row: int) -> spec_fn(
        int,
    ) -> Seq<ShellView> {
        |col: int| self.slot(direction, len, row, col)
    }

    /// The slots that open in one row, from the first column to the last.
    pub open spec fn row_slots(self, direction: Direction, len: nat, row: int) -> Seq<ShellView> {
        concat(self.width, self.slot_in_row(direction, len, row))
    }

    /// `row_slots`, as a function of the row.
    pub open spec fn slots_by_row(self, direction: Direction, len: nat) -> spec_fn(int) -> Seq<
        ShellView,
    > {
        |row: int| self.row_slots(direction, len, row)
    }

    /// The slots that take in `len` empty squares, row by row.
    pub open spec fn length_slots(self, direction: Direction, len: nat) -> Seq<ShellView> {
        concat(self.height, self.slots_by_row(direction, len))
    }

    /// `length_slots`, as a function of the length less 1.
    pub open spec fn slots_by_length(self, direction: Direction) -> spec_fn(int) -> Seq<
        ShellView,
    > {
        |k: int| self.length_slots(direction, (k + 1) as nat)
    }

    /// The slots in one direction, by growing number of empty squares from
    /// 1 to `MAX_TILES`.
    pub open spec fn direction_slots(self, direction: Direction) -> Seq<ShellView> {
        concat(MAX_TILES as nat, self.slots_by_length(direction))
    }

    /// The slots of a board that holds letters: those that run right, then
    /// those that run down.
    pub open spec fn open_slots(self) -> Seq<ShellView> {
        self.direction_slots(Direction::Right) + self.direction_slots(Direction::Down)
    }

    /// The slots of the board.
    pub open spec fn shells(self) -> Seq<ShellView> {
        if self.is_empty() {
            self.initial_shells()
        } else {
            self.open_slots()
        }
    }

    /// The slot lies on the board and shows what the board holds: each
    /// square of its pattern is the square of the board under it.
    pub open spec fn shows(self, shell: ShellView) -> bool {
        &&& self.holds(shell)
        &&& forall|i: int|
            0 <= i < shell.text.len() ==> shell.text[i] == match shell.direction {
                Direction::Right => self.cells[shell.row as int][shell.col + i],
                Direction::Down => self.cells[shell.row + i][shell.col as int],
            }
    }

    /// The slot is anchored where a word can start and shows what the
    /// board holds.
    pub open spec fn seats(self, shell: ShellView) -> bool {
        self.anchors(shell) && self.shows(shell)
    }

    /// The slot is anchored on a square of the board that has no letter
    /// before it: the square before its start is empty or off the board.
    pub open spec fn anchors(self, shell: ShellView) -> bool {
        &&& shell.row < self.height
        &&& shell.col < self.width
        &&& match shell.direction {
            Direction::Right => shell.col == 0 || self.cells[shell.row as int][shell.col - 1]
                == EMPTY,
            Direction::Down => shell.row == 0 || self.cells[shell.row - 1][shell.col as int]
                == EMPTY,
        }
    }
}

/// How far along its line the square `(row, col)` stands.
pub open spec fn along(direction: Direction, row: int, col: int) -> int {
    match direction {
        Direction::Right => col,
        Direction::Down => row,
    }
}

/// A run of `len` squares that starts `offset` squares before `mid` lies
/// within a line of `span` squares.
pub open spec fn reaches(mid: int, span: int, len: int, offset: int) -> bool {
    mid >= offset && mid - offset + len <= span
}

/// Among `shells` is one that runs in `direction` over `len` squares.
pub open spec fn has_seed(shells: Seq<ShellView>, direction: Direction, len: nat) -> bool {
    exists|i: int|
        0 <= i < shells.len() && (#[trigger] shells[i]).direction == direction
            && shells[i].text.len() == len
}

/// A slot that is among `shells` is still there when one more is added.
proof fn lemma_has_seed_push(
    shells: Seq<ShellView>,
    added: ShellView,
    direction: Direction,
    len: nat,
)
    ensures
        has_seed(shells, direction, len) ==> has_seed(shells.push(added), direction, len),
        added.direction == direction && added.text.len() == len ==> has_seed(
            shells.push(added),
            direction,
            len,
        ),
{
    let grown = shells.push(added);
    if has_seed(shells, direction, len) {
        let i = choose|i: int|
            0 <= i < shells.len() && (#[trigger] shells[i]).direction == direction
                && shells[i].text.len() == len;
        assert(grown[i] == shells[i]);
    }
    if added.direction == direction && added.text.len() == len {
        assert(grown[shells.len() as int] == added);
    }
}

/// A pattern of `n` empty squares.
fn blank_pattern(n: usize) -> (pattern: String)
    ensures
        pattern@ == blanks(n as nat),
{
    let mut pattern = String::new();
    let mut i: usize = 0;
    while i < n
        invariant
            i <= n,
            pattern@ == blanks(i as nat),
        decreases n - i,
    {
        pattern.push(EMPTY);
        assert(blanks(i as nat).push(EMPTY) =~= blanks((i + 1) as nat));
        i += 1;
    }
    pattern
}

impl Board {
    /// The pattern of the slot of the line `char_vec` that starts at
    /// `starting_idx` and takes in `space_count` empty squares.
    ///
    /// The pattern goes on past these empty squares over every letter up to
    /// the next empty square or the end of the line. Where letters stand
    /// just before `starting_idx` it begins with them. A start past the end
    /// of the line counts as the end of the line.
    pub fn get_shell_from_vec(
        char_vec: Vec<char>,
        space_count: usize,
        starting_idx: usize,
    ) -> (pattern: String)
        ensures
            pattern@ == slot_pattern(char_vec@, space_count as nat, starting_idx as int),
    {
        let len = char_vec.len();
        let from = if starting_idx < len {
            starting_idx
        } else {
            len
        };
        let ghost line = char_vec@;
        let mut first = from;
        while first > 0 && char_vec[first - 1] != EMPTY
            invariant
                first <= from <= len,
                len == line.len(),
                line == char_vec@,
                run_start(line, from as int) == run_start(line, first as int),
            decreases first,
        {
            first -= 1;
        }
        let mut last = from;
        let mut left = space_count;
        while last < len && !(char_vec[last] == EMPTY && left == 0)
            invariant
                from <= last <= len,
                len == line.len(),
                line == char_vec@,
                slot_end(line, from as int, space_count as nat) == slot_end(
                    line,
                    last as int,
                    left as nat,
                ),
            decreases len - last,
        {
            if char_vec[last] == EMPTY {
                left -= 1;
            }
            last += 1;
        }
        let mut pattern = String::new();
        let mut k = first;
        while k < last
            invariant
                first <= k <= last <= len,
                len == line.len(),
                line == char_vec@,
                pattern@ == line.subrange(first as int, k as int),
            decreases last - k,
        {
            pattern.push(char_vec[k]);
            assert(line.subrange(first as int, k as int).push(line[k as int]) =~= line.subrange(
                first as int,
                k + 1,
            ));
            k += 1;
        }
        pattern
    }

    /// The slots for the first move, on an empty board: for each length
    /// from 2 to `MAX_TILES` and each start from the centre square back, the
    /// run of empty squares that runs down from there and the one that runs
    /// right, where it lies on the board.
    pub fn get_initial_shells(&self) -> (shells: Vec<Shell>)
        ensures
            shells_view(shells@) == self@.initial_shells(),
            self@.seeds_first_move(shells_view(shells@)),
            self@.is_empty() ==> forall|i: int|
                0 <= i < shells.len() ==> self@.shows(#[trigger] shells_view(shells@)[i]),
    {
        let h = self.height();
        let w = self.width();
        let mid_row: usize = h / 2;
        let mid_col: usize = w / 2;
        let mut shells: Vec<Shell> = Vec::new();
        let ghost by_length = self@.centre_slots_by_length();
        let mut s_count: usize = 2;
        proof {
            lemma_concat_step(0, by_length);
            assert(shells_view(shells@) =~= Seq::<ShellView>::empty());
        }
        while s_count <= MAX_TILES
            invariant
                2 <= s_count <= MAX_TILES + 1,
                h == self@.height,
                w == self@.width,
                self@.wf(),
                mid_row == self@.centre_row(),
                mid_col == self@.centre_col(),
                by_length == self@.centre_slots_by_length(),
                shells_view(shells@) == concat((s_count - 2) as nat, by_length),
                forall|i: int|
                    0 <= i < shells.len() ==> self@.holds(#[trigger] shells_view(shells@)[i])
                        && self@.centred(shells_view(shells@)[i]) && shells_view(shells@)[i].text
                        == blanks(shells_view(shells@)[i].text.len()),
                forall|len: nat|
                    2 <= len < s_count && len <= h ==> #[trigger] has_seed(
                        shells_view(shells@),
                        Direction::Down,
                        len,
                    ),
                forall|len: nat|
                    2 <= len < s_count && len <= w ==> #[trigger] has_seed(
                        shells_view(shells@),
                        Direction::Right,
                        len,
                    ),
            decreases MAX_TILES + 1 - s_count,
        {
            let ghost done = shells_view(shells@);
            let ghost at = self@.centre_slots_at(s_count as nat);
            let mut offset: usize = 0;
            proof {
                lemma_concat_step(0, at);
            }
            while offset < s_count
                invariant
                    2 <= s_count <= MAX_TILES,
                    offset <= s_count,
                    h == self@.height,
                    w == self@.width,
                    self@.wf(),
                    mid_row == self@.centre_row(),
                    mid_col == self@.centre_col(),
                    at == self@.centre_slots_at(s_count as nat),
                    shells_view(shells@) == done + concat(offset as nat, at),
                    forall|i: int|
                        0 <= i < shells.len() ==> self@.holds(#[trigger] shells_view(shells@)[i])
                            && self@.centred(shells_view(shells@)[i]) && shells_view(
                            shells@,
                        )[i].text == blanks(shells_view(shells@)[i].text.len()),
                    forall|len: nat|
                        2 <= len < s_count && len <= h ==> #[trigger] has_seed(
                            shells_view(shells@),
                            Direction::Down,
                            len,
                        ),
                    forall|len: nat|
                        2 <= len < s_count && len <= w ==> #[trigger] has_seed(
                            shells_view(shells@),
                            Direction::Right,
                            len,
                        ),
                    forall|o: int|
                        0 <= o < offset && #[trigger] reaches(
                            mid_row as int,
                            h as int,
                            s_count as int,
                            o,
                        ) ==> has_seed(shells_view(shells@), Direction::Down, s_count as nat),
                    forall|o: int|
                        0 <= o < offset && #[trigger] reaches(
                            mid_col as int,
                            w as int,
                            s_count as int,
                            o,
                        ) ==> has_seed(shells_view(shells@), Direction::Right, s_count as nat),
                decreases s_count - offset,
            {
                proof {
                    lemma_concat_step(offset as nat, at);
                }
                if mid_row >= offset && mid_row - offset + s_count <= h {
                    let ghost before = shells_view(shells@);
                    let dshell = Shell::new(
                        mid_row - offset,
                        mid_col,
                        Direction::Down,
                        blank_pattern(s_count),
                    );
                    proof {
                        assert forall|len: nat, direction: Direction|
                            has_seed(before, direction, len) implies #[trigger] has_seed(
                            before.push(dshell@),
                            direction,
                            len,
                        ) by {
                            lemma_has_seed_push(before, dshell@, direction, len);
                        }
                        lemma_has_seed_push(before, dshell@, Direction::Down, s_count as nat);
                    }
                    shells.push(dshell);
                    assert(shells_view(shells@) =~= before.push(dshell@));
                }
                if mid_col >= offset && mid_col - offset + s_count <= w {
                    let ghost before = shells_view(shells@);
                    let rshell = Shell::new(
                        mid_row,
                        mid_col - offset,
                        Direction::Right,
                        blank_pattern(s_count),
                    );
                    proof {
                        assert forall|len: nat, direction: Direction|
                            has_seed(before, direction, len) implies #[trigger] has_seed(
                            before.push(rshell@),
                            direction,
                            len,
                        ) by {
                            lemma_has_seed_push(before, rshell@, direction, len);
                        }
                        lemma_has_seed_push(before, rshell@, Direction::Right, s_count as nat);
                    }
                    shells.push(rshell);
                    assert(shells_view(shells@) =~= before.push(rshell@));
                }
                assert(shells_view(shells@) =~= done + (concat(offset as nat, at)
                    + self@.centre_slots(s_count as nat, offset as int)));
                offset += 1;
            }
            proof {
                lemma_concat_step((s_count - 2) as nat, by_length);
                if s_count <= h {
                    let o: int = if mid_row + s_count <= h {
                        0
                    } else {
                        mid_row + s_count - h
                    };
                    assert(0 <= o < s_count);
                    assert(reaches(mid_row as int, h as int, s_count as int, o));
                }
                if s_count <= w {
                    let o: int = if mid_col + s_count <= w {
                        0
                    } else {
                        mid_col + s_count - w
                    };
                    assert(0 <= o < s_count);
                    assert(reaches(mid_col as int, w as int, s_count as int, o));
                }
            }
            s_count += 1;
        }
        proof {
            if self@.is_empty() {
                assert forall|i: int| 0 <= i < shells.len() implies self@.shows(
                    #[trigger] shells_view(shells@)[i],
                ) by {
                    let shell = shells_view(shells@)[i];
                    assert(self@.holds(shell));
                    assert(shell.text == blanks(shell.text.len()));
                }
            }
        }
        shells
    }

    /// Adds to `shells` the slot at `(row, col)` that takes in `len` empty
    /// squares, where one opens there.
    fn scan_square(
        &self,
        direction: Direction,
        len: usize,
        row: usize,
        col: usize,
        shells: &mut Vec<Shell>,
    )
        requires
            1 <= len <= MAX_TILES,
            row < self@.height,
            col < self@.width,
            forall|i: int|
                0 <= i < old(shells).len() ==> self@.seats(#[trigger] shells_view(old(shells)@)[i]),
        ensures
            shells_view(final(shells)@) == shells_view(old(shells)@) + self@.slot(
                direction,
                len as nat,
                row as int,
                col as int,
            ),
            forall|i: int|
                0 <= i < final(shells).len() ==> self@.seats(
                    #[trigger] shells_view(final(shells)@)[i],
                ),
    {
        let ghost before = shells_view(shells@);
        let (char_vec, starting_idx) = match direction {
            Direction::Right => (self.get_row(row), col),
            Direction::Down => (self.get_col(col), row),
        };
        let ghost line = char_vec@;
        assert(line == self@.line_through(direction, row as int, col as int));
        assert(starting_idx == along(direction, row as int, col as int));
        assert(line.len() == match direction {
            Direction::Right => self@.width,
            Direction::Down => self@.height,
        });
        assert(starting_idx > 0 ==> line[starting_idx - 1] == match direction {
            Direction::Right => self@.cells[row as int][col - 1],
            Direction::Down => self@.cells[row - 1][col as int],
        });
        let room = len < char_vec.len() - starting_idx;
        if !room || (char_vec[starting_idx] != EMPTY && char_vec[starting_idx + 1] != EMPTY) {
            assert(shells_view(shells@) =~= before + Seq::<ShellView>::empty());
            return ;
        }
        if starting_idx != 0 && char_vec[starting_idx - 1] != EMPTY {
            assert(shells_view(shells@) =~= before + Seq::<ShellView>::empty());
            return ;
        }
        let shell_str = Board::get_shell_from_vec(char_vec, len, starting_idx);
        let new_shell = Shell::new(row, col, direction, shell_str);
        assert(new_shell@ == self@.slot_at(direction, len as nat, row as int, col as int));
        proof {
            lemma_slot_bounds(line, len as nat, starting_idx as int);
            assert(self@.shows(new_shell@));
        }
        if new_shell.letters().len() != 0 && new_shell.spaces() != 0 {
            shells.push(new_shell);
            assert(shells_view(shells@) =~= before + seq![
                self@.slot_at(direction, len as nat, row as int, col as int),
            ]);
        } else {
            assert(shells_view(shells@) =~= before + Seq::<ShellView>::empty());
        }
    }

    /// Adds to `shells` the slots that take in `len` empty squares, row by
    /// row and in each row from the first column to the last.
    fn scan_length(&self, direction: Direction, len: usize, shells: &mut Vec<Shell>)
        requires
            1 <= len <= MAX_TILES,
            forall|i: int|
                0 <= i < old(shells).len() ==> self@.seats(#[trigger] shells_view(old(shells)@)[i]),
        ensures
            shells_view(final(shells)@) == shells_view(old(shells)@) + self@.length_slots(
                direction,
                len as nat,
            ),
            forall|i: int|
                0 <= i < final(shells).len() ==> self@.seats(
                    #[trigger] shells_view(final(shells)@)[i],
                ),
    {
        let h = self.height();
        let w = self.width();
        let ghost start = shells_view(shells@);
        let ghost by_row = self@.slots_by_row(direction, len as nat);
        let mut row: usize = 0;
        proof {
            lemma_concat_step(0, by_row);
            assert(start + Seq::<ShellView>::empty() =~= start);
        }
        while row < h
            invariant
                row <= h,
                h == self@.height,
                w == self@.width,
                1 <= len <= MAX_TILES,
                by_row == self@.slots_by_row(direction, len as nat),
                shells_view(shells@) == start + concat(row as nat, by_row),
                forall|i: int|
                    0 <= i < shells.len() ==> self@.seats(#[trigger] shells_view(shells@)[i]),
            decreases h - row,
        {
            let ghost done = shells_view(shells@);
            let ghost by_col = self@.slot_in_row(direction, len as nat, row as int);
            let mut col: usize = 0;
            proof {
                lemma_concat_step(0, by_col);
                assert(done + Seq::<ShellView>::empty() =~= done);
            }
            while col < w
                invariant
                    col <= w,
                    row < h,
                    h == self@.height,
                    w == self@.width,
                    1 <= len <= MAX_TILES,
                    by_col == self@.slot_in_row(direction, len as nat, row as int),
                    shells_view(shells@) == done + concat(col as nat, by_col),
                    forall|i: int|
                        0 <= i < shells.len() ==> self@.seats(#[trigger] shells_view(shells@)[i]),
                decreases w - col,
            {
                let ghost so_far = concat(col as nat, by_col);
                self.scan_square(direction, len, row, col, shells);
                proof {
                    lemma_concat_step(col as nat, by_col);
                    assert((done + so_far) + by_col(col as int) =~= done + (so_far + by_col(
                        col as int,
                    )));
                }
                col += 1;
            }
            proof {
                lemma_concat_step(row as nat, by_row);
                assert((start + concat(row as nat, by_row)) + by_row(row as int) =~= start + (
                concat(row as nat, by_row) + by_row(row as int)));
            }
            row += 1;
        }
    }

    /// Adds to `shells` the slots that run in `direction`, by growing number
    /// of empty squares from 1 to `MAX_TILES`.
    fn scan_direction(&self, direction: Direction, shells: &mut Vec<Shell>)
        requires
            forall|i: int|
                0 <= i < old(shells).len() ==> self@.seats(#[trigger] shells_view(old(shells)@)[i]),
        ensures
            shells_view(final(shells)@) == shells_view(old(shells)@) + self@.direction_slots(
                direction,
            ),
            forall|i: int|
                0 <= i < final(shells).len() ==> self@.seats(
                    #[trigger] shells_view(final(shells)@)[i],
                ),
    {
        let ghost start = shells_view(shells@);
        let ghost by_length = self@.slots_by_length(direction);
        let mut len: usize = 1;
        proof {
            lemma_concat_step(0, by_length);
            assert(start + Seq::<ShellView>::empty() =~= start);
        }
        while len <= MAX_TILES
            invariant
                1 <= len <= MAX_TILES + 1,
                by_length == self@.slots_by_length(direction),
                shells_view(shells@) == start + concat((len - 1) as nat, by_length),
                forall|i: int|
                    0 <= i < shells.len() ==> self@.seats(#[trigger] shells_view(shells@)[i]),
            decreases MAX_TILES + 1 - len,
        {
            let ghost so_far = concat((len - 1) as nat, by_length);
            self.scan_length(direction, len, shells);
            proof {
                lemma_concat_step((len - 1) as nat, by_length);
                assert((start + so_far) + by_length(len - 1) =~= start + (so_far + by_length(
                    len - 1,
                )));
            }
            len += 1;
        }
    }

    /// The slots of the board in which a word could be laid.
    ///
    /// On an empty board these are the slots for the first move. On a board
    /// that holds letters they are, for each direction, each number of empty
    /// squares from 1 to `MAX_TILES` and each square, the slot that opens
    /// there; each has no letter just before it. In both cases each slot
    /// lies on the board, and its pattern shows the squares under it.
    pub fn find_shells(&self) -> (shells: Vec<Shell>)
        ensures
            shells_view(shells@) == self@.shells(),
            self@.is_empty() ==> self@.seeds_first_move(shells_view(shells@)),
            !self@.is_empty() ==> forall|i: int|
                0 <= i < shells.len() ==> self@.anchors(#[trigger] shells_view(shells@)[i]),
            forall|i: int|
                0 <= i < shells.len() ==> self@.shows(#[trigger] shells_view(shells@)[i]),
    {
        if self.is_empty() {
            return self.get_initial_shells();
        }
        let mut shells: Vec<Shell> = Vec::new();
        assert(shells_view(shells@) =~= Seq::<ShellView>::empty());
        self.scan_direction(Direction::Right, &mut shells);
        self.scan_direction(Direction::Down, &mut shells);
        assert(shells_view(shells@) =~= self@.open_slots());
        shells
    }
}

} // verus!
