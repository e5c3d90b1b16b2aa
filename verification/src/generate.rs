//! Building the candidate moves: the words that the rack and a slot's
//! letters can spell and that fit the slot's pattern.

use crate::board::{Board, BoardView};
use crate::dictionary::{index_keyed, AnagramIndex};
use crate::moves::{is_letter, matches_pattern, Move, MoveView, Shell, ShellView};
use crate::seqs::{concat, lemma_concat_step, lemma_filter_nothing, lemma_filter_step};
use crate::shells::shells_view;
use crate::text::{
    anagram_key, chars_of, lemma_anagram_key_same_letters, sorted_key, words_view, EMPTY,
};
use itertools::Itertools;
use vstd::prelude::*;
use vstd::seq_lib::lemma_multiset_commutative;

verus! {

/// The selections of `size` tiles out of `tiles` that
/// `Itertools::combinations` yields, in the order in which it yields them.
pub uninterp spec fn rack_combinations(tiles: Seq<char>, size: nat) -> Seq<Seq<char>>;

/// The letters of each of a sequence of selections.
pub open spec fn letters_view(combos: Seq<Vec<char>>) -> Seq<Seq<char>> {
    combos.map_values(|combo: Vec<char>| combo@)
}

/// The views of a sequence of moves.
pub open spec fn moves_view(moves: Seq<Move>) -> Seq<MoveView> {
    moves.map_values(|mv: Move| mv@)
}

/// The predicate that holds of the words that can be laid over `pattern`.
pub open spec fn fits_pattern(pattern: Seq<char>) -> spec_fn(Seq<char>) -> bool {
    |word: Seq<char>| matches_pattern(word, pattern)
}

impl ShellView {
    /// The move lies in this slot: it has the slot's anchor and direction,
    /// its mask is the slot's pattern, and its word fits that mask.
    pub open spec fn hosts(self, mv: MoveView) -> bool {
        &&& mv.row == self.row
        &&& mv.col == self.col
        &&& mv.direction == self.direction
        &&& mv.mask == self.text
        &&& mv.well_formed()
    }

    /// The word of the move is made of exactly the tiles `combo` and the
    /// letters of this slot.
    pub open spec fn spells(self, mv: MoveView, combo: Seq<char>) -> bool {
        mv.word.to_multiset() == combo.to_multiset().add(self.fixed_letters().to_multiset())
    }

    /// The word of the move is made of exactly the tiles of one of the
    /// selections `combos` and the letters of this slot.
    pub open spec fn spells_with_one(self, mv: MoveView, combos: Seq<Seq<char>>) -> bool {
        exists|c: int| 0 <= c < combos.len() && self.spells(mv, #[trigger] combos[c])
    }

    /// The function that makes of a word the move that lays it in this
    /// slot.
    pub open spec fn lay(self) -> spec_fn(Seq<char>) -> MoveView {
        |word: Seq<char>| self.with_word(word)
    }

    /// The moves in this slot that one selection of tiles allows: the words
    /// of the dictionary made of exactly the selected tiles and the slot's
    /// own letters that fit the slot's pattern, in the order of their
    /// bucket.
    pub open spec fn combo_moves(
        self,
        combo: Seq<char>,
        index: Map<Seq<char>, Seq<Seq<char>>>,
    ) -> Seq<MoveView> {
        let key = anagram_key(combo + self.fixed_letters());
        if index.contains_key(key) {
            index[key].filter(fits_pattern(self.text)).map_values(self.lay())
        } else {
            Seq::empty()
        }
    }

    /// `combo_moves`, as a function of the selection's place in `combos`.
    pub open spec fn moves_by_combo(
        self,
        combos: Seq<Seq<char>>,
        index: Map<Seq<char>, Seq<Seq<char>>>,
    ) -> spec_fn(int) -> Seq<MoveView> {
        |i: int| self.combo_moves(combos[i], index)
    }

    /// The moves in this slot that the selections `combos` allow, selection
    /// after selection.
    pub open spec fn moves_over(
        self,
        combos: Seq<Seq<char>>,
        index: Map<Seq<char>, Seq<Seq<char>>>,
    ) -> Seq<MoveView> {
        concat(combos.len(), self.moves_by_combo(combos, index))
    }

    /// The moves in this slot that the rack `tiles` allows: those of each
    /// selection of as many tiles as the slot has empty squares, and none
    /// where the slot has more empty squares than the rack has tiles.
    pub open spec fn rack_moves(
        self,
        tiles: Seq<char>,
        index: Map<Seq<char>, Seq<Seq<char>>>,
    ) -> Seq<MoveView> {
        if self.blank_count() > tiles.len() {
            Seq::empty()
        } else {
            self.moves_over(rack_combinations(tiles, self.blank_count()), index)
        }
    }
}

/// `rack_moves`, as a function of the slot's place in `shells`.
pub open spec fn moves_by_shell(
    shells: Seq<ShellView>,
    tiles: Seq<char>,
    index: Map<Seq<char>, Seq<Seq<char>>>,
) -> spec_fn(int) -> Seq<MoveView> {
    |i: int| shells[i].rack_moves(tiles, index)
}

impl MoveView {
    /// The move can be laid from the rack `tiles`: its word holds no letter
    /// more often than the rack and the letters of its mask together.
    pub open spec fn draws_on(self, tiles: Seq<char>) -> bool {
        self.word.to_multiset().subset_of(
            tiles.to_multiset().add(self.mask.filter(is_letter()).to_multiset()),
        )
    }
}

impl BoardView {
    /// The move is read off the board: it is well formed, its word fits on
    /// the board, and its mask shows the squares under it, with `'.'` where
    /// the square is empty and the square's letter where it is filled.
    pub open spec fn reads(self, mv: MoveView) -> bool {
        &&& mv.well_formed()
        &&& self.fits(mv)
        &&& forall|i: int|
            0 <= i < mv.mask.len() ==> mv.mask[i] == self.cells[mv.cell_row(i)][mv.cell_col(i)]
    }

    /// The candidate moves on this board for the rack `tiles`: those of
    /// each slot of the board, slot after slot.
    pub open spec fn generated_moves(
        self,
        tiles: Seq<char>,
        index: Map<Seq<char>, Seq<Seq<char>>>,
    ) -> Seq<MoveView> {
        concat(self.shells().len(), moves_by_shell(self.shells(), tiles, index))
    }
}

/// A move in a slot that shows the board is read off the board.
pub proof fn lemma_slot_move_reads_board(board: BoardView, shell: ShellView, mv: MoveView)
    requires
        board.shows(shell),
        shell.hosts(mv),
    ensures
        board.reads(mv),
{
}

/// A move in a slot whose word is made of the slot's letters and of tiles
/// of the rack can be laid from the rack.
pub proof fn lemma_slot_move_draws_on_rack(
    shell: ShellView,
    mv: MoveView,
    combo: Seq<char>,
    tiles: Seq<char>,
)
    requires
        shell.hosts(mv),
        shell.spells(mv, combo),
        combo.to_multiset().subset_of(tiles.to_multiset()),
    ensures
        mv.draws_on(tiles),
{
}

/// `Itertools::combinations` on the tiles of the rack, collected: the
/// selections of `size` tiles in the order in which the iterator yields
/// them. Which selections these are is left to `rack_combinations`; each
/// takes its tiles from different places of the rack, and so holds no
/// letter more often than the rack does.
#[verifier::external_body]
fn combinations_of(tiles: &Vec<char>, size: usize) -> (combos: Vec<Vec<char>>)
    ensures
        letters_view(combos@) == rack_combinations(tiles@, size as nat),
        forall|i: int|
            0 <= i < combos.len() ==> (#[trigger] combos[i])@.to_multiset().subset_of(
                tiles@.to_multiset(),
            ),
{
    tiles.iter().copied().combinations(size).collect()
}

/// Whether `word` can be laid over `pattern`.
fn fits(word: &Vec<char>, pattern: &Vec<char>) -> (ok: bool)
    ensures
        ok == matches_pattern(word@, pattern@),
{
    if word.len() != pattern.len() {
        return false;
    }
    let mut i: usize = 0;
    while i < pattern.len()
        invariant
            i <= pattern.len(),
            word.len() == pattern.len(),
            forall|k: int| 0 <= k < i && pattern@[k] != EMPTY ==> word@[k] == pattern@[k],
        decreases pattern.len() - i,
    {
        if pattern[i] != EMPTY && word[i] != pattern[i] {
            return false;
        }
        i += 1;
    }
    true
}

impl Shell {
    /// Adds to `moves` the moves in this slot that the selection `combo`
    /// allows.
    fn add_combo_moves(
        &self,
        combo: &Vec<char>,
        letters_word_map: &AnagramIndex,
        moves: &mut Vec<Move>,
    )
        ensures
            moves_view(final(moves)@) == moves_view(old(moves)@) + self@.combo_moves(
                combo@,
                letters_word_map@,
            ),
            forall|i: int|
                old(moves).len() <= i < final(moves).len() ==> self@.hosts(
                    #[trigger] moves_view(final(moves)@)[i],
                ) && self@.spells(moves_view(final(moves)@)[i], combo@),
    {
        let ghost start = moves_view(moves@);
        let pattern = chars_of(self.text.as_str());
        let mut letters: Vec<char> = Vec::new();
        let mut k: usize = 0;
        while k < combo.len()
            invariant
                k <= combo.len(),
                letters@ == combo@.take(k as int),
            decreases combo.len() - k,
        {
            letters.push(combo[k]);
            k += 1;
        }
        assert(combo@.take(k as int) == combo@);
        let mut fixed = self.letters();
        letters.append(&mut fixed);
        assert(letters@ == combo@ + self@.fixed_letters());
        let key = sorted_key(&letters);
        let words = match letters_word_map.lookup_exact(key.as_str()) {
            Some(words) => words,
            None => {
                assert(moves_view(moves@) =~= start + Seq::<MoveView>::empty());
                return ;
            },
        };
        let ghost bucket = words_view(words@);
        let ghost fitting = fits_pattern(self@.text);
        let mut j: usize = 0;
        proof {
            lemma_filter_nothing(bucket, fitting);
            assert(start + bucket.take(0).filter(fitting).map_values(self@.lay()) =~= start);
        }
        while j < words.len()
            invariant
                j <= words.len(),
                bucket == words_view(words@),
                fitting == fits_pattern(self@.text),
                pattern@ == self@.text,
                start.len() == old(moves).len(),
                moves_view(moves@) == start + bucket.take(j as int).filter(fitting).map_values(
                    self@.lay(),
                ),
                key@ == anagram_key(combo@ + self@.fixed_letters()),
                letters_word_map@.contains_key(key@),
                bucket == letters_word_map@[key@],
                index_keyed(letters_word_map@),
                forall|i: int|
                    start.len() <= i < moves.len() ==> self@.hosts(
                        #[trigger] moves_view(moves@)[i],
                    ) && self@.spells(moves_view(moves@)[i], combo@),
            decreases words.len() - j,
        {
            let word = &words[j];
            let spelled = chars_of(word.as_str());
            let ghost before = moves_view(moves@);
            let ghost kept = bucket.take(j as int).filter(fitting);
            proof {
                lemma_filter_step(bucket, fitting, j as int);
                assert(bucket[j as int] == word@);
            }
            if fits(&spelled, &pattern) {
                let mv = Move::new(
                    self.row,
                    self.col,
                    self.direction,
                    word.clone(),
                    self.text.clone(),
                );
                assert(mv@ == self@.with_word(word@));
                proof {
                    assert(anagram_key(letters_word_map@[key@][j as int]) == key@);
                    lemma_anagram_key_same_letters(word@, combo@ + self@.fixed_letters());
                    lemma_multiset_commutative(combo@, self@.fixed_letters());
                    assert(self@.spells(mv@, combo@));
                }
                moves.push(mv);
                assert(moves_view(moves@) =~= before.push(self@.with_word(word@)));
                assert(kept.push(word@).map_values(self@.lay()) =~= kept.map_values(
                    self@.lay(),
                ).push(self@.with_word(word@)));
                assert(moves_view(moves@) =~= start + kept.push(word@).map_values(self@.lay()));
            }
            j += 1;
        }
        assert(bucket.take(j as int) == bucket);
    }

    /// Adds to `moves` the moves in this slot that the given selections of
    /// tiles allow.
    fn add_moves_for_combos(
        &self,
        combos: &Vec<Vec<char>>,
        letters_word_map: &AnagramIndex,
        moves: &mut Vec<Move>,
    )
        ensures
            moves_view(final(moves)@) == moves_view(old(moves)@) + self@.moves_over(
                letters_view(combos@),
                letters_word_map@,
            ),
            forall|i: int|
                old(moves).len() <= i < final(moves).len() ==> self@.hosts(
                    #[trigger] moves_view(final(moves)@)[i],
                ) && self@.spells_with_one(moves_view(final(moves)@)[i], letters_view(combos@)),
    {
        let ghost start = moves_view(moves@);
        let ghost by_combo = self@.moves_by_combo(letters_view(combos@), letters_word_map@);
        let mut i: usize = 0;
        proof {
            lemma_concat_step(0, by_combo);
            assert(start + Seq::<MoveView>::empty() =~= start);
        }
        while i < combos.len()
            invariant
                i <= combos.len(),
                by_combo == self@.moves_by_combo(letters_view(combos@), letters_word_map@),
                start.len() == old(moves).len(),
                moves_view(moves@) == start + concat(i as nat, by_combo),
                forall|k: int|
                    start.len() <= k < moves.len() ==> self@.hosts(
                        #[trigger] moves_view(moves@)[k],
                    ) && self@.spells_with_one(moves_view(moves@)[k], letters_view(combos@)),
            decreases combos.len() - i,
        {
            let ghost so_far = concat(i as nat, by_combo);
            let ghost before = moves_view(moves@);
            self.add_combo_moves(&combos[i], letters_word_map, moves);
            proof {
                lemma_concat_step(i as nat, by_combo);
                assert(letters_view(combos@)[i as int] == combos@[i as int]@);
                assert((start + so_far) + by_combo(i as int) =~= start + (so_far + by_combo(
                    i as int,
                )));
                assert forall|k: int| start.len() <= k < moves.len() implies self@.hosts(
                    #[trigger] moves_view(moves@)[k],
                ) && self@.spells_with_one(moves_view(moves@)[k], letters_view(combos@)) by {
                    if k < before.len() {
                        assert(moves_view(moves@)[k] == before[k]);
                    } else {
                        assert(self@.spells(
                            moves_view(moves@)[k],
                            letters_view(combos@)[i as int],
                        ));
                    }
                }
            }
            i += 1;
        }
    }

    /// The moves in this slot that the given selections of tiles allow,
    /// selection after selection. Each lies in this slot: its mask is the
    /// slot's pattern, and its word fits that mask. The word of each is made
    /// of exactly the tiles of one of the selections and the letters of the
    /// slot.
    pub fn moves_for_combos(
        &self,
        combos: &Vec<Vec<char>>,
        letters_word_map: &AnagramIndex,
    ) -> (moves: Vec<Move>)
        ensures
            moves_view(moves@) == self@.moves_over(letters_view(combos@), letters_word_map@),
            forall|i: int| 0 <= i < moves.len() ==> self@.hosts(#[trigger] moves_view(moves@)[i]),
            forall|i: int|
                0 <= i < moves.len() ==> self@.spells_with_one(
                    #[trigger] moves_view(moves@)[i],
                    letters_view(combos@),
                ),
    {
        let mut moves: Vec<Move> = Vec::new();
        assert(moves_view(moves@) =~= Seq::<MoveView>::empty());
        self.add_moves_for_combos(combos, letters_word_map, &mut moves);
        assert(Seq::<MoveView>::empty() + self@.moves_over(
            letters_view(combos@),
            letters_word_map@,
        ) =~= self@.moves_over(letters_view(combos@), letters_word_map@));
        moves
    }
}

impl Board {
    /// The candidate moves on this board for the rack `tiles`.
    ///
    /// For each slot of the board and each selection of as many tiles as
    /// the slot has empty squares, these are the words of the dictionary
    /// made of exactly the selected tiles and the slot's own letters that
    /// fit the slot's pattern. A slot with more empty squares than the rack
    /// has tiles gives none. Each move is well formed: its mask is the
    /// slot's pattern, and its word fits that mask. Each is read off the
    /// board: it fits on the board, and its mask shows the squares under it.
    /// Each can be laid from the rack: its word holds no letter more often
    /// than the rack and the letters of its mask together.
    pub fn get_moves(&self, tiles: &Vec<char>, letters_word_map: &AnagramIndex) -> (moves: Vec<
        Move,
    >)
        ensures
            moves_view(moves@) == self@.generated_moves(tiles@, letters_word_map@),
            forall|i: int|
                0 <= i < moves.len() ==> (#[trigger] moves_view(moves@)[i]).well_formed(),
            forall|i: int| 0 <= i < moves.len() ==> self@.reads(#[trigger] moves_view(moves@)[i]),
            forall|i: int|
                0 <= i < moves.len() ==> (#[trigger] moves_view(moves@)[i]).draws_on(tiles@),
    {
        let shells = self.find_shells();
        let mut moves: Vec<Move> = Vec::new();
        let ghost slots = shells_view(shells@);
        let ghost by_shell = moves_by_shell(slots, tiles@, letters_word_map@);
        let mut i: usize = 0;
        proof {
            lemma_concat_step(0, by_shell);
            assert(moves_view(moves@) =~= Seq::<MoveView>::empty());
        }
        while i < shells.len()
            invariant
                i <= shells.len(),
                slots == shells_view(shells@),
                by_shell == moves_by_shell(slots, tiles@, letters_word_map@),
                moves_view(moves@) == concat(i as nat, by_shell),
                forall|k: int|
                    0 <= k < moves.len() ==> self@.reads(#[trigger] moves_view(moves@)[k]),
                forall|k: int|
                    0 <= k < moves.len() ==> (#[trigger] moves_view(moves@)[k]).draws_on(tiles@),
                forall|k: int| 0 <= k < shells.len() ==> self@.shows(#[trigger] slots[k]),
            decreases shells.len() - i,
        {
            let shell = &shells[i];
            let space_ct = shell.spaces();
            let ghost before = moves_view(moves@);
            if space_ct <= tiles.len() {
                let combos = combinations_of(tiles, space_ct);
                shell.add_moves_for_combos(&combos, letters_word_map, &mut moves);
                proof {
                    let picked = letters_view(combos@);
                    assert forall|k: int| before.len() <= k < moves.len() implies (
                    #[trigger] moves_view(moves@)[k]).draws_on(tiles@) by {
                        let mv = moves_view(moves@)[k];
                        let c = choose|c: int|
                            0 <= c < picked.len() && shell@.spells(mv, #[trigger] picked[c]);
                        assert(picked[c] == combos@[c]@);
                        lemma_slot_move_draws_on_rack(shell@, mv, picked[c], tiles@);
                    }
                }
            }
            proof {
                lemma_concat_step(i as nat, by_shell);
                assert(slots[i as int] == shell@);
                assert(moves_view(moves@) =~= before + by_shell(i as int));
                assert forall|k: int| 0 <= k < moves.len() implies self@.reads(
                    #[trigger] moves_view(moves@)[k],
                ) && moves_view(moves@)[k].draws_on(tiles@) by {
                    if k < before.len() {
                        assert(moves_view(moves@)[k] == before[k]);
                    } else {
                        lemma_slot_move_reads_board(self@, shell@, moves_view(moves@)[k]);
                    }
                }
            }
            i += 1;
        }
        moves
    }
}

} // verus!
