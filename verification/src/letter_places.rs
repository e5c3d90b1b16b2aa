//! The dictionary, indexed by letter and position.
//!
//! This index maps a position and a letter to the words of the list that
//! have that letter at that position, in the order of the list.

use crate::seqs::{lemma_filter_nothing, lemma_filter_step};
use crate::text::{chars_of, lemma_same_code_same_letter, words_view};
use crate::values::code_of;
use std::collections::HashMap;
use vstd::prelude::*;

verus! {

/// A letter at a position in a word.
#[derive(Debug, Clone, Copy, PartialEq, Eq, Hash, Structural)]
pub struct LetterPlace {
    pub idx: usize,
    pub letter: char,
}

/// The predicate that holds of the words that have the letter of `place`
/// at its position.
pub open spec fn stands_at(place: LetterPlace) -> spec_fn(Seq<char>) -> bool {
    |word: Seq<char>| place.idx < word.len() && word[place.idx as int] == place.letter
}

/// The words of the list that have the letter of `place` at its position,
/// in the order of the list.
pub open spec fn words_with(words: Seq<Seq<char>>, place: LetterPlace) -> Seq<Seq<char>> {
    words.filter(stands_at(place))
}

/// The index of a word list by letter and position: each place at which a
/// word of the list has that letter is mapped to the words that do, and no
/// other place is held.
pub open spec fn letter_place_index(words: Seq<Seq<char>>) -> Map<LetterPlace, Seq<Seq<char>>> {
    Map::new(
        |place: LetterPlace| words_with(words, place).len() > 0,
        |place: LetterPlace| words_with(words, place),
    )
}

/// The key under which the bucket of `place` is kept: the position in the
/// upper bits and the letter's code point in the lower 32.
pub open spec fn place_code(place: LetterPlace) -> u128 {
    (place.idx * 0x1_0000_0000 + code_of(place.letter)) as u128
}

/// Two places with the same key are the same place.
pub proof fn lemma_place_code_injective(one: LetterPlace, other: LetterPlace)
    requires
        place_code(one) == place_code(other),
    ensures
        one == other,
{
    assert(one.idx == other.idx);
    lemma_same_code_same_letter(one.letter, other.letter);
}

/// A dictionary indexed by letter and position.
///
/// Its mathematical value maps each place that it holds to the words in
/// that place's bucket, in their order.
pub struct LetterPlaceIndex {
    buckets: HashMap<u128, Vec<String>>,
}

impl View for LetterPlaceIndex {
    type V = Map<LetterPlace, Seq<Seq<char>>>;

    closed spec fn view(&self) -> Map<LetterPlace, Seq<Seq<char>>> {
        Map::new(
            |place: LetterPlace| self.buckets@.contains_key(place_code(place)),
            |place: LetterPlace| words_view(self.buckets@[place_code(place)]@),
        )
    }
}

fn code_for(idx: usize, letter: char) -> (code: u128)
    ensures
        code == place_code(LetterPlace { idx, letter }),
{
    (idx as u128) * 0x1_0000_0000u128 + ((letter as u32) as u128)
}

/// What the bucket of `place` holds once the first `done` letters of
/// `word` are entered on top of the index of `words`.
spec fn entered(words: Seq<Seq<char>>, word: Seq<char>, done: int, place: LetterPlace) -> Seq<
    Seq<char>,
> {
    if place.idx < done && word[place.idx as int] == place.letter {
        words_with(words, place).push(word)
    } else {
        words_with(words, place)
    }
}

impl LetterPlaceIndex {
    /// The bucket of `place`: the words that have its letter at its
    /// position, if the index holds any.
    pub fn get(&self, place: &LetterPlace) -> (found: Option<&Vec<String>>)
        ensures
            match found {
                Some(bucket) => self@.contains_key(*place) && words_view(bucket@) == self@[*place],
                None => !self@.contains_key(*place),
            },
    {
        let code = code_for(place.idx, place.letter);
        self.buckets.get(&code)
    }

    /// Enters `word` in the bucket of the place `(idx, letter)`.
    fn enter(&mut self, idx: usize, letter: char, word: &String)
        ensures
            forall|place: LetterPlace|
                place_code(place) != place_code(LetterPlace { idx, letter }) ==> (
                #[trigger] final(self).buckets@.contains_key(place_code(place)) == old(
                    self,
                ).buckets@.contains_key(place_code(place)) && final(self).buckets@[place_code(
                    place,
                )] == old(self).buckets@[place_code(place)]),
            final(self).buckets@.contains_key(place_code(LetterPlace { idx, letter })),
            words_view(final(self).buckets@[place_code(LetterPlace { idx, letter })]@) == if old(
                self,
            ).buckets@.contains_key(place_code(LetterPlace { idx, letter })) {
                words_view(old(self).buckets@[place_code(LetterPlace { idx, letter })]@).push(
                    word@,
                )
            } else {
                seq![word@]
            },
    {
        let code = code_for(idx, letter);
        let mut bucket = match self.buckets.remove(&code) {
            Some(held) => held,
            None => Vec::new(),
        };
        let ghost before = words_view(bucket@);
        bucket.push(word.clone());
        assert(words_view(bucket@) =~= before.push(word@));
        self.buckets.insert(code, bucket);
        assert(self.buckets@ =~= old(self).buckets@.insert(code, self.buckets@[code]));
    }
}

/// The index of the word list `words` by letter and position.
pub fn build_letter_place_map(words: &Vec<String>) -> (index: LetterPlaceIndex)
    ensures
        index@ == letter_place_index(words_view(words@)),
{
    let mut index = LetterPlaceIndex { buckets: HashMap::new() };
    let ghost all = words_view(words@);
    let mut i: usize = 0;
    proof {
        assert forall|place: LetterPlace| words_with(all.take(0), place).len() == 0 by {
            lemma_filter_nothing(all, stands_at(place));
        }
        assert(index@ =~= letter_place_index(all.take(0)));
    }
    while i < words.len()
        invariant
            i <= words.len(),
            all == words_view(words@),
            index@ == letter_place_index(all.take(i as int)),
        decreases words.len() - i,
    {
        let word = &words[i];
        let letters = chars_of(word.as_str());
        let ghost seen = all.take(i as int);
        let mut j: usize = 0;
        proof {
            assert forall|place: LetterPlace|
                #![trigger index.buckets@.contains_key(place_code(place))]
                index.buckets@.contains_key(place_code(place)) == (entered(
                    seen,
                    word@,
                    0,
                    place,
                ).len() > 0) && (index.buckets@.contains_key(place_code(place)) ==> words_view(
                    index.buckets@[place_code(place)]@,
                ) == entered(seen, word@, 0, place)) by {
                assert(index@.contains_key(place) == letter_place_index(seen).contains_key(place));
                assert(index@.contains_key(place) ==> index@[place] == letter_place_index(
                    seen,
                )[place]);
            }
        }
        while j < letters.len()
            invariant
                j <= letters.len(),
                letters@ == word@,
                seen == all.take(i as int),
                forall|place: LetterPlace|
                    #![trigger index.buckets@.contains_key(place_code(place))]
                    index.buckets@.contains_key(place_code(place)) == (entered(
                        seen,
                        word@,
                        j as int,
                        place,
                    ).len() > 0) && (index.buckets@.contains_key(place_code(place))
                        ==> words_view(index.buckets@[place_code(place)]@) == entered(
                        seen,
                        word@,
                        j as int,
                        place,
                    )),
            decreases letters.len() - j,
        {
            let ghost held = index.buckets@;
            let ghost here = LetterPlace { idx: j, letter: letters[j as int] };
            index.enter(j, letters[j], word);
            proof {
                assert forall|place: LetterPlace|
                    #![trigger index.buckets@.contains_key(place_code(place))]
                    index.buckets@.contains_key(place_code(place)) == (entered(
                        seen,
                        word@,
                        j + 1,
                        place,
                    ).len() > 0) && (index.buckets@.contains_key(place_code(place))
                        ==> words_view(index.buckets@[place_code(place)]@) == entered(
                        seen,
                        word@,
                        j + 1,
                        place,
                    )) by {
                    assert(held.contains_key(place_code(place)) == (entered(
                        seen,
                        word@,
                        j as int,
                        place,
                    ).len() > 0));
                    if place_code(place) == place_code(here) {
                        lemma_place_code_injective(place, here);
                        if !held.contains_key(place_code(place)) {
                            assert(words_with(seen, place) =~= Seq::<Seq<char>>::empty());
                            assert(seq![word@] =~= words_with(seen, place).push(word@));
                        }
                    }
                }
            }
            j += 1;
        }
        proof {
            let grown = letter_place_index(all.take(i + 1));
            assert(all[i as int] == word@);
            assert forall|place: LetterPlace|
                #![trigger grown.dom().contains(place)]
                #![trigger index@.dom().contains(place)]
                grown.dom().contains(place) == index@.dom().contains(place) && (
                grown.dom().contains(place) ==> grown[place] == index@[place]) by {
                lemma_filter_step(all, stands_at(place), i as int);
                assert(index.buckets@.contains_key(place_code(place)) == (entered(
                    seen,
                    word@,
                    letters.len() as int,
                    place,
                ).len() > 0));
            }
            assert(index@ =~= grown);
        }
        i += 1;
    }
    assert(all.take(i as int) =~= all);
    index
}

} // verus!
