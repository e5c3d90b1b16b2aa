//! Letters, words and anagram keys.
//!
//! A word is a sequence of `char`s. Its anagram key is the same letters in
//! ascending order of code point, so that two words have the same key exactly
//! when one is a rearrangement of the other.

use itertools::Itertools;
use vstd::prelude::*;
use vstd::relations::{
    antisymmetric, reflexive, sorted_by, strongly_connected, total_ordering, transitive,
};
use vstd::seq_lib::lemma_sorted_unique;

verus! {

/// The marker of an empty square, and of a square still to be filled in a
/// pattern or a mask.
pub const EMPTY: char = '.';

/// The order in which the letters of an anagram key stand: by code point.
pub open spec fn letter_order() -> spec_fn(char, char) -> bool {
    |a: char, b: char| a as u32 <= b as u32
}

/// The letters of `word` in ascending order.
pub open spec fn anagram_key(word: Seq<char>) -> Seq<char> {
    word.sort_by(letter_order())
}

/// The views of a sequence of strings.
pub open spec fn words_view(words: Seq<String>) -> Seq<Seq<char>> {
    words.map_values(|w: String| w@)
}

/// Two characters with the same code point are the same character.
pub proof fn lemma_same_code_same_letter(a: char, b: char)
    requires
        a as u32 == b as u32,
    ensures
        a == b,
{
}

/// `letter_order` is a total order on `char`.
pub proof fn lemma_letter_order_total()
    ensures
        total_ordering(letter_order()),
{
    let r = letter_order();
    assert(reflexive(r));
    assert(antisymmetric(r)) by {
        assert forall|x: char, y: char| #[trigger] r(x, y) && #[trigger] r(y, x) implies x == y by {
            lemma_same_code_same_letter(x, y);
        }
    }
    assert(transitive(r));
    assert(strongly_connected(r));
}

/// The anagram key of a word is sorted and holds exactly the word's letters,
/// and it is the only sequence of which both are true.
pub proof fn lemma_anagram_key_unique(word: Seq<char>, key: Seq<char>)
    ensures
        sorted_by(anagram_key(word), letter_order()),
        anagram_key(word).to_multiset() == word.to_multiset(),
        anagram_key(word).len() == word.len(),
        sorted_by(key, letter_order()) && key.to_multiset() == word.to_multiset() ==> key
            == anagram_key(word),
{
    lemma_letter_order_total();
    word.lemma_sort_by_ensures(letter_order());
    word.to_multiset_ensures();
    anagram_key(word).to_multiset_ensures();
    if sorted_by(key, letter_order()) && key.to_multiset() == word.to_multiset() {
        lemma_sorted_unique(key, anagram_key(word), letter_order());
    }
}

/// Two words have the same anagram key exactly when they hold the same
/// letters, each as often.
pub proof fn lemma_anagram_key_same_letters(a: Seq<char>, b: Seq<char>)
    ensures
        anagram_key(a) == anagram_key(b) <==> a.to_multiset() == b.to_multiset(),
{
    lemma_anagram_key_unique(a, anagram_key(b));
    lemma_anagram_key_unique(b, anagram_key(a));
}

/// `String::push` appends one character to the end of the string.
pub assume_specification[ String::push ](s: &mut String, c: char)
    ensures
        final(s)@ == old(s)@.push(c),
;

/// `Itertools::sorted` on the letters: the result holds the same letters,
/// each as often as `letters` does, in ascending order of `char`.
#[verifier::external_body]
fn sorted_letters(letters: &Vec<char>) -> (sorted: Vec<char>)
    ensures
        sorted_by(sorted@, letter_order()),
        sorted@.to_multiset() == letters@.to_multiset(),
{
    letters.iter().copied().sorted().collect()
}

/// `Itertools::join` with an empty separator: the result is the string made
/// of the letters in their order.
#[verifier::external_body]
fn join_letters(letters: &Vec<char>) -> (joined: String)
    ensures
        joined@ == letters@,
{
    letters.iter().join("")
}

/// The characters of a string, in order.
pub fn chars_of(s: &str) -> (letters: Vec<char>)
    ensures
        letters@ == s@,
{
    let mut letters: Vec<char> = Vec::new();
    for c in it: s.chars()
        invariant
            letters@ == it.seq().take(it.index() as int),
            it.seq() == s@,
    {
        letters.push(c);
    }
    letters
}

/// The string made of the given letters.
pub(crate) fn string_of(letters: &Vec<char>) -> (s: String)
    ensures
        s@ == letters@,
{
    join_letters(letters)
}

/// The anagram key of the given letters, as a string.
pub fn sorted_key(letters: &Vec<char>) -> (key: String)
    ensures
        key@ == anagram_key(letters@),
{
    let sorted = sorted_letters(letters);
    proof {
        lemma_anagram_key_unique(letters@, sorted@);
    }
    join_letters(&sorted)
}

} // verus!
