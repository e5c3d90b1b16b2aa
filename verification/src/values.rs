//! Point values of the letters, and randomly drawn configurations.

use crate::board::{DOUBLE_LETTER, DOUBLE_WORD, PLAIN, TRIPLE_LETTER, TRIPLE_WORD};
use crate::text::lemma_same_code_same_letter;
use rand::rngs::ThreadRng;
use rand::Rng;
use std::collections::HashMap;
use vstd::prelude::*;

verus! {

/// The point value of each letter that has one.
///
/// Its mathematical value is a map from letters to points.
pub struct LetterValues {
    points: HashMap<u32, usize>,
}

/// The key under which the value of `letter` is kept: its code point.
pub open spec fn code_of(letter: char) -> u32 {
    letter as u32
}

impl View for LetterValues {
    type V = Map<char, usize>;

    closed spec fn view(&self) -> Map<char, usize> {
        Map::new(
            |letter: char| self.points@.contains_key(code_of(letter)),
            |letter: char| self.points@[code_of(letter)],
        )
    }
}

impl LetterValues {
    /// A table in which no letter has a value.
    pub fn new() -> (values: LetterValues)
        ensures
            values@ == Map::<char, usize>::empty(),
    {
        let values = LetterValues { points: HashMap::new() };
        assert(values@ =~= Map::<char, usize>::empty());
        values
    }

    /// Gives `letter` the value `value`, in place of the one it had.
    pub fn insert(&mut self, letter: char, value: usize)
        ensures
            final(self)@ == old(self)@.insert(letter, value),
    {
        self.points.insert(letter as u32, value);
        proof {
            assert forall|other: char| #[trigger] code_of(other) == code_of(letter) implies other
                == letter by {
                lemma_same_code_same_letter(other, letter);
            }
            assert(self@ =~= old(self)@.insert(letter, value));
        }
    }

    /// The value of `letter`, if it has one.
    pub fn get(&self, letter: char) -> (value: Option<usize>)
        ensures
            value == if self@.contains_key(letter) {
                Some(self@[letter])
            } else {
                None::<usize>
            },
    {
        match self.points.get(&(letter as u32)) {
            Some(value) => Some(*value),
            None => None,
        }
    }
}

/// `letter` is one of the capital letters `A` to `Z`.
pub open spec fn is_capital(letter: char) -> bool {
    code_of('A') <= code_of(letter) <= code_of('Z')
}

/// `tag` is one of the five tags of which random layouts are made: every
/// multiplier tag but that of the start square.
pub open spec fn is_drawn_tag(tag: char) -> bool {
    tag == PLAIN || tag == DOUBLE_WORD || tag == TRIPLE_WORD || tag == DOUBLE_LETTER || tag
        == TRIPLE_LETTER
}

/// `rand::rngs::ThreadRng`, the handle to a thread's random number
/// generator. Nothing of what it holds is known here.
#[verifier::external_type_specification]
#[verifier::external_body]
pub struct ExThreadRng(ThreadRng);

/// `rand::thread_rng` hands out the calling thread's random number
/// generator. Nothing is claimed of it.
pub assume_specification[ rand::thread_rng ]() -> (rng: ThreadRng)
;

/// `Rng::gen_range` on the range `0..bound`: some number below `bound`,
/// which one is not said. The range must not be empty.
#[verifier::external_body]
fn random_below(rng: &mut ThreadRng, bound: usize) -> (drawn: usize)
    requires
        bound > 0,
    ensures
        drawn < bound,
{
    rng.gen_range(0..bound)
}

/// A table that gives each capital letter a randomly drawn value below 10,
/// and no other letter a value.
pub fn build_letter_values() -> (values: LetterValues)
    ensures
        forall|letter: char| #[trigger] values@.contains_key(letter) <==> is_capital(letter),
        forall|letter: char| #[trigger] values@.contains_key(letter) ==> values@[letter] < 10,
{
    let mut values = LetterValues::new();
    let mut rng = rand::thread_rng();
    let mut code: u8 = 65;
    while code <= 90
        invariant
            65 <= code <= 91,
            forall|letter: char|
                values@.contains_key(letter) <==> 65 <= code_of(letter) && code_of(letter) < code,
            forall|letter: char| values@.contains_key(letter) ==> values@[letter] < 10,
        decreases 91 - code,
    {
        let value = random_below(&mut rng, 10);
        let letter = code as char;
        values.insert(letter, value);
        proof {
            assert forall|other: char| #[trigger]
                values@.contains_key(other) <==> 65 <= code_of(other) && code_of(other) < code
                    + 1 by {
                if code_of(other) == code_of(letter) {
                    lemma_same_code_same_letter(other, letter);
                }
            }
        }
        code += 1;
    }
    values
}

/// A multiplier layout for a board of `width` by `height` squares with a
/// randomly drawn tag on each square.
pub fn build_score_string(width: usize, height: usize) -> (layout: String)
    ensures
        layout@.len() == width * height,
        forall|i: int| 0 <= i < layout@.len() ==> is_drawn_tag(#[trigger] layout@[i]),
{
    let tags: [char; 5] = [PLAIN, DOUBLE_WORD, TRIPLE_WORD, DOUBLE_LETTER, TRIPLE_LETTER];
    let mut rng = rand::thread_rng();
    let mut layout = String::new();
    let mut row: usize = 0;
    while row < height
        invariant
            row <= height,
            tags@ == seq![PLAIN, DOUBLE_WORD, TRIPLE_WORD, DOUBLE_LETTER, TRIPLE_LETTER],
            layout@.len() == width * row,
            forall|i: int| 0 <= i < layout@.len() ==> is_drawn_tag(#[trigger] layout@[i]),
        decreases height - row,
    {
        let mut col: usize = 0;
        while col < width
            invariant
                col <= width,
                row < height,
                tags@ == seq![PLAIN, DOUBLE_WORD, TRIPLE_WORD, DOUBLE_LETTER, TRIPLE_LETTER],
                layout@.len() == width * row + col,
                forall|i: int| 0 <= i < layout@.len() ==> is_drawn_tag(#[trigger] layout@[i]),
            decreases width - col,
        {
            let pick = random_below(&mut rng, 5);
            layout.push(tags[pick]);
            col += 1;
        }
        assert(width * row + width == width * (row + 1)) by (nonlinear_arith);
        row += 1;
    }
    layout
}

} // verus!
