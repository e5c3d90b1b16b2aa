//! The dictionary, indexed by anagram key.
//!
//! The index maps the sorted letters of a word to the words of the list
//! that are made of exactly these letters, in the order of the list.

use crate::seqs::{lemma_filter_nothing, lemma_filter_step};
use crate::text::{anagram_key, chars_of, sorted_key, string_of, words_view};
use vstd::hash_map::StringHashMap;
use vstd::prelude::*;

verus! {

/// The predicate that holds of the words whose anagram key is `key`.
pub open spec fn has_key(key: Seq<char>) -> spec_fn(Seq<char>) -> bool {
    |word: Seq<char>| anagram_key(word) == key
}

/// The words of the list whose anagram key is `key`, in the order of the
/// list.
pub open spec fn anagram_class(words: Seq<Seq<char>>, key: Seq<char>) -> Seq<Seq<char>> {
    words.filter(has_key(key))
}

/// The index of a word list: each anagram key that a word of the list has
/// is mapped to its anagram class, and no other key is held.
pub open spec fn anagram_index(words: Seq<Seq<char>>) -> Map<Seq<char>, Seq<Seq<char>>> {
    Map::new(
        |key: Seq<char>| anagram_class(words, key).len() > 0,
        |key: Seq<char>| anagram_class(words, key),
    )
}

/// The index holds `word`: it has a bucket for the word's anagram key, and
/// the word stands in that bucket letter for letter.
pub open spec fn index_holds(index: Map<Seq<char>, Seq<Seq<char>>>, word: Seq<char>) -> bool {
    index.contains_key(anagram_key(word)) && index[anagram_key(word)].contains(word)
}

/// The index of a word list holds exactly the words of the list.
pub proof fn lemma_index_holds_its_words(words: Seq<Seq<char>>, word: Seq<char>)
    ensures
        index_holds(anagram_index(words), word) <==> words.contains(word),
{
    let key = anagram_key(word);
    let class = anagram_class(words, key);
    if words.contains(word) {
        let i = choose|i: int| 0 <= i < words.len() && words[i] == word;
        words.lemma_filter_contains(has_key(key), i);
        assert(class.contains(word));
        let j = choose|j: int| 0 <= j < class.len() && class[j] == word;
    }
    if index_holds(anagram_index(words), word) {
        words.lemma_filter_contains_rev(has_key(key), word);
    }
}

/// Each word in a bucket of the index of a word list is a word of the list
/// and has the bucket's key as its anagram key.
pub proof fn lemma_bucket_holds_its_class(words: Seq<Seq<char>>, key: Seq<char>, i: int)
    requires
        anagram_index(words).contains_key(key),
        0 <= i < anagram_index(words)[key].len(),
    ensures
        anagram_key(anagram_index(words)[key][i]) == key,
        words.contains(anagram_index(words)[key][i]),
{
    let class = anagram_class(words, key);
    words.lemma_filter_pred(has_key(key), i);
    assert(class.contains(class[i]));
    words.lemma_filter_contains_rev(has_key(key), class[i]);
}

/// Each word in each bucket of the index has the bucket's key as its
/// anagram key.
pub open spec fn index_keyed(index: Map<Seq<char>, Seq<Seq<char>>>) -> bool {
    forall|key: Seq<char>, i: int|
        index.contains_key(key) && 0 <= i < index[key].len() ==> anagram_key(
            #[trigger] index[key][i],
        ) == key
}

/// A dictionary indexed by anagram key.
///
/// Its mathematical value maps each key that it holds to the words in that
/// key's bucket, in their order. Each word stands in the bucket of its own
/// anagram key.
pub struct AnagramIndex {
    buckets: StringHashMap<Vec<String>>,
}

/// The buckets of an index, each as the sequence of its words.
spec fn buckets_view(buckets: Map<Seq<char>, Vec<String>>) -> Map<Seq<char>, Seq<Seq<char>>> {
    Map::new(
        |key: Seq<char>| buckets.contains_key(key),
        |key: Seq<char>| words_view(buckets[key]@),
    )
}

impl View for AnagramIndex {
    type V = Map<Seq<char>, Seq<Seq<char>>>;

    closed spec fn view(&self) -> Map<Seq<char>, Seq<Seq<char>>> {
        buckets_view(self.buckets@)
    }
}

/// A copy of the given words.
fn copy_words(words: &Vec<String>) -> (copy: Vec<String>)
    ensures
        words_view(copy@) == words_view(words@),
{
    let mut copy: Vec<String> = Vec::new();
    let mut i: usize = 0;
    while i < words.len()
        invariant
            i <= words.len(),
            words_view(copy@) == words_view(words@).take(i as int),
        decreases words.len() - i,
    {
        let ghost before = words_view(copy@);
        copy.push(words[i].clone());
        assert(words_view(copy@) =~= before.push(words@[i as int]@));
        assert(words_view(words@).take(i + 1) =~= words_view(words@).take(i as int).push(
            words@[i as int]@,
        ));
        i += 1;
    }
    assert(words_view(words@).take(i as int) =~= words_view(words@));
    copy
}

impl AnagramIndex {
    #[verifier::type_invariant]
    spec fn inv(self) -> bool {
        index_keyed(self@)
    }

    /// The bucket of `key`: the words made of exactly the letters of `key`,
    /// if the index holds any.
    pub fn lookup_exact(&self, key: &str) -> (found: Option<&Vec<String>>)
        ensures
            match found {
                Some(bucket) => self@.contains_key(key@) && words_view(bucket@) == self@[key@],
                None => !self@.contains_key(key@),
            },
            index_keyed(self@),
    {
        proof {
            use_type_invariant(self);
        }
        self.buckets.get(key)
    }

    /// Whether the index holds `word`, letter for letter.
    pub fn contains_word(&self, word: &Vec<char>) -> (found: bool)
        ensures
            found == index_holds(self@, word@),
    {
        let key = sorted_key(word);
        let spelled = string_of(word);
        match self.lookup_exact(key.as_str()) {
            Some(bucket) => {
                let ghost held = words_view(bucket@);
                let mut i: usize = 0;
                while i < bucket.len()
                    invariant
                        i <= bucket.len(),
                        held == words_view(bucket@),
                        held == self@[anagram_key(word@)],
                        self@.contains_key(anagram_key(word@)),
                        spelled@ == word@,
                        forall|j: int| 0 <= j < i ==> held[j] != word@,
                    decreases bucket.len() - i,
                {
                    if bucket[i] == spelled {
                        assert(held[i as int] == word@);
                        return true;
                    }
                    i += 1;
                }
                false
            },
            None => false,
        }
    }
}

/// The index of the word list `words`.
pub fn build_letters_word_map(words: &Vec<String>) -> (index: AnagramIndex)
    ensures
        index@ == anagram_index(words_view(words@)),
{
    let mut buckets: StringHashMap<Vec<String>> = StringHashMap::new();
    let ghost all = words_view(words@);
    let mut i: usize = 0;
    proof {
        assert forall|key: Seq<char>| anagram_class(all.take(0), key).len() == 0 by {
            lemma_filter_nothing(all, has_key(key));
        }
        assert(buckets_view(buckets@) =~= anagram_index(all.take(0)));
    }
    while i < words.len()
        invariant
            i <= words.len(),
            all == words_view(words@),
            buckets_view(buckets@) == anagram_index(all.take(i as int)),
        decreases words.len() - i,
    {
        let word = &words[i];
        let letters = chars_of(word.as_str());
        let key = sorted_key(&letters);
        let ghost before = buckets_view(buckets@);
        let ghost held_before = buckets@;
        let mut bucket = match buckets.get(key.as_str()) {
            Some(held) => copy_words(held),
            None => Vec::new(),
        };
        proof {
            let class = anagram_class(all.take(i as int), key@);
            assert(before.contains_key(key@) == held_before.contains_key(key@));
            if held_before.contains_key(key@) {
                assert(before[key@] == words_view(held_before[key@]@));
            } else {
                assert(class.len() == 0);
            }
            assert(words_view(bucket@) =~= class);
        }
        let ghost class_before = words_view(bucket@);
        bucket.push(word.clone());
        assert(words_view(bucket@) =~= class_before.push(word@));
        let ghost class_after = words_view(bucket@);
        let ghost key_view = key@;
        buckets.insert(key, bucket);
        proof {
            assert(all[i as int] == word@);
            let grown = anagram_index(all.take(i + 1));
            let now = buckets_view(buckets@);
            assert(buckets@ == held_before.insert(key_view, buckets@[key_view]));
            assert(now[key_view] == class_after);
            assert forall|other: Seq<char>|
                #![trigger grown.dom().contains(other)]
                #![trigger now.dom().contains(other)]
                grown.dom().contains(other) == now.dom().contains(other) && (grown.dom().contains(
                    other,
                ) ==> grown[other] == now[other]) by {
                lemma_filter_step(all, has_key(other), i as int);
                if other != key_view {
                    assert(!has_key(other)(all[i as int]));
                    assert(before.contains_key(other) == now.contains_key(other));
                    assert(now.contains_key(other) ==> now[other] == before[other]);
                } else {
                    assert(has_key(other)(all[i as int]));
                    assert(now.contains_key(other));
                }
            }
            assert(now =~= grown);
        }
        i += 1;
    }
    proof {
        assert(all.take(i as int) =~= all);
        let built = anagram_index(all);
        assert forall|key: Seq<char>, k: int|
            built.contains_key(key) && 0 <= k < built[key].len() implies anagram_key(
            #[trigger] built[key][k],
        ) == key by {
            lemma_bucket_holds_its_class(all, key, k);
        }
    }
    AnagramIndex { buckets }
}

} // verus!
