//! An insertion-ordered set of strings that finds a word's position in
//! constant expected time.
//!
//! The words stand in a vector, which gives them their order and their positions.
//! The index beside it is vstd's hash map for string keys: for a hash map of std, a
//! proof needs a model of the key's hashing, which vstd gives for integers only.

use vstd::hash_map::StringHashMap;
use vstd::prelude::*;

verus! {

/// Distinct words, each at the position at which it was first interned.
pub struct Lexicon {
    words: Vec<String>,
    positions: StringHashMap<usize>,
}

impl View for Lexicon {
    type V = Seq<Seq<char>>;

    /// The words in order of first interning.
    closed spec fn view(&self) -> Seq<Seq<char>> {
        self.words.deep_view()
    }
}

impl Lexicon {
    /// The index maps every word to its position, and holds nothing else.
    pub closed spec fn wf(&self) -> bool {
        &&& forall|i: int|
            0 <= i < self.words@.len() ==> self.positions@.contains_key(#[trigger] self.words@[i]@)
                && self.positions@[self.words@[i]@] == i
        &&& forall|w: Seq<char>| #[trigger]
            self.positions@.contains_key(w) ==> self.positions@[w] < self.words@.len()
                && self.words@[self.positions@[w] as int]@ == w
    }

    /// No word of a well-formed lexicon stands at two positions.
    pub proof fn lemma_distinct(&self)
        requires
            self.wf(),
        ensures
            self@.no_duplicates(),
    {
        assert forall|i: int, j: int| 0 <= i < self@.len() && 0 <= j < self@.len() && i != j implies self@[i]
            != self@[j] by {}
    }

    /// The lexicon without words.
    pub fn new() -> (r: Lexicon)
        ensures
            r.wf(),
            r@ == Seq::<Seq<char>>::empty(),
    {
        Lexicon { words: Vec::new(), positions: StringHashMap::new() }
    }

    /// The number of words.
    pub fn len(&self) -> (n: usize)
        ensures
            n == self@.len(),
    {
        self.words.len()
    }

    /// The word at position `i`.
    pub fn word(&self, i: usize) -> (w: &String)
        requires
            i < self@.len(),
        ensures
            w@ == self@[i as int],
    {
        &self.words[i]
    }

    /// The position of `word`, if the lexicon holds it.
    pub fn position(&self, word: &str) -> (r: Option<usize>)
        requires
            self.wf(),
        ensures
            match r {
                Some(i) => i < self@.len() && self@[i as int] == word@,
                None => !self@.contains(word@),
            },
    {
        match self.positions.get(word) {
            Some(i) => Some(*i),
            None => {
                assert forall|i: int| 0 <= i < self@.len() implies self@[i] != word@ by {}
                None
            },
        }
    }

    /// The position of `word`, which is added at the end if it is new.
    pub fn intern(&mut self, word: &str) -> (i: usize)
        requires
            old(self).wf(),
        ensures
            final(self).wf(),
            final(self)@ == if old(self)@.contains(word@) {
                old(self)@
            } else {
                old(self)@.push(word@)
            },
            i < final(self)@.len(),
            final(self)@[i as int] == word@,
            old(self)@.contains(word@) ==> old(self)@[i as int] == word@,
            !old(self)@.contains(word@) ==> i == old(self)@.len(),
    {
        match self.position(word) {
            Some(i) => i,
            None => {
                let i = self.words.len();
                let ghost before = *self;
                self.words.push(String::from_str(word));
                self.positions.insert(String::from_str(word), i);
                proof {
                    assert forall|k: int| 0 <= k < self.words@.len() implies self.positions@.contains_key(
                        #[trigger] self.words@[k]@,
                    ) && self.positions@[self.words@[k]@] == k by {
                        if k < i {
                            assert(before@[k] == before.words@[k]@);
                        }
                    }
                    assert forall|w: Seq<char>| #[trigger]
                        self.positions@.contains_key(w) implies self.positions@[w] < self.words@.len()
                        && self.words@[self.positions@[w] as int]@ == w by {}
                }
                i
            },
        }
    }

    /// The lexicon of `words` in their order, if no word stands twice among them.
    pub fn from_words(words: &Vec<String>) -> (r: Option<Lexicon>)
        ensures
            match r {
                Some(lexicon) => lexicon.wf() && lexicon@ == words.deep_view(),
                None => !words.deep_view().no_duplicates(),
            },
    {
        let ghost all = words.deep_view();
        let mut lexicon = Lexicon::new();
        let n = words.len();
        let mut i: usize = 0;
        while i < n
            invariant
                n == words@.len(),
                all == words.deep_view(),
                i <= n,
                lexicon.wf(),
                lexicon@ == all.take(i as int),
            decreases n - i,
        {
            match lexicon.position(words[i].as_str()) {
                Some(p) => {
                    proof {
                        assert(all[p as int] == all[i as int]);
                    }
                    return None;
                },
                None => {
                    lexicon.intern(words[i].as_str());
                },
            }
            i = i + 1;
        }
        Some(lexicon)
    }

    /// The words in order, as strings of their own.
    pub fn to_words(&self) -> (words: Vec<String>)
        ensures
            words.deep_view() == self@,
    {
        let n = self.words.len();
        let mut words: Vec<String> = Vec::new();
        let mut i: usize = 0;
        while i < n
            invariant
                n == self.words@.len(),
                i <= n,
                words@.len() == i,
                forall|k: int| 0 <= k < i ==> words@[k]@ == self.words@[k]@,
            decreases n - i,
        {
            words.push(self.words[i].clone());
            i = i + 1;
        }
        words
    }
}

} // verus!
