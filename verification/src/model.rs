//! The classifier: its counts, training on a tokenised sample, and prediction.

use crate::lexicon::Lexicon;
use crate::tally::{bag_of, lemma_bag_count, lemma_bag_len, total};
use crate::view::ModelView;
use vstd::multiset::*;
use vstd::prelude::*;

mod plain;
mod prediction;
mod training;

verus! {

/// Why the classifier could not do what was asked.
#[derive(Debug, Clone, Copy, PartialEq, Eq, Structural)]
pub enum ModelError {
    /// A prediction was asked of a model without classes.
    ModelEmpty,
    /// One more sample would not fit a counter; nothing was counted.
    CapacityExceeded,
    /// The model, or the bytes of a snapshot, could not be turned into the other.
    SerializationFailure,
    /// The time of a snapshot could not be written down.
    TimestampUnavailable,
}

/// The counts of one class.
struct ClassStats {
    samples: u64,
    token_total: u64,
    counts: Vec<u64>,
}

/// An incremental naive Bayes classifier of text.
///
/// Tokens are numbered by their position in the vocabulary; a class counts the
/// token at position `j` in `counts[j]`, and positions beyond `counts` count zero.
pub struct NaiveBayesModel {
    labels: Lexicon,
    stats: Vec<ClassStats>,
    vocabulary: Lexicon,
    total_samples: u64,
}

/// Whether the class at position `i` has counted the word at position `j`.
spec fn stats_count_word(stats: Seq<ClassStats>, i: int, j: int) -> bool {
    &&& 0 <= i < stats.len()
    &&& 0 <= j < stats[i].counts@.len()
    &&& stats[i].counts@[j] > 0
}

/// Whether some class has counted the word at position `j`.
spec fn stats_word_counted(stats: Seq<ClassStats>, j: int) -> bool {
    exists|i: int| #[trigger] stats_count_word(stats, i, j)
}

impl View for NaiveBayesModel {
    type V = ModelView;

    closed spec fn view(&self) -> ModelView {
        ModelView {
            classes: self.labels@,
            class_counts: bag_of(self.samples(), self.labels@),
            class_feature_counts: Map::new(
                |c: Seq<char>| self.labels@.contains(c),
                |c: Seq<char>| self.bag_at(self.labels@.index_of(c)),
            ),
            vocabulary: self.vocabulary@.to_set(),
            total_samples: self.total_samples as nat,
        }
    }
}

impl NaiveBayesModel {
    /// The sample count of each class, by position.
    spec fn samples(&self) -> Seq<u64> {
        Seq::new(self.stats@.len(), |i: int| self.stats@[i].samples)
    }

    /// The tokens counted for the class at position `i`.
    spec fn bag_at(&self, i: int) -> Multiset<Seq<char>> {
        bag_of(self.stats@[i].counts@, self.vocabulary@)
    }

    /// The representation is consistent: one record per label, sums that match their
    /// counts, and no word in the vocabulary that no class has counted.
    pub closed spec fn wf(&self) -> bool {
        &&& self.labels.wf()
        &&& self.vocabulary.wf()
        &&& self.stats@.len() == self.labels@.len()
        &&& self.total_samples == total(self.samples())
        &&& forall|i: int|
            0 <= i < self.stats@.len() ==> {
                &&& (#[trigger] self.stats@[i]).samples >= 1
                &&& self.stats@[i].counts@.len() <= self.vocabulary@.len()
                &&& self.stats@[i].token_total == total(self.stats@[i].counts@)
            }
        &&& forall|j: int| 0 <= j < self.vocabulary@.len() ==> #[trigger] stats_word_counted(self.stats@, j)
    }

    /// What the view says of the class at position `i` is what its record holds.
    proof fn lemma_class_at(&self, i: int)
        requires
            self.wf(),
            0 <= i < self.labels@.len(),
        ensures
            self@.classes[i] == self.labels@[i],
            self@.class_feature_counts.contains_key(self.labels@[i]),
            self@.features(self.labels@[i]) == self.bag_at(i),
            self@.features(self.labels@[i]).len() == self.stats@[i].token_total,
            self@.class_counts.count(self.labels@[i]) == self.stats@[i].samples,
    {
        self.labels.lemma_distinct();
        lemma_bag_len(self.stats@[i].counts@, self.vocabulary@);
        lemma_bag_count(self.samples(), self.labels@);
    }

    /// A consistent model meets the invariants of the data model.
    pub proof fn lemma_view_wf(&self)
        requires
            self.wf(),
        ensures
            self@.wf(),
    {
        let v = self@;
        self.labels.lemma_distinct();
        self.vocabulary.lemma_distinct();
        lemma_bag_count(self.samples(), self.labels@);
        lemma_bag_len(self.samples(), self.labels@);
        assert forall|c: Seq<char>| v.classes.contains(c) <==> #[trigger] v.class_counts.count(c) > 0 by {}
        assert forall|t: Seq<char>| #[trigger] v.vocabulary.contains(t) <==> exists|c: Seq<char>| v.seen_in(c, t) by {
            if v.vocabulary.contains(t) {
                let j = choose|j: int| 0 <= j < self.vocabulary@.len() && self.vocabulary@[j] == t;
                assert(stats_word_counted(self.stats@, j));
                let i = choose|i: int| #[trigger] stats_count_word(self.stats@, i, j);
                lemma_bag_count(self.stats@[i].counts@, self.vocabulary@);
                assert(v.seen_in(self.labels@[i], t));
            }
            if exists|c: Seq<char>| v.seen_in(c, t) {
                let c = choose|c: Seq<char>| v.seen_in(c, t);
                let i = self.labels@.index_of(c);
                lemma_bag_count(self.stats@[i].counts@, self.vocabulary@);
            }
        }
    }

    /// The vocabulary of the view has as many words as the lexicon behind it.
    proof fn lemma_vocabulary_len(&self)
        requires
            self.wf(),
        ensures
            self@.vocabulary.len() == self.vocabulary@.len(),
    {
        self.vocabulary.lemma_distinct();
        self.vocabulary@.unique_seq_to_set();
    }

    /// The model before any training.
    pub fn empty() -> (model: NaiveBayesModel)
        ensures
            model.wf(),
            model@ == ModelView::empty(),
    {
        let model = NaiveBayesModel {
            labels: Lexicon::new(),
            stats: Vec::new(),
            vocabulary: Lexicon::new(),
            total_samples: 0,
        };
        proof {
            assert(model@.class_feature_counts =~= Map::<Seq<char>, Multiset<Seq<char>>>::empty());
        }
        model
    }

    /// How often the class at position `i` has counted `token`.
    fn count_at(&self, i: usize, token: &str) -> (c: u64)
        requires
            self.wf(),
            i < self.labels@.len(),
        ensures
            c == self@.features(self.labels@[i as int]).count(token@),
    {
        proof {
            self.lemma_class_at(i as int);
            self.vocabulary.lemma_distinct();
            lemma_bag_count(self.stats@[i as int].counts@, self.vocabulary@);
        }
        match self.vocabulary.position(token) {
            Some(j) => {
                if j < self.stats[i].counts.len() {
                    self.stats[i].counts[j]
                } else {
                    0
                }
            },
            None => 0,
        }
    }

    /// The number of samples that the model was trained on.
    pub fn total_samples(&self) -> (n: u64)
        ensures
            n == self@.total_samples,
    {
        self.total_samples
    }

    /// The labels, in the order in which they were first trained.
    pub fn classes(&self) -> (labels: Vec<String>)
        ensures
            labels.deep_view() == self@.classes,
    {
        self.labels.to_words()
    }

    /// The distinct tokens of all samples, in the order in which they were first seen.
    pub fn vocabulary(&self) -> (words: Vec<String>)
        requires
            self.wf(),
        ensures
            words.deep_view().no_duplicates(),
            words.deep_view().to_set() == self@.vocabulary,
    {
        proof {
            self.vocabulary.lemma_distinct();
        }
        self.vocabulary.to_words()
    }

    /// Whether a sample of `class` was trained.
    pub fn has_class(&self, class: &str) -> (r: bool)
        requires
            self.wf(),
        ensures
            r == self@.classes.contains(class@),
    {
        self.labels.position(class).is_some()
    }

    /// The number of samples trained for `class`: zero for a label that is no class.
    pub fn class_count(&self, class: &str) -> (n: u64)
        requires
            self.wf(),
        ensures
            n == self@.class_counts.count(class@),
    {
        proof {
            self.labels.lemma_distinct();
            lemma_bag_count(self.samples(), self.labels@);
        }
        match self.labels.position(class) {
            Some(i) => {
                self.stats[i].samples
            },
            None => 0,
        }
    }

    /// How often `token` occurred in the samples of `class`: zero for a label that is
    /// no class and for a token that the class has not seen.
    pub fn token_count(&self, class: &str, token: &str) -> (n: u64)
        requires
            self.wf(),
        ensures
            n == self@.features(class@).count(token@),
    {
        match self.labels.position(class) {
            Some(i) => self.count_at(i, token),
            None => 0,
        }
    }

    /// The number of tokens in the samples of `class`, each occurrence counted.
    pub fn token_total(&self, class: &str) -> (n: u64)
        requires
            self.wf(),
        ensures
            n == self@.features(class@).len(),
    {
        match self.labels.position(class) {
            Some(i) => {
                proof {
                    self.lemma_class_at(i as int);
                }
                self.stats[i].token_total
            },
            None => 0,
        }
    }
}

} // verus!
