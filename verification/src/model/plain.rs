//! A model as plain values, and a model from plain values.

use super::{ClassStats, NaiveBayesModel, stats_count_word, stats_word_counted};
use crate::lexicon::Lexicon;
use crate::record::{
    labels_of, record_counts_word, record_model, record_valid, record_word_counted, samples_of, Record,
    RecordView, SCHEMA_VERSION,
};
use crate::tally::{checked_total, copy_counts, lemma_total_prefix, total};
use vstd::prelude::*;

verus! {

impl NaiveBayesModel {
    /// The model as plain values.
    pub closed spec fn record(&self) -> RecordView {
        (
            SCHEMA_VERSION,
            Seq::new(
                self.stats@.len(),
                |i: int| (self.labels@[i], self.stats@[i].samples, self.stats@[i].counts@),
            ),
            self.vocabulary@,
            self.total_samples,
        )
    }

    /// The view of a model is the model that its record is.
    proof fn lemma_record_model(&self)
        requires
            self.stats@.len() == self.labels@.len(),
        ensures
            self@ == record_model(self.record()),
    {
        let record = self.record();
        assert(labels_of(record.1) =~= self.labels@);
        assert(samples_of(record.1) =~= self.samples());
        assert(self@.class_feature_counts =~= record_model(record).class_feature_counts);
    }

    /// The record of a consistent model is valid, and is that model.
    pub proof fn lemma_record_valid(&self)
        requires
            self.wf(),
        ensures
            record_valid(self.record()),
            record_model(self.record()) == self@,
    {
        let record = self.record();
        self.lemma_record_model();
        self.labels.lemma_distinct();
        self.vocabulary.lemma_distinct();
        assert(samples_of(record.1) =~= self.samples());
        assert forall|i: int| 0 <= i < record.1.len() implies {
            &&& (#[trigger] record.1[i]).1 >= 1
            &&& record.1[i].2.len() <= record.2.len()
            &&& total(record.1[i].2) <= u64::MAX
        } by {}
        assert forall|j: int| 0 <= j < record.2.len() implies #[trigger] record_word_counted(record, j) by {
            assert(stats_word_counted(self.stats@, j));
            let i = choose|i: int| #[trigger] stats_count_word(self.stats@, i, j);
            assert(record_counts_word(record, i, j));
        }
    }

    /// A model whose record is valid, and whose lexicons and sums are in order, is consistent.
    proof fn lemma_wf_from_record(&self)
        requires
            self.labels.wf(),
            self.vocabulary.wf(),
            self.stats@.len() == self.labels@.len(),
            forall|i: int|
                0 <= i < self.stats@.len() ==> (#[trigger] self.stats@[i]).token_total == total(
                    self.stats@[i].counts@,
                ),
            record_valid(self.record()),
        ensures
            self.wf(),
    {
        let record = self.record();
        assert(samples_of(record.1) =~= self.samples());
        assert forall|i: int| 0 <= i < self.stats@.len() implies {
            &&& (#[trigger] self.stats@[i]).samples >= 1
            &&& self.stats@[i].counts@.len() <= self.vocabulary@.len()
            &&& self.stats@[i].token_total == total(self.stats@[i].counts@)
        } by {
            assert(record.1[i].1 >= 1);
        }
        assert forall|j: int| 0 <= j < self.vocabulary@.len() implies #[trigger] stats_word_counted(self.stats@, j) by {
            assert(record_word_counted(record, j));
            let i = choose|i: int| #[trigger] record_counts_word(record, i, j);
            assert(stats_count_word(self.stats@, i, j));
        }
    }

    /// The model as plain values, to be stored: a valid record, which is this model.
    pub fn to_record(&self) -> (record: Record)
        requires
            self.wf(),
        ensures
            record.deep_view() == self.record(),
            record_valid(record.deep_view()),
            record_model(record.deep_view()) == self@,
    {
        proof {
            self.lemma_record_valid();
        }
        let n = self.stats.len();
        let mut classes: Vec<(String, u64, Vec<u64>)> = Vec::new();
        let mut i: usize = 0;
        while i < n
            invariant
                n == self.stats@.len(),
                n == self.labels@.len(),
                i <= n,
                classes@.len() == i,
                forall|k: int|
                    0 <= k < i ==> {
                        &&& (#[trigger] classes@[k]).0@ == self.labels@[k]
                        &&& classes@[k].1 == self.stats@[k].samples
                        &&& classes@[k].2@ == self.stats@[k].counts@
                    },
            decreases n - i,
        {
            let label = self.labels.word(i).clone();
            let counts = copy_counts(&self.stats[i].counts);
            classes.push((label, self.stats[i].samples, counts));
            i = i + 1;
        }
        let words = self.vocabulary.to_words();
        let record = (SCHEMA_VERSION, classes, words, self.total_samples);
        proof {
            assert forall|k: int| 0 <= k < n implies #[trigger] record.1.deep_view()[k] == self.record().1[k] by {}
        }
        record
    }

    /// Whether some class has counted each of the first `words` positions.
    fn covers(stats: &Vec<ClassStats>, words: usize) -> (r: bool)
        ensures
            r == forall|j: int| 0 <= j < words ==> #[trigger] stats_word_counted(stats@, j),
    {
        let n = stats.len();
        let mut j: usize = 0;
        while j < words
            invariant
                n == stats@.len(),
                j <= words,
                forall|x: int| 0 <= x < j ==> #[trigger] stats_word_counted(stats@, x),
            decreases words - j,
        {
            let mut found = false;
            let mut i: usize = 0;
            while i < n && !found
                invariant
                    n == stats@.len(),
                    i <= n,
                    found ==> stats_word_counted(stats@, j as int),
                    !found ==> forall|k: int| 0 <= k < i ==> !#[trigger] stats_count_word(stats@, k, j as int),
                decreases n - i + if found { 0int } else { 1int },
            {
                if j < stats[i].counts.len() && stats[i].counts[j] > 0 {
                    assert(stats_count_word(stats@, i as int, j as int));
                    found = true;
                } else {
                    i = i + 1;
                }
            }
            if !found {
                proof {
                    if stats_word_counted(stats@, j as int) {
                        let k = choose|k: int| #[trigger] stats_count_word(stats@, k, j as int);
                    }
                }
                return false;
            }
            j = j + 1;
        }
        true
    }

    /// The model that `record` is, if it is one.
    pub fn from_record(record: &Record) -> (r: Option<NaiveBayesModel>)
        ensures
            match r {
                Some(model) => {
                    &&& record_valid(record.deep_view())
                    &&& model.wf()
                    &&& model@ == record_model(record.deep_view())
                },
                None => !record_valid(record.deep_view()),
            },
    {
        let ghost plain = record.deep_view();
        if record.0 != SCHEMA_VERSION {
            return None;
        }
        let vocabulary = match Lexicon::from_words(&record.2) {
            Some(lexicon) => lexicon,
            None => {
                return None;
            },
        };
        let n = record.1.len();
        let mut labels = Lexicon::new();
        let mut stats: Vec<ClassStats> = Vec::new();
        let mut sum: u64 = 0;
        let mut i: usize = 0;
        while i < n
            invariant
                plain == record.deep_view(),
                n == record.1@.len(),
                n == plain.1.len(),
                i <= n,
                vocabulary@ == plain.2,
                labels.wf(),
                labels@ == labels_of(plain.1).take(i as int),
                stats@.len() == i,
                sum == total(samples_of(plain.1).take(i as int)),
                forall|k: int|
                    0 <= k < i ==> {
                        &&& (#[trigger] stats@[k]).samples == plain.1[k].1
                        &&& stats@[k].counts@ == plain.1[k].2
                        &&& stats@[k].token_total == total(stats@[k].counts@)
                        &&& stats@[k].samples >= 1
                        &&& stats@[k].counts@.len() <= plain.2.len()
                    },
            decreases n - i,
        {
            let class = &record.1[i];
            proof {
                assert(class.2.deep_view() =~= class.2@);
                assert(labels_of(plain.1)[i as int] == class.0@);
                assert(samples_of(plain.1).take(i + 1).drop_last() =~= samples_of(plain.1).take(i as int));
                lemma_total_prefix(samples_of(plain.1), i + 1);
            }
            if labels.position(class.0.as_str()).is_some() {
                return None;
            }
            if class.1 == 0 || class.2.len() > vocabulary.len() || class.1 > u64::MAX - sum {
                return None;
            }
            let token_total = match checked_total(&class.2) {
                Some(t) => t,
                None => {
                    return None;
                },
            };
            labels.intern(class.0.as_str());
            stats.push(ClassStats { samples: class.1, token_total, counts: copy_counts(&class.2) });
            sum = sum + class.1;
            i = i + 1;
        }
        proof {
            assert(samples_of(plain.1).take(n as int) =~= samples_of(plain.1));
        }
        if sum != record.3 {
            return None;
        }
        let covered = Self::covers(&stats, vocabulary.len());
        let model = NaiveBayesModel { labels, stats, vocabulary, total_samples: sum };
        proof {
            labels.lemma_distinct();
            vocabulary.lemma_distinct();
            assert(model.record().1 =~= plain.1);
            assert forall|j: int| 0 <= j < plain.2.len() implies (record_word_counted(plain, j)
                <==> #[trigger] stats_word_counted(stats@, j)) by {
                if record_word_counted(plain, j) {
                    let i = choose|i: int| #[trigger] record_counts_word(plain, i, j);
                    assert(stats_count_word(stats@, i, j));
                }
                if stats_word_counted(stats@, j) {
                    let i = choose|i: int| #[trigger] stats_count_word(stats@, i, j);
                    assert(record_counts_word(plain, i, j));
                }
            }
        }
        if !covered {
            return None;
        }
        proof {
            assert forall|i: int| 0 <= i < plain.1.len() implies {
                &&& (#[trigger] plain.1[i]).1 >= 1
                &&& plain.1[i].2.len() <= plain.2.len()
                &&& total(plain.1[i].2) <= u64::MAX
            } by {}
            assert forall|j: int| 0 <= j < plain.2.len() implies #[trigger] record_word_counted(plain, j) by {
                assert(stats_word_counted(stats@, j));
            }
            model.lemma_wf_from_record();
            model.lemma_record_model();
        }
        Some(model)
    }
}

} // verus!
