//! Training: counting one sample.

use super::{stats_count_word, stats_word_counted, ClassStats, ModelError, NaiveBayesModel};
use crate::laws::lemma_trained_counts;
use crate::tally::{bag_of, lemma_bag_bump, lemma_bag_more_words, lemma_bag_pad, lemma_total_bounds, total};
use vstd::prelude::*;

verus! {

impl NaiveBayesModel {
    /// Counts one more sample for `class`, which becomes a class if it was none, and
    /// returns the position of the class.
    fn enroll(&mut self, class: &str) -> (i: usize)
        requires
            old(self).wf(),
            old(self)@.total_samples < u64::MAX,
        ensures
            final(self).wf(),
            final(self)@ == old(self)@.enrolled(class@),
            i < final(self).labels@.len(),
            final(self).labels@[i as int] == class@,
            final(self).vocabulary == old(self).vocabulary,
    {
        let known = self.labels.len();
        let ghost before = *self;
        proof {
            before.labels.lemma_distinct();
        }
        let i = self.labels.intern(class);
        if i == known {
            self.stats.push(ClassStats { samples: 0, token_total: 0, counts: Vec::new() });
        }
        let ghost mid = *self;
        proof {
            if !before.labels@.contains(class@) {
                assert(mid.samples() =~= before.samples().push(0));
                lemma_bag_pad(before.samples(), mid.labels@);
                lemma_bag_more_words(before.samples(), before.labels@, class@);
            }
            lemma_total_bounds(mid.samples(), i as int);
        }
        let s = self.stats[i].samples;
        self.stats[i].samples = s + 1;
        self.total_samples = self.total_samples + 1;
        proof {
            let after = *self;
            assert(after.samples() =~= mid.samples().update(i as int, (s + 1) as u64));
            lemma_bag_bump(mid.samples(), mid.labels@, i as int);
            assert forall|k: int| 0 <= k < after.stats@.len() implies after.stats@[k].counts
                == mid.stats@[k].counts && after.stats@[k].token_total == mid.stats@[k].token_total by {}
            assert forall|k: int| 0 <= k < before.stats@.len() implies after.bag_at(k) == before.bag_at(k) by {}
            assert forall|c: Seq<char>| before.labels@.contains(c) implies after.labels@.contains(c)
                && after.labels@.index_of(c) == before.labels@.index_of(c) by {
            }
            assert(after@.class_feature_counts =~= before@.enrolled(class@).class_feature_counts);
            assert forall|j: int| 0 <= j < after.vocabulary@.len() implies #[trigger] stats_word_counted(after.stats@, j) by {
                assert(stats_word_counted(before.stats@, j));
                let k = choose|k: int| #[trigger] stats_count_word(before.stats@, k, j);
                assert(stats_count_word(after.stats@, k, j));
            }
            assert forall|k: int| 0 <= k < after.stats@.len() implies {
                &&& (#[trigger] after.stats@[k]).samples >= 1
                &&& after.stats@[k].counts@.len() <= after.vocabulary@.len()
                &&& after.stats@[k].token_total == total(after.stats@[k].counts@)
            } by {}
        }
        i
    }

    /// Counts one more occurrence of `token` for the class at position `i`.
    fn observe(&mut self, i: usize, token: &str)
        requires
            old(self).wf(),
            i < old(self).labels@.len(),
            old(self)@.features(old(self).labels@[i as int]).len() < u64::MAX,
        ensures
            final(self).wf(),
            final(self).labels == old(self).labels,
            final(self)@ == old(self)@.observed(old(self).labels@[i as int], token@),
    {
        let ghost before = *self;
        proof {
            before.labels.lemma_distinct();
            before.vocabulary.lemma_distinct();
            before.lemma_class_at(i as int);
        }
        let j = self.vocabulary.intern(token);
        let ghost words = self.vocabulary@;
        proof {
            assert forall|k: int| 0 <= k < before.stats@.len() implies bag_of(before.stats@[k].counts@, words)
                == before.bag_at(k) by {
                if !before.vocabulary@.contains(token@) {
                    lemma_bag_more_words(before.stats@[k].counts@, before.vocabulary@, token@);
                }
            }
        }
        let ghost old_len = before.stats@[i as int].counts@.len();
        while self.stats[i].counts.len() <= j
            invariant
                self.labels == before.labels,
                self.vocabulary@ == words,
                self.vocabulary.wf(),
                self.total_samples == before.total_samples,
                self.stats@.len() == before.stats@.len(),
                i < self.stats@.len(),
                j < words.len(),
                forall|k: int| 0 <= k < self.stats@.len() && k != i ==> self.stats@[k] == before.stats@[k],
                self.stats@[i as int].samples == before.stats@[i as int].samples,
                self.stats@[i as int].token_total == before.stats@[i as int].token_total,
                old_len <= self.stats@[i as int].counts@.len() <= words.len(),
                forall|x: int| 0 <= x < old_len ==> self.stats@[i as int].counts@[x] == before.stats@[i as int].counts@[x],
                bag_of(self.stats@[i as int].counts@, words) == before.bag_at(i as int),
                total(self.stats@[i as int].counts@) == total(before.stats@[i as int].counts@),
            decreases j + 1 - self.stats@[i as int].counts@.len(),
        {
            proof {
                lemma_bag_pad(self.stats@[i as int].counts@, words);
            }
            self.stats[i].counts.push(0);
        }
        let ghost mid = *self;
        proof {
            lemma_total_bounds(mid.stats@[i as int].counts@, j as int);
            lemma_bag_bump(mid.stats@[i as int].counts@, words, j as int);
        }
        let c = self.stats[i].counts[j];
        self.stats[i].counts[j] = c + 1;
        let t = self.stats[i].token_total;
        self.stats[i].token_total = t + 1;
        proof {
            let after = *self;
            let label = before.labels@[i as int];
            assert(after.samples() =~= before.samples());
            assert forall|k: int| 0 <= k < after.stats@.len() && k != i implies after.bag_at(k) == before.bag_at(k) by {}
            assert(after@.class_feature_counts =~= before@.observed(label, token@).class_feature_counts) by {
                assert forall|c: Seq<char>| after.labels@.contains(c) && c != label implies after.labels@.index_of(c)
                    != i by {}
            }
            assert(after@.vocabulary =~= before@.vocabulary.insert(token@)) by {
                assert forall|w: Seq<char>| words.to_set().contains(w) <==> before.vocabulary@.to_set().insert(
                    token@,
                ).contains(w) by {
                    if before.vocabulary@.contains(w) {
                        let x = choose|x: int| 0 <= x < before.vocabulary@.len() && before.vocabulary@[x] == w;
                        assert(words[x] == w);
                    }
                }
            }
            assert forall|x: int| 0 <= x < after.vocabulary@.len() implies #[trigger] stats_word_counted(after.stats@, x) by {
                if x == j {
                    assert(stats_count_word(after.stats@, i as int, x));
                } else {
                    assert(stats_word_counted(before.stats@, x));
                    let k = choose|k: int| #[trigger] stats_count_word(before.stats@, k, x);
                    assert(stats_count_word(after.stats@, k, x));
                }
            }
            assert forall|k: int| 0 <= k < after.stats@.len() implies {
                &&& (#[trigger] after.stats@[k]).samples >= 1
                &&& after.stats@[k].counts@.len() <= after.vocabulary@.len()
                &&& after.stats@[k].token_total == total(after.stats@[k].counts@)
            } by {
                if k != i {
                    assert(after.stats@[k] == before.stats@[k]);
                }
            }
        }
    }

    /// Trains on one sample of `class` that consists of `tokens`: counts the sample
    /// and every token for the class, unless a counter has no room for them, in
    /// which case nothing changes.
    pub fn accumulate(&mut self, tokens: &Vec<String>, class: &str) -> (r: Result<(), ModelError>)
        requires
            old(self).wf(),
        ensures
            final(self).wf(),
            match r {
                Ok(()) => {
                    &&& old(self)@.has_room(class@, tokens@.len())
                    &&& final(self)@ == old(self)@.trained(tokens.deep_view(), class@)
                    &&& final(self)@.total_samples == old(self)@.total_samples + 1
                    &&& final(self)@.classes.contains(class@)
                    &&& final(self)@.class_counts.count(class@) == old(self)@.class_counts.count(class@) + 1
                    &&& forall|token: Seq<char>| #[trigger]
                        final(self)@.features(class@).count(token) == old(self)@.features(class@).count(token)
                            + tokens.deep_view().to_multiset().count(token)
                },
                Err(e) => {
                    &&& e == ModelError::CapacityExceeded
                    &&& !old(self)@.has_room(class@, tokens@.len())
                    &&& *final(self) == *old(self)
                },
            },
    {
        let n = tokens.len();
        let room = match self.labels.position(class) {
            Some(p) => {
                proof {
                    self.lemma_class_at(p as int);
                }
                self.stats[p].token_total as u128 + n as u128 <= u64::MAX as u128
            },
            None => true,
        };
        if self.total_samples == u64::MAX || !room {
            return Err(ModelError::CapacityExceeded);
        }
        let ghost sample = tokens.deep_view();
        let ghost before = self@;
        let i = self.enroll(class);
        let ghost start = self@;
        proof {
            start.lemma_absorbed_nothing(class@);
            assert(sample.take(0) =~= Seq::<Seq<char>>::empty());
        }
        let mut k: usize = 0;
        while k < n
            invariant
                n == tokens@.len(),
                sample == tokens.deep_view(),
                self.wf(),
                k <= n,
                i < self.labels@.len(),
                self.labels@[i as int] == class@,
                start.class_feature_counts.contains_key(class@),
                start.features(class@).len() + n <= u64::MAX,
                self@ == start.absorbed(class@, sample.take(k as int)),
            decreases n - k,
        {
            proof {
                sample.take(k as int).to_multiset_ensures();
                start.lemma_absorbed_step(class@, sample.take(k as int), sample[k as int]);
                assert(sample.take(k as int).push(sample[k as int]) =~= sample.take(k + 1));
            }
            self.observe(i, tokens[k].as_str());
            k = k + 1;
        }
        proof {
            assert(sample.take(n as int) =~= sample);
            assert forall|token: Seq<char>| #[trigger]
                self@.features(class@).count(token) == before.features(class@).count(token)
                    + sample.to_multiset().count(token) by {
                lemma_trained_counts(before, sample, class@, token);
            }
        }
        Ok(())
    }
}

} // verus!
