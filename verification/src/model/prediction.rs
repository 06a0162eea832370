//! Prediction: the class with the greatest score.

use super::{ModelError, NaiveBayesModel};
use crate::bignat::BigNat;
use crate::view::power;
use vstd::prelude::*;

verus! {

impl NaiveBayesModel {
    /// The numerator of the score of the class at position `i`, times the denominator
    /// of the score of the class at position `j`.
    fn cross(&self, i: usize, j: usize, tokens: &Vec<String>) -> (r: BigNat)
        requires
            self.wf(),
            i < self.labels@.len(),
            j < self.labels@.len(),
        ensures
            r.wf(),
            r.value() == self@.numerator(self.labels@[i as int], tokens.deep_view()) * self@.denominator(
                self.labels@[j as int],
                tokens.deep_view(),
            ),
    {
        let ghost sample = tokens.deep_view();
        let ghost c = self.labels@[i as int];
        let ghost d = self.labels@[j as int];
        let n = tokens.len();
        proof {
            self.lemma_class_at(i as int);
            self.lemma_class_at(j as int);
            self.lemma_vocabulary_len();
        }
        let mut acc = BigNat::from_u64(self.stats[i].samples);
        proof {
            assert(self@.likelihood_weight(c, sample.take(0)) == 1);
        }
        let mut k: usize = 0;
        while k < n
            invariant
                n == tokens@.len(),
                sample == tokens.deep_view(),
                self.wf(),
                i < self.labels@.len(),
                c == self.labels@[i as int],
                k <= n,
                acc.wf(),
                acc.value() == self@.class_counts.count(c) * self@.likelihood_weight(c, sample.take(k as int)),
            decreases n - k,
        {
            let count = self.count_at(i, tokens[k].as_str());
            acc = acc.times_sum(count, 1);
            proof {
                assert(sample.take(k + 1).drop_last() =~= sample.take(k as int));
                let s = self@.class_counts.count(c);
                let w = self@.likelihood_weight(c, sample.take(k as int));
                assert((s * w) * (count + 1) == s * (w * (count + 1))) by (nonlinear_arith);
            }
            k = k + 1;
        }
        proof {
            assert(sample.take(n as int) =~= sample);
        }
        let words: u64 = self.vocabulary.len() as u64;
        let tokens_in = self.stats[j].token_total;
        proof {
            assert(power(self@.smoothing(d), 0) == 1);
        }
        let mut e: usize = 0;
        while e < n
            invariant
                n == tokens@.len(),
                e <= n,
                acc.wf(),
                tokens_in + words == self@.smoothing(d),
                acc.value() == self@.numerator(c, sample) * power(self@.smoothing(d), e as nat),
            decreases n - e,
        {
            acc = acc.times_sum(tokens_in, words);
            proof {
                let x = self@.numerator(c, sample);
                let b = self@.smoothing(d);
                let p = power(b, e as nat);
                assert((x * p) * b == x * (b * p)) by (nonlinear_arith);
            }
            e = e + 1;
        }
        acc
    }

    /// The class that a text of these tokens most likely belongs to.
    ///
    /// Scores are compared exactly, as fractions; of the classes with the greatest
    /// score the one that was trained first is returned. A model without classes
    /// has no prediction.
    pub fn predict_tokens(&self, tokens: &Vec<String>) -> (r: Result<String, ModelError>)
        requires
            self.wf(),
        ensures
            r is Err <==> self@.classes.len() == 0,
            match r {
                Ok(label) => self@.predicts(tokens.deep_view(), label@),
                Err(e) => e == ModelError::ModelEmpty,
            },
    {
        let classes = self.labels.len();
        if classes == 0 {
            return Err(ModelError::ModelEmpty);
        }
        let ghost sample = tokens.deep_view();
        let ghost v = self@;
        proof {
            self.lemma_view_wf();
        }
        let mut best: usize = 0;
        let mut i: usize = 1;
        while i < classes
            invariant
                classes == self.labels@.len(),
                sample == tokens.deep_view(),
                v == self@,
                v.wf(),
                v.classes == self.labels@,
                self.wf(),
                best < i <= classes,
                forall|k: int| 0 <= k < i ==> !v.outscores(#[trigger] v.classes[k], v.classes[best as int], sample),
                forall|k: int| 0 <= k < best ==> v.outscores(v.classes[best as int], #[trigger] v.classes[k], sample),
            decreases classes - i,
        {
            let challenger = self.cross(i, best, tokens);
            let holder = self.cross(best, i, tokens);
            if challenger.exceeds(&holder) {
                proof {
                    assert forall|k: int| 0 <= k < i implies v.outscores(v.classes[i as int], #[trigger] v.classes[k], sample) by {
                        v.lemma_outscores_chain(sample, v.classes[k], v.classes[best as int], v.classes[i as int]);
                    }
                    assert forall|k: int| 0 <= k < i + 1 implies !v.outscores(
                        #[trigger] v.classes[k],
                        v.classes[i as int],
                        sample,
                    ) by {}
                }
                best = i;
            }
            i = i + 1;
        }
        Ok(self.labels.word(best).clone())
    }
}

} // verus!
