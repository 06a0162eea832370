//! The classifier's state as mathematics, and the rules of training and
//! prediction stated on it.

use vstd::multiset::*;
use vstd::prelude::*;

verus! {

/// What a model holds.
///
/// A count per key is a multiset: `class_counts` holds each label once for every
/// sample trained under it, and `class_feature_counts[c]` holds each token once
/// for every time it occurred in a sample of class `c`.
pub struct ModelView {
    /// The labels, in the order in which they were first trained.
    pub classes: Seq<Seq<char>>,
    /// The label of every sample.
    pub class_counts: Multiset<Seq<char>>,
    /// For each label, the tokens of every sample trained under it.
    pub class_feature_counts: Map<Seq<char>, Multiset<Seq<char>>>,
    /// The distinct tokens of all samples.
    pub vocabulary: Set<Seq<char>>,
    /// The number of samples.
    pub total_samples: nat,
}

/// `base` to the power `exp`.
pub open spec fn power(base: nat, exp: nat) -> nat
    decreases exp,
{
    if exp == 0 {
        1
    } else {
        base * power(base, (exp - 1) as nat)
    }
}

/// A power of a positive number is positive.
pub proof fn lemma_power_positive(base: nat, exp: nat)
    requires
        base > 0,
    ensures
        power(base, exp) > 0,
    decreases exp,
{
    if exp > 0 {
        lemma_power_positive(base, (exp - 1) as nat);
        assert(base * power(base, (exp - 1) as nat) > 0) by (nonlinear_arith)
            requires
                base > 0,
                power(base, (exp - 1) as nat) > 0,
        ;
    }
}

impl ModelView {
    /// The model before any training.
    pub open spec fn empty() -> ModelView {
        ModelView {
            classes: Seq::empty(),
            class_counts: Multiset::empty(),
            class_feature_counts: Map::empty(),
            vocabulary: Set::empty(),
            total_samples: 0,
        }
    }

    /// The tokens counted for `class`: none for a label that was never trained.
    pub open spec fn features(self, class: Seq<char>) -> Multiset<Seq<char>> {
        if self.class_feature_counts.contains_key(class) {
            self.class_feature_counts[class]
        } else {
            Multiset::empty()
        }
    }

    /// Whether `token` occurred in a sample of the trained class `class`.
    pub open spec fn seen_in(self, class: Seq<char>, token: Seq<char>) -> bool {
        self.class_feature_counts.contains_key(class) && self.class_feature_counts[class].count(token) > 0
    }

    /// The invariants of the data model: the three collections speak of the same
    /// labels, the sample counts add up to the total, and the vocabulary is what
    /// the classes' tokens make together.
    pub open spec fn wf(self) -> bool {
        &&& self.classes.no_duplicates()
        &&& forall|c: Seq<char>| self.classes.contains(c) <==> #[trigger] self.class_counts.count(c) > 0
        &&& forall|c: Seq<char>| self.classes.contains(c) <==> #[trigger] self.class_feature_counts.contains_key(c)
        &&& self.total_samples == self.class_counts.len()
        &&& self.vocabulary.finite()
        &&& forall|t: Seq<char>| #[trigger]
            self.vocabulary.contains(t) <==> exists|c: Seq<char>| self.seen_in(c, t)
    }

    /// Whether one more sample of `class` with `tokens` tokens fits the counters.
    pub open spec fn has_room(self, class: Seq<char>, tokens: nat) -> bool {
        &&& self.total_samples < u64::MAX
        &&& self.features(class).len() + tokens <= u64::MAX
    }

    /// The model after one more sample was counted for `class`, its tokens not yet taken in.
    pub open spec fn enrolled(self, class: Seq<char>) -> ModelView {
        ModelView {
            classes: if self.classes.contains(class) {
                self.classes
            } else {
                self.classes.push(class)
            },
            class_counts: self.class_counts.insert(class),
            class_feature_counts: self.class_feature_counts.insert(class, self.features(class)),
            vocabulary: self.vocabulary,
            total_samples: self.total_samples + 1,
        }
    }

    /// The model after one more occurrence of `token` was taken in for `class`.
    pub open spec fn observed(self, class: Seq<char>, token: Seq<char>) -> ModelView {
        ModelView {
            classes: self.classes,
            class_counts: self.class_counts,
            class_feature_counts: self.class_feature_counts.insert(class, self.features(class).insert(token)),
            vocabulary: self.vocabulary.insert(token),
            total_samples: self.total_samples,
        }
    }

    /// The model after `tokens` were taken in for `class`.
    pub open spec fn absorbed(self, class: Seq<char>, tokens: Seq<Seq<char>>) -> ModelView {
        ModelView {
            classes: self.classes,
            class_counts: self.class_counts,
            class_feature_counts: self.class_feature_counts.insert(
                class,
                self.features(class).add(tokens.to_multiset()),
            ),
            vocabulary: self.vocabulary.union(tokens.to_set()),
            total_samples: self.total_samples,
        }
    }

    /// The model after training on one sample of `class` that consists of `tokens`.
    pub open spec fn trained(self, tokens: Seq<Seq<char>>, class: Seq<char>) -> ModelView {
        self.enrolled(class).absorbed(class, tokens)
    }

    /// Taking in no token leaves a model with the class as it is.
    pub proof fn lemma_absorbed_nothing(self, class: Seq<char>)
        requires
            self.class_feature_counts.contains_key(class),
        ensures
            self.absorbed(class, Seq::empty()) == self,
    {
        broadcast use vstd::seq_lib::group_to_multiset_ensures;

        let tokens = Seq::<Seq<char>>::empty();
        let after = self.absorbed(class, tokens);
        assert(self.features(class).add(tokens.to_multiset()) =~= self.features(class));
        assert(after.class_feature_counts =~= self.class_feature_counts);
        assert(after.vocabulary =~= self.vocabulary);
    }

    /// Taking in the tokens one after the other is taking them in together.
    pub proof fn lemma_absorbed_step(self, class: Seq<char>, tokens: Seq<Seq<char>>, token: Seq<char>)
        ensures
            self.absorbed(class, tokens).observed(class, token) == self.absorbed(class, tokens.push(token)),
    {
        broadcast use vstd::seq_lib::group_to_multiset_ensures;

        let one = self.absorbed(class, tokens).observed(class, token);
        let all = self.absorbed(class, tokens.push(token));
        assert(self.features(class).add(tokens.to_multiset()).insert(token) =~= self.features(class).add(
            tokens.push(token).to_multiset(),
        ));
        assert(one.class_feature_counts =~= all.class_feature_counts);
        assert(tokens.push(token).to_set() =~= tokens.to_set().insert(token)) by {
            assert forall|t: Seq<char>| tokens.push(token).to_set().contains(t) <==> tokens.to_set().insert(
                token,
            ).contains(t) by {
                if tokens.contains(t) {
                    let k = choose|k: int| 0 <= k < tokens.len() && tokens[k] == t;
                    assert(tokens.push(token)[k] == t);
                }
                if t == token {
                    assert(tokens.push(token)[tokens.len() as int] == t);
                }
            }
        }
        assert(one.vocabulary =~= all.vocabulary);
    }

    /// The product, over the tokens, of one more than the token's count in `class`.
    pub open spec fn likelihood_weight(self, class: Seq<char>, tokens: Seq<Seq<char>>) -> nat
        decreases tokens.len(),
    {
        if tokens.len() == 0 {
            1
        } else {
            self.likelihood_weight(class, tokens.drop_last()) * (self.features(class).count(tokens.last()) + 1)
        }
    }

    /// What every smoothed token count of `class` is divided by: the tokens counted for the
    /// class and the size of the vocabulary.
    pub open spec fn smoothing(self, class: Seq<char>) -> nat {
        self.features(class).len() + self.vocabulary.len()
    }

    /// The numerator of the score of `class`: its sample count times the smoothed counts of the tokens.
    pub open spec fn numerator(self, class: Seq<char>, tokens: Seq<Seq<char>>) -> nat {
        self.class_counts.count(class) * self.likelihood_weight(class, tokens)
    }

    /// The denominator of the score of `class`: its smoothing term once for every token.
    pub open spec fn denominator(self, class: Seq<char>, tokens: Seq<Seq<char>>) -> nat {
        power(self.smoothing(class), tokens.len())
    }

    /// Whether the score of `c` for `tokens` is greater than that of `d`.
    ///
    /// The score of a class is the probability of the class times, for each token,
    /// the smoothed probability of the token in the class. Its logarithm is the sum
    /// of the logarithms of these factors; the logarithm grows with its argument, so
    /// the sums compare as the products do. The number of samples divides
    /// every score alike and is left out. The two fractions are compared by
    /// cross-multiplication, which also settles the case of an empty vocabulary, where
    /// every denominator is zero and no class outscores another.
    pub open spec fn outscores(self, c: Seq<char>, d: Seq<char>, tokens: Seq<Seq<char>>) -> bool {
        self.numerator(c, tokens) * self.denominator(d, tokens) > self.numerator(d, tokens) * self.denominator(
            c,
            tokens,
        )
    }

    /// Whether the class at position `r` is the prediction for `tokens`: no class outscores
    /// it, and it outscores every class trained before it. Of the classes with the
    /// greatest score this is the one that was trained first.
    pub open spec fn best_at(self, tokens: Seq<Seq<char>>, r: int) -> bool {
        &&& 0 <= r < self.classes.len()
        &&& forall|k: int| 0 <= k < self.classes.len() ==> !self.outscores(#[trigger] self.classes[k], self.classes[r], tokens)
        &&& forall|k: int| 0 <= k < r ==> self.outscores(self.classes[r], #[trigger] self.classes[k], tokens)
    }

    /// Whether `label` is the prediction for `tokens`.
    pub open spec fn predicts(self, tokens: Seq<Seq<char>>, label: Seq<char>) -> bool {
        exists|r: int| self.best_at(tokens, r) && self.classes[r] == label
    }

    /// Either every class divides by something positive, or the vocabulary is empty
    /// and every class divides by the same.
    pub proof fn lemma_denominators(self, tokens: Seq<Seq<char>>, c: Seq<char>, d: Seq<char>)
        requires
            self.wf(),
        ensures
            (self.denominator(c, tokens) > 0 && self.denominator(d, tokens) > 0) || self.denominator(c, tokens)
                == self.denominator(d, tokens),
    {
        if self.vocabulary.len() > 0 {
            lemma_power_positive(self.smoothing(c), tokens.len());
            lemma_power_positive(self.smoothing(d), tokens.len());
        } else {
            self.lemma_no_features(c);
            self.lemma_no_features(d);
        }
    }

    /// While the vocabulary is empty, no class has counted a token.
    proof fn lemma_no_features(self, c: Seq<char>)
        requires
            self.wf(),
            self.vocabulary =~= Set::empty(),
        ensures
            self.features(c).len() == 0,
    {
        assert forall|t: Seq<char>| self.features(c).count(t) == 0 by {
            if self.features(c).count(t) > 0 {
                assert(self.seen_in(c, t));
                assert(self.vocabulary.contains(t));
            }
        }
        lemma_multiset_empty_len(self.features(c));
    }

    /// A class that outscores one which a third does not outscore, outscores the third.
    pub proof fn lemma_outscores_chain(self, tokens: Seq<Seq<char>>, a: Seq<char>, b: Seq<char>, c: Seq<char>)
        requires
            self.wf(),
            !self.outscores(a, b, tokens),
            self.outscores(c, b, tokens),
        ensures
            self.outscores(c, a, tokens),
    {
        let na = self.numerator(a, tokens);
        let nb = self.numerator(b, tokens);
        let nc = self.numerator(c, tokens);
        let da = self.denominator(a, tokens);
        let db = self.denominator(b, tokens);
        let dc = self.denominator(c, tokens);
        self.lemma_denominators(tokens, a, b);
        self.lemma_denominators(tokens, c, b);
        assert(db > 0 && dc > 0 && da > 0) by (nonlinear_arith)
            requires
                nc * db > nb * dc,
                (da > 0 && db > 0) || da == db,
                (dc > 0 && db > 0) || dc == db,
        ;
        assert((nc * db) * da > (nb * dc) * da) by (nonlinear_arith)
            requires
                nc * db > nb * dc,
                da > 0,
        ;
        assert((nb * da) * dc >= (na * db) * dc) by (nonlinear_arith)
            requires
                na * db <= nb * da,
                dc > 0,
        ;
        assert((nc * da) * db > (na * dc) * db) by (nonlinear_arith)
            requires
                (nc * db) * da > (nb * dc) * da,
                (nb * da) * dc >= (na * db) * dc,
        ;
        assert(nc * da > na * dc) by (nonlinear_arith)
            requires
                (nc * da) * db > (na * dc) * db,
                db > 0,
        ;
    }

    /// A model has at most one prediction for a text.
    pub proof fn lemma_prediction_unique(self, tokens: Seq<Seq<char>>, first: Seq<char>, second: Seq<char>)
        requires
            self.predicts(tokens, first),
            self.predicts(tokens, second),
        ensures
            first == second,
    {
    }
}

} // verus!
