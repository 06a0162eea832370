//! What holds of every model and of every run of trainings.

use crate::view::ModelView;
use vstd::prelude::*;

verus! {

/// The model after training, from the empty model, on each sample in turn. A sample is
/// its tokens and its class.
pub open spec fn after_all(samples: Seq<(Seq<Seq<char>>, Seq<char>)>) -> ModelView
    decreases samples.len(),
{
    if samples.len() == 0 {
        ModelView::empty()
    } else {
        after_all(samples.drop_last()).trained(samples.last().0, samples.last().1)
    }
}

/// The empty model meets the invariants of the data model.
pub proof fn lemma_empty_wf()
    ensures
        ModelView::empty().wf(),
{
    let m = ModelView::empty();
    assert forall|t: Seq<char>| #[trigger] m.vocabulary.contains(t) <==> exists|c: Seq<char>| m.seen_in(c, t) by {}
}

/// Training keeps the invariants of the data model.
pub proof fn lemma_trained_wf(m: ModelView, tokens: Seq<Seq<char>>, class: Seq<char>)
    requires
        m.wf(),
    ensures
        m.trained(tokens, class).wf(),
{
    broadcast use vstd::seq_lib::group_to_multiset_ensures;

    let after = m.trained(tokens, class);
    assert forall|c: Seq<char>| after.classes.contains(c) <==> #[trigger] after.class_counts.count(c) > 0 by {
        if m.classes.contains(c) {
            let i = choose|i: int| 0 <= i < m.classes.len() && m.classes[i] == c;
            assert(after.classes[i] == c);
        }
        if c == class && !m.classes.contains(class) {
            assert(after.classes[m.classes.len() as int] == class);
        }
    }
    assert forall|c: Seq<char>| after.classes.contains(c) <==> #[trigger] after.class_feature_counts.contains_key(
        c,
    ) by {
        assert(after.classes.contains(c) <==> after.class_counts.count(c) > 0);
    }
    assert forall|t: Seq<char>| #[trigger] after.vocabulary.contains(t) <==> exists|c: Seq<char>| after.seen_in(c, t) by {
        if m.vocabulary.contains(t) {
            let c = choose|c: Seq<char>| m.seen_in(c, t);
            assert(after.seen_in(c, t));
        }
        if tokens.contains(t) {
            assert(after.seen_in(class, t));
        }
        if exists|c: Seq<char>| after.seen_in(c, t) {
            let c = choose|c: Seq<char>| after.seen_in(c, t);
            if c != class || m.features(class).count(t) > 0 {
                assert(m.seen_in(c, t));
            }
        }
    }
}

/// Every model that trainings lead to meets the invariants of the data model.
pub proof fn lemma_after_all_wf(samples: Seq<(Seq<Seq<char>>, Seq<char>)>)
    ensures
        after_all(samples).wf(),
    decreases samples.len(),
{
    if samples.len() == 0 {
        lemma_empty_wf();
    } else {
        lemma_after_all_wf(samples.drop_last());
        lemma_trained_wf(after_all(samples.drop_last()), samples.last().0, samples.last().1);
    }
}

/// After any number of trainings, the number of samples is the number of trainings.
pub proof fn lemma_total_samples(samples: Seq<(Seq<Seq<char>>, Seq<char>)>)
    ensures
        after_all(samples).total_samples == samples.len(),
    decreases samples.len(),
{
    if samples.len() > 0 {
        lemma_total_samples(samples.drop_last());
    }
}

/// After training on a sample of a class, the class is one of the classes, and it has
/// exactly one more sample; every other class has as many as before.
pub proof fn lemma_trained_class(m: ModelView, tokens: Seq<Seq<char>>, class: Seq<char>)
    ensures
        m.trained(tokens, class).classes.contains(class),
        m.trained(tokens, class).class_counts.count(class) == m.class_counts.count(class) + 1,
        forall|other: Seq<char>|
            other != class ==> m.trained(tokens, class).class_counts.count(other) == m.class_counts.count(other),
{
    if !m.classes.contains(class) {
        assert(m.trained(tokens, class).classes[m.classes.len() as int] == class);
    }
}

/// Training adds, to each token's count in the class, the number of times that the
/// token occurs in the sample, and leaves the counts of the other classes as they are.
pub proof fn lemma_trained_counts(m: ModelView, tokens: Seq<Seq<char>>, class: Seq<char>, token: Seq<char>)
    ensures
        m.trained(tokens, class).features(class).count(token) == m.features(class).count(token)
            + tokens.to_multiset().count(token),
        m.trained(tokens, class).features(class).len() == m.features(class).len() + tokens.len(),
        forall|other: Seq<char>| other != class ==> m.trained(tokens, class).features(other) == m.features(other),
{
    broadcast use vstd::seq_lib::group_to_multiset_ensures;
}

/// No count ever goes down: after a training every class has at least the samples, and
/// of every token at least the occurrences, that it had before.
pub proof fn lemma_counts_grow(
    m: ModelView,
    tokens: Seq<Seq<char>>,
    class: Seq<char>,
    other: Seq<char>,
    token: Seq<char>,
)
    ensures
        m.trained(tokens, class).total_samples > m.total_samples,
        m.trained(tokens, class).class_counts.count(other) >= m.class_counts.count(other),
        m.trained(tokens, class).features(other).count(token) >= m.features(other).count(token),
        m.vocabulary.subset_of(m.trained(tokens, class).vocabulary),
{
    lemma_trained_class(m, tokens, class);
    lemma_trained_counts(m, tokens, class, token);
}

/// Training twice on the same sample adds to each token's count in the class exactly
/// twice what training once adds. From a model in which the class has counted nothing,
/// the counts after the second training are double those after the first.
pub proof fn lemma_trained_twice(m: ModelView, tokens: Seq<Seq<char>>, class: Seq<char>, token: Seq<char>)
    ensures
        ({
            let once = m.trained(tokens, class);
            let twice = once.trained(tokens, class);
            &&& twice.features(class).count(token) - m.features(class).count(token) == 2 * (once.features(
                class,
            ).count(token) - m.features(class).count(token))
            &&& m.features(class).count(token) == 0 ==> twice.features(class).count(token) == 2
                * once.features(class).count(token)
        }),
{
    lemma_trained_counts(m, tokens, class, token);
    lemma_trained_counts(m.trained(tokens, class), tokens, class, token);
}

/// The model before any training has no prediction for any text.
pub proof fn lemma_empty_predicts_nothing(tokens: Seq<Seq<char>>, label: Seq<char>)
    ensures
        !ModelView::empty().predicts(tokens, label),
{
}

/// A model with a single class predicts that class for every text.
pub proof fn lemma_single_class(m: ModelView, tokens: Seq<Seq<char>>)
    requires
        m.classes.len() == 1,
    ensures
        m.predicts(tokens, m.classes[0]),
{
}

/// Among the first `k` classes of a model there is one which none of them outscores and
/// which outscores all that come before it.
proof fn lemma_best_among(m: ModelView, tokens: Seq<Seq<char>>, k: int) -> (r: int)
    requires
        m.wf(),
        1 <= k <= m.classes.len(),
    ensures
        0 <= r < k,
        forall|j: int| 0 <= j < k ==> !m.outscores(#[trigger] m.classes[j], m.classes[r], tokens),
        forall|j: int| 0 <= j < r ==> m.outscores(m.classes[r], #[trigger] m.classes[j], tokens),
    decreases k,
{
    if k == 1 {
        0
    } else {
        let b = lemma_best_among(m, tokens, k - 1);
        let i = k - 1;
        if m.outscores(m.classes[i], m.classes[b], tokens) {
            assert forall|j: int| 0 <= j < i implies m.outscores(m.classes[i], #[trigger] m.classes[j], tokens) by {
                m.lemma_outscores_chain(tokens, m.classes[j], m.classes[b], m.classes[i]);
            }
            i
        } else {
            b
        }
    }
}

/// A model with at least one class has a prediction for every text, also for one
/// whose tokens it has never seen.
pub proof fn lemma_prediction_exists(m: ModelView, tokens: Seq<Seq<char>>)
    requires
        m.wf(),
        m.classes.len() > 0,
    ensures
        exists|label: Seq<char>| m.predicts(tokens, label),
{
    let r = lemma_best_among(m, tokens, m.classes.len() as int);
    assert(m.predicts(tokens, m.classes[r]));
}

} // verus!
