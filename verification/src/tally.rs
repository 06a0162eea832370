//! Counts held in a vector beside the words they count, read as a multiset.

use vstd::multiset::*;
use vstd::prelude::*;

verus! {

/// The multiset that holds `word` exactly `n` times.
pub open spec fn copies(word: Seq<char>, n: nat) -> Multiset<Seq<char>>
    decreases n,
{
    if n == 0 {
        Multiset::empty()
    } else {
        copies(word, (n - 1) as nat).insert(word)
    }
}

/// The multiset that holds `words[j]` exactly `counts[j]` times, for each position `j` of `counts`.
pub open spec fn bag_of(counts: Seq<u64>, words: Seq<Seq<char>>) -> Multiset<Seq<char>>
    decreases counts.len(),
{
    if counts.len() == 0 {
        Multiset::empty()
    } else {
        bag_of(counts.drop_last(), words).add(
            copies(words[counts.len() - 1], counts.last() as nat),
        )
    }
}

/// The sum of `counts`.
pub open spec fn total(counts: Seq<u64>) -> nat
    decreases counts.len(),
{
    if counts.len() == 0 {
        0
    } else {
        total(counts.drop_last()) + counts.last() as nat
    }
}

/// `copies(word, n)` holds `word` exactly `n` times, and nothing else.
pub proof fn lemma_copies(word: Seq<char>, n: nat)
    ensures
        copies(word, n).len() == n,
        copies(word, n).count(word) == n,
        forall|other: Seq<char>| other != word ==> copies(word, n).count(other) == 0,
    decreases n,
{
    if n > 0 {
        lemma_copies(word, (n - 1) as nat);
    }
}

/// The multiset of a tally is as large as the counts add up to.
pub proof fn lemma_bag_len(counts: Seq<u64>, words: Seq<Seq<char>>)
    ensures
        bag_of(counts, words).len() == total(counts),
    decreases counts.len(),
{
    if counts.len() > 0 {
        lemma_bag_len(counts.drop_last(), words);
        lemma_copies(words[counts.len() - 1], counts.last() as nat);
    }
}

/// The multiset of a tally over distinct words holds each word as often as its count says,
/// and no other word.
pub proof fn lemma_bag_count(counts: Seq<u64>, words: Seq<Seq<char>>)
    requires
        words.no_duplicates(),
        counts.len() <= words.len(),
    ensures
        forall|j: int| 0 <= j < counts.len() ==> bag_of(counts, words).count(#[trigger] words[j]) == counts[j],
        forall|w: Seq<char>|
            (forall|j: int| 0 <= j < counts.len() ==> words[j] != w) ==> #[trigger] bag_of(counts, words).count(w) == 0,
    decreases counts.len(),
{
    if counts.len() > 0 {
        let n = counts.len() - 1;
        lemma_bag_count(counts.drop_last(), words);
        lemma_copies(words[n], counts.last() as nat);
        assert forall|j: int| 0 <= j < counts.len() implies bag_of(counts, words).count(#[trigger] words[j])
            == counts[j] by {
            if j == n {
                assert forall|k: int| 0 <= k < n implies words[k] != words[n] by {}
                assert(bag_of(counts.drop_last(), words).count(words[n]) == 0);
            }
        }
        assert forall|w: Seq<char>| (forall|j: int| 0 <= j < counts.len() ==> words[j] != w) implies #[trigger] bag_of(
            counts,
            words,
        ).count(w) == 0 by {
            assert forall|k: int| 0 <= k < n implies words[k] != w by {}
            assert(bag_of(counts.drop_last(), words).count(w) == 0);
        }
    }
}

/// No count is above the sum.
pub proof fn lemma_total_bounds(counts: Seq<u64>, j: int)
    requires
        0 <= j < counts.len(),
    ensures
        counts[j] <= total(counts),
    decreases counts.len(),
{
    if j < counts.len() - 1 {
        lemma_total_bounds(counts.drop_last(), j);
    }
}

/// Replacing one count moves the sum by the difference.
pub proof fn lemma_total_update(counts: Seq<u64>, j: int, v: u64)
    requires
        0 <= j < counts.len(),
    ensures
        total(counts.update(j, v)) == total(counts) - counts[j] + v,
    decreases counts.len(),
{
    let after = counts.update(j, v);
    if j < counts.len() - 1 {
        lemma_total_update(counts.drop_last(), j, v);
        assert(after.drop_last() =~= counts.drop_last().update(j, v));
    } else {
        assert(after.drop_last() =~= counts.drop_last());
    }
}

/// A word beyond the counts does not change the multiset.
pub proof fn lemma_bag_more_words(counts: Seq<u64>, words: Seq<Seq<char>>, word: Seq<char>)
    requires
        counts.len() <= words.len(),
    ensures
        bag_of(counts, words.push(word)) == bag_of(counts, words),
    decreases counts.len(),
{
    if counts.len() > 0 {
        lemma_bag_more_words(counts.drop_last(), words, word);
    }
}

/// A count of zero at the end changes neither the multiset nor the sum.
pub proof fn lemma_bag_pad(counts: Seq<u64>, words: Seq<Seq<char>>)
    ensures
        bag_of(counts.push(0), words) == bag_of(counts, words),
        total(counts.push(0)) == total(counts),
{
    assert(counts.push(0).drop_last() =~= counts);
}

/// One more at position `j` puts `words[j]` into the multiset once more.
pub proof fn lemma_bag_bump(counts: Seq<u64>, words: Seq<Seq<char>>, j: int)
    requires
        words.no_duplicates(),
        counts.len() <= words.len(),
        0 <= j < counts.len(),
        counts[j] < u64::MAX,
    ensures
        bag_of(counts.update(j, (counts[j] + 1) as u64), words) == bag_of(counts, words).insert(words[j]),
        total(counts.update(j, (counts[j] + 1) as u64)) == total(counts) + 1,
{
    let after = counts.update(j, (counts[j] + 1) as u64);
    lemma_bag_count(counts, words);
    lemma_bag_count(after, words);
    lemma_total_update(counts, j, (counts[j] + 1) as u64);
    let lhs = bag_of(after, words);
    let rhs = bag_of(counts, words).insert(words[j]);
    assert forall|w: Seq<char>| lhs.count(w) == rhs.count(w) by {}
}

/// A part of the counts at their start adds up to no more than all of them.
pub proof fn lemma_total_prefix(counts: Seq<u64>, k: int)
    requires
        0 <= k <= counts.len(),
    ensures
        total(counts.take(k)) <= total(counts),
    decreases counts.len(),
{
    if k < counts.len() {
        lemma_total_prefix(counts.drop_last(), k);
        assert(counts.drop_last().take(k) =~= counts.take(k));
    } else {
        assert(counts.take(k) =~= counts);
    }
}

/// The sum of `counts`, if it fits a machine word.
pub fn checked_total(counts: &Vec<u64>) -> (r: Option<u64>)
    ensures
        match r {
            Some(sum) => sum == total(counts@),
            None => total(counts@) > u64::MAX,
        },
{
    let n = counts.len();
    let mut sum: u64 = 0;
    let mut i: usize = 0;
    while i < n
        invariant
            n == counts@.len(),
            i <= n,
            sum == total(counts@.take(i as int)),
        decreases n - i,
    {
        proof {
            assert(counts@.take(i + 1).drop_last() =~= counts@.take(i as int));
            lemma_total_prefix(counts@, i + 1);
        }
        if counts[i] > u64::MAX - sum {
            return None;
        }
        sum = sum + counts[i];
        i = i + 1;
    }
    proof {
        assert(counts@.take(n as int) =~= counts@);
    }
    Some(sum)
}

/// The same counts in a vector of their own.
pub fn copy_counts(counts: &Vec<u64>) -> (copy: Vec<u64>)
    ensures
        copy@ == counts@,
{
    let n = counts.len();
    let mut copy: Vec<u64> = Vec::new();
    let mut i: usize = 0;
    while i < n
        invariant
            n == counts@.len(),
            i <= n,
            copy@ == counts@.take(i as int),
        decreases n - i,
    {
        copy.push(counts[i]);
        i = i + 1;
    }
    copy
}

} // verus!
