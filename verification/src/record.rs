//! The plain form in which a model is stored: which records are models, and
//! which model a record is.

use crate::tally::{bag_of, total};
use crate::view::ModelView;
use vstd::prelude::*;

verus! {

/// The version of the layout of a record. A record of another version is no model.
pub const SCHEMA_VERSION: u32 = 1;

/// A model as plain values: the version of the layout; for each class its label, its
/// number of samples and its token counts by position in the vocabulary; the
/// vocabulary; and the number of samples.
pub type Record = (u32, Vec<(String, u64, Vec<u64>)>, Vec<String>, u64);

/// What a `Record` holds.
pub type RecordView = (u32, Seq<(Seq<char>, u64, Seq<u64>)>, Seq<Seq<char>>, u64);

/// The labels of the classes, in their order.
pub open spec fn labels_of(classes: Seq<(Seq<char>, u64, Seq<u64>)>) -> Seq<Seq<char>> {
    Seq::new(classes.len(), |i: int| classes[i].0)
}

/// The sample counts of the classes, in their order.
pub open spec fn samples_of(classes: Seq<(Seq<char>, u64, Seq<u64>)>) -> Seq<u64> {
    Seq::new(classes.len(), |i: int| classes[i].1)
}

/// Whether the class at position `i` of the record has counted the word at position `j`.
pub open spec fn record_counts_word(record: RecordView, i: int, j: int) -> bool {
    &&& 0 <= i < record.1.len()
    &&& 0 <= j < record.1[i].2.len()
    &&& record.1[i].2[j] > 0
}

/// Whether some class of the record has counted the word at position `j`.
pub open spec fn record_word_counted(record: RecordView, j: int) -> bool {
    exists|i: int| #[trigger] record_counts_word(record, i, j)
}

/// Whether a record is a model: it has the layout of this version, no label and no
/// word stands twice, every class has a sample, counts only words of the vocabulary
/// and has token counts that add up within a machine word, the sample counts add up
/// to the total, and every word of the vocabulary was counted by some class.
pub open spec fn record_valid(record: RecordView) -> bool {
    &&& record.0 == SCHEMA_VERSION
    &&& labels_of(record.1).no_duplicates()
    &&& record.2.no_duplicates()
    &&& forall|i: int|
        0 <= i < record.1.len() ==> {
            &&& (#[trigger] record.1[i]).1 >= 1
            &&& record.1[i].2.len() <= record.2.len()
            &&& total(record.1[i].2) <= u64::MAX
        }
    &&& total(samples_of(record.1)) == record.3
    &&& forall|j: int| 0 <= j < record.2.len() ==> #[trigger] record_word_counted(record, j)
}

/// The model that a record is.
pub open spec fn record_model(record: RecordView) -> ModelView {
    ModelView {
        classes: labels_of(record.1),
        class_counts: bag_of(samples_of(record.1), labels_of(record.1)),
        class_feature_counts: Map::new(
            |c: Seq<char>| labels_of(record.1).contains(c),
            |c: Seq<char>| bag_of(record.1[labels_of(record.1).index_of(c)].2, record.2),
        ),
        vocabulary: record.2.to_set(),
        total_samples: record.3 as nat,
    }
}

} // verus!
