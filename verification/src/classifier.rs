//! The two operations of the classifier on raw text: train and predict.

use crate::model::{ModelError, NaiveBayesModel};
use crate::snapshot::Snapshot;
use crate::tokenizer::{tokenize, tokens_of};
use vstd::prelude::*;

verus! {

impl NaiveBayesModel {
    /// Counts the sample `text` for `class`: one more sample, and each token of the
    /// text once more for the class. Where a counter has no room, nothing changes.
    pub fn collect_data(&mut self, text: &str, class: &str) -> (r: Result<(), ModelError>)
        requires
            old(self).wf(),
        ensures
            final(self).wf(),
            match r {
                Ok(()) => {
                    &&& old(self)@.has_room(class@, tokens_of(text@).len())
                    &&& final(self)@ == old(self)@.trained(tokens_of(text@), class@)
                    &&& final(self)@.total_samples == old(self)@.total_samples + 1
                    &&& final(self)@.classes.contains(class@)
                    &&& final(self)@.class_counts.count(class@) == old(self)@.class_counts.count(class@) + 1
                    &&& forall|token: Seq<char>| #[trigger]
                        final(self)@.features(class@).count(token) == old(self)@.features(class@).count(token)
                            + tokens_of(text@).to_multiset().count(token)
                },
                Err(e) => {
                    &&& e == ModelError::CapacityExceeded
                    &&& !old(self)@.has_room(class@, tokens_of(text@).len())
                    &&& *final(self) == *old(self)
                },
            },
    {
        let tokens = tokenize(text);
        self.accumulate(&tokens, class)
    }

    /// Trains on the sample `file_content` of `class` and returns the snapshot that
    /// is to be stored.
    ///
    /// The call succeeds if the sample was counted and the snapshot was made. Where
    /// the snapshot fails, the sample stays counted.
    pub fn train(&mut self, file_content: String, class: String) -> (r: Result<Snapshot, ModelError>)
        requires
            old(self).wf(),
        ensures
            final(self).wf(),
            old(self)@.has_room(class@, tokens_of(file_content@).len()) ==> {
                &&& final(self)@ == old(self)@.trained(tokens_of(file_content@), class@)
                &&& final(self)@.total_samples == old(self)@.total_samples + 1
                &&& final(self)@.classes.contains(class@)
                &&& final(self)@.class_counts.count(class@) == old(self)@.class_counts.count(class@) + 1
                &&& forall|token: Seq<char>| #[trigger]
                    final(self)@.features(class@).count(token) == old(self)@.features(class@).count(token)
                        + tokens_of(file_content@).to_multiset().count(token)
            },
            !old(self)@.has_room(class@, tokens_of(file_content@).len()) ==> *final(self) == *old(self),
            if old(self)@.has_room(class@, tokens_of(file_content@).len()) {
                final(self).save_outcome(class@, r)
            } else {
                r matches Err(e) && e == ModelError::CapacityExceeded
            },
    {
        match self.collect_data(file_content.as_str(), class.as_str()) {
            Ok(()) => self.save(class.as_str()),
            Err(e) => Err(e),
        }
    }

    /// The class that `text` most likely belongs to: that with the greatest score
    /// for the tokens of the text, and of several such the one trained first.
    pub fn predict(&self, text: String) -> (r: Result<String, ModelError>)
        requires
            self.wf(),
        ensures
            r is Err <==> self@.classes.len() == 0,
            match r {
                Ok(label) => self@.predicts(tokens_of(text@), label@),
                Err(e) => e == ModelError::ModelEmpty,
            },
    {
        let tokens = tokenize(text.as_str());
        self.predict_tokens(&tokens)
    }
}

impl ModelError {
    /// The error in words.
    pub fn message(&self) -> (text: String)
        ensures
            text@ == match *self {
                ModelError::ModelEmpty => "the model has no classes"@,
                ModelError::CapacityExceeded => "a counter of the model is full"@,
                ModelError::SerializationFailure => "the snapshot could not be encoded or decoded"@,
                ModelError::TimestampUnavailable => "the time of the snapshot could not be written"@,
            },
    {
        match self {
            ModelError::ModelEmpty => String::from_str("the model has no classes"),
            ModelError::CapacityExceeded => String::from_str("a counter of the model is full"),
            ModelError::SerializationFailure => String::from_str("the snapshot could not be encoded or decoded"),
            ModelError::TimestampUnavailable => String::from_str("the time of the snapshot could not be written"),
        }
    }
}

} // verus!
