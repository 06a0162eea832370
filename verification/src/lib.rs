//! An incremental naive Bayes classifier of text, with its rules stated as
//! contracts and proved.
//!
//! A model counts, class by class, the samples it was trained on and the tokens
//! they held, and predicts for a text the class with the greatest score.
//!
//! - [`view`] holds the model as mathematics: what training does to it and which
//!   class it predicts.
//! - [`laws`] holds what follows for every model and every run of trainings.
//! - [`tokenizer`] turns text into tokens.
//! - [`model`] is the classifier itself; [`classifier`] adds the two operations on
//!   raw text, `train` and `predict`.
//! - [`snapshot`] turns a model into the bytes and file names of a snapshot, and
//!   the bytes of a snapshot into a model; [`record`] says which plain values are
//!   a model.
//! - [`lexicon`], [`tally`] and [`bignat`] are what the model is built from:
//!   distinct words in order, counts read as multisets, and numbers large enough
//!   to compare scores exactly.
//!
//! The library reads and writes no file. A snapshot says what is to be written
//! and where; writing it is left to the program that uses the library.

pub mod bignat;
pub mod classifier;
pub mod laws;
pub mod lexicon;
pub mod model;
pub mod record;
pub mod snapshot;
pub mod tally;
pub mod tokenizer;
pub mod view;

pub use model::{ModelError, NaiveBayesModel};
pub use snapshot::Snapshot;
pub use tokenizer::tokenize;
