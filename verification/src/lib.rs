//! A probabilistic spell-correction engine.
//!
//! A [`Checker`] owns a word-frequency table built from training text.
//! `train` tokenizes a corpus into lowercase letter runs and accumulates
//! word counts; `correct` proposes the most frequent known word within
//! edit distance two of a query, preferring an exact match, then any
//! distance-one match, then any distance-two match, and falling back to
//! the query itself.

mod checker;
mod edit;
mod laws;
mod table;
mod text;

pub use checker::Checker;
