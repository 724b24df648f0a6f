//! Ergonomic scoring of keyboard layouts against a weighted text corpus.
//!
//! The crate resolves every character of a layout to its sequence of key
//! presses, projects character n-gram weights onto key-press n-grams, and
//! classifies and aggregates them into ergonomic categories.

pub mod anomalies;
pub mod assoc;
pub mod corpus;
pub mod geometry;
pub mod hands;
pub mod kalamine;
pub mod keyseq;
pub mod resolution;
pub mod stats;

pub use stats::analyse;
