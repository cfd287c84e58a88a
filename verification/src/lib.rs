//! Lemmatization by edit scripts.
//!
//! A compact, character-oriented notation describes, from the end of a word
//! backward, which suffix segments to remove, add, or keep. Parsing that
//! notation into typed instructions and replaying them against a word yields
//! the word's dictionary base form (its lemma).

pub mod apply;
pub mod error;
pub mod laws;
pub mod numparse;
pub mod script;
