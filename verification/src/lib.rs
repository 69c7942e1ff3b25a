//! A verified inverted index for plain-text notes.
//!
//! The library keeps four mutually consistent maps (token to document ids,
//! id to document, path to id, id to token set), supports add, remove,
//! upsert and keyword search over them, and provides the pure decision
//! logic for a filesystem synchronizer that keeps the index in step with
//! file events.

pub mod document;
pub mod idmap;
pub mod idset;
pub mod index;
pub mod ingestion;
pub mod laws;
pub mod postings;
pub mod seqext;
pub mod snapshot;
pub mod strmap;
pub mod synchronizer;
pub mod tokenset;
pub mod tokenizer;
pub mod watcher;

pub use tokenizer::tokenize;
