//! Core of a Japanese sentence-mining service: a morphological-analysis
//! facade, a corpus-frequency catalog, a token service with per-user
//! revocation, and the word/sentence mining state machine over an
//! in-memory transactional store.

pub mod analyzer;
pub mod env;
pub mod frequency_list;
pub mod models;
pub mod responses;
pub mod store;
pub mod tokens;
