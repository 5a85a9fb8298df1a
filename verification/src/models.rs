//! Entity types of the data model and the operations that act on them.

pub mod mining_batch;
pub mod sentence;
pub mod user;
pub mod word;
