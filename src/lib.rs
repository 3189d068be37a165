//! An ordered, indexed store of test cases kept in memory, with a corpus
//! built on it that also tracks a "current" entry.

pub mod corpus;
pub mod corpus_id;
pub mod order;
pub mod sorted_storage;
pub mod storage;
pub mod store;
pub mod storage_map;
pub mod testcase;
