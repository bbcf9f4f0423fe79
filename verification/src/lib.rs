//! Ferrite DB — embedded nearest-neighbour search: the verified core.
//!
//! Tables, typed Metadata Schemas, the Predicate Tree, Delta buffering with
//! Tombstones, Compaction merge, Segment byte format, admission control and
//! the index ladder policy.

pub mod admission;
pub mod compaction;
pub mod corpus;
pub mod errors;
pub mod explorer;
pub mod storage;
pub mod table;
pub mod text;
pub mod index_substrate;
pub mod json_predicate;
pub mod search;
pub mod session;
pub mod write_path;
