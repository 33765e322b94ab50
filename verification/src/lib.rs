//! Deduplication of regular files under a base directory by hard links, built
//! around an in-memory index that is kept consistent after every admission.

pub mod admission;
pub mod audit;
pub mod buckets;
pub mod decimal;
pub mod digest;
pub mod error;
pub mod file_entry;
pub mod files_index;
pub mod fs;
pub mod laws;
pub mod link;
pub mod memfs;
pub mod paths;
pub mod readonly;
pub mod sidecar;
pub mod stream;
mod table;
