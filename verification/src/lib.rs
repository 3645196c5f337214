//! Query engine of an analysis server for heap-profiling captures.
//!
//! A capture lists every allocation, reallocation and deallocation that was
//! seen in a traced process. This crate filters, groups, sorts and
//! summarises the allocations of a capture that is already in memory.

pub use crate::error::ServerError;

pub mod timestamp;
pub mod text;
pub mod capture;
pub mod validate;
pub mod protocol;
pub mod fragmentation;
pub mod heap_order;
pub mod frames;
pub mod pattern;
pub mod frame_cache;
pub mod id_set;
pub mod filter;
pub mod allocations;
pub mod sorting;
pub mod groups;
pub mod group_data;
pub mod group_cache;
pub mod generated;
pub mod scripts;
pub mod timeline;
pub mod regions;
pub mod mmaps;
pub mod backtraces;
pub mod state;
pub mod error;
pub mod answers;
pub mod collation;
pub mod raw;
pub mod tree;
