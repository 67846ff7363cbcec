//! Heap storage for a small tuple store: identifiers, the byte layout of
//! tuples and pages, the durable page directory and the page cache.

pub mod codec;
pub mod error;
pub mod heap;
pub mod lake;
pub mod schema;
pub mod shared_map;
