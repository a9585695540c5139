//! Core of a tracing, mark-and-sweep garbage collected arena built on an
//! Immix-style allocator: line and block marks, hole finding, bump
//! allocation, block recycling, rotating GC marks, object layouts, tagged
//! words and collection metrics.
pub mod constants;
pub mod raw_allocator;
pub mod header;
pub mod pointee;
pub mod allocator;
pub mod tagged;
pub mod metrics;
pub mod space;
pub mod block;
pub mod bump_block;
pub mod block_space;
pub mod heap;
