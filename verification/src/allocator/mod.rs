pub mod block;
pub mod header;
pub mod block_meta;
pub mod block_store;
