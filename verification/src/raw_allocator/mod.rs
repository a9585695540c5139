pub mod error;
pub mod size_class;
pub mod block_meta;
pub mod bump_block;
