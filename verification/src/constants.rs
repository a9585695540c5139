use vstd::prelude::*;

verus! {

/// Value of a line or block mark that holds no live object.
pub const FREE_MARK: u8 = 0;

/// Size (and alignment) of one block of the immix heap.
pub const BLOCK_SIZE: usize = 32768;

/// Size of one line: the granularity at which liveness is recorded.
pub const LINE_SIZE: usize = 128;

/// Number of mark slots of a block: one per line of the block. The marks
/// take the last bytes of the block, so the slots of the lines they cover
/// mark no objects; the very last slot records the block mark.
pub const LINE_COUNT: usize = BLOCK_SIZE / LINE_SIZE;

/// Bytes of a block that objects may occupy: all but the marks.
pub const BLOCK_CAPACITY: usize = BLOCK_SIZE - LINE_COUNT;

/// Offset of the mark slots within a block.
pub const LINE_MARK_START: usize = BLOCK_CAPACITY;

pub const SMALL_OBJECT_MIN: usize = 1;
pub const SMALL_OBJECT_MAX: usize = LINE_SIZE;
pub const MEDIUM_OBJECT_MIN: usize = SMALL_OBJECT_MAX + 1;
pub const MEDIUM_OBJECT_MAX: usize = BLOCK_CAPACITY;
pub const LARGE_OBJECT_MIN: usize = MEDIUM_OBJECT_MAX + 1;
pub const LARGE_OBJECT_MAX: usize = 4294967295;

/// Size of the address space a block space manages: 64 blocks.
pub const SPACE_SIZE: usize = BLOCK_SIZE * 64;

/// Upper bound on the number of free blocks released by one refresh of a
/// block store.
pub const FREE_RELEASE_MAX: usize = 10000;

/// Values of the constants, for proofs that need them as numbers.
pub proof fn lemma_constant_values()
    ensures
        BLOCK_SIZE == 32768,
        LINE_SIZE == 128,
        LINE_COUNT == 256,
        BLOCK_CAPACITY == 32512,
        LINE_MARK_START == 32512,
        MEDIUM_OBJECT_MIN == 129,
        LARGE_OBJECT_MIN == 32513,
        SPACE_SIZE == 2097152,
{
}

} // verus!
