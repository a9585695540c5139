use vstd::prelude::*;
use crate::block::Block;
use crate::constants::{BLOCK_CAPACITY, BLOCK_SIZE};

verus! {

/// A block of a block space allocated into upwards, from the cursor to the
/// limit.
pub struct BumpBlock {
    block: Block,
    cursor: usize,
    limit: usize,
}

/// What a bump block is: its block's address and its hole.
pub struct SpaceBumpView {
    pub block: int,
    pub cursor: int,
    pub limit: int,
}

impl View for BumpBlock {
    type V = SpaceBumpView;

    closed spec fn view(&self) -> SpaceBumpView {
        SpaceBumpView { block: self.block@, cursor: self.cursor as int, limit: self.limit as int }
    }
}

impl BumpBlock {
    /// The hole lies within the block's capacity.
    pub open spec fn wf(&self) -> bool {
        0 <= self@.cursor <= self@.limit <= BLOCK_CAPACITY
    }

    /// A bump block over the block at `ptr`, the hole being the whole
    /// capacity.
    pub fn from_ptr(ptr: usize) -> (b: BumpBlock)
        requires
            ptr % BLOCK_SIZE == 0,
        ensures
            b.wf(),
            b@ == (SpaceBumpView { block: ptr as int, cursor: 0, limit: BLOCK_CAPACITY as int }),
    {
        BumpBlock { block: Block::from_ptr(ptr), cursor: 0, limit: BLOCK_CAPACITY }
    }

    /// Reserve `size` bytes at the cursor, which moves up past them; returns
    /// the offset of the reservation. The hole must hold `size` bytes (no
    /// search for a further hole exists) and the offset must be non-null.
    pub fn reserve(&mut self, size: usize) -> (r: Option<usize>)
        requires
            old(self).wf(),
            size <= old(self)@.limit - old(self)@.cursor,
            old(self)@.cursor != 0,
        ensures
            final(self).wf(),
            r == Some(old(self)@.cursor as usize),
            final(self)@ == (SpaceBumpView { cursor: old(self)@.cursor + size, ..old(self)@ }),
    {
        if self.current_hole_size() >= size {
            let ptr = self.cursor;
            self.cursor = self.cursor + size;
            return Some(ptr);
        }
        None
    }

    /// Bytes left between the cursor and the limit.
    pub fn current_hole_size(&self) -> (n: usize)
        requires
            self.wf(),
        ensures
            n == self@.limit - self@.cursor,
    {
        self.limit - self.cursor
    }
}

} // verus!
