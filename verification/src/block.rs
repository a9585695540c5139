use vstd::prelude::*;
use crate::constants::BLOCK_SIZE;

verus! {

/// A block of a block space, known by its address.
pub struct Block {
    ptr: usize,
}

impl View for Block {
    type V = int;

    closed spec fn view(&self) -> int {
        self.ptr as int
    }
}

impl Block {
    /// The block that holds the object at address `ptr`: the one starting
    /// at the block boundary at or below it.
    pub fn from_obj_ptr(ptr: usize) -> (b: Block)
        ensures
            b@ == ptr - ptr % BLOCK_SIZE,
            b@ % BLOCK_SIZE as int == 0,
            b@ <= ptr < b@ + BLOCK_SIZE,
    {
        proof {
            crate::constants::lemma_constant_values();
            vstd::arithmetic::div_mod::lemma_fundamental_div_mod(ptr as int, BLOCK_SIZE as int);
            vstd::arithmetic::div_mod::lemma_mod_multiples_vanish(
                -((ptr as int) / (BLOCK_SIZE as int)),
                ptr as int,
                BLOCK_SIZE as int,
            );
        }
        let aligned_ptr = ptr - ptr % BLOCK_SIZE;
        Self::from_ptr(aligned_ptr)
    }

    /// The block starting at `ptr`, which lies on a block boundary.
    pub fn from_ptr(ptr: usize) -> (b: Block)
        requires
            ptr % BLOCK_SIZE == 0,
        ensures
            b@ == ptr,
    {
        Block { ptr }
    }

    /// The block's address.
    pub fn as_ptr(self) -> (p: usize)
        ensures
            p == self@,
    {
        self.ptr
    }
}

} // verus!
