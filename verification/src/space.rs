use vstd::prelude::*;
use crate::constants::{BLOCK_SIZE, SPACE_SIZE, lemma_constant_values};
use crate::raw_allocator::error::AllocError;

verus! {

/// A contiguous address range `[start, end)` of `size` bytes, obtained
/// aligned to a block.
pub struct Space {
    start: usize,
    end: usize,
    size: usize,
}

/// What a space covers.
pub struct SpaceView {
    pub start: int,
    pub end: int,
    pub size: int,
}

impl View for Space {
    type V = SpaceView;

    closed spec fn view(&self) -> SpaceView {
        SpaceView { start: self.start as int, end: self.end as int, size: self.size as int }
    }
}

impl Space {
    /// The range starts on a block boundary and holds whole blocks.
    pub open spec fn wf(&self) -> bool {
        &&& 0 <= self@.start
        &&& 0 <= self@.size
        &&& self@.start % BLOCK_SIZE as int == 0
        &&& self@.end == self@.start + self@.size
        &&& self@.size % BLOCK_SIZE as int == 0
        &&& self@.end <= usize::MAX
    }

    /// The space of `SPACE_SIZE` bytes at the address `allocated` that the
    /// system allocator returned, aligned to a block.
    pub fn new(allocated: usize) -> (r: Result<Space, AllocError>)
        requires
            allocated % BLOCK_SIZE == 0,
            allocated + SPACE_SIZE <= usize::MAX,
        ensures
            r matches Ok(s) && s.wf() && s@ == (SpaceView {
                start: allocated as int,
                end: allocated + SPACE_SIZE,
                size: SPACE_SIZE as int,
            }),
    {
        proof {
            lemma_constant_values();
        }
        Ok(Space { start: allocated, end: allocated + SPACE_SIZE, size: SPACE_SIZE })
    }

    /// The first address of the space.
    pub fn start(&self) -> (p: usize)
        ensures
            p == self@.start,
    {
        self.start
    }

    /// The address just past the space.
    pub fn end(&self) -> (p: usize)
        ensures
            p == self@.end,
    {
        self.end
    }
}

} // verus!
