use vstd::prelude::*;
use crate::constants::{BLOCK_SIZE, lemma_constant_values};
use crate::pointee::ObjLayout;
use crate::raw_allocator::error::AllocError;
use vstd::layout::valid_layout;

verus! {

/// A region obtained from the system allocator: its address and its layout.
pub struct Block {
    ptr: usize,
    layout: ObjLayout,
}

/// What a block is: the address of its first byte and its layout.
pub struct BlockView {
    pub ptr: int,
    pub layout: ObjLayout,
}

impl View for Block {
    type V = BlockView;

    closed spec fn view(&self) -> BlockView {
        BlockView { ptr: self.ptr as int, layout: self.layout }
    }
}

/// The layout of one immix block: `BLOCK_SIZE` bytes aligned to `BLOCK_SIZE`.
pub open spec fn block_layout() -> ObjLayout {
    ObjLayout { size: BLOCK_SIZE, align: BLOCK_SIZE }
}

/// `ptr` is an address the system allocator may hand out for `layout`:
/// aligned as asked, the whole region addressable.
pub open spec fn allocation_fits(ptr: usize, layout: ObjLayout) -> bool {
    ptr % layout.align == 0 && ptr + layout.size <= usize::MAX
}

impl Block {
    /// A block is a non-null, aligned, addressable region of a valid layout.
    pub open spec fn wf(&self) -> bool {
        &&& self@.layout.wf()
        &&& self@.ptr != 0
        &&& allocation_fits(self@.ptr as usize, self@.layout)
    }

    /// A block of `layout`, given the address `allocated` that the system
    /// allocator returned for it (0 when it could not serve the request,
    /// which is `OOM`).
    pub fn new(layout: ObjLayout, allocated: usize) -> (r: Result<Block, AllocError>)
        requires
            layout.wf(),
            allocated != 0 ==> allocation_fits(allocated, layout),
        ensures
            allocated == 0 ==> r == Err::<Block, AllocError>(AllocError::OOM),
            allocated != 0 ==> (r matches Ok(b) && b@ == (BlockView {
                ptr: allocated as int,
                layout,
            }) && b.wf()),
    {
        if allocated == 0 {
            Err(AllocError::OOM)
        } else {
            Ok(Block { ptr: allocated, layout })
        }
    }

    /// An immix block (`BLOCK_SIZE` bytes aligned to `BLOCK_SIZE`), given the
    /// address the system allocator returned for it (0 is `OOM`).
    pub fn default(allocated: usize) -> (r: Result<Block, AllocError>)
        requires
            allocated != 0 ==> allocation_fits(allocated, block_layout()),
        ensures
            allocated == 0 ==> r == Err::<Block, AllocError>(AllocError::OOM),
            allocated != 0 ==> (r matches Ok(b) && b@ == (BlockView {
                ptr: allocated as int,
                layout: block_layout(),
            }) && b.wf()),
    {
        proof {
            lemma_constant_values();
            lemma_block_layout_valid();
        }
        Block::new(ObjLayout { size: BLOCK_SIZE, align: BLOCK_SIZE }, allocated)
    }

    /// The block's address is a machine address.
    pub proof fn lemma_ptr_in_range(&self)
        ensures
            0 <= self@.ptr <= usize::MAX,
    {
    }

    /// Address of the byte at `offset` within the block.
    pub fn at_offset(&self, offset: usize) -> (p: usize)
        requires
            self.wf(),
            offset < BLOCK_SIZE,
            self@.ptr + offset <= usize::MAX,
        ensures
            p == self@.ptr + offset,
    {
        self.ptr + offset
    }

    /// Address of the block's first byte.
    pub fn as_ptr(&self) -> (p: usize)
        ensures
            p == self@.ptr,
    {
        self.ptr
    }

    /// Size of the block in bytes.
    pub fn get_size(&self) -> (s: usize)
        ensures
            s == self@.layout.size,
    {
        self.layout.size()
    }
}

/// The layout of an immix block is valid.
pub proof fn lemma_block_layout_valid()
    ensures
        block_layout().wf(),
        valid_layout(BLOCK_SIZE, BLOCK_SIZE),
{
    lemma_constant_values();
    reveal_with_fuel(vstd::arithmetic::power2::is_pow2, 16);
    assert(vstd::arithmetic::power2::is_pow2(32768));
}

} // verus!
