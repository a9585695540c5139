use vstd::prelude::*;
use crate::bump_block::{BumpBlock, SpaceBumpView};
use crate::constants::{BLOCK_CAPACITY, BLOCK_SIZE, lemma_constant_values};
use crate::space::Space;

verus! {

/// The blocks of a space: those in use, those being recycled and the free
/// ones.
pub struct BlockSpace {
    space: Space,
    used: Vec<BumpBlock>,
    recycling: Vec<BumpBlock>,
    free: Vec<BumpBlock>,
}

/// The blocks `blocks_from_space` cuts a space into: one per block-sized
/// step from its start, each with its whole capacity as hole.
pub open spec fn space_blocks(start: int, count: int) -> Seq<SpaceBumpView> {
    Seq::new(
        count as nat,
        |i: int|
            SpaceBumpView { block: start + i * BLOCK_SIZE as int, cursor: 0, limit: BLOCK_CAPACITY as int },
    )
}

/// The views of a sequence of blocks.
pub open spec fn space_block_views(s: Seq<BumpBlock>) -> Seq<SpaceBumpView> {
    s.map_values(|b: BumpBlock| b@)
}

impl BlockSpace {
    /// A block space over `space`: every block of it is free.
    pub fn new(space: Space) -> (bs: BlockSpace)
        requires
            space.wf(),
        ensures
            bs.free_views() == space_blocks(space@.start, space@.size / BLOCK_SIZE as int),
            bs.used_count() == 0,
            bs.recycling_count() == 0,
    {
        let blocks = Self::blocks_from_space(&space);
        BlockSpace { space, used: Vec::new(), recycling: Vec::new(), free: blocks }
    }

    /// The free blocks.
    pub closed spec fn free_views(&self) -> Seq<SpaceBumpView> {
        space_block_views(self.free@)
    }

    /// Number of blocks in use.
    pub closed spec fn used_count(&self) -> nat {
        self.used@.len()
    }

    /// Number of blocks being recycled.
    pub closed spec fn recycling_count(&self) -> nat {
        self.recycling@.len()
    }

    /// Cut `space` into blocks, in address order.
    pub fn blocks_from_space(space: &Space) -> (blocks: Vec<BumpBlock>)
        requires
            space.wf(),
        ensures
            space_block_views(blocks@) == space_blocks(
                space@.start,
                space@.size / BLOCK_SIZE as int,
            ),
    {
        proof {
            lemma_constant_values();
        }
        let mut ptr = space.start();
        let end = space.end();
        let mut blocks: Vec<BumpBlock> = Vec::new();
        let ghost start = space@.start;
        let ghost count = space@.size / BLOCK_SIZE as int;
        let ghost mut k: int = 0;
        while ptr < end
            invariant
                start == space@.start,
                end == space@.end,
                space.wf(),
                count == space@.size / BLOCK_SIZE as int,
                ptr == start + k * BLOCK_SIZE,
                0 <= k <= count,
                ptr <= end,
                BLOCK_SIZE == 32768,
                space_block_views(blocks@) == space_blocks(start, k),
            decreases end - ptr,
        {
            proof {
                assert(ptr % BLOCK_SIZE == 0) by {
                    vstd::arithmetic::div_mod::lemma_mod_multiples_vanish(k, start, 32768);
                }
            }
            let block = BumpBlock::from_ptr(ptr);
            proof {
                let v1 = space_block_views(blocks@.push(block));
                let v2 = space_blocks(start, k + 1);
                assert(space_block_views(blocks@).len() == blocks@.len());
                assert(space_blocks(start, k).len() == k);
                assert(blocks@.len() == k);
                assert(v1.len() == v2.len());
                assert(v1[k] == block@);
                assert(v2[k] == block@);
                assert forall|i: int| 0 <= i < k implies v1[i] == v2[i] by {
                    assert(v1[i] == space_block_views(blocks@)[i]);
                    assert(space_blocks(start, k)[i] == v2[i]);
                }
                assert(space_block_views(blocks@.push(block)) =~= space_blocks(
                    start,
                    k + 1,
                ));
                assert(k + 1 <= count) by {
                    assert(start + k * 32768 < start + space@.size);
                    vstd::arithmetic::div_mod::lemma_fundamental_div_mod(space@.size, 32768);
                }
            }
            blocks.push(block);
            ptr = ptr + BLOCK_SIZE;
            proof {
                k = k + 1;
            }
        }
        proof {
            assert(k == count) by {
                vstd::arithmetic::div_mod::lemma_fundamental_div_mod(space@.size, 32768);
            }
        }
        blocks
    }
}

} // verus!
