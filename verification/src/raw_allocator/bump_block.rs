use vstd::prelude::*;
use crate::allocator::block::{Block, BlockView, block_layout, allocation_fits};
use crate::constants::{BLOCK_CAPACITY, FREE_MARK, LINE_COUNT, LINE_SIZE, SMALL_OBJECT_MIN,
    lemma_constant_values};
use crate::pointee::ObjLayout;
use crate::raw_allocator::block_meta::{BlockMeta, freed_lines, is_next_hole, next_hole, lines_required,
    lemma_next_hole_is, lemma_next_hole_fits, lemma_next_hole_highest, is_free_run, run_fits};
use crate::raw_allocator::error::AllocError;

verus! {

/// Offset at which bump allocation places an object of `size` bytes aligned
/// to `align` below `cursor`: `size` bytes down, then rounded down to the
/// alignment.
pub open spec fn bump_target(cursor: int, size: int, align: int) -> int {
    (cursor - size) - (cursor - size) % align
}

/// Bump allocation of `size` bytes aligned to `align` in a block whose line
/// marks are `m`, the current hole being `[limit, cursor)`: the object goes
/// just below the cursor when it fits above the limit; otherwise the
/// allocator moves on to the next hole below the limit that can take it
/// (see `next_hole`), and fails when there is none. Returns the object's
/// offset (if any) and the cursor and limit afterwards. Holes found below
/// the limit lie lower (`lemma_next_hole_fits`); only for an object of no
/// bytes can the hole found be the empty one at the limit itself, where the
/// object goes if the alignment lets it (else the search would find that
/// same hole for ever).
pub open spec fn bump_alloc(m: Seq<u8>, cursor: int, limit: int, size: int, align: int) -> (
    Option<int>,
    int,
    int,
)
    decreases limit,
{
    if cursor < size {
        (None, cursor, limit)
    } else if limit <= bump_target(cursor, size, align) {
        (Some(bump_target(cursor, size, align)), bump_target(cursor, size, align), limit)
    } else {
        match next_hole(m, limit / LINE_SIZE as int, lines_required(size)) {
            None => (None, cursor, limit),
            Some((c, l)) => if 0 <= l < limit {
                bump_alloc(m, c as int, l as int, size, align)
            } else if l == limit && c >= size && l <= bump_target(c as int, size, align) {
                (Some(bump_target(c as int, size, align)), bump_target(c as int, size, align), limit)
            } else {
                (None, cursor, limit)
            },
        }
    }
}

/// A block being bump-allocated into: the hole `[limit, cursor)` is where
/// the next objects go, from the cursor downwards.
pub struct BumpBlock {
    cursor: usize,
    limit: usize,
    block: Block,
    meta: BlockMeta,
}

/// What a bump block is: its hole, its line marks and its memory.
pub struct BumpView {
    pub cursor: int,
    pub limit: int,
    pub lines: Seq<u8>,
    pub block: BlockView,
}

impl View for BumpBlock {
    type V = BumpView;

    closed spec fn view(&self) -> BumpView {
        BumpView {
            cursor: self.cursor as int,
            limit: self.limit as int,
            lines: self.meta@,
            block: self.block@,
        }
    }
}


/// A bump block after `reset_hole(mark)`: lines without `mark` freed; if
/// the block as a whole does not carry `mark` the hole is the whole
/// capacity, otherwise it is the highest run of free lines (an empty hole
/// at 0 when there is none).
pub open spec fn reset_view(v: BumpView, mark: u8) -> BumpView {
    let lines = freed_lines(v.lines, mark);
    let (c, l) = if lines[LINE_COUNT - 1] != mark {
        (BLOCK_CAPACITY as int, 0int)
    } else {
        match next_hole(lines, (BLOCK_CAPACITY / LINE_SIZE) as int, 1) {
            Some((c, l)) => (c as int, l as int),
            None => (0int, 0int),
        }
    };
    BumpView { cursor: c, limit: l, lines, block: v.block }
}

/// The block as a whole carries `mark`.
pub open spec fn view_is_marked(v: BumpView, mark: u8) -> bool {
    v.lines[LINE_COUNT - 1] == mark
}

/// Bytes left in the block's current hole.
pub open spec fn view_hole_size(v: BumpView) -> int {
    v.cursor - v.limit
}


/// An object of `layout` placed at offset `off` of a bump block that went
/// from `before` to `after`: the offset is the new cursor, aligned, above
/// the new limit; the object lies either in the hole the block had, or
/// entirely below it in lines that were all free.
pub open spec fn placed_in_free_space(before: BumpView, after: BumpView, off: int, layout: ObjLayout) -> bool {
    &&& off == after.cursor
    &&& off % layout.align as int == 0
    &&& after.limit <= off
    &&& ((before.limit <= off && off + layout.size <= before.cursor) || (off + layout.size
        <= before.limit && forall|j: int|
        off / LINE_SIZE as int <= j <= (off + layout.size - 1) / LINE_SIZE as int
            ==> #[trigger] before.lines[j] == FREE_MARK))
}

/// Resetting a block's hole twice with the same mark is resetting it once:
/// the second reset frees no line and finds the same hole.
pub proof fn lemma_reset_idempotent(v: BumpView, mark: u8)
    ensures
        reset_view(reset_view(v, mark), mark) == reset_view(v, mark),
{
    crate::raw_allocator::block_meta::lemma_freed_lines_idempotent(v.lines, mark);
}

/// Objects bump-allocated one after the other never overlap: each lies
/// entirely below the object allocated before it.
pub proof fn lemma_successive_allocations_disjoint(
    v0: BumpView,
    v1: BumpView,
    v2: BumpView,
    off1: int,
    layout1: ObjLayout,
    off2: int,
    layout2: ObjLayout,
)
    requires
        placed_in_free_space(v0, v1, off1, layout1),
        placed_in_free_space(v1, v2, off2, layout2),
    ensures
        off2 + layout2.size <= off1,
{
}

/// Allocations made one after the other from a bump block, with no reset
/// of its hole in between: the `i`th one took the block from `befores[i]`
/// to `afters[i]` and placed an object of `layouts[i]` at `offs[i]`; the
/// block is well formed before each, and calls that failed in between did
/// not raise its cursor.
pub open spec fn allocation_run(
    befores: Seq<BumpView>,
    afters: Seq<BumpView>,
    offs: Seq<int>,
    layouts: Seq<ObjLayout>,
) -> bool {
    &&& befores.len() == offs.len()
    &&& afters.len() == offs.len()
    &&& layouts.len() == offs.len()
    &&& forall|i: int|
        #![trigger offs[i]]
        0 <= i < offs.len() ==> placed_in_free_space(befores[i], afters[i], offs[i], layouts[i])
            && befores[i].limit <= befores[i].cursor
    &&& forall|i: int|
        #![trigger offs[i]]
        0 <= i < offs.len() - 1 ==> befores[i + 1].cursor <= afters[i].cursor
}

/// No two objects allocated from a bump block between two resets of its
/// hole overlap: each lies entirely below every object allocated before it.
pub proof fn lemma_allocations_disjoint(
    befores: Seq<BumpView>,
    afters: Seq<BumpView>,
    offs: Seq<int>,
    layouts: Seq<ObjLayout>,
    i: int,
    j: int,
)
    requires
        allocation_run(befores, afters, offs, layouts),
        0 <= i < j < offs.len(),
    ensures
        offs[j] + layouts[j].size <= offs[i],
    decreases j - i,
{
    let k = j - 1;
    assert(placed_in_free_space(befores[j], afters[j], offs[j], layouts[j]));
    assert(placed_in_free_space(befores[k], afters[k], offs[k], layouts[k]));
    assert(befores[k + 1].cursor <= afters[k].cursor);
    if k > i {
        lemma_allocations_disjoint(befores, afters, offs, layouts, i, k);
    }
}

/// A failed allocation fails again: when bump allocation finds no room for
/// an object, repeating it from the cursor and limit it left finds no room
/// either and leaves them as they are.
pub proof fn lemma_failed_allocation_fails_again(
    m: Seq<u8>,
    cursor: int,
    limit: int,
    size: int,
    align: int,
)
    requires
        bump_alloc(m, cursor, limit, size, align).0 is None,
    ensures
        ({
            let (_, c, l) = bump_alloc(m, cursor, limit, size, align);
            bump_alloc(m, c, l, size, align) == (None::<int>, c, l)
        }),
    decreases limit,
{
    if cursor < size {
    } else if limit <= bump_target(cursor, size, align) {
    } else {
        match next_hole(m, limit / LINE_SIZE as int, lines_required(size)) {
            None => {},
            Some((c, l)) => if 0 <= l < limit {
                lemma_failed_allocation_fails_again(m, c as int, l as int, size, align);
            },
        }
    }
}

proof fn lemma_target_aligned(p: int, align: int)
    requires
        0 <= p,
        0 < align,
    ensures
        (p - p % align) % align == 0,
        0 <= p - p % align <= p,
{
    vstd::arithmetic::div_mod::lemma_fundamental_div_mod(p, align);
    vstd::arithmetic::div_mod::lemma_mod_bound(p, align);
    vstd::arithmetic::div_mod::lemma_mod_multiples_basic(p / align, align);
    assert(p - p % align == (p / align) * align) by (nonlinear_arith)
        requires
            p == align * (p / align) + p % align,
    {}
}

impl BumpBlock {
    /// The hole lies within the block's capacity, the block is one immix
    /// block, and there is one mark per line.
    pub closed spec fn wf(&self) -> bool {
        &&& self.block.wf()
        &&& self.block@.layout == block_layout()
        &&& self.meta.wf()
        &&& self.limit <= self.cursor <= BLOCK_CAPACITY
    }

    /// Facts that follow from `wf`.
    pub proof fn lemma_wf(&self)
        requires
            self.wf(),
        ensures
            0 <= self@.limit <= self@.cursor <= BLOCK_CAPACITY,
            self@.lines.len() == LINE_COUNT,
            self@.block.layout == block_layout(),
            self@.block.ptr != 0,
            allocation_fits(self@.block.ptr as usize, block_layout()),
    {
    }

    /// A bump block over a fresh immix block whose address the system
    /// allocator returned as `allocated` (0 is `OOM`): every line is free and
    /// the hole is the whole capacity.
    pub fn new(allocated: usize) -> (r: Result<BumpBlock, AllocError>)
        requires
            allocated != 0 ==> allocation_fits(allocated, block_layout()),
        ensures
            allocated == 0 ==> r == Err::<BumpBlock, AllocError>(AllocError::OOM),
            allocated != 0 ==> (r matches Ok(b) && b.wf() && b@.cursor == BLOCK_CAPACITY
                && b@.limit == 0 && b@.block.ptr == allocated && (forall|i: int|
                0 <= i < LINE_COUNT ==> #[trigger] b@.lines[i] == FREE_MARK)),
    {
        let inner_block = match Block::default(allocated) {
            Ok(b) => b,
            Err(e) => { return Err(e); },
        };
        Ok(BumpBlock { cursor: BLOCK_CAPACITY, limit: 0, block: inner_block, meta: BlockMeta::new() })
    }

    /// Prepare the block for allocation after a collection marked the live
    /// lines with `mark`: every line not carrying `mark` is freed; a block
    /// that holds nothing live offers its whole capacity, otherwise the
    /// hole is the highest run of free lines (none: an empty hole at 0).
    pub fn reset_hole(&mut self, mark: u8)
        requires
            old(self).wf(),
        ensures
            final(self).wf(),
            final(self)@ == reset_view(old(self)@, mark),
            final(self)@.block == old(self)@.block,
            forall|i: int|
                0 <= i < LINE_COUNT ==> #[trigger] final(self)@.lines[i] == if old(self)@.lines[i]
                    == mark {
                    mark
                } else {
                    FREE_MARK
                },
            final(self)@.lines[LINE_COUNT - 1] != mark ==> final(self)@.cursor == BLOCK_CAPACITY
                && final(self)@.limit == 0,
            final(self)@.lines[LINE_COUNT - 1] == mark ==> forall|b: int, e: int|
                #[trigger] is_free_run(final(self)@.lines, (BLOCK_CAPACITY / LINE_SIZE) as int, b, e)
                    && run_fits(b, e, 1) ==> final(self)@.limit < final(self)@.cursor && e * LINE_SIZE
                    <= final(self)@.cursor,
            final(self)@.lines[LINE_COUNT - 1] == mark && final(self)@.limit < final(self)@.cursor
                ==> exists|b: int, e: int|
                #[trigger] is_free_run(final(self)@.lines, (BLOCK_CAPACITY / LINE_SIZE) as int, b, e)
                    && run_fits(b, e, 1) && final(self)@.cursor == e * LINE_SIZE && final(self)@.limit
                    == (if b == 0 {
                    0
                } else {
                    (b + 1) * LINE_SIZE
                }),
            final(self)@.lines[LINE_COUNT - 1] == mark && final(self)@.limit == final(self)@.cursor
                ==> final(self)@.cursor == 0,
    {
        proof {
            lemma_constant_values();
        }
        self.meta.free_unmarked(mark);
        proof {
            assert(self.meta@ =~= freed_lines(old(self)@.lines, mark));
        }
        if self.meta.get_block() != mark {
            self.cursor = BLOCK_CAPACITY;
            self.limit = 0;
            return;
        }
        let found = self.meta.find_next_available_hole(BLOCK_CAPACITY, SMALL_OBJECT_MIN);
        proof {
            lemma_next_hole_is(self.meta@, (BLOCK_CAPACITY / LINE_SIZE) as int, 1, found);
            lemma_next_hole_highest(self.meta@, (BLOCK_CAPACITY / LINE_SIZE) as int, 1, found);
        }
        match found {
            Some((cursor, limit)) => {
                proof {
                    lemma_next_hole_fits(self.meta@, (BLOCK_CAPACITY / LINE_SIZE) as int, 1, cursor, limit);
                }
                self.cursor = cursor;
                self.limit = limit;
            },
            None => {
                self.cursor = 0;
                self.limit = 0;
            },
        }
    }

    /// Bump-allocate an object of `layout` (see `bump_alloc`): returns its
    /// address, or `None` when no hole of the block can take it.
    pub fn inner_alloc(&mut self, layout: ObjLayout) -> (r: Option<usize>)
        requires
            old(self).wf(),
            layout.wf(),
            layout.size >= 1 || layout.align <= LINE_SIZE,
        ensures
            final(self).wf(),
            final(self)@.lines == old(self)@.lines,
            final(self)@.block == old(self)@.block,
            final(self)@.cursor <= old(self)@.cursor,
            ({
                let (off, c, l) = bump_alloc(
                    old(self)@.lines,
                    old(self)@.cursor,
                    old(self)@.limit,
                    layout.size as int,
                    layout.align as int,
                );
                &&& final(self)@.cursor == c
                &&& final(self)@.limit == l
                &&& match off {
                    Some(p) => r == Some((old(self)@.block.ptr + p) as usize),
                    None => r is None,
                }
            }),
            r matches Some(p) ==> placed_in_free_space(
                old(self)@,
                final(self)@,
                p - old(self)@.block.ptr,
                layout,
            ),
    {
        proof {
            lemma_constant_values();
            crate::pointee::lemma_layout_align_positive(layout);
        }
        let ghost m = self.meta@;
        let ghost goal = bump_alloc(
            m,
            self.cursor as int,
            self.limit as int,
            layout.size as int,
            layout.align as int,
        );
        let size = layout.size();
        let align = layout.align();
        loop
            invariant
                self.wf(),
                old(self).wf(),
                self.meta@ == m,
                m == old(self)@.lines,
                self.block@ == old(self)@.block,
                size == layout.size,
                align == layout.align,
                size >= 1 || align <= LINE_SIZE,
                align >= 1,
                goal == bump_alloc(m, self.cursor as int, self.limit as int, size as int, align as int),
                goal == bump_alloc(
                    old(self)@.lines,
                    old(self)@.cursor,
                    old(self)@.limit,
                    layout.size as int,
                    layout.align as int,
                ),
                (self.cursor == old(self)@.cursor && self.limit == old(self)@.limit) || (
                self.cursor <= old(self)@.limit && self.cursor % LINE_SIZE == 0 && self.limit
                    % LINE_SIZE == 0 && forall|j: int|
                    (self.limit / LINE_SIZE) as int <= j < (self.cursor / LINE_SIZE) as int
                        ==> #[trigger] m[j] == FREE_MARK),
                LINE_SIZE == 128,
            decreases self.limit,
        {
            let start = match self.cursor.checked_sub(size) {
                Some(q) => q,
                None => { return None; },
            };
            proof {
                lemma_target_aligned(start as int, align as int);
            }
            let next_ptr = start - start % align;
            if self.limit <= next_ptr {
                let ghost c0 = self.cursor as int;
                let ghost l0 = self.limit as int;
                self.cursor = next_ptr;
                proof {
                    self.lemma_wf();
                    lemma_constant_values();
                    self.block.lemma_ptr_in_range();
                }
                let p = self.block.at_offset(self.cursor);
                proof {
                    let off = next_ptr as int;
                    let sz = size as int;
                    if !(c0 == old(self)@.cursor && l0 == old(self)@.limit) {
                        assert forall|j: int|
                            off / LINE_SIZE as int <= j <= (off + sz - 1) / LINE_SIZE as int
                                implies #[trigger] m[j] == FREE_MARK by {
                            assert(l0 / 128 <= off / 128);
                            assert((off + sz - 1) / 128 < c0 / 128);
                        }
                    }
                }
                return Some(p);
            }
            let found = self.meta.find_next_available_hole(self.limit, size);
            proof {
                lemma_next_hole_is(m, (self.limit / LINE_SIZE) as int, lines_required(size as int), found);
            }
            match found {
                Some((cursor, limit)) => {
                    proof {
                        lemma_next_hole_fits(
                            m,
                            (self.limit / LINE_SIZE) as int,
                            lines_required(size as int),
                            cursor,
                            limit,
                        );
                    }
                    if limit == self.limit {
                        // An object of no bytes: the hole found is the empty
                        // one at the limit.
                        let start = match cursor.checked_sub(size) {
                            Some(q) => q,
                            None => { return None; },
                        };
                        proof {
                            lemma_target_aligned(start as int, align as int);
                        }
                        let target = start - start % align;
                        if limit <= target {
                            self.cursor = target;
                            proof {
                                self.lemma_wf();
                                lemma_constant_values();
                                self.block.lemma_ptr_in_range();
                            }
                            let p = self.block.at_offset(self.cursor);
                            return Some(p);
                        }
                        return None;
                    }
                    self.cursor = cursor;
                    self.limit = limit;
                },
                None => { return None; },
            }
        }
    }

    /// Bytes left in the current hole.
    pub fn current_hole_size(&self) -> (n: usize)
        requires
            self.wf(),
        ensures
            n == self@.cursor - self@.limit,
    {
        self.cursor - self.limit
    }

    /// Whether the block as a whole carries `mark`.
    pub fn is_marked(&self, mark: u8) -> (b: bool)
        requires
            self.wf(),
        ensures
            b == (self@.lines[LINE_COUNT - 1] == mark),
    {
        self.meta.get_block() == mark
    }

    /// Set the mark of line `index`.
    pub fn set_line(&mut self, index: usize, mark: u8)
        requires
            old(self).wf(),
            index < LINE_COUNT,
        ensures
            final(self).wf(),
            final(self)@ == (BumpView { lines: old(self)@.lines.update(index as int, mark), ..old(self)@ }),
    {
        self.meta.set_line(index, mark);
    }

    /// Set the mark of the block as a whole.
    pub fn set_block(&mut self, mark: u8)
        requires
            old(self).wf(),
        ensures
            final(self).wf(),
            final(self)@ == (BumpView { lines: old(self)@.lines.update(LINE_COUNT - 1, mark), ..old(self)@ }),
    {
        self.meta.set_block(mark);
    }

    /// Start of the current hole.
    pub fn cursor(&self) -> (c: usize)
        ensures
            c == self@.cursor,
    {
        self.cursor
    }

    /// End of the current hole.
    pub fn limit(&self) -> (l: usize)
        ensures
            l == self@.limit,
    {
        self.limit
    }

    /// The underlying memory block.
    pub fn block(&self) -> (b: &Block)
        ensures
            b@ == self@.block,
    {
        &self.block
    }

    /// The mark of line `index`.
    pub fn get_line(&self, index: usize) -> (m: u8)
        requires
            self.wf(),
            index < LINE_COUNT,
        ensures
            m == self@.lines[index as int],
    {
        self.meta.get_line(index)
    }
}

} // verus!
