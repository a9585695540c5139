use vstd::prelude::*;
use crate::allocator::block::{Block, BlockView, block_layout, allocation_fits};
use crate::allocator::header::{Mark, mark_code};
use crate::constants::{BLOCK_CAPACITY, FREE_MARK, FREE_RELEASE_MAX, LINE_COUNT};
use crate::pointee::ObjLayout;
use crate::raw_allocator::bump_block::{BumpBlock, BumpView, reset_view, view_is_marked,
    view_hole_size, lemma_reset_idempotent};
use crate::raw_allocator::error::AllocError;

verus! {

/// The views of a sequence of bump blocks.
pub open spec fn bump_views(s: Seq<BumpBlock>) -> Seq<BumpView> {
    s.map_values(|b: BumpBlock| b@)
}

/// The views of a sequence of blocks.
pub open spec fn block_views(s: Seq<Block>) -> Seq<BlockView> {
    s.map_values(|b: Block| b@)
}

/// The blocks of `s` in the order a sweep takes them back (the last one
/// first), each reset for the live mark `mark`.
pub open spec fn swept(s: Seq<BumpView>, mark: u8) -> Seq<BumpView> {
    Seq::new(s.len(), |i: int| reset_view(s[s.len() - 1 - i], mark))
}

/// The blocks that hold live objects after a sweep.
pub open spec fn live_blocks(s: Seq<BumpView>, mark: u8) -> Seq<BumpView> {
    s.filter(|v: BumpView| view_is_marked(v, mark))
}

/// The blocks that hold no live object after a sweep.
pub open spec fn dead_blocks(s: Seq<BumpView>, mark: u8) -> Seq<BumpView> {
    s.filter(|v: BumpView| !view_is_marked(v, mark))
}

/// Live blocks that still offer a hole.
pub open spec fn holed_blocks(s: Seq<BumpView>, mark: u8) -> Seq<BumpView> {
    s.filter(|v: BumpView| view_is_marked(v, mark) && view_hole_size(v) != 0)
}

/// Live blocks without a hole.
pub open spec fn full_blocks(s: Seq<BumpView>, mark: u8) -> Seq<BumpView> {
    s.filter(|v: BumpView| view_is_marked(v, mark) && view_hole_size(v) == 0)
}

/// The large blocks of `large` paired with the marks `marks` of their
/// headers, in the order a sweep takes them back (the last one first).
pub open spec fn large_pairs(large: Seq<BlockView>, marks: Seq<Mark>) -> Seq<(BlockView, Mark)> {
    Seq::new(large.len(), |i: int| (large[large.len() - 1 - i], marks[large.len() - 1 - i]))
}

/// Selects the pairs whose mark is (`keep`) or is not (`!keep`) `mark`.
pub open spec fn mark_is(mark: Mark, keep: bool) -> spec_fn((BlockView, Mark)) -> bool {
    |p: (BlockView, Mark)| (p.1 == mark) == keep
}

/// The blocks of a sequence of pairs.
pub open spec fn pair_blocks(s: Seq<(BlockView, Mark)>) -> Seq<BlockView> {
    s.map_values(|p: (BlockView, Mark)| p.0)
}

/// The large blocks of `large`, whose headers carry `marks`, taken back
/// last first, that carry (`keep`) or do not carry (`!keep`) `mark`.
pub open spec fn large_by_mark(large: Seq<BlockView>, marks: Seq<Mark>, mark: Mark, keep: bool) -> Seq<
    BlockView,
> {
    pair_blocks(large_pairs(large, marks).filter(mark_is(mark, keep)))
}

/// `a - b` in the arithmetic of `usize`, wrapping below zero.
pub open spec fn wrapping_sub_spec(a: int, b: int) -> int {
    if a >= b {
        a - b
    } else {
        a - b + usize::MAX + 1
    }
}

/// `a + 1` in the arithmetic of `usize`, wrapping above the maximum.
pub open spec fn wrapping_inc_spec(a: int) -> int {
    if a < usize::MAX {
        a + 1
    } else {
        0
    }
}

/// Total size of the large blocks.
pub open spec fn large_space(s: Seq<BlockView>) -> int
    decreases s.len(),
{
    if s.len() == 0 {
        0
    } else {
        large_space(s.drop_last()) + s.last().layout.size
    }
}

/// A bump block freshly made over a new immix block.
pub open spec fn is_fresh(v: BumpView) -> bool {
    &&& v.cursor == BLOCK_CAPACITY
    &&& v.limit == 0
    &&& forall|i: int| 0 <= i < LINE_COUNT ==> #[trigger] v.lines[i] == FREE_MARK
}

/// The store of blocks of one heap: free blocks, blocks with holes to
/// recycle, full blocks at rest, large objects, and the number of immix
/// blocks created and not yet released.
pub struct BlockStore {
    block_count: usize,
    free: Vec<BumpBlock>,
    recycle: Vec<BumpBlock>,
    rest: Vec<BumpBlock>,
    large: Vec<Block>,
}

/// What a block store holds.
pub struct StoreView {
    pub block_count: int,
    pub free: Seq<BumpView>,
    pub recycle: Seq<BumpView>,
    pub rest: Seq<BumpView>,
    pub large: Seq<BlockView>,
}

impl View for BlockStore {
    type V = StoreView;

    closed spec fn view(&self) -> StoreView {
        StoreView {
            block_count: self.block_count as int,
            free: bump_views(self.free@),
            recycle: bump_views(self.recycle@),
            rest: bump_views(self.rest@),
            large: block_views(self.large@),
        }
    }
}

/// Every block of the sequence is a well-formed bump block.
pub open spec fn all_wf(s: Seq<BumpBlock>) -> bool {
    forall|i: int| 0 <= i < s.len() ==> (#[trigger] s[i]).wf()
}

proof fn lemma_views_push(s: Seq<BumpBlock>, b: BumpBlock)
    ensures
        bump_views(s.push(b)) == bump_views(s).push(b@),
{
    assert(bump_views(s.push(b)) =~= bump_views(s).push(b@));
}

proof fn lemma_views_drop_last(s: Seq<BumpBlock>)
    requires
        s.len() > 0,
    ensures
        bump_views(s.drop_last()) == bump_views(s).drop_last(),
        bump_views(s).last() == s.last()@,
{
    assert(bump_views(s.drop_last()) =~= bump_views(s).drop_last());
}

proof fn lemma_block_views_drop_last(s: Seq<Block>)
    requires
        s.len() > 0,
    ensures
        block_views(s.drop_last()) == block_views(s).drop_last(),
        block_views(s).last() == s.last()@,
{
    assert(block_views(s.drop_last()) =~= block_views(s).drop_last());
}

proof fn lemma_filter_push<A>(s: Seq<A>, x: A, p: spec_fn(A) -> bool)
    ensures
        s.push(x).filter(p) == if p(x) {
            s.filter(p).push(x)
        } else {
            s.filter(p)
        },
{
    reveal(Seq::filter);
    assert(s.push(x).drop_last() =~= s);
}


/// Sweeping sorts blocks without losing or duplicating any: the live and
/// the dead blocks together are all of them, and the live ones are exactly
/// those with a hole and those without.
pub proof fn lemma_sweep_partition(s: Seq<BumpView>, mark: u8)
    ensures
        live_blocks(s, mark).len() + dead_blocks(s, mark).len() == s.len(),
        holed_blocks(s, mark).len() + full_blocks(s, mark).len() == live_blocks(s, mark).len(),
    decreases s.len(),
{
    reveal(Seq::filter);
    if s.len() > 0 {
        lemma_sweep_partition(s.drop_last(), mark);
    }
}

/// The blocks a refresh with the live mark `m` gathers as free: the free
/// blocks, then the dead recycled blocks, then the dead resting blocks.
pub open spec fn refresh_freed(v: StoreView, m: u8) -> Seq<BumpView> {
    v.free + dead_blocks(swept(v.recycle, m), m) + dead_blocks(swept(v.rest, m), m)
}

/// How many of the gathered free blocks a refresh releases: all of them,
/// up to `FREE_RELEASE_MAX`.
pub open spec fn refresh_release_count(v: StoreView, m: u8) -> int {
    let n = refresh_freed(v, m).len();
    if n < FREE_RELEASE_MAX {
        n as int
    } else {
        FREE_RELEASE_MAX as int
    }
}

/// The immix blocks a refresh with the live mark `m` releases, in the order
/// it takes them.
pub open spec fn refresh_released(v: StoreView, m: u8) -> Seq<BumpView> {
    let freed = refresh_freed(v, m);
    freed.skip(freed.len() - refresh_release_count(v, m)).reverse()
}

/// The store after a refresh with the live mark `mark`, the headers of its
/// large blocks carrying `large_marks` (see `BlockStore::refresh`).
pub open spec fn refreshed(v: StoreView, mark: Mark, large_marks: Seq<Mark>) -> StoreView {
    let m = mark_code(mark);
    let sr = swept(v.recycle, m);
    let st = swept(v.rest, m);
    let freed = refresh_freed(v, m);
    let k = refresh_release_count(v, m);
    StoreView {
        block_count: wrapping_sub_spec(v.block_count, k),
        free: freed.take(freed.len() - k),
        recycle: live_blocks(sr, m) + holed_blocks(st, m),
        rest: full_blocks(st, m),
        large: large_by_mark(v.large, large_marks, mark, true),
    }
}

/// The store after `k` new immix blocks were made for it, none taken from
/// its recycled or free blocks: each one a call of `get_head` or
/// `get_overflow` on a store with nothing to recycle and nothing free.
pub open spec fn after_new_blocks(v: StoreView, k: nat) -> StoreView
    decreases k,
{
    if k == 0 {
        v
    } else {
        let u = after_new_blocks(v, (k - 1) as nat);
        StoreView { block_count: wrapping_inc_spec(u.block_count), ..u }
    }
}

/// A store counts the blocks it made: starting from a count of zero, after
/// `k` new blocks the count is `k`, and its lists are as they were.
pub proof fn lemma_new_blocks_counted(v: StoreView, k: nat)
    requires
        v.block_count == 0,
        k <= usize::MAX,
    ensures
        after_new_blocks(v, k).block_count == k,
        after_new_blocks(v, k).free == v.free,
        after_new_blocks(v, k).recycle == v.recycle,
        after_new_blocks(v, k).rest == v.rest,
        after_new_blocks(v, k).large == v.large,
    decreases k,
{
    if k > 0 {
        lemma_new_blocks_counted(v, (k - 1) as nat);
    }
}

proof fn lemma_filter_split_len<A>(s: Seq<A>, p: spec_fn(A) -> bool, q: spec_fn(A) -> bool)
    requires
        forall|x: A| #[trigger] q(x) == !p(x),
    ensures
        s.filter(p).len() + s.filter(q).len() == s.len(),
    decreases s.len(),
{
    reveal(Seq::filter);
    if s.len() > 0 {
        lemma_filter_split_len(s.drop_last(), p, q);
        assert(q(s.last()) == !p(s.last()));
    }
}

/// `b` is one of the large blocks `large` whose header mark (in `marks`) is
/// (`keep`) or is not (`!keep`) `mark`.
pub open spec fn is_large_with_mark(
    large: Seq<BlockView>,
    marks: Seq<Mark>,
    mark: Mark,
    keep: bool,
    b: BlockView,
) -> bool {
    exists|i: int|
        #![trigger large[i]]
        0 <= i < large.len() && ((marks[i] == mark) == keep) && b == large[i]
}

/// The large blocks a sweep keeps and those it drops: every block whose
/// header carries `mark` is kept, every other one (`New` included) is
/// dropped, each kept or dropped block is one of the large blocks with a
/// header mark of its kind, and together they are as many as the large
/// blocks.
pub proof fn lemma_large_by_mark(large: Seq<BlockView>, marks: Seq<Mark>, mark: Mark)
    requires
        marks.len() == large.len(),
    ensures
        forall|i: int|
            0 <= i < large.len() && marks[i] == mark ==> #[trigger] large_by_mark(large, marks, mark, true).contains(
                large[i],
            ),
        forall|i: int|
            0 <= i < large.len() && marks[i] != mark ==> #[trigger] large_by_mark(large, marks, mark, false).contains(
                large[i],
            ),
        forall|k: int|
            0 <= k < large_by_mark(large, marks, mark, true).len() ==> #[trigger] is_large_with_mark(
                large,
                marks,
                mark,
                true,
                large_by_mark(large, marks, mark, true)[k],
            ),
        forall|k: int|
            0 <= k < large_by_mark(large, marks, mark, false).len() ==> #[trigger] is_large_with_mark(
                large,
                marks,
                mark,
                false,
                large_by_mark(large, marks, mark, false)[k],
            ),
        large_by_mark(large, marks, mark, true).len() + large_by_mark(large, marks, mark, false).len()
            == large.len(),
{
    lemma_large_side(large, marks, mark, true);
    lemma_large_side(large, marks, mark, false);
    lemma_filter_split_len(large_pairs(large, marks), mark_is(mark, true), mark_is(mark, false));
    assert forall|i: int| 0 <= i < large.len() && marks[i] == mark implies #[trigger] large_by_mark(
        large,
        marks,
        mark,
        true,
    ).contains(large[i]) by {
        assert((marks[i] == mark) == true);
    }
    assert forall|i: int| 0 <= i < large.len() && marks[i] != mark implies #[trigger] large_by_mark(
        large,
        marks,
        mark,
        false,
    ).contains(large[i]) by {
        assert((marks[i] == mark) == false);
    }
}

proof fn lemma_large_side(large: Seq<BlockView>, marks: Seq<Mark>, mark: Mark, keep: bool)
    requires
        marks.len() == large.len(),
    ensures
        forall|i: int|
            0 <= i < large.len() && ((marks[i] == mark) == keep) ==> #[trigger] large_by_mark(large, marks, mark, keep).contains(
                large[i],
            ),
        forall|k: int|
            0 <= k < large_by_mark(large, marks, mark, keep).len() ==> #[trigger] is_large_with_mark(
                large,
                marks,
                mark,
                keep,
                large_by_mark(large, marks, mark, keep)[k],
            ),
{
    broadcast use vstd::seq_lib::group_filter_ensures;

    let n = large.len();
    let pairs = large_pairs(large, marks);
    let p = mark_is(mark, keep);
    let f = pairs.filter(p);
    assert forall|i: int|
        0 <= i < n && ((marks[i] == mark) == keep) implies #[trigger] large_by_mark(large, marks, mark, keep).contains(large[i]) by {
        let j = n - 1 - i;
        assert(pairs[j] == (large[i], marks[i]));
        pairs.lemma_filter_contains(p, j);
        let k = choose|k: int| 0 <= k < f.len() && f[k] == pairs[j];
        assert(pair_blocks(f)[k] == large[i]);
    }
    assert forall|k: int|
        0 <= k < large_by_mark(large, marks, mark, keep).len() implies #[trigger] is_large_with_mark(
            large,
            marks,
            mark,
            keep,
            large_by_mark(large, marks, mark, keep)[k],
        ) by {
        assert(f.contains(f[k]));
        pairs.lemma_filter_contains_rev(p, f[k]);
        pairs.lemma_filter_pred(p, k);
        let j = choose|j: int| 0 <= j < pairs.len() && pairs[j] == f[k];
        let w = n - 1 - j;
        assert(pairs[j] == (large[w], marks[w]));
        assert(large_by_mark(large, marks, mark, keep)[k] == large[w]);
    }
}

proof fn lemma_filter_keeps<A>(s: Seq<A>, p: spec_fn(A) -> bool, q: spec_fn(A) -> bool)
    requires
        forall|i: int| 0 <= i < s.len() ==> q(#[trigger] s[i]),
    ensures
        forall|i: int|
            0 <= i < s.filter(p).len() ==> q(#[trigger] s.filter(p)[i]) && p(s.filter(p)[i]),
    decreases s.len(),
{
    reveal(Seq::filter);
    if s.len() > 0 {
        let d = s.drop_last();
        assert forall|i: int| 0 <= i < d.len() implies q(#[trigger] d[i]) by {
            assert(d[i] == s[i]);
        }
        lemma_filter_keeps(d, p, q);
        let f = s.filter(p);
        let fd = d.filter(p);
        assert forall|i: int| 0 <= i < f.len() implies q(#[trigger] f[i]) && p(f[i]) by {
            if i < fd.len() {
                assert(f[i] == fd[i]);
            } else {
                assert(f[i] == s[s.len() - 1]);
            }
        }
    }
}

proof fn lemma_filter_all<A>(s: Seq<A>, p: spec_fn(A) -> bool)
    requires
        forall|i: int| 0 <= i < s.len() ==> p(#[trigger] s[i]),
    ensures
        s.filter(p) == s,
    decreases s.len(),
{
    reveal(Seq::filter);
    if s.len() > 0 {
        let d = s.drop_last();
        assert forall|i: int| 0 <= i < d.len() implies p(#[trigger] d[i]) by {
            assert(d[i] == s[i]);
        }
        lemma_filter_all(d, p);
        assert(p(s[s.len() - 1]));
        assert(d.push(s.last()) =~= s);
    } else {
        assert(s.filter(p) =~= s);
    }
}

proof fn lemma_filter_none<A>(s: Seq<A>, p: spec_fn(A) -> bool)
    requires
        forall|i: int| 0 <= i < s.len() ==> !p(#[trigger] s[i]),
    ensures
        s.filter(p).len() == 0,
    decreases s.len(),
{
    reveal(Seq::filter);
    if s.len() > 0 {
        let d = s.drop_last();
        assert forall|i: int| 0 <= i < d.len() implies !p(#[trigger] d[i]) by {
            assert(d[i] == s[i]);
        }
        lemma_filter_none(d, p);
        assert(!p(s[s.len() - 1]));
    }
}

/// A block is already reset for the live mark `m`.
pub open spec fn is_reset(v: BumpView, m: u8) -> bool {
    reset_view(v, m) == v
}

/// Taking back blocks that are all reset already only reverses them.
proof fn lemma_swept_reset(s: Seq<BumpView>, m: u8)
    requires
        forall|i: int| 0 <= i < s.len() ==> is_reset(#[trigger] s[i], m),
    ensures
        swept(s, m) == s.reverse(),
{
    assert forall|i: int| 0 <= i < s.len() implies #[trigger] swept(s, m)[i] == s.reverse()[i] by {
        assert(is_reset(s[s.len() - 1 - i], m));
    }
    assert(swept(s, m) =~= s.reverse());
}

/// The blocks a sweep takes back are all reset.
proof fn lemma_swept_is_reset(s: Seq<BumpView>, m: u8)
    ensures
        forall|i: int| 0 <= i < swept(s, m).len() ==> is_reset(#[trigger] swept(s, m)[i], m),
{
    assert forall|i: int| 0 <= i < swept(s, m).len() implies is_reset(#[trigger] swept(s, m)[i], m) by {
        lemma_reset_idempotent(s[s.len() - 1 - i], m);
    }
}

/// Refreshing again with the same mark: once a refresh has released every
/// free block it gathered, a second refresh with the same mark, every large
/// block's header still carrying it, gathers and releases no block, keeps
/// the block count, and keeps the same blocks up for recycling, at rest and
/// large, each list taken back in reverse order.
pub proof fn lemma_refresh_again(v: StoreView, mark: Mark, marks1: Seq<Mark>, marks2: Seq<Mark>)
    requires
        0 <= v.block_count,
        refreshed(v, mark, marks1).free.len() == 0,
        marks2.len() == refreshed(v, mark, marks1).large.len(),
        forall|i: int| 0 <= i < marks2.len() ==> #[trigger] marks2[i] == mark,
    ensures
        ({
            let w = refreshed(v, mark, marks1);
            let w2 = refreshed(w, mark, marks2);
            &&& refresh_freed(w, mark_code(mark)).len() == 0
            &&& refresh_released(w, mark_code(mark)).len() == 0
            &&& large_by_mark(w.large, marks2, mark, false).len() == 0
            &&& w2.block_count == w.block_count
            &&& w2.free.len() == 0
            &&& w2.recycle == w.recycle.reverse()
            &&& w2.rest == w.rest.reverse()
            &&& w2.large == w.large.reverse()
        }),
{
    let m = mark_code(mark);
    let w = refreshed(v, mark, marks1);
    let sr = swept(v.recycle, m);
    let st = swept(v.rest, m);
    let marked = |x: BumpView| view_is_marked(x, m);
    let unmarked = |x: BumpView| !view_is_marked(x, m);
    let holed = |x: BumpView| view_is_marked(x, m) && view_hole_size(x) != 0;
    let full = |x: BumpView| view_is_marked(x, m) && view_hole_size(x) == 0;
    let reset = |x: BumpView| is_reset(x, m);
    lemma_swept_is_reset(v.recycle, m);
    lemma_swept_is_reset(v.rest, m);
    lemma_filter_keeps(sr, marked, reset);
    lemma_filter_keeps(st, holed, reset);
    lemma_filter_keeps(st, full, reset);
    let rc = w.recycle;
    let rt = w.rest;
    assert(rc == sr.filter(marked) + st.filter(holed));
    assert(rt == st.filter(full));
    assert forall|i: int| 0 <= i < rc.len() implies #[trigger] is_reset(rc[i], m) && view_is_marked(rc[i], m) by {
        if i < sr.filter(marked).len() {
            assert(rc[i] == sr.filter(marked)[i]);
        } else {
            assert(rc[i] == st.filter(holed)[i - sr.filter(marked).len()]);
        }
    }
    assert forall|i: int| 0 <= i < rt.len() implies #[trigger] is_reset(rt[i], m) && full(rt[i]) by {
        assert(rt[i] == st.filter(full)[i]);
    }
    lemma_swept_reset(rc, m);
    lemma_swept_reset(rt, m);
    let rcr = rc.reverse();
    let rtr = rt.reverse();
    assert forall|i: int| 0 <= i < rcr.len() implies marked(#[trigger] rcr[i]) by {
        assert(rcr[i] == rc[rc.len() - 1 - i]);
    }
    assert forall|i: int| 0 <= i < rcr.len() implies !unmarked(#[trigger] rcr[i]) by {
        assert(rcr[i] == rc[rc.len() - 1 - i]);
    }
    assert forall|i: int| 0 <= i < rtr.len() implies full(#[trigger] rtr[i]) by {
        assert(rtr[i] == rt[rt.len() - 1 - i]);
    }
    assert forall|i: int| 0 <= i < rtr.len() implies !holed(#[trigger] rtr[i]) by {
        assert(rtr[i] == rt[rt.len() - 1 - i]);
    }
    assert forall|i: int| 0 <= i < rtr.len() implies !unmarked(#[trigger] rtr[i]) by {
        assert(rtr[i] == rt[rt.len() - 1 - i]);
    }
    lemma_filter_all(rcr, marked);
    lemma_filter_none(rcr, unmarked);
    lemma_filter_all(rtr, full);
    lemma_filter_none(rtr, holed);
    lemma_filter_none(rtr, unmarked);
    assert(refresh_freed(w, m).len() == 0);
    assert(rcr.filter(marked) + rtr.filter(holed) =~= rcr);
    // large blocks: every pair carries the mark
    let pairs = large_pairs(w.large, marks2);
    assert forall|i: int| 0 <= i < pairs.len() implies #[trigger] mark_is(mark, true)(pairs[i]) by {
        assert(marks2[w.large.len() - 1 - i] == mark);
    }
    assert forall|i: int| 0 <= i < pairs.len() implies !#[trigger] mark_is(mark, false)(pairs[i]) by {
        assert(marks2[w.large.len() - 1 - i] == mark);
    }
    lemma_filter_all(pairs, mark_is(mark, true));
    lemma_filter_none(pairs, mark_is(mark, false));
    assert(pair_blocks(pairs) =~= w.large.reverse());
}

impl BlockStore {
    /// Every block it holds is well formed.
    pub closed spec fn wf(&self) -> bool {
        &&& all_wf(self.free@)
        &&& all_wf(self.recycle@)
        &&& all_wf(self.rest@)
        &&& forall|i: int| 0 <= i < self.large@.len() ==> (#[trigger] self.large@[i]).wf()
    }

    /// An empty store.
    pub fn new() -> (s: BlockStore)
        ensures
            s.wf(),
            s@.block_count == 0,
            s@.free.len() == 0,
            s@.recycle.len() == 0,
            s@.rest.len() == 0,
            s@.large.len() == 0,
    {
        BlockStore {
            block_count: 0,
            free: Vec::new(),
            recycle: Vec::new(),
            rest: Vec::new(),
            large: Vec::new(),
        }
    }

    /// Put a block without a usable hole to rest.
    pub fn push_rest(&mut self, block: BumpBlock)
        requires
            old(self).wf(),
            block.wf(),
        ensures
            final(self).wf(),
            final(self)@ == (StoreView { rest: old(self)@.rest.push(block@), ..old(self)@ }),
    {
        proof {
            lemma_views_push(self.rest@, block);
        }
        self.rest.push(block);
    }

    /// Put a block with a hole up for recycling.
    pub fn push_recycle(&mut self, block: BumpBlock)
        requires
            old(self).wf(),
            block.wf(),
        ensures
            final(self).wf(),
            final(self)@ == (StoreView { recycle: old(self)@.recycle.push(block@), ..old(self)@ }),
    {
        proof {
            lemma_views_push(self.recycle@, block);
        }
        self.recycle.push(block);
    }

    /// Take a block to allocate small objects into: the last block put up
    /// for recycling, else the last free block, else a new block made over
    /// the memory `alloc_block` obtains (0 is `OOM`).
    pub fn get_head<F: FnOnce() -> usize>(&mut self, alloc_block: F) -> (r: Result<
        BumpBlock,
        AllocError,
    >)
        requires
            old(self).wf(),
            call_requires(alloc_block, ()),
            forall|p: usize|
                call_ensures(alloc_block, (), p) ==> (p != 0 ==> allocation_fits(p, block_layout())),
        ensures
            final(self).wf(),
            r matches Ok(b) ==> b.wf(),
            old(self)@.recycle.len() > 0 ==> final(self)@ == (StoreView {
                recycle: old(self)@.recycle.drop_last(),
                ..old(self)@
            }) && (r matches Ok(b) && b@ == old(self)@.recycle.last()),
            old(self)@.recycle.len() == 0 && old(self)@.free.len() > 0 ==> final(self)@ == (
            StoreView { free: old(self)@.free.drop_last(), ..old(self)@ }) && (r matches Ok(b) && b@
                == old(self)@.free.last()),
            old(self)@.recycle.len() == 0 && old(self)@.free.len() == 0 ==> final(self)@
                == after_new_blocks(old(self)@, 1),
            old(self)@.recycle.len() == 0 && old(self)@.free.len() == 0 ==> final(self)@ == (
            StoreView { block_count: wrapping_inc_spec(old(self)@.block_count), ..old(self)@ }) && (
            r matches Ok(b) ==> is_fresh(b@)) && (r matches Err(e) ==> e == AllocError::OOM)
                && exists|p: usize| #[trigger]
                call_ensures(alloc_block, (), p) && (p == 0 <==> r is Err) && (r matches Ok(b)
                    ==> b@.block.ptr == p),
    {
        proof {
            reveal_with_fuel(after_new_blocks, 2);
        }
        if self.recycle.len() > 0 {
            proof {
                lemma_views_drop_last(self.recycle@);
            }
            let b = self.recycle.pop().unwrap();
            Ok(b)
        } else {
            self.get_overflow(alloc_block)
        }
    }

    /// Take a block to allocate medium objects into: the last free block,
    /// else a new block made over the memory `alloc_block` obtains (0 is
    /// `OOM`).
    pub fn get_overflow<F: FnOnce() -> usize>(&mut self, alloc_block: F) -> (r: Result<
        BumpBlock,
        AllocError,
    >)
        requires
            old(self).wf(),
            call_requires(alloc_block, ()),
            forall|p: usize|
                call_ensures(alloc_block, (), p) ==> (p != 0 ==> allocation_fits(p, block_layout())),
        ensures
            final(self).wf(),
            r matches Ok(b) ==> b.wf(),
            old(self)@.free.len() > 0 ==> final(self)@ == (StoreView {
                free: old(self)@.free.drop_last(),
                ..old(self)@
            }) && (r matches Ok(b) && b@ == old(self)@.free.last()),
            old(self)@.free.len() == 0 ==> final(self)@ == after_new_blocks(old(self)@, 1),
            old(self)@.free.len() == 0 ==> final(self)@ == (StoreView {
                block_count: wrapping_inc_spec(old(self)@.block_count),
                ..old(self)@
            }) && (r matches Ok(b) ==> is_fresh(b@)) && (r matches Err(e) ==> e == AllocError::OOM)
                && exists|p: usize| #[trigger]
                call_ensures(alloc_block, (), p) && (p == 0 <==> r is Err) && (r matches Ok(b)
                    ==> b@.block.ptr == p),
    {
        proof {
            reveal_with_fuel(after_new_blocks, 2);
        }
        if self.free.len() > 0 {
            proof {
                lemma_views_drop_last(self.free@);
            }
            let b = self.free.pop().unwrap();
            Ok(b)
        } else {
            self.new_block(alloc_block)
        }
    }

    /// Count a new immix block and make a bump block over the memory
    /// `alloc_block` obtains (0 is `OOM`; the block is counted either way).
    fn new_block<F: FnOnce() -> usize>(&mut self, alloc_block: F) -> (r: Result<
        BumpBlock,
        AllocError,
    >)
        requires
            old(self).wf(),
            call_requires(alloc_block, ()),
            forall|p: usize|
                call_ensures(alloc_block, (), p) ==> (p != 0 ==> allocation_fits(p, block_layout())),
        ensures
            final(self).wf(),
            final(self)@ == (StoreView {
                block_count: wrapping_inc_spec(old(self)@.block_count),
                ..old(self)@
            }),
            r matches Ok(b) ==> b.wf() && is_fresh(b@),
            r matches Err(e) ==> e == AllocError::OOM,
            exists|p: usize| #[trigger]
                call_ensures(alloc_block, (), p) && (p == 0 <==> r is Err) && (r matches Ok(b)
                    ==> b@.block.ptr == p),
    {
        self.block_count = self.block_count.wrapping_add(1);
        let allocated = alloc_block();
        BumpBlock::new(allocated)
    }

    /// Number of immix blocks created and not released.
    pub fn block_count(&self) -> (n: usize)
        ensures
            n == self@.block_count,
    {
        self.block_count
    }

    /// Total size of the large blocks.
    pub fn count_large_space(&self) -> (n: usize)
        requires
            large_space(self@.large) <= usize::MAX,
        ensures
            n == large_space(self@.large),
    {
        let mut sum: usize = 0;
        let mut i: usize = 0;
        while i < self.large.len()
            invariant
                i <= self.large@.len(),
                large_space(self@.large) <= usize::MAX,
                sum == large_space(self@.large.take(i as int)),
            decreases self.large@.len() - i,
        {
            proof {
                let s = self@.large;
                assert(s.take(i + 1).drop_last() =~= s.take(i as int));
                lemma_large_space_prefix(s, i + 1);
            }
            sum = sum + self.large[i].get_size();
            i = i + 1;
        }
        proof {
            assert(self@.large.take(i as int) =~= self@.large);
        }
        sum
    }

    /// Record a large block of `layout` over the memory the system allocator
    /// returned as `allocated` (0 is `OOM`); returns its address.
    pub fn create_large(&mut self, layout: ObjLayout, allocated: usize) -> (r: Result<
        usize,
        AllocError,
    >)
        requires
            old(self).wf(),
            layout.wf(),
            allocated != 0 ==> allocation_fits(allocated, layout),
        ensures
            final(self).wf(),
            allocated == 0 ==> r == Err::<usize, AllocError>(AllocError::OOM) && final(self)@
                == old(self)@,
            allocated != 0 ==> r == Ok::<usize, AllocError>(allocated) && final(self)@ == (
            StoreView {
                large: old(self)@.large.push(BlockView { ptr: allocated as int, layout }),
                ..old(self)@
            }),
    {
        let block = match Block::new(layout, allocated) {
            Ok(b) => b,
            Err(e) => { return Err(e); },
        };
        let ptr = block.as_ptr();
        proof {
            assert(block_views(self.large@.push(block)) =~= block_views(self.large@).push(block@));
        }
        self.large.push(block);
        Ok(ptr)
    }
    /// Sweep the store after a trace that marked the live objects with
    /// `mark`; `large_marks[i]` is the mark in the header of `large[i]`.
    /// Blocks are taken back last first and reset (`reset_hole`): recycled
    /// blocks stay up for recycling if still live; resting blocks go up for
    /// recycling if live with a hole, stay at rest if live without one;
    /// dead blocks of both join the free blocks. Large blocks are kept if
    /// their header carries `mark`. Finally up to `FREE_RELEASE_MAX` free
    /// blocks are released, each uncounted from `block_count`. Returns the
    /// released immix blocks (in the order taken) and the dropped large
    /// blocks, whose memory goes back to the system.
    pub fn refresh(&mut self, mark: Mark, large_marks: &Vec<Mark>) -> (released: (
        Vec<BumpBlock>,
        Vec<Block>,
    ))
        requires
            old(self).wf(),
            large_marks@.len() == old(self)@.large.len(),
        ensures
            final(self).wf(),
            ({
                let m = mark_code(mark);
                let sr = swept(old(self)@.recycle, m);
                let st = swept(old(self)@.rest, m);
                let freed = old(self)@.free + dead_blocks(sr, m) + dead_blocks(st, m);
                let k = if freed.len() < FREE_RELEASE_MAX {
                    freed.len() as int
                } else {
                    FREE_RELEASE_MAX as int
                };
                &&& final(self)@.recycle == live_blocks(sr, m) + holed_blocks(st, m)
                &&& final(self)@.rest == full_blocks(st, m)
                &&& final(self)@.large == large_by_mark(old(self)@.large, large_marks@, mark, true)
                &&& final(self)@.free == freed.take(freed.len() - k)
                &&& final(self)@.block_count == wrapping_sub_spec(old(self)@.block_count, k)
                &&& bump_views(released.0@) == freed.skip(freed.len() - k).reverse()
                &&& block_views(released.1@) == large_by_mark(
                    old(self)@.large,
                    large_marks@,
                    mark,
                    false,
                )
            }),
            final(self)@.recycle.len() + final(self)@.rest.len() + final(self)@.free.len()
                + released.0@.len() == old(self)@.recycle.len() + old(self)@.rest.len() + old(
                self,
            )@.free.len(),
            final(self)@ == refreshed(old(self)@, mark, large_marks@),
            bump_views(released.0@) == refresh_released(old(self)@, mark_code(mark)),
            forall|i: int|
                0 <= i < old(self)@.large.len() && large_marks@[i] == mark
                    ==> #[trigger] final(self)@.large.contains(old(self)@.large[i]),
            forall|i: int|
                0 <= i < old(self)@.large.len() && large_marks@[i] != mark
                    ==> #[trigger] block_views(released.1@).contains(old(self)@.large[i]),
            forall|k: int|
                0 <= k < final(self)@.large.len() ==> #[trigger] is_large_with_mark(
                    old(self)@.large,
                    large_marks@,
                    mark,
                    true,
                    final(self)@.large[k],
                ),
            forall|k: int|
                0 <= k < released.1@.len() ==> #[trigger] is_large_with_mark(
                    old(self)@.large,
                    large_marks@,
                    mark,
                    false,
                    block_views(released.1@)[k],
                ),
            final(self)@.large.len() + released.1@.len() == old(self)@.large.len(),
    {
        let m = mark.code();
        let ghost m_spec = mark_code(mark);
        let ghost r0 = old(self)@.recycle;
        let ghost t0 = old(self)@.rest;
        let ghost f0 = old(self)@.free;
        let ghost sr = swept(r0, m_spec);
        let ghost st = swept(t0, m_spec);
        let mut new_rest: Vec<BumpBlock> = Vec::new();
        let mut new_recycle: Vec<BumpBlock> = Vec::new();
        let mut new_large: Vec<Block> = Vec::new();
        let mut dropped_large: Vec<Block> = Vec::new();

        let ghost mut k: int = 0;
        while self.recycle.len() > 0
            invariant
                self.wf(),
                m == m_spec,
                0 <= k <= r0.len(),
                bump_views(self.recycle@) == r0.take(r0.len() - k),
                bump_views(new_recycle@) == live_blocks(sr.take(k), m_spec),
                bump_views(self.free@) == f0 + dead_blocks(sr.take(k), m_spec),
                all_wf(new_recycle@),
                self@.rest == t0,
                self@.large == old(self)@.large,
                self@.block_count == old(self)@.block_count,
                sr == swept(r0, m_spec),
            decreases self.recycle@.len(),
        {
            proof {
                lemma_views_drop_last(self.recycle@);
                assert(r0.take(r0.len() - k).drop_last() =~= r0.take(r0.len() - k - 1));
            }
            let mut block = self.recycle.pop().unwrap();
            block.reset_hole(m);
            proof {
                assert(block@ == sr[k]);
                assert(sr.take(k + 1) =~= sr.take(k).push(sr[k]));
                lemma_filter_push(sr.take(k), sr[k], |v: BumpView| view_is_marked(v, m_spec));
                lemma_filter_push(sr.take(k), sr[k], |v: BumpView| !view_is_marked(v, m_spec));
            }
            if block.is_marked(m) {
                proof {
                    lemma_views_push(new_recycle@, block);
                }
                new_recycle.push(block);
            } else {
                proof {
                    lemma_views_push(self.free@, block);
                    assert(f0 + dead_blocks(sr.take(k), m_spec).push(block@) =~= (f0 + dead_blocks(
                        sr.take(k),
                        m_spec,
                    )).push(block@));
                }
                self.free.push(block);
            }
            proof {
                k = k + 1;
            }
        }
        proof {
            assert(k == r0.len());
            assert(sr.take(k) =~= sr);
        }

        let ghost mut j: int = 0;
        while self.rest.len() > 0
            invariant
                self.wf(),
                m == m_spec,
                0 <= j <= t0.len(),
                bump_views(self.rest@) == t0.take(t0.len() - j),
                bump_views(new_recycle@) == live_blocks(sr, m_spec) + holed_blocks(st.take(j), m_spec),
                bump_views(new_rest@) == full_blocks(st.take(j), m_spec),
                bump_views(self.free@) == f0 + dead_blocks(sr, m_spec) + dead_blocks(st.take(j), m_spec),
                all_wf(new_recycle@),
                all_wf(new_rest@),
                self@.large == old(self)@.large,
                self@.block_count == old(self)@.block_count,
                st == swept(t0, m_spec),
            decreases self.rest@.len(),
        {
            proof {
                lemma_views_drop_last(self.rest@);
                assert(t0.take(t0.len() - j).drop_last() =~= t0.take(t0.len() - j - 1));
            }
            let mut block = self.rest.pop().unwrap();
            block.reset_hole(m);
            proof {
                assert(block@ == st[j]);
                assert(st.take(j + 1) =~= st.take(j).push(st[j]));
                lemma_filter_push(
                    st.take(j),
                    st[j],
                    |v: BumpView| view_is_marked(v, m_spec) && view_hole_size(v) != 0,
                );
                lemma_filter_push(
                    st.take(j),
                    st[j],
                    |v: BumpView| view_is_marked(v, m_spec) && view_hole_size(v) == 0,
                );
                lemma_filter_push(st.take(j), st[j], |v: BumpView| !view_is_marked(v, m_spec));
                block.lemma_wf();
            }
            if block.is_marked(m) {
                if block.current_hole_size() != 0 {
                    proof {
                        lemma_views_push(new_recycle@, block);
                        assert(live_blocks(sr, m_spec) + holed_blocks(st.take(j), m_spec).push(
                            block@,
                        ) =~= (live_blocks(sr, m_spec) + holed_blocks(st.take(j), m_spec)).push(
                            block@,
                        ));
                    }
                    new_recycle.push(block);
                } else {
                    proof {
                        lemma_views_push(new_rest@, block);
                    }
                    new_rest.push(block);
                }
            } else {
                proof {
                    lemma_views_push(self.free@, block);
                    assert(f0 + dead_blocks(sr, m_spec) + dead_blocks(st.take(j), m_spec).push(
                        block@,
                    ) =~= (f0 + dead_blocks(sr, m_spec) + dead_blocks(st.take(j), m_spec)).push(
                        block@,
                    ));
                }
                self.free.push(block);
            }
            proof {
                j = j + 1;
            }
        }
        proof {
            assert(j == t0.len());
            assert(st.take(j) =~= st);
        }

        let ghost l0 = old(self)@.large;
        let ghost pairs = large_pairs(l0, large_marks@);
        let ghost keep = mark_is(mark, true);
        let ghost drop = mark_is(mark, false);
        let mut idx = self.large.len();
        while self.large.len() > 0
            invariant
                self.wf(),
                idx == self.large@.len(),
                idx <= l0.len(),
                block_views(self.large@) == l0.take(idx as int),
                large_marks@.len() == l0.len(),
                pairs == large_pairs(l0, large_marks@),
                keep == mark_is(mark, true),
                drop == mark_is(mark, false),
                block_views(new_large@) == pair_blocks(pairs.take(l0.len() - idx).filter(keep)),
                block_views(dropped_large@) == pair_blocks(pairs.take(l0.len() - idx).filter(drop)),
                forall|i: int| 0 <= i < new_large@.len() ==> (#[trigger] new_large@[i]).wf(),
                self@.block_count == old(self)@.block_count,
                self@.free == f0 + dead_blocks(sr, m_spec) + dead_blocks(st, m_spec),
                all_wf(new_recycle@),
                all_wf(new_rest@),
                bump_views(new_recycle@) == live_blocks(sr, m_spec) + holed_blocks(st, m_spec),
                bump_views(new_rest@) == full_blocks(st, m_spec),
            decreases idx,
        {
            proof {
                lemma_block_views_drop_last(self.large@);
            }
            let block = self.large.pop().unwrap();
            idx = idx - 1;
            let ghost done = l0.len() - 1 - idx;
            proof {
                assert(l0.take(idx + 1).drop_last() =~= l0.take(idx as int));
                assert(block@ == l0[idx as int]) by {
                    assert(l0.take(idx + 1)[idx as int] == l0[idx as int]);
                }
                assert(pairs[done] == (block@, large_marks@[idx as int]));
                assert(pairs.take(done + 1) =~= pairs.take(done).push(pairs[done]));
                lemma_filter_push(pairs.take(done), pairs[done], keep);
                lemma_filter_push(pairs.take(done), pairs[done], drop);
            }
            if large_marks[idx] == mark {
                proof {
                    assert(block_views(new_large@.push(block)) =~= block_views(new_large@).push(
                        block@,
                    ));
                    assert(pair_blocks(pairs.take(done).filter(keep).push(pairs[done])) =~= pair_blocks(
                        pairs.take(done).filter(keep),
                    ).push(block@));
                }
                new_large.push(block);
            } else {
                proof {
                    assert(block_views(dropped_large@.push(block)) =~= block_views(
                        dropped_large@,
                    ).push(block@));
                    assert(pair_blocks(pairs.take(done).filter(drop).push(pairs[done])) =~= pair_blocks(
                        pairs.take(done).filter(drop),
                    ).push(block@));
                }
                dropped_large.push(block);
            }
        }
        proof {
            assert(pairs.take(l0.len() as int) =~= pairs);
            assert(idx == 0);
        }

        self.rest = new_rest;
        self.recycle = new_recycle;
        self.large = new_large;

        let ghost freed = self@.free;
        let mut released: Vec<BumpBlock> = Vec::new();
        let mut n: usize = 0;
        while n < FREE_RELEASE_MAX && self.free.len() > 0
            invariant
                self.wf(),
                n <= FREE_RELEASE_MAX,
                n <= freed.len(),
                bump_views(self.free@) == freed.take(freed.len() - n),
                bump_views(released@) == freed.skip(freed.len() - n).reverse(),
                self@.block_count == wrapping_sub_spec(old(self)@.block_count, n as int),
                all_wf(released@),
                FREE_RELEASE_MAX == 10000,
                self@.recycle == live_blocks(sr, m_spec) + holed_blocks(st, m_spec),
                self@.rest == full_blocks(st, m_spec),
                self@.large == large_by_mark(old(self)@.large, large_marks@, mark, true),
                freed == f0 + dead_blocks(sr, m_spec) + dead_blocks(st, m_spec),
                sr == swept(old(self)@.recycle, m_spec),
                st == swept(old(self)@.rest, m_spec),
                m_spec == mark_code(mark),
            decreases FREE_RELEASE_MAX - n,
        {
            proof {
                lemma_views_drop_last(self.free@);
                assert(freed.take(freed.len() - n).drop_last() =~= freed.take(freed.len() - n - 1));
            }
            self.block_count = self.block_count.wrapping_sub(1);
            let b = self.free.pop().unwrap();
            proof {
                lemma_views_push(released@, b);
                assert(b@ == freed[freed.len() - n - 1]);
                assert(freed.skip(freed.len() - (n + 1)).reverse() =~= freed.skip(
                    freed.len() - n,
                ).reverse().push(b@));
            }
            released.push(b);
            n = n + 1;
        }
        proof {
            lemma_sweep_partition(sr, m_spec);
            lemma_sweep_partition(st, m_spec);
            assert(bump_views(released@).len() == released@.len());
            assert(freed == refresh_freed(old(self)@, m_spec));
            assert(self@ == refreshed(old(self)@, mark, large_marks@));
            lemma_large_by_mark(old(self)@.large, large_marks@, mark);
            assert(block_views(dropped_large@).len() == dropped_large@.len());
        }
        (released, dropped_large)
    }
}

proof fn lemma_large_space_prefix(s: Seq<BlockView>, k: int)
    requires
        0 < k <= s.len(),
    ensures
        large_space(s.take(k)) == large_space(s.take(k - 1)) + s[k - 1].layout.size,
        large_space(s.take(k)) <= large_space(s),
    decreases s.len() - k,
{
    assert(s.take(k).drop_last() =~= s.take(k - 1));
    if k < s.len() {
        lemma_large_space_prefix(s, k + 1);
    } else {
        assert(s.take(k) =~= s);
    }
}

} // verus!
