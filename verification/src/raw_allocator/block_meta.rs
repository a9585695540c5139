use vstd::prelude::*;
use crate::constants::{BLOCK_SIZE, FREE_MARK, LINE_COUNT, LINE_SIZE, lemma_constant_values};
use crate::raw_allocator::size_class::{SizeClass, size_class_of};

verus! {

/// The line marks after freeing every line that does not carry `mark`.
pub open spec fn freed_lines(lines: Seq<u8>, mark: u8) -> Seq<u8> {
    Seq::new(LINE_COUNT as nat, |i: int| if lines[i] == mark { mark } else { FREE_MARK })
}

/// Freeing the lines that do not carry `mark` leaves every line either
/// carrying `mark` or free, and freeing again with the same mark changes
/// nothing: a second sweep with the same mark frees no more memory.
pub proof fn lemma_freed_lines_idempotent(lines: Seq<u8>, mark: u8)
    ensures
        freed_lines(freed_lines(lines, mark), mark) == freed_lines(lines, mark),
        forall|i: int|
            0 <= i < LINE_COUNT ==> #[trigger] freed_lines(lines, mark)[i] == mark
                || freed_lines(lines, mark)[i] == FREE_MARK,
{
    assert(freed_lines(freed_lines(lines, mark), mark) =~= freed_lines(lines, mark));
}

/// Number of lines an allocation of `alloc_size` bytes spans, rounded up.
pub open spec fn lines_required(alloc_size: int) -> int {
    (alloc_size + LINE_SIZE - 1) / LINE_SIZE as int
}

/// `[b, e)` is a maximal run of free lines below the line `s`: every line in
/// it is free, the line at `e` is marked (or `e` is `s`), and the line just
/// below `b` is marked (or `b` is the first line).
pub open spec fn is_free_run(m: Seq<u8>, s: int, b: int, e: int) -> bool {
    &&& 0 <= b < e <= s
    &&& forall|j: int| b <= j < e ==> #[trigger] m[j] == FREE_MARK
    &&& (e == s || m[e] != FREE_MARK)
    &&& (b == 0 || m[b - 1] != FREE_MARK)
}

/// A run can host an allocation spanning `req` lines. A run above a marked
/// line gives up its lowest line, which may hold the tail of an object that
/// starts in the marked line (conservative marking).
pub open spec fn run_fits(b: int, e: int, req: int) -> bool {
    if b == 0 {
        e - b >= req
    } else {
        e - b > req
    }
}

/// The `(cursor, limit)` byte offsets of the hole that a run offers.
pub open spec fn hole_of(b: int, e: int) -> (usize, usize) {
    ((e * LINE_SIZE) as usize, if b == 0 { 0usize } else { ((b + 1) * LINE_SIZE) as usize })
}

/// `r` is the hole the allocator takes when it searches downwards from the
/// line `s` for `req` lines: the highest free run that fits, or `None` when
/// no run below `s` fits.
pub open spec fn is_next_hole(m: Seq<u8>, s: int, req: int, r: Option<(usize, usize)>) -> bool {
    match r {
        None => forall|b: int, e: int| #[trigger] is_free_run(m, s, b, e) ==> !run_fits(b, e, req),
        Some(h) => exists|b: int, e: int|
            {
                &&& #[trigger] is_free_run(m, s, b, e)
                &&& run_fits(b, e, req)
                &&& h == hole_of(b, e)
                &&& forall|b2: int, e2: int| #[trigger]
                    is_free_run(m, s, b2, e2) && run_fits(b2, e2, req) ==> e2 <= e
            },
    }
}


/// The hole the allocator takes when searching downwards from line `s` for
/// `req` lines (see `is_next_hole`, which has exactly one solution).
pub open spec fn next_hole(m: Seq<u8>, s: int, req: int) -> Option<(usize, usize)> {
    choose|r: Option<(usize, usize)>| is_next_hole(m, s, req, r)
}

/// A maximal free run is determined by its end.
pub proof fn lemma_free_run_unique(m: Seq<u8>, s: int, b1: int, b2: int, e: int)
    requires
        is_free_run(m, s, b1, e),
        is_free_run(m, s, b2, e),
    ensures
        b1 == b2,
{
    if b1 < b2 {
        assert(m[b2 - 1] == FREE_MARK);
    } else if b2 < b1 {
        assert(m[b1 - 1] == FREE_MARK);
    }
}

/// The search for the next hole has one answer only.
pub proof fn lemma_next_hole_unique(
    m: Seq<u8>,
    s: int,
    req: int,
    r1: Option<(usize, usize)>,
    r2: Option<(usize, usize)>,
)
    requires
        is_next_hole(m, s, req, r1),
        is_next_hole(m, s, req, r2),
    ensures
        r1 == r2,
{
    match (r1, r2) {
        (Some(h1), Some(h2)) => {
            let (b1, e1) = choose|b: int, e: int|
                {
                    &&& #[trigger] is_free_run(m, s, b, e)
                    &&& run_fits(b, e, req)
                    &&& h1 == hole_of(b, e)
                    &&& forall|b2: int, e2: int| #[trigger]
                        is_free_run(m, s, b2, e2) && run_fits(b2, e2, req) ==> e2 <= e
                };
            let (b2, e2) = choose|b: int, e: int|
                {
                    &&& #[trigger] is_free_run(m, s, b, e)
                    &&& run_fits(b, e, req)
                    &&& h2 == hole_of(b, e)
                    &&& forall|b3: int, e3: int| #[trigger]
                        is_free_run(m, s, b3, e3) && run_fits(b3, e3, req) ==> e3 <= e
                };
            assert(e1 == e2);
            lemma_free_run_unique(m, s, b1, b2, e1);
        },
        (Some(h1), None) => {
            let (b1, e1) = choose|b: int, e: int|
                {
                    &&& #[trigger] is_free_run(m, s, b, e)
                    &&& run_fits(b, e, req)
                    &&& h1 == hole_of(b, e)
                    &&& forall|b2: int, e2: int| #[trigger]
                        is_free_run(m, s, b2, e2) && run_fits(b2, e2, req) ==> e2 <= e
                };
        },
        (None, Some(h2)) => {
            let (b2, e2) = choose|b: int, e: int|
                {
                    &&& #[trigger] is_free_run(m, s, b, e)
                    &&& run_fits(b, e, req)
                    &&& h2 == hole_of(b, e)
                    &&& forall|b3: int, e3: int| #[trigger]
                        is_free_run(m, s, b3, e3) && run_fits(b3, e3, req) ==> e3 <= e
                };
        },
        (None, None) => {},
    }
}

/// A search result is the hole `next_hole` names.
pub proof fn lemma_next_hole_is(m: Seq<u8>, s: int, req: int, r: Option<(usize, usize)>)
    requires
        is_next_hole(m, s, req, r),
    ensures
        next_hole(m, s, req) == r,
{
    lemma_next_hole_unique(m, s, req, r, next_hole(m, s, req));
}

/// A hole found below line `s` for an allocation of `req` lines lies below
/// that line, is line aligned, spans at least `req` lines (so it is not
/// empty when `req >= 1`), and every line in it is free.
pub proof fn lemma_next_hole_fits(m: Seq<u8>, s: int, req: int, c: usize, l: usize)
    requires
        is_next_hole(m, s, req, Some((c, l))),
        req >= 0,
        s <= LINE_COUNT,
    ensures
        l <= c <= s * LINE_SIZE,
        req >= 1 ==> l < c,
        c % LINE_SIZE == 0,
        l % LINE_SIZE == 0,
        c - l >= req * LINE_SIZE,
        forall|j: int| (l / LINE_SIZE) as int <= j < (c / LINE_SIZE) as int ==> #[trigger] m[j] == FREE_MARK,
{
    lemma_constant_values();
    let h = (c, l);
    let (b, e) = choose|b: int, e: int|
        {
            &&& #[trigger] is_free_run(m, s, b, e)
            &&& run_fits(b, e, req)
            &&& h == hole_of(b, e)
            &&& forall|b2: int, e2: int| #[trigger]
                is_free_run(m, s, b2, e2) && run_fits(b2, e2, req) ==> e2 <= e
        };
    assert(c == e * 128);
    assert(b == 0 ==> l == 0);
    assert(b != 0 ==> l == (b + 1) * 128);
    assert forall|j: int| (l / LINE_SIZE) as int <= j < (c / LINE_SIZE) as int implies #[trigger] m[j]
        == FREE_MARK by {
        assert(b <= j < e);
    }
}


/// The search takes the highest hole: whenever some maximal free run below
/// line `s` can take `req >= 1` lines, it finds a non-empty hole that ends
/// at or above the end of every such run; and the hole it finds is one such
/// run, less its lowest line when a marked line lies below it.
pub proof fn lemma_next_hole_highest(m: Seq<u8>, s: int, req: int, r: Option<(usize, usize)>)
    requires
        is_next_hole(m, s, req, r),
        req >= 1,
        s <= LINE_COUNT,
    ensures
        forall|b: int, e: int|
            #[trigger] is_free_run(m, s, b, e) && run_fits(b, e, req) ==> (r matches Some((c, l)) && l
                < c && e * LINE_SIZE <= c),
        r matches Some((c, l)) ==> exists|b: int, e: int|
            #[trigger] is_free_run(m, s, b, e) && run_fits(b, e, req) && c == e * LINE_SIZE && l == (
            if b == 0 {
                0
            } else {
                (b + 1) * LINE_SIZE
            }),
{
    lemma_constant_values();
    if let Some((c, l)) = r {
        lemma_next_hole_fits(m, s, req, c, l);
        let (b, e) = choose|b: int, e: int|
            {
                &&& #[trigger] is_free_run(m, s, b, e)
                &&& run_fits(b, e, req)
                &&& (c, l) == hole_of(b, e)
                &&& forall|b2: int, e2: int| #[trigger]
                    is_free_run(m, s, b2, e2) && run_fits(b2, e2, req) ==> e2 <= e
            };
        assert(c == e * 128);
        assert(is_free_run(m, s, b, e) && run_fits(b, e, req) && c == e * LINE_SIZE && l == (if b
            == 0 {
            0
        } else {
            (b + 1) * LINE_SIZE
        }));
        assert forall|b2: int, e2: int|
            #[trigger] is_free_run(m, s, b2, e2) && run_fits(b2, e2, req) implies e2 * LINE_SIZE <= c by {
            assert(e2 <= e);
        }
    }
}

/// The hole `[l, c)` lies below `starting_at`, holds at least `alloc_size`
/// bytes, is line aligned, and every line in it is free in `m`.
pub open spec fn hole_takes(m: Seq<u8>, starting_at: int, alloc_size: int, c: int, l: int) -> bool {
    &&& 0 <= l <= c <= starting_at
    &&& c - l >= alloc_size
    &&& c % LINE_SIZE as int == 0
    &&& l % LINE_SIZE as int == 0
    &&& forall|j: int| l / (LINE_SIZE as int) <= j < c / (LINE_SIZE as int) ==> #[trigger] m[j] == FREE_MARK
}

/// A hole the search finds for `alloc_size` bytes below `starting_at` can
/// take them: it holds at least `alloc_size` bytes of free lines below
/// `starting_at`.
pub proof fn lemma_found_hole_takes(m: Seq<u8>, starting_at: int, alloc_size: int, c: usize, l: usize)
    requires
        0 <= starting_at,
        0 <= alloc_size,
        starting_at / LINE_SIZE as int <= LINE_COUNT,
        is_next_hole(m, starting_at / LINE_SIZE as int, lines_required(alloc_size), Some((c, l))),
    ensures
        hole_takes(m, starting_at, alloc_size, c as int, l as int),
{
    lemma_constant_values();
    let req = lines_required(alloc_size);
    assert(req * 128 >= alloc_size) by (nonlinear_arith)
        requires
            req == (alloc_size + 127) / 128,
            alloc_size >= 0,
    {}
    assert(req >= 0) by (nonlinear_arith)
        requires
            req == (alloc_size + 127) / 128,
            alloc_size >= 0,
    {}
    lemma_next_hole_fits(m, starting_at / LINE_SIZE as int, req, c, l);
    assert((starting_at / 128) * 128 <= starting_at) by (nonlinear_arith)
        requires
            starting_at >= 0,
    {}
}

/// Line `i` is one of the lines that marking an object of `size` bytes at
/// address `ptr` marks: the line it starts in, and for an object larger than
/// a line the `size / LINE_SIZE` lines from there.
pub open spec fn marked_by(ptr: int, size: int, i: int) -> bool {
    let line = (ptr % BLOCK_SIZE as int) / LINE_SIZE as int;
    if size <= LINE_SIZE {
        i == line
    } else {
        line <= i < line + size / LINE_SIZE as int
    }
}

/// Line marks of one block: one mark per line, the last slot being the mark
/// of the block as a whole.
pub struct BlockMeta {
    lines: Vec<u8>,
}

impl View for BlockMeta {
    type V = Seq<u8>;

    closed spec fn view(&self) -> Seq<u8> {
        self.lines@
    }
}

impl BlockMeta {
    /// The mark table has one slot per line.
    pub open spec fn wf(&self) -> bool {
        self@.len() == LINE_COUNT
    }

    /// The mark of the block as a whole.
    pub open spec fn block_mark(&self) -> u8 {
        self@[LINE_COUNT - 1]
    }

    /// A fresh mark table: every line and the block are free.
    pub fn new() -> (meta: BlockMeta)
        ensures
            meta.wf(),
            forall|i: int| 0 <= i < LINE_COUNT ==> #[trigger] meta@[i] == FREE_MARK,
    {
        let mut lines: Vec<u8> = Vec::new();
        let mut i: usize = 0;
        while i < LINE_COUNT
            invariant
                i <= LINE_COUNT,
                lines@.len() == i,
                forall|j: int| 0 <= j < i ==> #[trigger] lines@[j] == FREE_MARK,
            decreases LINE_COUNT - i,
        {
            lines.push(FREE_MARK);
            i = i + 1;
        }
        BlockMeta { lines }
    }

    /// The mark of line `index`.
    pub fn get_line(&self, index: usize) -> (m: u8)
        requires
            self.wf(),
            index < LINE_COUNT,
        ensures
            m == self@[index as int],
    {
        self.lines[index]
    }

    /// Set the mark of line `index`.
    pub fn set_line(&mut self, index: usize, mark: u8)
        requires
            old(self).wf(),
            index < LINE_COUNT,
        ensures
            final(self)@ == old(self)@.update(index as int, mark),
    {
        self.lines.set(index, mark);
    }

    /// The mark of the block as a whole.
    pub fn get_block(&self) -> (m: u8)
        requires
            self.wf(),
        ensures
            m == self.block_mark(),
    {
        self.get_line(LINE_COUNT - 1)
    }

    /// Set the mark of the block as a whole.
    pub fn set_block(&mut self, mark: u8)
        requires
            old(self).wf(),
        ensures
            final(self)@ == old(self)@.update(LINE_COUNT - 1, mark),
    {
        self.set_line(LINE_COUNT - 1, mark)
    }

    /// Free every line and the block.
    pub fn reset(&mut self)
        requires
            old(self).wf(),
        ensures
            final(self).wf(),
            forall|i: int| 0 <= i < LINE_COUNT ==> #[trigger] final(self)@[i] == FREE_MARK,
    {
        let mut i: usize = 0;
        while i < LINE_COUNT
            invariant
                i <= LINE_COUNT,
                self.wf(),
                forall|j: int| 0 <= j < i ==> #[trigger] self@[j] == FREE_MARK,
            decreases LINE_COUNT - i,
        {
            self.set_line(i, FREE_MARK);
            i = i + 1;
        }
    }

    /// Free every line (and the block) whose mark differs from `mark`; lines
    /// carrying `mark` keep it.
    pub fn free_unmarked(&mut self, mark: u8)
        requires
            old(self).wf(),
        ensures
            final(self).wf(),
            final(self)@ == freed_lines(old(self)@, mark),
    {
        let mut i: usize = 0;
        while i < LINE_COUNT
            invariant
                i <= LINE_COUNT,
                self.wf(),
                forall|j: int|
                    0 <= j < i ==> #[trigger] self@[j] == if old(self)@[j] == mark {
                        mark
                    } else {
                        FREE_MARK
                    },
                forall|j: int| i <= j < LINE_COUNT ==> #[trigger] self@[j] == old(self)@[j],
            decreases LINE_COUNT - i,
        {
            if self.get_line(i) != mark {
                self.set_line(i, FREE_MARK);
            }
            i = i + 1;
        }
        assert(self@ =~= freed_lines(old(self)@, mark));
    }

    /// Mark the lines an object occupies, and the block, with `mark`. The
    /// object starts at address `ptr` and has `size` bytes. A small object
    /// marks the line it starts in; a medium one marks `size / LINE_SIZE`
    /// lines from there (the line holding its tail is covered by the
    /// conservative treatment of holes).
    pub fn mark(&mut self, ptr: usize, size: u32, mark: u8)
        requires
            old(self).wf(),
            size_class_of(size as int) == Some(SizeClass::Small) || (size_class_of(size as int)
                == Some(SizeClass::Medium) && (ptr % BLOCK_SIZE) / LINE_SIZE + size / (
            LINE_SIZE as u32) <= LINE_COUNT),
        ensures
            final(self).wf(),
            forall|i: int|
                0 <= i < LINE_COUNT ==> #[trigger] final(self)@[i] == if i == LINE_COUNT - 1
                    || marked_by(ptr as int, size as int, i) {
                    mark
                } else {
                    old(self)@[i]
                },
            final(self)@[LINE_COUNT - 1] == mark,
            final(self)@[(ptr as int % BLOCK_SIZE as int) / LINE_SIZE as int] == mark,
            forall|j: int|
                (ptr as int % BLOCK_SIZE as int) / LINE_SIZE as int <= j < (ptr as int
                    % BLOCK_SIZE as int) / LINE_SIZE as int + size as int / LINE_SIZE as int
                    ==> #[trigger] final(self)@[j] == mark,
    {
        proof {
            lemma_constant_values();
        }
        let addr = ptr;
        let relative_ptr = addr % BLOCK_SIZE;
        let line = relative_ptr / LINE_SIZE;
        let size_class = match SizeClass::get_for_size(size as usize) {
            Ok(c) => c,
            Err(_) => { return; },
        };
        match size_class {
            SizeClass::Small => {
                self.set_line(line, mark);
            },
            _ => {
                let num_lines = (size as u16) / (LINE_SIZE as u16);
                let mut i: u16 = 0;
                while i < num_lines
                    invariant
                        self.wf(),
                        i <= num_lines,
                        num_lines as int == size as int / 128,
                        line as int == (ptr as int % 32768) / 128,
                        line + num_lines <= LINE_COUNT,
                        LINE_COUNT == 256,
                        forall|j: int|
                            0 <= j < LINE_COUNT ==> #[trigger] self@[j] == if line <= j < line + i {
                                mark
                            } else {
                                old(self)@[j]
                            },
                    decreases num_lines - i,
                {
                    self.set_line(line + i as usize, mark);
                    i = i + 1;
                }
            },
        }
        self.set_block(mark);
    }

    /// Search downwards from the line holding `starting_at` for the next hole
    /// that can take `alloc_size` bytes. Returns the hole as `(cursor, limit)`
    /// byte offsets, allocation proceeding from `cursor` down to `limit`.
    pub fn find_next_available_hole(&self, starting_at: usize, alloc_size: usize) -> (r: Option<
        (usize, usize),
    >)
        requires
            self.wf(),
            starting_at / LINE_SIZE <= LINE_COUNT,
            alloc_size + LINE_SIZE - 1 <= usize::MAX,
        ensures
            is_next_hole(
                self@,
                (starting_at / LINE_SIZE) as int,
                lines_required(alloc_size as int),
                r,
            ),
            r matches Some((c, l)) ==> hole_takes(self@, starting_at as int, alloc_size as int, c as int, l as int),
    {
        let r = self.search_hole(starting_at, alloc_size);
        proof {
            if let Some((c, l)) = r {
                lemma_found_hole_takes(self@, starting_at as int, alloc_size as int, c, l);
            }
        }
        r
    }

    fn search_hole(&self, starting_at: usize, alloc_size: usize) -> (r: Option<(usize, usize)>)
        requires
            self.wf(),
            starting_at / LINE_SIZE <= LINE_COUNT,
            alloc_size + LINE_SIZE - 1 <= usize::MAX,
        ensures
            is_next_hole(
                self@,
                (starting_at / LINE_SIZE) as int,
                lines_required(alloc_size as int),
                r,
            ),
    {
        proof {
            lemma_constant_values();
        }
        let ghost m = self@;
        let mut count: usize = 0;
        let starting_line = starting_at / LINE_SIZE;
        let lines_required = (alloc_size + (LINE_SIZE - 1)) / LINE_SIZE;
        let ghost s = starting_line as int;
        let ghost req = lines_required as int;
        let mut end = starting_line;
        let mut k = starting_line;
        while k > 0
            invariant
                self.wf(),
                m == self@,
                s == starting_line,
                starting_line == starting_at / LINE_SIZE,
                starting_line <= LINE_COUNT,
                req == lines_required,
                req == crate::raw_allocator::block_meta::lines_required(alloc_size as int),
                LINE_SIZE == 128,
                LINE_COUNT == 256,
                k <= end <= starting_line,
                count == end - k,
                forall|j: int| k <= j < end ==> #[trigger] m[j] == FREE_MARK,
                end == starting_line || m[end as int] != FREE_MARK,
                k == 0 ==> (end == 0 || (end as int) < req),
                forall|b: int, e: int|
                    #[trigger] is_free_run(m, s, b, e) && e > end ==> !run_fits(b, e, req),
            decreases k,
        {
            let index = k - 1;
            let line_mark = self.get_line(index);
            if line_mark == FREE_MARK {
                count += 1;
                if index == 0 && count >= lines_required {
                    let limit = index * LINE_SIZE;
                    let cursor = end * LINE_SIZE;
                    proof {
                        assert(is_free_run(m, s, 0, end as int));
                        assert(hole_of(0, end as int) == (cursor, limit));
                        assert forall|b2: int, e2: int| #[trigger]
                            is_free_run(m, s, b2, e2) && run_fits(b2, e2, req) implies e2
                            <= end by {}
                        assert(is_next_hole(m, s, req, Some((cursor, limit))));
                    }
                    return Some((cursor, limit));
                }
            } else {
                if count > lines_required {
                    let limit = (index + 2) * LINE_SIZE;
                    let cursor = end * LINE_SIZE;
                    proof {
                        let b = index as int + 1;
                        assert(is_free_run(m, s, b, end as int));
                        assert(hole_of(b, end as int) == (cursor, limit));
                        assert forall|b2: int, e2: int| #[trigger]
                            is_free_run(m, s, b2, e2) && run_fits(b2, e2, req) implies e2
                            <= end by {}
                        assert(is_next_hole(m, s, req, Some((cursor, limit))));
                    }
                    return Some((cursor, limit));
                }
                proof {
                    let old_end = end as int;
                    assert forall|b: int, e: int|
                        #[trigger] is_free_run(m, s, b, e) && e > index implies !run_fits(
                        b,
                        e,
                        req,
                    ) by {
                        if e < old_end {
                            assert(m[e] == FREE_MARK);
                        } else if e == old_end {
                            if b > index + 1 {
                                assert(m[b - 1] == FREE_MARK);
                            } else if b < index + 1 {
                                assert(m[index as int] == FREE_MARK);
                            }
                        }
                    }
                }
                count = 0;
                end = index;
            }
            k = index;
        }
        proof {
            assert forall|b: int, e: int| #[trigger] is_free_run(m, s, b, e) implies !run_fits(
                b,
                e,
                req,
            ) by {
                if e <= end {
                    if e < end {
                        assert(m[e] == FREE_MARK);
                    } else if b > 0 {
                        assert(m[b - 1] == FREE_MARK);
                    }
                }
            }
        }
        None
    }
}

} // verus!
