use vstd::prelude::*;
use crate::allocator::header::{Header, HeaderView, Mark, mark_code, mark_of_code, lemma_mark_code_roundtrip};
use crate::constants::{BLOCK_SIZE, FREE_MARK, LINE_COUNT, LINE_SIZE, lemma_constant_values};
use crate::raw_allocator::block_meta::{BlockMeta as LineMarks, is_next_hole, lines_required};
use crate::raw_allocator::size_class::SizeClass;

verus! {

/// The byte codes of a sequence of marks.
pub open spec fn mark_codes(s: Seq<Mark>) -> Seq<u8> {
    s.map_values(|m: Mark| mark_code(m))
}

/// Line `i` is marked when an object whose header is at `addr`, of size
/// class `class` and `size` bytes, is marked: the line the header is in,
/// and for a medium object the `size / LINE_SIZE` lines from there.
pub open spec fn marked_by_header(addr: int, class: SizeClass, size: int, i: int) -> bool {
    let line = (addr % BLOCK_SIZE as int) / LINE_SIZE as int;
    if class == SizeClass::Small {
        i == line
    } else {
        line <= i < line + size / LINE_SIZE as int
    }
}

/// Marking an object marks at least the line its header is in: a small
/// object that line, a medium object (at least a line long) that line and
/// the `size / LINE_SIZE` lines from it, and no line below its header.
pub proof fn lemma_marking_covers_header_line(addr: int, class: SizeClass, size: int)
    requires
        class != SizeClass::Large,
        class == SizeClass::Medium ==> size >= LINE_SIZE,
    ensures
        marked_by_header(addr, class, size, (addr % BLOCK_SIZE as int) / LINE_SIZE as int),
        forall|i: int|
            #[trigger] marked_by_header(addr, class, size, i) ==> (addr % BLOCK_SIZE as int)
                / LINE_SIZE as int <= i,
        class == SizeClass::Medium ==> forall|j: int|
            (addr % BLOCK_SIZE as int) / LINE_SIZE as int <= j < (addr % BLOCK_SIZE as int)
                / LINE_SIZE as int + size / LINE_SIZE as int ==> #[trigger] marked_by_header(
                addr,
                class,
                size,
                j,
            ),
{
    lemma_constant_values();
    assert(size / 128 >= 1 || class != SizeClass::Medium) by (nonlinear_arith)
        requires
            class == SizeClass::Medium ==> size >= 128,
    {}
}

/// The marks of the lines of one block, the last slot being the mark of the
/// block as a whole.
pub struct BlockMeta {
    lines: LineMarks,
}

impl View for BlockMeta {
    type V = Seq<Mark>;

    closed spec fn view(&self) -> Seq<Mark> {
        self.lines@.map_values(|v: u8| mark_of_code(v))
    }
}

impl BlockMeta {
    /// One mark per line, each a valid mark.
    pub closed spec fn wf(&self) -> bool {
        &&& self.lines.wf()
        &&& forall|i: int| 0 <= i < LINE_COUNT ==> #[trigger] self.lines@[i] <= 3
    }

    proof fn lemma_codes(&self)
        requires
            self.wf(),
        ensures
            mark_codes(self@) == self.lines@,
            self@.len() == LINE_COUNT,
    {
        assert forall|i: int| 0 <= i < LINE_COUNT implies #[trigger] mark_codes(self@)[i]
            == self.lines@[i] by {
            assert(self.lines@[i] <= 3);
        }
        assert(mark_codes(self@) =~= self.lines@);
    }

    /// Facts that follow from `wf`.
    pub proof fn lemma_wf(&self)
        requires
            self.wf(),
        ensures
            self@.len() == LINE_COUNT,
    {
    }

    /// A fresh table: every line and the block are `New`.
    pub fn new() -> (meta: BlockMeta)
        ensures
            meta.wf(),
            forall|i: int| 0 <= i < LINE_COUNT ==> #[trigger] meta@[i] == Mark::New,
    {
        BlockMeta { lines: LineMarks::new() }
    }

    /// The mark of line `index`.
    pub fn get_line(&self, index: usize) -> (m: Mark)
        requires
            self.wf(),
            index < LINE_COUNT,
        ensures
            m == self@[index as int],
    {
        Mark::from_code(self.lines.get_line(index))
    }

    /// Set the mark of line `index`.
    pub fn set_line(&mut self, index: usize, mark: Mark)
        requires
            old(self).wf(),
            index < LINE_COUNT,
        ensures
            final(self).wf(),
            final(self)@ == old(self)@.update(index as int, mark),
    {
        self.lines.set_line(index, mark.code());
        proof {
            lemma_mark_code_roundtrip(mark);
            assert(self@ =~= old(self)@.update(index as int, mark));
        }
    }

    /// The mark of the block as a whole.
    pub fn get_block(&self) -> (m: Mark)
        requires
            self.wf(),
        ensures
            m == self@[LINE_COUNT - 1],
    {
        self.get_line(LINE_COUNT - 1)
    }

    /// Set the mark of the block as a whole.
    pub fn set_block(&mut self, mark: Mark)
        requires
            old(self).wf(),
        ensures
            final(self).wf(),
            final(self)@ == old(self)@.update(LINE_COUNT - 1, mark),
    {
        self.set_line(LINE_COUNT - 1, mark)
    }

    /// Set every line and the block to `New`.
    pub fn reset(&mut self)
        requires
            old(self).wf(),
        ensures
            final(self).wf(),
            forall|i: int| 0 <= i < LINE_COUNT ==> #[trigger] final(self)@[i] == Mark::New,
    {
        self.lines.reset();
    }

    /// Set every line (and the block) not carrying `mark` to `New`.
    pub fn free_unmarked(&mut self, mark: Mark)
        requires
            old(self).wf(),
        ensures
            final(self).wf(),
            forall|i: int|
                0 <= i < LINE_COUNT ==> #[trigger] final(self)@[i] == if old(self)@[i] == mark {
                    mark
                } else {
                    Mark::New
                },
    {
        proof {
            lemma_mark_code_roundtrip(mark);
        }
        self.lines.free_unmarked(mark.code());
        proof {
            assert forall|i: int| 0 <= i < LINE_COUNT implies #[trigger] self@[i] == if old(
                self,
            )@[i] == mark {
                mark
            } else {
                Mark::New
            } by {
                assert(old(self).lines@[i] <= 3);
                lemma_mark_code_roundtrip(mark_of_code(old(self).lines@[i]));
            }
        }
    }

    /// Search downwards from the line holding `starting_at` for the next
    /// hole of `New` lines that can take `alloc_size` bytes, as
    /// `(cursor, limit)` byte offsets (see `is_next_hole`).
    pub fn find_next_available_hole(&self, starting_at: usize, alloc_size: usize) -> (r: Option<
        (usize, usize),
    >)
        requires
            self.wf(),
            starting_at / LINE_SIZE <= LINE_COUNT,
            alloc_size + LINE_SIZE - 1 <= usize::MAX,
        ensures
            is_next_hole(
                mark_codes(self@),
                (starting_at / LINE_SIZE) as int,
                lines_required(alloc_size as int),
                r,
            ),
            r matches Some((c, l)) ==> 0 <= l <= c <= starting_at && c - l >= alloc_size && forall|
                j: int,
            |
                l as int / (LINE_SIZE as int) <= j < c as int / (LINE_SIZE as int) ==> #[trigger] self@[j]
                    == Mark::New,
    {
        proof {
            self.lemma_codes();
        }
        let r = self.lines.find_next_available_hole(starting_at, alloc_size);
        proof {
            if let Some((c, l)) = r {
                assert forall|j: int| l as int / (LINE_SIZE as int) <= j < c as int / (LINE_SIZE as int) implies #[trigger] self@[j]
                    == Mark::New by {
                    assert(self.lines@[j] == FREE_MARK);
                }
            }
        }
        r
    }

    /// Mark the lines of the object whose header `header` sits at address
    /// `addr`, and the block, with `mark` (see `marked_by_header`).
    pub fn mark(&mut self, addr: usize, header: &Header, mark: Mark)
        requires
            old(self).wf(),
            header@.size_class != SizeClass::Large,
            header@.size_class == SizeClass::Medium ==> (addr % BLOCK_SIZE) / LINE_SIZE
                + header@.size / 128 <= LINE_COUNT,
        ensures
            final(self).wf(),
            forall|i: int|
                0 <= i < LINE_COUNT ==> #[trigger] final(self)@[i] == if i == LINE_COUNT - 1
                    || marked_by_header(addr as int, header@.size_class, header@.size as int, i) {
                    mark
                } else {
                    old(self)@[i]
                },
            final(self)@[LINE_COUNT - 1] == mark,
            header@.size_class == SizeClass::Small ==> final(self)@[(addr as int % BLOCK_SIZE as int)
                / LINE_SIZE as int] == mark,
            header@.size_class == SizeClass::Medium ==> forall|j: int|
                (addr as int % BLOCK_SIZE as int) / LINE_SIZE as int <= j < (addr as int
                    % BLOCK_SIZE as int) / LINE_SIZE as int + header@.size as int / LINE_SIZE as int
                    ==> #[trigger] final(self)@[j] == mark,
    {
        proof {
            lemma_constant_values();
        }
        let relative_ptr = addr % BLOCK_SIZE;
        let line = relative_ptr / LINE_SIZE;
        let size_class = header.get_size_class();
        let size = header.get_size();
        match size_class {
            SizeClass::Small => {
                self.set_line(line, mark);
            },
            _ => {
                let num_lines = size / (LINE_SIZE as u16);
                let mut i: u16 = 0;
                while i < num_lines
                    invariant
                        self.wf(),
                        i <= num_lines,
                        num_lines as int == size as int / 128,
                        line as int == (addr as int % 32768) / 128,
                        line + num_lines <= LINE_COUNT,
                        LINE_COUNT == 256,
                        forall|j: int|
                            0 <= j < LINE_COUNT ==> #[trigger] self@[j] == if line <= j < line + i {
                                mark
                            } else {
                                old(self)@[j]
                            },
                    decreases num_lines - i,
                {
                    self.set_line(line + i as usize, mark);
                    i = i + 1;
                }
            },
        }
        self.set_block(mark);
    }
}

impl Header {
    /// Set the mark of the object whose header sits at `addr`. A rotating
    /// mark on an object that lives in a block also marks, in `meta` (the
    /// marks of that block), the object's lines and the block; `New` and
    /// large objects leave `meta` as it is.
    pub fn set_mark_in_block(&mut self, addr: usize, meta: &mut BlockMeta, mark: Mark)
        requires
            old(meta).wf(),
            old(self)@.size_class == SizeClass::Medium ==> (addr % BLOCK_SIZE) / LINE_SIZE
                + old(self)@.size / 128 <= LINE_COUNT,
        ensures
            final(self)@ == (HeaderView { mark, ..old(self)@ }),
            final(meta).wf(),
            forall|i: int|
                0 <= i < LINE_COUNT ==> #[trigger] final(meta)@[i] == if mark != Mark::New
                    && old(self)@.size_class != SizeClass::Large && (i == LINE_COUNT - 1
                    || marked_by_header(addr as int, old(self)@.size_class, old(self)@.size as int, i)) {
                    mark
                } else {
                    old(meta)@[i]
                },
            mark != Mark::New && old(self)@.size_class != SizeClass::Large ==> final(meta)@[LINE_COUNT
                - 1] == mark,
            mark != Mark::New && old(self)@.size_class == SizeClass::Small ==> final(meta)@[(addr as int
                % BLOCK_SIZE as int) / LINE_SIZE as int] == mark,
            mark != Mark::New && old(self)@.size_class == SizeClass::Medium ==> forall|j: int|
                (addr as int % BLOCK_SIZE as int) / LINE_SIZE as int <= j < (addr as int
                    % BLOCK_SIZE as int) / LINE_SIZE as int + old(self)@.size as int / LINE_SIZE as int
                    ==> #[trigger] final(meta)@[j] == mark,
    {
        self.set_mark(mark);
        let class = self.get_size_class();
        let rotating = match mark {
            Mark::New => false,
            _ => true,
        };
        let in_block = match class {
            SizeClass::Large => false,
            _ => true,
        };
        if rotating && in_block {
            meta.mark(addr, self, mark);
        }
    }
}

} // verus!
