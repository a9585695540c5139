use vstd::prelude::*;
use crate::pointee::{ObjLayout, sized_alloc_layout, slice_alloc_layout, sized_layout_spec,
    slice_layout_spec, sized_layout_ok, slice_layout_ok};
use core::marker::PhantomData;

verus! {

/// The mark a collection gives the objects it finds live. Each major
/// collection moves on to the next mark, so objects that still carry an
/// older mark are known to be unreachable.
#[derive(PartialEq, Eq, Copy, Clone, Debug, Structural)]
pub enum GcMark {
    Red,
    Green,
    Blue,
}

/// The mark that follows `m`: Red, Green, Blue, then Red again.
pub open spec fn next_mark(m: GcMark) -> GcMark {
    match m {
        GcMark::Red => GcMark::Green,
        GcMark::Green => GcMark::Blue,
        GcMark::Blue => GcMark::Red,
    }
}

/// The byte that stores a mark: 1, 2 or 3 (0 is never a live mark).
pub open spec fn gc_mark_code(m: GcMark) -> u8 {
    match m {
        GcMark::Red => 1,
        GcMark::Green => 2,
        GcMark::Blue => 3,
    }
}

/// The mark stored as the byte `v` (1 to 3).
pub open spec fn gc_mark_of_code(v: u8) -> GcMark {
    if v == 1 {
        GcMark::Red
    } else if v == 2 {
        GcMark::Green
    } else {
        GcMark::Blue
    }
}

impl GcMark {
    /// The next mark in the rotation.
    pub fn rotate(&self) -> (m: GcMark)
        ensures
            m == next_mark(*self),
    {
        match self {
            GcMark::Red => GcMark::Green,
            GcMark::Green => GcMark::Blue,
            GcMark::Blue => GcMark::Red,
        }
    }

    /// The previous mark in the rotation: rotating twice.
    pub fn prev(&self) -> (m: GcMark)
        ensures
            m == next_mark(next_mark(*self)),
            next_mark(m) == *self,
    {
        self.rotate().rotate()
    }

    /// The byte that stores this mark.
    pub fn to_u8(&self) -> (v: u8)
        ensures
            v == gc_mark_code(*self),
            1 <= v <= 3,
    {
        match self {
            GcMark::Red => 1,
            GcMark::Green => 2,
            GcMark::Blue => 3,
        }
    }

    /// The mark stored as the byte `value`; only 1, 2 and 3 are marks.
    pub fn from_u8(value: u8) -> (m: GcMark)
        requires
            1 <= value <= 3,
        ensures
            m == gc_mark_of_code(value),
            gc_mark_code(m) == value,
    {
        if value == 1 {
            GcMark::Red
        } else if value == 2 {
            GcMark::Green
        } else {
            GcMark::Blue
        }
    }
}

impl From<GcMark> for u8 {
    fn from(value: GcMark) -> (v: u8) {
        value.to_u8()
    }
}

impl vstd::std_specs::convert::FromSpecImpl<GcMark> for u8 {
    open spec fn obeys_from_spec() -> bool {
        true
    }

    open spec fn from_spec(v: GcMark) -> u8 {
        gc_mark_code(v)
    }
}

/// The rotation has period three, `prev` undoes `rotate`, and a mark is
/// never its own successor: after a major collection the previous mark of
/// the live objects is distinct from the mark the next trace will give.
pub proof fn lemma_gc_mark_rotation(m: GcMark)
    ensures
        next_mark(next_mark(next_mark(m))) == m,
        next_mark(m) != m,
        next_mark(next_mark(m)) != m,
        next_mark(next_mark(m)) != next_mark(m),
{
}

/// Storing a mark as a byte and reading it back gives the mark again; the
/// byte is never 0.
pub proof fn lemma_gc_mark_code_roundtrip(m: GcMark)
    ensures
        gc_mark_of_code(gc_mark_code(m)) == m,
        gc_mark_code(m) != 0,
{
}

/// What every object header offers: its mark, and the layout of the
/// allocation holding header and object.
pub trait GcHeader: Sized {
    /// The mark the header holds.
    spec fn mark_spec(&self) -> GcMark;

    /// The header's allocation layout can be computed.
    spec fn layout_ok(&self) -> bool;

    /// The layout of the allocation holding header and object.
    spec fn alloc_layout_spec(&self) -> ObjLayout;

    fn get_mark(&self) -> (m: GcMark)
        ensures
            m == self.mark_spec(),
    ;

    fn set_mark(&mut self, mark: GcMark)
        ensures
            final(self).mark_spec() == mark,
            final(self).layout_ok() == old(self).layout_ok(),
            final(self).alloc_layout_spec() == old(self).alloc_layout_spec(),
    ;

    fn get_alloc_layout(&self) -> (l: ObjLayout)
        requires
            self.layout_ok(),
        ensures
            l == self.alloc_layout_spec(),
    ;
}

/// Mark the object behind `header` with `mark`, as a tracer does when it
/// reaches it. Returns whether the object was not marked with `mark` yet;
/// one that was is left as it is, so that it is traced only once.
pub fn mark_header<H: GcHeader>(header: &mut H, mark: GcMark) -> (newly_marked: bool)
    ensures
        newly_marked == (old(header).mark_spec() != mark),
        final(header).mark_spec() == mark,
        final(header).layout_ok() == old(header).layout_ok(),
        final(header).alloc_layout_spec() == old(header).alloc_layout_spec(),
        !newly_marked ==> *final(header) == *old(header),
{
    if header.get_mark() == mark {
        return false;
    }
    header.set_mark(mark);
    true
}

/// Header of a single object of type `T`.
pub struct SizedHeader<T> {
    mark: GcMark,
    _item_type: PhantomData<T>,
}

impl<T> SizedHeader<T> {
    /// A header carrying `mark`.
    pub fn new(mark: GcMark) -> (h: Self)
        ensures
            h.mark_spec() == mark,
    {
        SizedHeader { mark, _item_type: PhantomData }
    }
}

impl<T> GcHeader for SizedHeader<T> {
    closed spec fn mark_spec(&self) -> GcMark {
        self.mark
    }

    open spec fn layout_ok(&self) -> bool {
        sized_layout_ok::<T>()
    }

    open spec fn alloc_layout_spec(&self) -> ObjLayout {
        sized_layout_spec::<T>().0
    }

    fn get_mark(&self) -> (m: GcMark) {
        self.mark
    }

    fn set_mark(&mut self, mark: GcMark) {
        self.mark = mark;
    }

    fn get_alloc_layout(&self) -> (l: ObjLayout) {
        let (layout, _) = sized_alloc_layout::<T>();
        layout
    }
}

/// Header of an array of `len` values of type `T`.
pub struct SliceHeader<T> {
    mark: GcMark,
    len: usize,
    _item_type: PhantomData<T>,
}

impl<T> SliceHeader<T> {
    /// A header carrying `mark` for an array of `len` values.
    pub fn new(mark: GcMark, len: usize) -> (h: Self)
        ensures
            h.mark_spec() == mark,
            h.len_spec() == len,
    {
        SliceHeader { mark, len, _item_type: PhantomData }
    }

    /// The length of the array.
    pub closed spec fn len_spec(&self) -> usize {
        self.len
    }

    /// The length of the array.
    pub fn len(&self) -> (n: usize)
        ensures
            n == self.len_spec(),
    {
        self.len
    }
}

impl<T> GcHeader for SliceHeader<T> {
    closed spec fn mark_spec(&self) -> GcMark {
        self.mark
    }

    open spec fn layout_ok(&self) -> bool {
        slice_layout_ok::<T>(self.len_spec())
    }

    open spec fn alloc_layout_spec(&self) -> ObjLayout {
        slice_layout_spec::<T>(self.len_spec()).0
    }

    fn get_mark(&self) -> (m: GcMark) {
        self.mark
    }

    fn set_mark(&mut self, mark: GcMark) {
        self.mark = mark;
    }

    fn get_alloc_layout(&self) -> (l: ObjLayout) {
        let (layout, _) = slice_alloc_layout::<T>(self.len);
        layout
    }
}

} // verus!
