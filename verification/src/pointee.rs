use vstd::prelude::*;
use vstd::arithmetic::power2::is_pow2;
use vstd::layout::{valid_layout, size_of, align_of, layout_for_type_is_valid};
use crate::header::{GcHeader, SizedHeader, SliceHeader};
use core::marker::PhantomData;

verus! {

/// `n` rounded up to the next multiple of `align`.
pub open spec fn round_up(n: int, align: int) -> int {
    if n % align == 0 {
        n
    } else {
        n + (align - n % align)
    }
}

/// Size and alignment of a memory region, as `std::alloc::Layout` describes
/// them. It is valid (`wf`) when the alignment is a power of two and the
/// size, rounded up to the alignment, does not exceed `isize::MAX`.
#[derive(Clone, Copy, Debug, PartialEq, Eq, Structural)]
pub struct ObjLayout {
    pub size: usize,
    pub align: usize,
}

/// The layout of an object made of `first` followed by `next`: the second
/// part starts at the first offset after `first` that `next`'s alignment
/// allows. `None` when the result is no valid layout.
pub open spec fn extend_spec(first: ObjLayout, next: ObjLayout) -> Option<(ObjLayout, usize)> {
    let offset = round_up(first.size as int, next.align as int);
    let size = offset + next.size;
    let align = if first.align >= next.align { first.align } else { next.align };
    if size <= usize::MAX && valid_layout(size as usize, align) {
        Some((ObjLayout { size: size as usize, align }, offset as usize))
    } else {
        None
    }
}

/// `l` with its size rounded up to a multiple of its alignment.
pub open spec fn pad_to_align_spec(l: ObjLayout) -> ObjLayout {
    ObjLayout { size: round_up(l.size as int, l.align as int) as usize, align: l.align }
}

/// The layout of a value of type `T`.
pub open spec fn layout_of<T>() -> ObjLayout {
    ObjLayout { size: size_of::<T>() as usize, align: align_of::<T>() as usize }
}


/// Marker type behind the thin pointers of the collector: a pointer to
/// `Thin<T>` addresses a `T` whose length, for arrays, lives in its header.
pub struct Thin<T: ?Sized> {
    kind: PhantomData<T>,
}

/// The allocation layout of a sized object with its header, and the offset
/// of the object within it.
pub open spec fn sized_layout_spec<T>() -> (ObjLayout, usize) {
    let (l, off) = extend_spec(layout_of::<SizedHeader<T>>(), layout_of::<T>()).unwrap();
    (pad_to_align_spec(l), off)
}

/// The header and a `T` can share one allocation.
pub open spec fn sized_layout_ok<T>() -> bool {
    extend_spec(layout_of::<SizedHeader<T>>(), layout_of::<T>()) is Some
}

/// The array layout of `len` values of type `T`.
pub open spec fn array_layout_spec<T>(len: usize) -> ObjLayout {
    ObjLayout { size: (size_of::<T>() * len) as usize, align: align_of::<T>() as usize }
}

/// An array of `len` values of type `T` and its header can share one
/// allocation.
pub open spec fn slice_layout_ok<T>(len: usize) -> bool {
    &&& size_of::<T>() * len <= usize::MAX
    &&& array_layout_spec::<T>(len).wf()
    &&& extend_spec(layout_of::<SliceHeader<T>>(), array_layout_spec::<T>(len)) is Some
}

/// The allocation layout of an array of `len` values with its header, and
/// the offset of the array within it.
pub open spec fn slice_layout_spec<T>(len: usize) -> (ObjLayout, usize) {
    let (l, off) = extend_spec(layout_of::<SliceHeader<T>>(), array_layout_spec::<T>(len)).unwrap();
    (pad_to_align_spec(l), off)
}

/// Layout of the allocation of a sized object: its header followed by the
/// object, padded to the alignment; and the object's offset.
pub fn sized_alloc_layout<T>() -> (r: (ObjLayout, usize))
    requires
        sized_layout_ok::<T>(),
    ensures
        r == sized_layout_spec::<T>(),
        r.0.wf(),
        r.0.size % r.0.align == 0,
{
    let header_layout = ObjLayout::new::<SizedHeader<T>>();
    let val_layout = ObjLayout::new::<T>();
    let (unpadded_layout, offset) = header_layout.extend(val_layout).unwrap();
    proof {
        lemma_extend_valid(header_layout, val_layout);
    }
    let layout = unpadded_layout.pad_to_align();
    (layout, offset)
}

/// Layout of the allocation of an array of `len` values: its header
/// followed by the array, padded to the alignment; and the array's offset.
pub fn slice_alloc_layout<T>(len: usize) -> (r: (ObjLayout, usize))
    requires
        slice_layout_ok::<T>(len),
    ensures
        r == slice_layout_spec::<T>(len),
        r.0.wf(),
        r.0.size % r.0.align == 0,
{
    let header_layout = ObjLayout::new::<SliceHeader<T>>();
    let slice_layout = ObjLayout::array::<T>(len).unwrap();
    let (unpadded_layout, offset) = header_layout.extend(slice_layout).unwrap();
    proof {
        lemma_extend_valid(header_layout, slice_layout);
    }
    let layout = unpadded_layout.pad_to_align();
    (layout, offset)
}

/// `r`, a layout and an offset, places a value of layout `value` after a
/// header of layout `header`: the value starts past the header at an offset
/// aligned for it and ends within the layout, whose size is a multiple of
/// its alignment and whose alignment suits both parts.
pub open spec fn places_value_after_header(header: ObjLayout, value: ObjLayout, r: (ObjLayout, usize)) -> bool {
    &&& header.size <= r.1
    &&& r.1 % value.align == 0
    &&& r.1 + value.size <= r.0.size
    &&& r.0.size % r.0.align == 0
    &&& header.align <= r.0.align
    &&& value.align <= r.0.align
}

/// Extending a layout by another and padding the result places the second
/// part after the first.
pub proof fn lemma_extend_places_value(first: ObjLayout, next: ObjLayout)
    requires
        first.wf(),
        next.wf(),
        extend_spec(first, next) is Some,
    ensures
        ({
            let (l, off) = extend_spec(first, next).unwrap();
            places_value_after_header(first, next, (pad_to_align_spec(l), off))
        }),
{
    let (l, off) = extend_spec(first, next).unwrap();
    lemma_pow2_positive(next.align as int);
    lemma_round_up(first.size as int, next.align as int);
    lemma_extend_valid(first, next);
    lemma_pow2_positive(l.align as int);
    lemma_round_up(l.size as int, l.align as int);
    lemma_valid_layout_round_up(l.size, l.align);
}

/// In the allocation of a sized object, the header comes first and the
/// object follows it, aligned for its type and within the allocation.
pub proof fn lemma_sized_layout_places_value<T>()
    requires
        layout_of::<SizedHeader<T>>().wf(),
        layout_of::<T>().wf(),
        sized_layout_ok::<T>(),
    ensures
        places_value_after_header(layout_of::<SizedHeader<T>>(), layout_of::<T>(), sized_layout_spec::<T>()),
{
    lemma_extend_places_value(layout_of::<SizedHeader<T>>(), layout_of::<T>());
}

/// In the allocation of an array, the header comes first and the array
/// follows it, aligned for its element type and within the allocation.
pub proof fn lemma_slice_layout_places_value<T>(len: usize)
    requires
        layout_of::<SliceHeader<T>>().wf(),
        slice_layout_ok::<T>(len),
    ensures
        places_value_after_header(layout_of::<SliceHeader<T>>(), array_layout_spec::<T>(len), slice_layout_spec::<T>(len)),
{
    lemma_extend_places_value(layout_of::<SliceHeader<T>>(), array_layout_spec::<T>(len));
}

/// The types a collected pointer can address: a sized `T`, behind a
/// `SizedHeader<T>`, or an array `[T]`, behind a `SliceHeader<T>` that holds
/// its length. A thin pointer addresses the value itself; the header sits
/// `item_offset` bytes before it, at the start of the allocation.
pub trait GcPointee {
    type GcHeader: GcHeader;

    /// The allocation layout of this kind of pointee can be computed.
    spec fn pointee_layout_ok() -> bool;

    /// The offset of the value behind its header within the allocation.
    spec fn item_offset_spec() -> usize;

    /// The offset of the value behind its header within the allocation.
    fn item_offset() -> (off: usize)
        requires
            Self::pointee_layout_ok(),
        ensures
            off == Self::item_offset_spec(),
    ;

    /// The address of the header of the value at `thin_addr`.
    fn get_header_addr(thin_addr: usize) -> (a: usize)
        requires
            Self::pointee_layout_ok(),
            Self::item_offset_spec() <= thin_addr,
        ensures
            a == thin_addr - Self::item_offset_spec(),
    ;
}

impl<T> GcPointee for T {
    type GcHeader = SizedHeader<T>;

    open spec fn pointee_layout_ok() -> bool {
        sized_layout_ok::<T>()
    }

    open spec fn item_offset_spec() -> usize {
        sized_layout_spec::<T>().1
    }

    fn item_offset() -> (off: usize) {
        let (_, item_offset) = sized_alloc_layout::<T>();
        item_offset
    }

    fn get_header_addr(thin_addr: usize) -> (a: usize) {
        let item_offset = Self::item_offset();
        thin_addr - item_offset
    }
}

impl<T> GcPointee for [T] {
    type GcHeader = SliceHeader<T>;

    // The offset does not depend on the length, so a length of one stands
    // for every array.
    open spec fn pointee_layout_ok() -> bool {
        slice_layout_ok::<T>(1)
    }

    open spec fn item_offset_spec() -> usize {
        slice_layout_spec::<T>(1).1
    }

    fn item_offset() -> (off: usize) {
        let (_, item_offset) = slice_alloc_layout::<T>(1);
        item_offset
    }

    fn get_header_addr(thin_addr: usize) -> (a: usize) {
        let item_offset = Self::item_offset();
        thin_addr - item_offset
    }
}

/// The layout `extend` produces is valid.
pub proof fn lemma_extend_valid(first: ObjLayout, next: ObjLayout)
    requires
        extend_spec(first, next) is Some,
    ensures
        extend_spec(first, next).unwrap().0.wf(),
{
}

proof fn lemma_round_up(n: int, align: int)
    requires
        0 <= n,
        0 < align,
    ensures
        n <= round_up(n, align) < n + align,
        round_up(n, align) % align == 0,
{
    if n % align != 0 {
        assert((n + (align - n % align)) % align == 0) by (nonlinear_arith)
            requires
                0 < align,
                0 <= n,
        {
            vstd::arithmetic::div_mod::lemma_fundamental_div_mod(n, align);
            vstd::arithmetic::div_mod::lemma_mod_multiples_basic(n / align + 1, align);
        }
    }
}

impl ObjLayout {
    /// The layout is valid: alignment a power of two, size within bounds.
    pub open spec fn wf(&self) -> bool {
        valid_layout(self.size, self.align)
    }

    pub open spec fn size_spec(&self) -> usize {
        self.size
    }

    pub open spec fn align_spec(&self) -> usize {
        self.align
    }

    #[verifier::when_used_as_spec(size_spec)]
    pub fn size(&self) -> (s: usize)
        ensures
            s == self.size,
    {
        self.size
    }

    #[verifier::when_used_as_spec(align_spec)]
    pub fn align(&self) -> (a: usize)
        ensures
            a == self.align,
    {
        self.align
    }

    /// The layout of `size` bytes aligned to `align`, if that is a valid
    /// layout (`align` a power of two, the rounded-up size within
    /// `isize::MAX`).
    pub fn from_size_align(size: usize, align: usize) -> (r: Option<ObjLayout>)
        ensures
            match r {
                Some(l) => valid_layout(size, align) && l.size == size && l.align == align,
                None => !valid_layout(size, align),
            },
    {
        if !is_power_of_two(align) {
            return None;
        }
        proof {
            lemma_pow2_positive(align as int);
        }
        let max = isize::MAX as usize;
        let rem = max % align;
        proof {
            vstd::arithmetic::div_mod::lemma_mod_decreases(max as nat, align as nat);
        }
        if size > max - rem {
            return None;
        }
        Some(ObjLayout { size, align })
    }

    /// The layout of a value of type `T`.
    pub fn new<T>() -> (l: ObjLayout)
        ensures
            l == layout_of::<T>(),
            l.wf(),
            l.size as nat == size_of::<T>(),
            l.align as nat == align_of::<T>(),
    {
        layout_for_type_is_valid::<T>();
        ObjLayout { size: core::mem::size_of::<T>(), align: core::mem::align_of::<T>() }
    }

    /// The layout of an array of `n` values of type `T`, if it is valid.
    pub fn array<T>(n: usize) -> (r: Option<ObjLayout>)
        ensures
            match r {
                Some(l) => size_of::<T>() * n <= usize::MAX && l.size == size_of::<T>() * n
                    && l.align == align_of::<T>() && l.wf(),
                None => size_of::<T>() * n > usize::MAX || !valid_layout(
                    (size_of::<T>() * n) as usize,
                    align_of::<T>() as usize,
                ),
            },
    {
        let elem = ObjLayout::new::<T>();
        match elem.size.checked_mul(n) {
            Some(size) => ObjLayout::from_size_align(size, elem.align),
            None => None,
        }
    }

    /// The layout of `self` followed by `next`, and the offset of `next`
    /// within it; `None` when that layout would not be valid.
    pub fn extend(&self, next: ObjLayout) -> (r: Option<(ObjLayout, usize)>)
        requires
            self.wf(),
            next.wf(),
        ensures
            r == extend_spec(*self, next),
    {
        proof {
            lemma_pow2_positive(next.align as int);
            lemma_round_up(self.size as int, next.align as int);
        }
        let rem = self.size % next.align;
        let pad = if rem == 0 { 0 } else { next.align - rem };
        let offset = match self.size.checked_add(pad) {
            Some(o) => o,
            None => return None,
        };
        let size = match offset.checked_add(next.size) {
            Some(s) => s,
            None => return None,
        };
        let align = if self.align >= next.align { self.align } else { next.align };
        match ObjLayout::from_size_align(size, align) {
            Some(l) => Some((l, offset)),
            None => None,
        }
    }

    /// `self` with its size rounded up to a multiple of its alignment.
    pub fn pad_to_align(&self) -> (l: ObjLayout)
        requires
            self.wf(),
        ensures
            l == pad_to_align_spec(*self),
            l.wf(),
            l.size % l.align == 0,
    {
        proof {
            lemma_pow2_positive(self.align as int);
            lemma_round_up(self.size as int, self.align as int);
            lemma_valid_layout_round_up(self.size, self.align);
        }
        let rem = self.size % self.align;
        let size = if rem == 0 { self.size } else { self.size + (self.align - rem) };
        ObjLayout { size, align: self.align }
    }
}

proof fn lemma_valid_layout_round_up(size: usize, align: usize)
    requires
        valid_layout(size, align),
    ensures
        round_up(size as int, align as int) <= isize::MAX,
        valid_layout(round_up(size as int, align as int) as usize, align),
{
    let m = isize::MAX as int;
    lemma_pow2_positive(align as int);
    lemma_round_up(size as int, align as int);
    let a = align as int;
    vstd::arithmetic::div_mod::lemma_fundamental_div_mod(m, a);
    vstd::arithmetic::div_mod::lemma_mod_multiples_basic(m / a, a);
    assert(m - m % a == (m / a) * a) by (nonlinear_arith)
        requires
            m == a * (m / a) + m % a,
    {}
    vstd::arithmetic::div_mod::lemma_mod_decreases(m as nat, a as nat);
    lemma_round_up_le_multiple(size as int, a, m - m % a);
}

proof fn lemma_round_up_le_multiple(n: int, align: int, k: int)
    requires
        0 <= n <= k,
        0 < align,
        k % align == 0,
    ensures
        round_up(n, align) <= k,
{
    if n % align != 0 {
        let dn = n / align;
        let rn = n % align;
        let q = k / align;
        vstd::arithmetic::div_mod::lemma_fundamental_div_mod(n, align);
        vstd::arithmetic::div_mod::lemma_fundamental_div_mod(k, align);
        assert(0 <= rn < align) by {
            vstd::arithmetic::div_mod::lemma_mod_bound(n, align);
        }
        assert(align * dn + align <= k) by (nonlinear_arith)
            requires
                n == align * dn + rn,
                0 < rn < align,
                k == align * q,
                n <= k,
                0 < align,
        {
            assert(align * (q - dn) > 0);
            assert(q - dn > 0);
            assert(q - dn >= 1);
            assert(align * (q - dn) >= align * 1);
        }
    }
}

/// A valid layout has a positive alignment.
pub proof fn lemma_layout_align_positive(l: ObjLayout)
    requires
        l.wf(),
    ensures
        l.align > 0,
{
    lemma_pow2_positive(l.align as int);
}

proof fn lemma_pow2_positive(a: int)
    requires
        is_pow2(a),
    ensures
        a > 0,
{
    reveal(is_pow2);
}

/// Whether `n` is a power of two.
pub fn is_power_of_two(n: usize) -> (b: bool)
    ensures
        b == is_pow2(n as int),
{
    if n == 0 {
        proof {
            reveal(is_pow2);
        }
        return false;
    }
    let mut m = n;
    while m > 1 && m % 2 == 0
        invariant
            0 < m <= n,
            is_pow2(n as int) == is_pow2(m as int),
        decreases m,
    {
        proof {
            reveal(is_pow2);
        }
        m = m / 2;
    }
    proof {
        reveal(is_pow2);
    }
    m == 1
}

} // verus!
