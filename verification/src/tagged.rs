use vstd::prelude::*;
use core::marker::PhantomData;

verus! {

/// The tags a `Tagged` word can carry in its low bits. Implementations
/// promise what the contracts state: a tag's value fits below
/// `MIN_ALIGNMENT`, and decoding a tag's value gives the tag back.
pub trait Tag: Sized {
    /// Number of variants.
    const VARIANTS: usize;

    /// Alignment of every pointer a tagged word may hold; the bits below it
    /// carry the tag.
    const MIN_ALIGNMENT: usize;

    /// The value that encodes the tag.
    spec fn tag_value(&self) -> usize;

    /// The tag a value decodes to, if any.
    spec fn tag_of(value: usize) -> Option<Self>;

    /// The tag marks a word that holds a pointer.
    spec fn tag_is_ptr(&self) -> bool;

    fn into_usize(&self) -> (r: usize)
        ensures
            r == self.tag_value(),
            r < Self::MIN_ALIGNMENT,
            Self::tag_of(r) == Some(*self),
    ;

    fn from_usize(tag: usize) -> (r: Option<Self>)
        ensures
            r == Self::tag_of(tag),
    ;

    fn is_ptr(&self) -> (b: bool)
        ensures
            b == self.tag_is_ptr(),
    ;
}

/// The parameters of `T` are usable: at least one bit pattern per variant
/// below the alignment.
pub open spec fn tag_params_ok<T: Tag>() -> bool {
    1 <= T::MIN_ALIGNMENT && T::VARIANTS <= T::MIN_ALIGNMENT
}

/// The tag bits can be masked: the alignment is at least one.
pub open spec fn tag_mask_ok<T: Tag>() -> bool {
    1 <= T::MIN_ALIGNMENT
}

/// The bits of a word that hold the tag.
pub open spec fn tag_mask<T: Tag>() -> usize {
    (T::MIN_ALIGNMENT - 1) as usize
}

/// `n` with its tag bits cleared.
pub open spec fn strip_tag_spec<T: Tag>(n: usize) -> usize {
    n & !tag_mask::<T>()
}

/// `n` with its tag bits replaced by `tag`.
pub open spec fn apply_tag_spec<T: Tag>(n: usize, tag: T) -> usize {
    strip_tag_spec::<T>(n) | tag.tag_value()
}

/// `T::MIN_ALIGNMENT` is a power of two.
pub open spec fn alignment_is_pow2<T: Tag>() -> bool {
    T::MIN_ALIGNMENT >= 1 && T::MIN_ALIGNMENT & tag_mask::<T>() == 0
}

/// A word whose low bits carry a tag of type `T` and whose other bits carry
/// either a pointer or plain data.
pub struct Tagged<'gc, T: Tag> {
    raw: usize,
    _tag_type: PhantomData<&'gc T>,
}

impl<'gc, T: Tag> View for Tagged<'gc, T> {
    type V = usize;

    closed spec fn view(&self) -> usize {
        self.raw
    }
}

impl<'gc, T: Tag> Clone for Tagged<'gc, T> {
    fn clone(&self) -> (r: Self)
        ensures
            r@ == self@,
    {
        Tagged { raw: self.raw, _tag_type: PhantomData }
    }
}

/// A tagged word read back from its raw value: accepted when its tag bits
/// decode to a tag of `T`, refused otherwise.
impl<'gc, T: Tag> TryFrom<usize> for Tagged<'gc, T> {
    type Error = ();

    fn try_from(value: usize) -> (r: Result<Self, ()>)
        ensures
            r is Ok <==> (1 <= T::MIN_ALIGNMENT && T::tag_of(value & tag_mask::<T>()) is Some),
            r matches Ok(t) ==> t@ == value,
    {
        if T::MIN_ALIGNMENT == 0 {
            return Err(());
        }
        match T::from_usize(value & (T::MIN_ALIGNMENT - 1)) {
            None => Err(()),
            Some(_) => Ok(Tagged { raw: value, _tag_type: PhantomData }),
        }
    }
}

impl<'gc, T: Tag> vstd::std_specs::convert::TryFromSpecImpl<usize> for Tagged<'gc, T> {
    open spec fn obeys_try_from_spec() -> bool {
        true
    }

    closed spec fn try_from_spec(value: usize) -> Result<Self, ()> {
        if 1 <= T::MIN_ALIGNMENT && T::tag_of(value & tag_mask::<T>()) is Some {
            Ok(Tagged { raw: value, _tag_type: PhantomData })
        } else {
            Err(())
        }
    }
}

impl<'gc, T: Tag> Tagged<'gc, T> {
    /// A tagged word holding the data `value` (its tag bits cleared) and the
    /// non-pointer tag `tag`.
    pub fn from_raw(value: usize, tag: T) -> (r: Self)
        requires
            tag_params_ok::<T>(),
            !tag.tag_is_ptr(),
        ensures
            r@ == apply_tag_spec::<T>(value, tag),
    {
        let tagged_value = Self::apply_tag(value, tag);
        Tagged { raw: tagged_value, _tag_type: PhantomData }
    }

    /// Whether the word's tag marks a pointer.
    pub fn is_ptr(&self) -> (b: bool)
        requires
            tag_mask_ok::<T>(),
            T::tag_of(self@ & tag_mask::<T>()) is Some,
        ensures
            b == T::tag_of(self@ & tag_mask::<T>())->0.tag_is_ptr(),
    {
        self.get_tag().is_ptr()
    }

    /// The word's tag.
    pub fn get_tag(&self) -> (t: T)
        requires
            tag_mask_ok::<T>(),
            T::tag_of(self@ & tag_mask::<T>()) is Some,
        ensures
            Some(t) == T::tag_of(self@ & tag_mask::<T>()),
    {
        Self::get_raw_tag(self.get_raw())
    }

    /// The tag that the word `raw` carries.
    pub fn get_raw_tag(raw: usize) -> (t: T)
        requires
            tag_mask_ok::<T>(),
            T::tag_of(raw & tag_mask::<T>()) is Some,
        ensures
            Some(t) == T::tag_of(raw & tag_mask::<T>()),
    {
        T::from_usize(raw & (T::MIN_ALIGNMENT - 1)).expect("Invalid tag value")
    }

    /// The word without its tag bits.
    pub fn get_stripped_raw(&self) -> (r: usize)
        requires
            tag_mask_ok::<T>(),
        ensures
            r == strip_tag_spec::<T>(self@),
    {
        Self::strip_tag(self.raw)
    }

    /// The whole word, tag bits included.
    pub fn get_raw(&self) -> (r: usize)
        ensures
            r == self@,
    {
        self.raw
    }

    /// `n` with its tag bits replaced by `tag`.
    pub fn apply_tag(n: usize, tag: T) -> (r: usize)
        requires
            tag_mask_ok::<T>(),
        ensures
            r == apply_tag_spec::<T>(n, tag),
    {
        Self::strip_tag(n) | tag.into_usize()
    }

    /// `n` with its tag bits cleared.
    pub fn strip_tag(n: usize) -> (r: usize)
        requires
            tag_mask_ok::<T>(),
        ensures
            r == strip_tag_spec::<T>(n),
    {
        n & !(T::MIN_ALIGNMENT - 1)
    }

    /// Store the data `value` with the non-pointer tag `tag`.
    pub fn set_raw(&mut self, value: usize, tag: T)
        requires
            tag_params_ok::<T>(),
            !tag.tag_is_ptr(),
        ensures
            final(self)@ == apply_tag_spec::<T>(value, tag),
    {
        let tagged_value = Self::apply_tag(value, tag);
        self.raw = tagged_value;
    }
}

proof fn lemma_tag_bits(n: usize, t: usize, mask: usize, align: usize)
    by (bit_vector)
    requires
        align == mask + 1,
        align & mask == 0,
        t <= mask,
    ensures
        ((n & !mask) | t) & mask == t,
        ((n & !mask) | t) & !mask == n & !mask,
{
}

/// Tagging a word keeps its other bits and reads back as the tag: the tag
/// bits of `apply_tag(n, tag)` decode to `tag`, and stripping them gives
/// what stripping `n` gives. With the bits of `n` outside the tag intact,
/// data that is a multiple of the alignment survives tagging unchanged.
pub proof fn lemma_tag_roundtrip<T: Tag>(n: usize, tag: T)
    requires
        alignment_is_pow2::<T>(),
        tag.tag_value() < T::MIN_ALIGNMENT,
        T::tag_of(tag.tag_value()) == Some(tag),
    ensures
        apply_tag_spec::<T>(n, tag) & tag_mask::<T>() == tag.tag_value(),
        T::tag_of(apply_tag_spec::<T>(n, tag) & tag_mask::<T>()) == Some(tag),
        strip_tag_spec::<T>(apply_tag_spec::<T>(n, tag)) == strip_tag_spec::<T>(n),
{
    let mask = tag_mask::<T>();
    assert(mask + 1 == T::MIN_ALIGNMENT);
    lemma_tag_bits(n, tag.tag_value(), mask, T::MIN_ALIGNMENT);
}

} // verus!
