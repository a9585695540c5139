use vstd::prelude::*;
use crate::raw_allocator::size_class::SizeClass;

verus! {

/// Mark of an object or a line: `New` for freshly allocated or free, and
/// three marks that rotate from one major collection to the next.
#[derive(PartialEq, Eq, Copy, Clone, Debug, Structural)]
pub enum Mark {
    New,
    Red,
    Green,
    Blue,
}

/// The byte that stores a mark.
pub open spec fn mark_code(m: Mark) -> u8 {
    match m {
        Mark::New => 0,
        Mark::Red => 1,
        Mark::Green => 2,
        Mark::Blue => 3,
    }
}

/// The mark a stored byte stands for (bytes above 3 stand for no mark).
pub open spec fn mark_of_code(v: u8) -> Mark {
    if v == 1 {
        Mark::Red
    } else if v == 2 {
        Mark::Green
    } else if v == 3 {
        Mark::Blue
    } else {
        Mark::New
    }
}

/// The mark that follows `m` in the rotation Red, Green, Blue, Red.
pub open spec fn rotate_spec(m: Mark) -> Mark {
    match m {
        Mark::Red => Mark::Green,
        Mark::Green => Mark::Blue,
        Mark::Blue => Mark::Red,
        Mark::New => Mark::New,
    }
}

impl Mark {
    /// The mark of a new object.
    pub fn new() -> (m: Mark)
        ensures
            m == Mark::New,
    {
        Mark::New
    }

    /// Whether this is the mark of a new (or free) object.
    pub fn is_new(&self) -> (b: bool)
        ensures
            b == (*self == Mark::New),
    {
        match self {
            Mark::New => true,
            _ => false,
        }
    }

    /// The next mark in the rotation; `New` does not rotate.
    pub fn rotate(&self) -> (m: Mark)
        requires
            *self != Mark::New,
        ensures
            m == rotate_spec(*self),
    {
        match self {
            Mark::Red => Mark::Green,
            Mark::Green => Mark::Blue,
            Mark::Blue => Mark::Red,
            Mark::New => Mark::New,
        }
    }

    /// The byte that stores this mark.
    pub fn code(&self) -> (v: u8)
        ensures
            v == mark_code(*self),
    {
        match self {
            Mark::New => 0,
            Mark::Red => 1,
            Mark::Green => 2,
            Mark::Blue => 3,
        }
    }

    /// The mark a stored byte stands for; only 0 to 3 are marks.
    pub fn from_code(value: u8) -> (m: Mark)
        requires
            value <= 3,
        ensures
            m == mark_of_code(value),
            mark_code(m) == value,
    {
        if value == 0 {
            Mark::New
        } else if value == 1 {
            Mark::Red
        } else if value == 2 {
            Mark::Green
        } else {
            Mark::Blue
        }
    }
}

/// Rotating a mark three times gives it back, and no rotating mark rotates
/// into itself or into `New`.
pub proof fn lemma_mark_rotation(m: Mark)
    requires
        m != Mark::New,
    ensures
        rotate_spec(rotate_spec(rotate_spec(m))) == m,
        rotate_spec(m) != m,
        rotate_spec(m) != Mark::New,
{
}

/// A mark survives being stored as a byte and read back.
pub proof fn lemma_mark_code_roundtrip(m: Mark)
    ensures
        mark_of_code(mark_code(m)) == m,
        mark_code(m) <= 3,
        (mark_code(m) == 0) == (m == Mark::New),
{
}

/// Header of an object in the allocator: its mark, its size class and its
/// size.
pub struct Header {
    mark: u8,
    size_class: SizeClass,
    size: u16,
}

/// What a header holds.
pub struct HeaderView {
    pub mark: Mark,
    pub size_class: SizeClass,
    pub size: u16,
}

impl View for Header {
    type V = HeaderView;

    closed spec fn view(&self) -> HeaderView {
        HeaderView { mark: mark_of_code(self.mark), size_class: self.size_class, size: self.size }
    }
}

impl Header {
    /// The stored mark is one of the four marks.
    pub closed spec fn wf(&self) -> bool {
        self.mark <= 3
    }

    /// The header of a new object of the given size class and size.
    pub fn new(size_class: SizeClass, size: u16) -> (h: Header)
        ensures
            h.wf(),
            h@ == (HeaderView { mark: Mark::New, size_class, size }),
    {
        Header { mark: 0, size_class, size }
    }

    /// The object's mark.
    pub fn get_mark(&self) -> (m: Mark)
        requires
            self.wf(),
        ensures
            m == self@.mark,
    {
        Mark::from_code(self.mark)
    }

    /// Set the object's mark.
    pub fn set_mark(&mut self, mark: Mark)
        ensures
            final(self).wf(),
            final(self)@ == (HeaderView { mark, ..old(self)@ }),
    {
        self.mark = mark.code();
    }

    /// The object's size class.
    pub fn get_size_class(&self) -> (c: SizeClass)
        ensures
            c == self@.size_class,
    {
        self.size_class
    }

    /// The object's size.
    pub fn get_size(&self) -> (s: u16)
        ensures
            s == self@.size,
    {
        self.size
    }
}

} // verus!
