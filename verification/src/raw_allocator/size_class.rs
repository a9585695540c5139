use vstd::prelude::*;
use crate::constants::{
    SMALL_OBJECT_MIN, SMALL_OBJECT_MAX, MEDIUM_OBJECT_MIN, MEDIUM_OBJECT_MAX,
    LARGE_OBJECT_MIN, LARGE_OBJECT_MAX,
};
use crate::raw_allocator::error::AllocError;

verus! {

/// The three classes of object sizes the allocator distinguishes.
#[derive(Debug, Clone, Copy, PartialEq, Eq, Structural)]
pub enum SizeClass {
    /// At most one line.
    Small,
    /// More than a line, at most a block's capacity.
    Medium,
    /// Larger than a block: gets an allocation of its own.
    Large,
}

/// The size class of an object of `size` bytes, if the allocator serves it.
pub open spec fn size_class_of(size: int) -> Option<SizeClass> {
    if SMALL_OBJECT_MIN <= size <= SMALL_OBJECT_MAX {
        Some(SizeClass::Small)
    } else if MEDIUM_OBJECT_MIN <= size <= MEDIUM_OBJECT_MAX {
        Some(SizeClass::Medium)
    } else if LARGE_OBJECT_MIN <= size <= LARGE_OBJECT_MAX {
        Some(SizeClass::Large)
    } else {
        None
    }
}

impl SizeClass {
    /// Classify an object size; sizes that are zero or above the largest
    /// served size are refused with `AllocOverflow`.
    pub fn get_for_size(object_size: usize) -> (r: Result<SizeClass, AllocError>)
        ensures
            match size_class_of(object_size as int) {
                Some(c) => r == Ok::<SizeClass, AllocError>(c),
                None => r == Err::<SizeClass, AllocError>(AllocError::AllocOverflow),
            },
    {
        if SMALL_OBJECT_MIN <= object_size && object_size <= SMALL_OBJECT_MAX {
            Ok(SizeClass::Small)
        } else if MEDIUM_OBJECT_MIN <= object_size && object_size <= MEDIUM_OBJECT_MAX {
            Ok(SizeClass::Medium)
        } else if LARGE_OBJECT_MIN <= object_size && object_size <= LARGE_OBJECT_MAX {
            Ok(SizeClass::Large)
        } else {
            Err(AllocError::AllocOverflow)
        }
    }
}

} // verus!
