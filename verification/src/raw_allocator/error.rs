use vstd::prelude::*;

verus! {

/// Why an allocation could not be served.
#[derive(Debug, Clone, Copy, PartialEq, Eq, Structural)]
pub enum AllocError {
    /// The system allocator could not provide memory.
    OOM,
    /// The requested size is zero or beyond what the allocator serves.
    AllocOverflow,
}

} // verus!
