use vstd::prelude::*;
use nimix::Heap as NimixHeap;

verus! {

#[verifier::external_type_specification]
#[verifier::external_body]
pub struct ExNimixHeap(NimixHeap);

/// Creates a heap with `nimix::Heap::new`: an empty block store that the
/// allocators made from the heap share. Nothing is stated of the value,
/// which is opaque here.
#[verifier::external_body]
fn nimix_heap_new() -> (heap: NimixHeap) {
    NimixHeap::new()
}

/// Reads `nimix::Heap::size`: the bytes held in blocks and large objects by
/// the store that the heap's allocators share. The store changes whenever
/// one of them allocates or a sweep frees memory, so nothing is stated of
/// the result.
#[verifier::external_body]
fn nimix_heap_size(heap: &NimixHeap) -> (n: usize) {
    heap.size()
}

/// The memory of an arena: the store of blocks from which its mutators
/// allocate and which a sweep frees.
pub struct Heap {
    heap: NimixHeap,
}

impl Heap {
    /// The store behind the heap.
    pub closed spec fn store_spec(&self) -> NimixHeap {
        self.heap
    }

    /// A heap that holds no memory yet.
    pub fn new() -> (h: Self) {
        Heap { heap: nimix_heap_new() }
    }

    /// The store behind the heap, from which allocators are made and which
    /// is swept.
    pub fn store(&self) -> (s: &NimixHeap)
        ensures
            *s == self.store_spec(),
    {
        &self.heap
    }

    /// The number of bytes the heap holds, as the store reports it at the
    /// time of the call.
    pub fn get_size(&self) -> (n: u64) {
        let size = nimix_heap_size(&self.heap);
        size as u64
    }
}

} // verus!
