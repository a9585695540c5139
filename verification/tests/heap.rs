use sandpit::heap::Heap;

#[test]
fn a_new_heap_holds_no_memory() {
    let heap = Heap::new();
    assert_eq!(heap.get_size(), 0);
}
