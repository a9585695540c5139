use sandpit::constants::{BLOCK_CAPACITY, BLOCK_SIZE, LINE_COUNT, LINE_SIZE};
use sandpit::pointee::ObjLayout;
use sandpit::raw_allocator::bump_block::BumpBlock;
use sandpit::raw_allocator::error::AllocError;

// The address the system allocator would have returned for the block.
const BLOCK_ADDR: usize = BLOCK_SIZE * 8;

fn byte() -> ObjLayout {
    ObjLayout::new::<u8>()
}

#[test]
fn test_empty_block() {
    let mut b = BumpBlock::new(BLOCK_ADDR).unwrap();

    for i in 0..BLOCK_CAPACITY {
        let ptr = b.inner_alloc(byte()).unwrap();

        let offset = BLOCK_CAPACITY - (i + 1);
        assert_eq!(b.cursor(), offset);
        assert!(ptr == b.block().as_ptr() + offset);
    }

    assert!(b.inner_alloc(byte()).is_none());
}

#[test]
fn test_full_block() {
    let mut b = BumpBlock::new(BLOCK_ADDR).unwrap();

    for i in 0..LINE_COUNT {
        b.set_line(i, 1);
    }

    b.reset_hole(1);

    assert!(b.inner_alloc(byte()).is_none());
}

#[test]
fn test_half_block() {
    let mut b = BumpBlock::new(BLOCK_ADDR).unwrap();

    for i in ((LINE_COUNT - 2) / 2)..LINE_COUNT {
        b.set_line(i, 1);
    }

    b.reset_hole(1);

    for i in 0..(BLOCK_CAPACITY / 2) {
        let ptr = b.inner_alloc(byte()).unwrap();

        let offset = (BLOCK_CAPACITY / 2) - (i + 1);
        assert_eq!(b.cursor(), offset);
        assert!(ptr == b.block().as_ptr() + offset);
    }

    assert!(b.inner_alloc(byte()).is_none());
    assert_eq!(b.cursor(), 0);
    assert_eq!(b.limit(), 0);
}

#[test]
fn test_conservatively_marked_block() {
    let mut b = BumpBlock::new(BLOCK_ADDR).unwrap();

    for i in 0..LINE_COUNT {
        if i % 2 == 0 {
            b.set_line(i, 1);
        }
    }

    b.set_block(1);

    b.reset_hole(1);

    assert!(b.inner_alloc(byte()).is_none());
    assert_eq!(b.cursor(), 0);
    assert_eq!(b.limit(), 0);
}

#[test]
fn test_current_hole_size() {
    let block = BumpBlock::new(BLOCK_ADDR).unwrap();
    let expect = block.current_hole_size();

    assert_eq!(expect, BLOCK_CAPACITY);
}

#[test]
fn new_block_without_memory_is_oom() {
    assert!(matches!(BumpBlock::new(0), Err(AllocError::OOM)));
}

#[test]
fn unmarked_block_offers_its_whole_capacity_after_reset() {
    let mut b = BumpBlock::new(BLOCK_ADDR).unwrap();
    b.set_line(3, 2);
    b.inner_alloc(byte()).unwrap();

    // the block does not carry mark 1, so it is entirely free again
    b.reset_hole(1);

    assert_eq!(b.cursor(), BLOCK_CAPACITY);
    assert_eq!(b.limit(), 0);
    assert_eq!(b.get_line(3), 0);
}

#[test]
fn aligned_allocation_rounds_the_cursor_down() {
    let mut b = BumpBlock::new(BLOCK_ADDR).unwrap();
    let eight = ObjLayout::from_size_align(8, 8).unwrap();

    b.inner_alloc(byte()).unwrap();
    assert_eq!(b.cursor(), BLOCK_CAPACITY - 1);

    let ptr = b.inner_alloc(eight).unwrap();
    assert_eq!(b.cursor(), BLOCK_CAPACITY - 16);
    assert_eq!(ptr, BLOCK_ADDR + BLOCK_CAPACITY - 16);
    assert_eq!(ptr % 8, 0);
}

#[test]
fn allocation_moves_to_the_next_hole_when_the_current_one_is_too_small() {
    let mut b = BumpBlock::new(BLOCK_ADDR).unwrap();
    // live lines 2 and 10: below line 10 the usable hole is lines 4..=9
    b.set_line(2, 1);
    b.set_line(10, 1);
    for i in 11..LINE_COUNT {
        b.set_line(i, 1);
    }
    b.reset_hole(1);
    assert_eq!(b.cursor(), 10 * LINE_SIZE);
    assert_eq!(b.limit(), 4 * LINE_SIZE);

    // fill the hole but one line
    let big = ObjLayout::from_size_align(5 * LINE_SIZE, 1).unwrap();
    b.inner_alloc(big).unwrap();
    assert_eq!(b.current_hole_size(), LINE_SIZE);

    // two lines do not fit in what is left; the next hole, lines 0..=1,
    // takes them
    let two_lines = ObjLayout::from_size_align(2 * LINE_SIZE, 1).unwrap();
    assert_eq!(b.inner_alloc(two_lines), Some(BLOCK_ADDR));
    assert_eq!(b.cursor(), 0);
    assert_eq!(b.limit(), 0);

    // nothing is left below
    assert!(b.inner_alloc(byte()).is_none());
}

#[test]
fn a_failed_allocation_fails_again_and_leaves_the_block() {
    let mut b = BumpBlock::new(BLOCK_ADDR).unwrap();
    b.set_line(2, 1);
    for i in 10..LINE_COUNT {
        b.set_line(i, 1);
    }
    b.reset_hole(1);
    let big = ObjLayout::from_size_align(7 * LINE_SIZE, 1).unwrap();

    assert!(b.inner_alloc(big).is_none());
    let (cursor, limit) = (b.cursor(), b.limit());
    assert!(b.inner_alloc(big).is_none());
    assert_eq!((b.cursor(), b.limit()), (cursor, limit));
}

#[test]
fn allocations_between_resets_do_not_overlap() {
    let mut b = BumpBlock::new(BLOCK_ADDR).unwrap();
    let mut previous = BLOCK_ADDR + BLOCK_CAPACITY;
    for size in [1usize, 200, 8, 3000, 64] {
        let layout = ObjLayout::from_size_align(size, 8).unwrap();
        let p = b.inner_alloc(layout).unwrap();
        assert!(p + size <= previous);
        assert_eq!(p % 8, 0);
        previous = p;
    }
}

#[test]
fn an_empty_object_goes_at_the_aligned_cursor() {
    let mut b = BumpBlock::new(BLOCK_ADDR).unwrap();
    let empty = ObjLayout::from_size_align(0, 1).unwrap();
    assert_eq!(b.inner_alloc(empty), Some(BLOCK_ADDR + BLOCK_CAPACITY));
    assert_eq!(b.cursor(), BLOCK_CAPACITY);

    b.inner_alloc(byte()).unwrap();
    let empty_aligned = ObjLayout::from_size_align(0, 64).unwrap();
    assert_eq!(b.inner_alloc(empty_aligned), Some(BLOCK_ADDR + 32448));
    assert_eq!(b.cursor(), 32448);
}
