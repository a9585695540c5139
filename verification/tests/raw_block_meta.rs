use sandpit::constants::{BLOCK_CAPACITY, FREE_MARK, LINE_COUNT, LINE_SIZE};
use sandpit::raw_allocator::block_meta::BlockMeta;

#[test]
fn block_meta_test_mark_block() {
    let mut meta = BlockMeta::new();

    meta.set_block(1);
    let got = meta.get_block();

    assert_eq!(got, 1);
}

#[test]
fn block_meta_test_mark_line() {
    let mut meta = BlockMeta::new();

    meta.set_line(0, 1);

    let expect = 1;
    let got = meta.get_line(0);

    assert_eq!(got, expect);
}

#[test]
fn block_meta_test_find_next_hole() {
    let mut meta = BlockMeta::new();

    meta.set_line(0, 1);
    meta.set_line(1, 1);
    meta.set_line(2, 1);
    meta.set_line(4, 1);
    meta.set_line(10, 1);

    // line 5 should be conservatively marked
    let expect = Some((10 * LINE_SIZE, 6 * LINE_SIZE));

    let got = meta.find_next_available_hole(10 * LINE_SIZE, LINE_SIZE);

    assert_eq!(got, expect);
}

#[test]
fn block_meta_test_find_next_hole_at_line_zero() {
    let mut meta = BlockMeta::new();

    meta.set_line(3, 1);
    meta.set_line(4, 1);
    meta.set_line(5, 1);

    let expect = Some((3 * LINE_SIZE, 0));

    let got = meta.find_next_available_hole(3 * LINE_SIZE, LINE_SIZE);

    assert_eq!(got, expect);
}

#[test]
fn block_meta_test_find_next_hole_at_block_end() {
    let mut meta = BlockMeta::new();
    let halfway = LINE_COUNT / 2;

    for i in halfway..LINE_COUNT {
        meta.set_line(i, 1);
    }

    // because halfway line should be conservatively marked
    let expect = Some((halfway * LINE_SIZE, 0));
    let got = meta.find_next_available_hole(BLOCK_CAPACITY, LINE_SIZE);

    assert_eq!(got, expect);
}

#[test]
fn block_meta_test_find_hole_all_conservatively_marked() {
    let mut meta = BlockMeta::new();

    for i in 0..LINE_COUNT {
        if i % 2 == 0 {
            meta.set_line(i, 1);
        }
    }

    let got = meta.find_next_available_hole(BLOCK_CAPACITY, LINE_SIZE);
    assert_eq!(got, None);
}

#[test]
fn block_meta_test_find_entire_block() {
    let meta = BlockMeta::new();
    let expect = Some((BLOCK_CAPACITY, 0));
    let got = meta.find_next_available_hole(BLOCK_CAPACITY, LINE_SIZE);

    assert_eq!(got, expect);
}

#[test]
fn block_meta_mark_block() {
    // A medium object of 512 bytes at the start of a block marks the block.
    let mut meta = BlockMeta::new();
    let block_addr: usize = 32768 * 4;

    meta.mark(block_addr, 512, 1);

    assert_eq!(meta.get_block(), 1);
}

#[test]
fn mark_medium_object_marks_its_full_lines() {
    let mut meta = BlockMeta::new();
    let addr: usize = 32768 * 4 + 3 * LINE_SIZE;

    meta.mark(addr, 512, 2);

    assert_eq!(meta.get_line(2), FREE_MARK);
    for line in 3..7 {
        assert_eq!(meta.get_line(line), 2);
    }
    assert_eq!(meta.get_line(7), FREE_MARK);
    assert_eq!(meta.get_block(), 2);
}

#[test]
fn mark_small_object_marks_one_line() {
    let mut meta = BlockMeta::new();
    let addr: usize = 32768 * 4 + 5 * LINE_SIZE + 17;

    meta.mark(addr, 16, 3);

    assert_eq!(meta.get_line(4), FREE_MARK);
    assert_eq!(meta.get_line(5), 3);
    assert_eq!(meta.get_line(6), FREE_MARK);
    assert_eq!(meta.get_block(), 3);
}

#[test]
fn free_unmarked_keeps_only_the_live_mark() {
    let mut meta = BlockMeta::new();
    meta.set_line(0, 1);
    meta.set_line(1, 2);
    meta.set_line(2, 1);
    meta.set_block(1);

    meta.free_unmarked(1);

    assert_eq!(meta.get_line(0), 1);
    assert_eq!(meta.get_line(1), FREE_MARK);
    assert_eq!(meta.get_line(2), 1);
    assert_eq!(meta.get_block(), 1);

    // a second sweep with the same mark frees nothing more
    meta.free_unmarked(1);
    assert_eq!(meta.get_line(0), 1);
    assert_eq!(meta.get_line(2), 1);
    assert_eq!(meta.get_block(), 1);
}

#[test]
fn reset_frees_every_line() {
    let mut meta = BlockMeta::new();
    for i in 0..LINE_COUNT {
        meta.set_line(i, 3);
    }

    meta.reset();

    for i in 0..LINE_COUNT {
        assert_eq!(meta.get_line(i), FREE_MARK);
    }
}

#[test]
fn hole_for_a_large_request_skips_small_holes() {
    let mut meta = BlockMeta::new();
    // below line 10 the free runs are lines 0..=1 and 3..=9; line 3 is
    // taken as conservatively marked, leaving lines 4..=9 usable
    meta.set_line(2, 1);
    meta.set_line(10, 1);

    let got = meta.find_next_available_hole(10 * LINE_SIZE, 3 * LINE_SIZE);
    assert_eq!(got, Some((10 * LINE_SIZE, 4 * LINE_SIZE)));

    // seven lines fit nowhere below line 10
    let got = meta.find_next_available_hole(10 * LINE_SIZE, 7 * LINE_SIZE);
    assert_eq!(got, None);
}
