use sandpit::allocator::block_meta::BlockMeta;
use sandpit::allocator::header::{Header, Mark};
use sandpit::constants::{BLOCK_CAPACITY, LINE_COUNT, LINE_SIZE};
use sandpit::raw_allocator::size_class::SizeClass;

#[test]
fn marks_test_mark_block() {
    let mut meta = BlockMeta::new();

    meta.set_block(Mark::Red);
    let got = meta.get_block();

    assert_eq!(got, Mark::Red);
}

#[test]
fn marks_test_mark_line() {
    let mut meta = BlockMeta::new();

    meta.set_line(0, Mark::Red);

    let expect = Mark::Red;
    let got = meta.get_line(0);

    assert_eq!(got, expect);
}

#[test]
fn marks_test_find_next_hole() {
    let mut meta = BlockMeta::new();

    meta.set_line(0, Mark::Red);
    meta.set_line(1, Mark::Red);
    meta.set_line(2, Mark::Red);
    meta.set_line(4, Mark::Red);
    meta.set_line(10, Mark::Red);

    // line 5 should be conservatively marked
    let expect = Some((10 * LINE_SIZE, 6 * LINE_SIZE));

    let got = meta.find_next_available_hole(10 * LINE_SIZE, LINE_SIZE);

    assert_eq!(got, expect);
}

#[test]
fn marks_test_find_next_hole_at_line_zero() {
    let mut meta = BlockMeta::new();

    meta.set_line(3, Mark::Red);
    meta.set_line(4, Mark::Red);
    meta.set_line(5, Mark::Red);

    let expect = Some((3 * LINE_SIZE, 0));

    let got = meta.find_next_available_hole(3 * LINE_SIZE, LINE_SIZE);

    assert_eq!(got, expect);
}

#[test]
fn marks_test_find_next_hole_at_block_end() {
    let mut meta = BlockMeta::new();
    let halfway = LINE_COUNT / 2;

    for i in halfway..LINE_COUNT {
        meta.set_line(i, Mark::Red);
    }

    let expect = Some((halfway * LINE_SIZE, 0));
    let got = meta.find_next_available_hole(BLOCK_CAPACITY, LINE_SIZE);

    assert_eq!(got, expect);
}

#[test]
fn marks_test_find_hole_all_conservatively_marked() {
    let mut meta = BlockMeta::new();

    for i in 0..LINE_COUNT {
        if i % 2 == 0 {
            meta.set_line(i, Mark::Red);
        }
    }

    let got = meta.find_next_available_hole(BLOCK_CAPACITY, LINE_SIZE);
    assert_eq!(got, None);
}

#[test]
fn marks_test_find_entire_block() {
    let meta = BlockMeta::new();
    let expect = Some((BLOCK_CAPACITY, 0));
    let got = meta.find_next_available_hole(BLOCK_CAPACITY, LINE_SIZE);

    assert_eq!(got, expect);
}

#[test]
fn marks_mark_block() {
    // a medium object of 512 bytes, with its header at the start of a block
    let mut meta = BlockMeta::new();
    let mut header = Header::new(SizeClass::Medium, 512);
    header.set_mark(Mark::Red);

    meta.mark(32768 * 2, &header, Mark::Red);

    assert_eq!(meta.get_block(), Mark::Red);
    for line in 0..4 {
        assert_eq!(meta.get_line(line), Mark::Red);
    }
    assert_eq!(meta.get_line(4), Mark::New);
}

#[test]
fn marks_free_unmarked_resets_other_marks_to_new() {
    let mut meta = BlockMeta::new();
    meta.set_line(0, Mark::Red);
    meta.set_line(1, Mark::Green);
    meta.set_line(2, Mark::Blue);
    meta.set_block(Mark::Green);

    meta.free_unmarked(Mark::Green);

    assert_eq!(meta.get_line(0), Mark::New);
    assert_eq!(meta.get_line(1), Mark::Green);
    assert_eq!(meta.get_line(2), Mark::New);
    assert_eq!(meta.get_block(), Mark::Green);
}

#[test]
fn marks_reset_makes_every_line_new() {
    let mut meta = BlockMeta::new();
    meta.set_line(7, Mark::Blue);
    meta.set_block(Mark::Blue);

    meta.reset();

    for i in 0..LINE_COUNT {
        assert_eq!(meta.get_line(i), Mark::New);
    }
}
