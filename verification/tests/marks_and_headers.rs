use sandpit::allocator::block_meta::BlockMeta;
use sandpit::allocator::header::{Header, Mark};
use sandpit::header::{mark_header, GcHeader, GcMark, SizedHeader, SliceHeader};
use sandpit::pointee::{sized_alloc_layout, slice_alloc_layout, GcPointee, ObjLayout};
use sandpit::raw_allocator::error::AllocError;
use sandpit::raw_allocator::size_class::SizeClass;

#[test]
fn clone_size_class() {
    // this is just for test coverage
    let foo = SizeClass::get_for_size(69);
    let clone = foo;

    assert!(foo == clone);
}

#[test]
fn size_classes_cover_the_served_sizes() {
    assert_eq!(SizeClass::get_for_size(0), Err(AllocError::AllocOverflow));
    assert_eq!(SizeClass::get_for_size(1), Ok(SizeClass::Small));
    assert_eq!(SizeClass::get_for_size(128), Ok(SizeClass::Small));
    assert_eq!(SizeClass::get_for_size(129), Ok(SizeClass::Medium));
    assert_eq!(SizeClass::get_for_size(32512), Ok(SizeClass::Medium));
    assert_eq!(SizeClass::get_for_size(32513), Ok(SizeClass::Large));
    assert_eq!(SizeClass::get_for_size(u32::MAX as usize), Ok(SizeClass::Large));
    assert_eq!(SizeClass::get_for_size(u32::MAX as usize + 1), Err(AllocError::AllocOverflow));
}

#[test]
fn gc_marks_rotate_through_three_colours() {
    assert_eq!(GcMark::Red.rotate(), GcMark::Green);
    assert_eq!(GcMark::Green.rotate(), GcMark::Blue);
    assert_eq!(GcMark::Blue.rotate(), GcMark::Red);
    for m in [GcMark::Red, GcMark::Green, GcMark::Blue] {
        assert_eq!(m.rotate().rotate().rotate(), m);
        assert_eq!(m.prev().rotate(), m);
        assert_eq!(m.rotate().prev(), m);
    }
}

#[test]
fn gc_mark_bytes_round_trip() {
    assert_eq!(u8::from(GcMark::Red), 1);
    assert_eq!(u8::from(GcMark::Green), 2);
    assert_eq!(u8::from(GcMark::Blue), 3);
    for m in [GcMark::Red, GcMark::Green, GcMark::Blue] {
        assert_eq!(GcMark::from_u8(m.to_u8()), m);
    }
}

#[test]
fn allocator_marks_rotate_and_new_is_new() {
    assert_eq!(Mark::Red.rotate(), Mark::Green);
    assert_eq!(Mark::Green.rotate(), Mark::Blue);
    assert_eq!(Mark::Blue.rotate(), Mark::Red);
    assert!(Mark::new().is_new());
    assert!(!Mark::Red.is_new());
    for v in 0u8..4 {
        assert_eq!(Mark::from_code(v).code(), v);
    }
}

#[test]
fn object_headers_hold_their_mark_class_and_size() {
    let mut header = Header::new(SizeClass::Medium, 300);
    assert_eq!(header.get_mark(), Mark::New);
    assert_eq!(header.get_size_class(), SizeClass::Medium);
    assert_eq!(header.get_size(), 300);

    header.set_mark(Mark::Blue);
    assert_eq!(header.get_mark(), Mark::Blue);
    assert_eq!(header.get_size(), 300);
}

#[test]
fn setting_a_rotating_mark_marks_the_lines_of_the_object() {
    let mut meta = BlockMeta::new();
    let mut header = Header::new(SizeClass::Medium, 300);
    let addr: usize = 32768 * 3 + 256;

    header.set_mark_in_block(addr, &mut meta, Mark::Green);

    assert_eq!(header.get_mark(), Mark::Green);
    assert_eq!(meta.get_line(1), Mark::New);
    assert_eq!(meta.get_line(2), Mark::Green);
    assert_eq!(meta.get_line(3), Mark::Green);
    assert_eq!(meta.get_line(4), Mark::New);
    assert_eq!(meta.get_block(), Mark::Green);
}

#[test]
fn setting_new_or_marking_a_large_object_leaves_the_lines() {
    let mut meta = BlockMeta::new();
    let mut small = Header::new(SizeClass::Small, 16);
    small.set_mark_in_block(32768 * 3, &mut meta, Mark::New);
    let mut large = Header::new(SizeClass::Large, 0);
    large.set_mark_in_block(32768 * 3, &mut meta, Mark::Red);

    assert_eq!(large.get_mark(), Mark::Red);
    assert_eq!(meta.get_line(0), Mark::New);
    assert_eq!(meta.get_block(), Mark::New);
}

#[test]
fn gc_headers_hold_their_mark_and_length() {
    let mut sized: SizedHeader<u64> = SizedHeader::new(GcMark::Red);
    assert_eq!(sized.get_mark(), GcMark::Red);
    sized.set_mark(GcMark::Blue);
    assert_eq!(sized.get_mark(), GcMark::Blue);

    let slice: SliceHeader<u32> = SliceHeader::new(GcMark::Green, 12);
    assert_eq!(slice.get_mark(), GcMark::Green);
    assert_eq!(slice.len(), 12);
}

#[test]
fn marking_a_header_twice_reports_it_once() {
    let mut header: SizedHeader<u64> = SizedHeader::new(GcMark::Red);

    assert!(mark_header(&mut header, GcMark::Green));
    assert_eq!(header.get_mark(), GcMark::Green);
    assert!(!mark_header(&mut header, GcMark::Green));
    assert_eq!(header.get_mark(), GcMark::Green);
}

#[test]
fn sized_layout_puts_the_value_after_its_header() {
    let (layout, offset) = sized_alloc_layout::<u64>();
    let header = ObjLayout::new::<SizedHeader<u64>>();

    assert!(offset >= header.size());
    assert_eq!(offset % 8, 0);
    assert!(offset + 8 <= layout.size());
    assert_eq!(layout.size() % layout.align(), 0);
    assert_eq!(layout.align(), 8);
    assert_eq!((layout.size(), offset), (16, 8));

    let header: SizedHeader<u64> = SizedHeader::new(GcMark::Red);
    assert_eq!(header.get_alloc_layout(), layout);
}

#[test]
fn slice_layout_puts_the_array_after_its_header() {
    let header = ObjLayout::new::<SliceHeader<u64>>();
    let (layout, offset) = slice_alloc_layout::<u64>(4);

    assert_eq!(offset, header.size());
    assert_eq!(layout.size(), header.size() + 32);
    assert_eq!(layout.align(), 8);

    let (empty, empty_offset) = slice_alloc_layout::<u64>(0);
    assert_eq!(empty_offset, offset);
    assert_eq!(empty.size(), header.size());

    let h: SliceHeader<u64> = SliceHeader::new(GcMark::Red, 4);
    assert_eq!(h.get_alloc_layout(), layout);
}

#[test]
fn headers_sit_an_item_offset_before_the_value() {
    let (_, offset) = sized_alloc_layout::<u64>();
    assert_eq!(<u64 as GcPointee>::item_offset(), offset);
    assert_eq!(<u64 as GcPointee>::get_header_addr(4096 + offset), 4096);

    let (_, slice_offset) = slice_alloc_layout::<u16>(7);
    assert_eq!(<[u16] as GcPointee>::item_offset(), slice_offset);
    assert_eq!(<[u16] as GcPointee>::get_header_addr(8192 + slice_offset), 8192);
}

#[test]
fn layouts_refuse_invalid_alignments_and_sizes() {
    assert!(ObjLayout::from_size_align(8, 3).is_none());
    assert!(ObjLayout::from_size_align(8, 0).is_none());
    assert!(ObjLayout::from_size_align(usize::MAX, 8).is_none());
    let l = ObjLayout::from_size_align(10, 4).unwrap();
    assert_eq!(l.pad_to_align().size(), 12);
    let (joined, off) = l.extend(ObjLayout::from_size_align(1, 8).unwrap()).unwrap();
    assert_eq!(off, 16);
    assert_eq!(joined.size(), 17);
    assert_eq!(joined.align(), 8);
    assert!(ObjLayout::array::<u64>(usize::MAX).is_none());
    assert_eq!(ObjLayout::array::<u64>(3).unwrap().size(), 24);
}
