use sandpit::allocator::block::Block;
use sandpit::allocator::block_store::BlockStore;
use sandpit::allocator::header::Mark;
use sandpit::constants::{BLOCK_CAPACITY, BLOCK_SIZE};
use sandpit::pointee::ObjLayout;
use sandpit::raw_allocator::error::AllocError;

const FIRST: usize = BLOCK_SIZE * 16;
const SECOND: usize = BLOCK_SIZE * 17;

#[test]
fn blocks_come_from_the_system_when_the_store_is_empty() {
    let mut store = BlockStore::new();
    assert_eq!(store.block_count(), 0);

    let block = store.get_head(|| FIRST).unwrap();
    assert_eq!(block.block().as_ptr(), FIRST);
    assert_eq!(block.current_hole_size(), BLOCK_CAPACITY);
    assert_eq!(store.block_count(), 1);

    let overflow = store.get_overflow(|| SECOND).unwrap();
    assert_eq!(overflow.block().as_ptr(), SECOND);
    assert_eq!(store.block_count(), 2);
}

#[test]
fn a_failed_system_allocation_is_oom() {
    let mut store = BlockStore::new();
    assert!(matches!(store.get_head(|| 0), Err(AllocError::OOM)));
    assert!(matches!(store.get_overflow(|| 0), Err(AllocError::OOM)));
}

#[test]
fn recycled_blocks_are_handed_out_first() {
    let mut store = BlockStore::new();
    let block = store.get_head(|| FIRST).unwrap();
    store.push_recycle(block);

    // the system is not asked: a failing allocation would give OOM
    let again = store.get_head(|| 0).unwrap();
    assert_eq!(again.block().as_ptr(), FIRST);
    assert_eq!(store.block_count(), 1);
}

#[test]
fn overflow_blocks_skip_the_recycled_ones() {
    let mut store = BlockStore::new();
    let block = store.get_head(|| FIRST).unwrap();
    store.push_recycle(block);

    let overflow = store.get_overflow(|| SECOND).unwrap();
    assert_eq!(overflow.block().as_ptr(), SECOND);
}

#[test]
fn refresh_recycles_live_blocks_and_releases_dead_ones() {
    let mut store = BlockStore::new();
    let mut live = store.get_head(|| FIRST).unwrap();
    let dead = store.get_head(|| SECOND).unwrap();
    live.set_line(0, Mark::Red.code());
    live.set_block(Mark::Red.code());
    store.push_rest(live);
    store.push_rest(dead);

    let (released, dropped) = store.refresh(Mark::Red, &vec![]);

    assert_eq!(released.len(), 1);
    assert_eq!(released[0].block().as_ptr(), SECOND);
    assert!(dropped.is_empty());
    assert_eq!(store.block_count(), 1);

    // the live block, still holding a hole, is up for recycling
    let recycled = store.get_head(|| 0).unwrap();
    assert_eq!(recycled.block().as_ptr(), FIRST);
    // its hole ends above the live line 0 and the conservatively kept line 1
    assert_eq!(recycled.limit(), 256);
    assert_eq!(recycled.cursor(), BLOCK_CAPACITY);
}

#[test]
fn large_objects_are_kept_while_marked() {
    let mut store = BlockStore::new();
    let layout = ObjLayout::from_size_align(BLOCK_SIZE * 2, 8).unwrap();

    assert!(matches!(store.create_large(layout, 0), Err(AllocError::OOM)));
    assert_eq!(store.create_large(layout, 4096), Ok(4096));
    assert_eq!(store.create_large(layout, 4096 * 64), Ok(4096 * 64));
    assert_eq!(store.count_large_space(), BLOCK_SIZE * 4);

    let (released, dropped) = store.refresh(Mark::Blue, &vec![Mark::Blue, Mark::Green]);

    assert!(released.is_empty());
    assert_eq!(dropped.len(), 1);
    assert_eq!(dropped[0].as_ptr(), 4096 * 64);
    assert_eq!(dropped[0].get_size(), BLOCK_SIZE * 2);
    assert_eq!(store.count_large_space(), BLOCK_SIZE * 2);
}

#[test]
fn blocks_wrap_their_allocation() {
    assert!(matches!(Block::default(0), Err(AllocError::OOM)));
    let block = Block::default(FIRST).unwrap();
    assert_eq!(block.as_ptr(), FIRST);
    assert_eq!(block.get_size(), BLOCK_SIZE);
    assert_eq!(block.at_offset(100), FIRST + 100);

    let layout = ObjLayout::from_size_align(100, 4).unwrap();
    assert!(matches!(Block::new(layout, 0), Err(AllocError::OOM)));
    assert_eq!(Block::new(layout, 64).unwrap().get_size(), 100);
}

#[test]
fn a_second_refresh_with_the_same_mark_changes_nothing() {
    let mut store = BlockStore::new();
    let mut live = store.get_head(|| FIRST).unwrap();
    let dead = store.get_head(|| SECOND).unwrap();
    live.set_line(0, Mark::Red.code());
    live.set_block(Mark::Red.code());
    store.push_rest(live);
    store.push_rest(dead);
    let layout = ObjLayout::from_size_align(BLOCK_SIZE * 2, 8).unwrap();
    store.create_large(layout, 4096).unwrap();

    store.refresh(Mark::Red, &vec![Mark::Red]);
    let count = store.block_count();
    let large = store.count_large_space();

    let (released, dropped) = store.refresh(Mark::Red, &vec![Mark::Red]);

    assert!(released.is_empty());
    assert!(dropped.is_empty());
    assert_eq!(store.block_count(), count);
    assert_eq!(store.count_large_space(), large);
    let recycled = store.get_head(|| 0).unwrap();
    assert_eq!(recycled.block().as_ptr(), FIRST);
}

#[test]
fn a_fresh_store_counts_the_blocks_it_made() {
    let mut store = BlockStore::new();
    for k in 1..=5 {
        store.get_head(|| BLOCK_SIZE * (32 + k)).unwrap();
        assert_eq!(store.block_count(), k);
    }
}
