use sandpit::block::Block;
use sandpit::block_space::BlockSpace;
use sandpit::bump_block::BumpBlock;
use sandpit::constants::{BLOCK_CAPACITY, BLOCK_SIZE, SPACE_SIZE};
use sandpit::space::Space;

const SPACE_ADDR: usize = BLOCK_SIZE * 64;

#[test]
fn get_blocks() {
    let _space = BlockSpace::new(Space::new(SPACE_ADDR).unwrap());
}

#[test]
fn a_space_is_cut_into_consecutive_blocks() {
    let space = Space::new(SPACE_ADDR).unwrap();
    assert_eq!(space.start(), SPACE_ADDR);
    assert_eq!(space.end(), SPACE_ADDR + SPACE_SIZE);

    let blocks = BlockSpace::blocks_from_space(&space);
    assert_eq!(blocks.len(), SPACE_SIZE / BLOCK_SIZE);
    for block in blocks.iter() {
        assert_eq!(block.current_hole_size(), BLOCK_CAPACITY);
    }
}

#[test]
fn a_block_of_a_space_offers_its_whole_capacity() {
    let block = BumpBlock::from_ptr(SPACE_ADDR);
    assert_eq!(block.current_hole_size(), BLOCK_CAPACITY);
    assert_eq!(Block::from_ptr(SPACE_ADDR).as_ptr(), SPACE_ADDR);
}
