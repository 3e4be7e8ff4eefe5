use rustcraft::block::{Block, BlockType, AIR_ID};
use rustcraft::voxel::Voxel;

#[test]
fn block_kinds_have_their_ids() {
    assert_eq!(Block::new(BlockType::Air).id, 0);
    assert_eq!(Block::new(BlockType::Stone).id, 1);
    assert_eq!(Block::new(BlockType::Dirt).id, 2);
    assert_eq!(Block::new(BlockType::Grass).id, 3);
    assert_eq!(BlockType::Grass.id(), 3);
}

#[test]
fn air_is_the_reserved_id() {
    assert_eq!(AIR_ID, 0);
    assert_eq!(Block::air().id, AIR_ID);
    assert_eq!(Block::air(), Block::from_id(0));
    assert!(Block::air().is_transpose());
    assert!(Block::new(BlockType::Air).is_transpose());
}

#[test]
fn only_air_is_transparent() {
    for id in 0..=u16::MAX {
        assert_eq!(Block::from_id(id).is_transpose(), id == AIR_ID);
    }
}

#[test]
fn from_id_keeps_the_id() {
    assert_eq!(Block::from_id(20).id, 20);
    assert_eq!(Block::from_id(u16::MAX).id, u16::MAX);
    assert_ne!(Block::from_id(1), Block::from_id(2));
}

#[test]
fn voxel_keeps_colour_and_texture() {
    let v = Voxel::new((10, 20, 30), 7);
    assert_eq!(v.color, (10, 20, 30));
    assert_eq!(v.tex_id, 7);
    assert!(!v.is_transpose());
}

#[test]
fn air_voxel_is_black_and_transparent() {
    let v = Voxel::air();
    assert_eq!(v.color, (0, 0, 0));
    assert_eq!(v.tex_id, 0);
    assert!(v.is_transpose());
    assert!(Voxel::new((255, 255, 255), 0).is_transpose());
}
