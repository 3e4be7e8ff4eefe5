use rustcraft::block::{Block, BlockType};
use rustcraft::chunk::{chunk_component, local_component, Chunk, CHUNK_SIZE, CHUNK_VOLUME, MAX_CHUNK_COORD};

#[test]
fn chunk_dimensions() {
    assert_eq!(CHUNK_SIZE, 32);
    assert_eq!(CHUNK_VOLUME, CHUNK_SIZE * CHUNK_SIZE * CHUNK_SIZE);
    assert_eq!(MAX_CHUNK_COORD, (1i64 << 58) - 2);
}

#[test]
fn fresh_empty_chunk_is_all_air() {
    let chunk = Chunk::new_empty((4, -5, 6));
    assert_eq!(chunk.pos, (4, -5, 6));
    assert!(chunk.is_rendered);
    assert!(chunk.is_dirty);
    assert!(chunk.blocks.iter().all(|b| b.is_transpose()));
    assert_eq!(chunk.blocks.len(), CHUNK_VOLUME);
}

#[test]
fn index_is_x_fastest() {
    assert_eq!(Chunk::index(0, 0, 0), 0);
    assert_eq!(Chunk::index(1, 0, 0), 1);
    assert_eq!(Chunk::index(0, 1, 0), 32);
    assert_eq!(Chunk::index(0, 0, 1), 1024);
    assert_eq!(Chunk::index(3, 4, 5), 3 + 4 * 32 + 5 * 1024);
    assert_eq!(Chunk::index(31, 31, 31), CHUNK_VOLUME - 1);
}

#[test]
fn from_index_inverts_index() {
    assert_eq!(Chunk::from_index(0), (0, 0, 0));
    assert_eq!(Chunk::from_index(5251), (3, 4, 5));
    assert_eq!(Chunk::from_index(CHUNK_VOLUME - 1), (31, 31, 31));
    for i in 0..CHUNK_VOLUME {
        let (x, y, z) = Chunk::from_index(i);
        assert!(x < 32 && y < 32 && z < 32);
        assert_eq!(Chunk::index(x, y, z), i);
    }
}

#[test]
fn get_reads_the_flat_array() {
    let mut chunk = Chunk::new_empty((0, 0, 0));
    chunk.blocks[Chunk::index(7, 8, 9)] = Block::new(BlockType::Dirt);
    assert_eq!(chunk.get(7, 8, 9), Block::from_id(2));
    assert_eq!(chunk.get(9, 8, 7), Block::air());
    assert_eq!(chunk.blocks[7 + 8 * 32 + 9 * 1024].id, 2);
}

#[test]
fn world_pos_uses_euclidean_remainder() {
    let mut chunk = Chunk::new_empty((-1, -1, -1));
    chunk.blocks[Chunk::index(31, 30, 0)] = Block::from_id(5);
    assert_eq!(chunk.get_from_world_pos((-1, -2, -32)).id, 5);
    assert_eq!(chunk.get_from_world_pos((31, 30, 0)).id, 5);
    assert_eq!(chunk.get_from_world_pos((63, -34, 64)).id, 5);
    assert_eq!(chunk.get_from_world_pos((-1, -2, -31)).id, 0);
}

#[test]
fn components_split_and_rejoin() {
    let samples = [0i64, 1, 31, 32, 33, -1, -31, -32, -33, 1000, -1000, i64::MAX, i64::MIN];
    for &c in samples.iter() {
        let q = chunk_component(c);
        let r = local_component(c);
        assert!(r < 32);
        assert_eq!(q as i128 * 32 + r as i128, c as i128);
    }
    assert_eq!(chunk_component(-1), -1);
    assert_eq!(local_component(-1), 31);
    assert_eq!(chunk_component(-32), -1);
    assert_eq!(local_component(-32), 0);
    assert_eq!(chunk_component(-33), -2);
    assert_eq!(local_component(-33), 31);
    assert_eq!(chunk_component(i64::MIN), -(1i64 << 58));
    assert_eq!(local_component(i64::MAX), 31);
}

#[test]
fn terrain_gen_takes_the_generated_blocks() {
    let generate = |pos: (i64, i64, i64), seed: u32| {
        let mut blocks = [Block::air(); CHUNK_VOLUME];
        blocks[0] = Block::from_id((pos.0 + pos.1 + pos.2) as u16);
        blocks[1] = Block::from_id(seed as u16);
        blocks
    };
    let chunk = Chunk::terrain_gen((1, 2, 3), 77, &generate);
    assert_eq!(chunk.pos, (1, 2, 3));
    assert!(chunk.is_rendered);
    assert!(chunk.is_dirty);
    assert_eq!(chunk.blocks[0].id, 6);
    assert_eq!(chunk.blocks[1].id, 77);
    assert!(chunk.blocks[2..].iter().all(|b| b.is_transpose()));
}
