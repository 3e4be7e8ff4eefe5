use rustcraft::block::Block;
use rustcraft::chunk::{Chunk, CHUNK_VOLUME, MAX_CHUNK_COORD};
use rustcraft::lifecycle::ChunkState;
use rustcraft::loading::{
    chunk_is_far, is_valid_chunk_coord, load_share, queue_contains, BATCH_SIZE, LOAD_DISTANCE,
    LOAD_DISTANCE_Z, UNLOAD_DISTANCE, UNLOAD_DISTANCE_Z,
};
use rustcraft::priority::{alignment_bonus, calculate_loading_priority};
use rustcraft::world::{push_coord, remove_coord, World};

fn flat(pos: (i64, i64, i64), seed: u32) -> [Block; CHUNK_VOLUME] {
    let mut blocks = [Block::air(); CHUNK_VOLUME];
    if pos.2 < 0 {
        blocks = [Block::from_id(1); CHUNK_VOLUME];
    }
    blocks[0] = Block::from_id(seed as u16);
    blocks
}

fn solid_chunk(pos: (i64, i64, i64), id: u16) -> Chunk {
    let mut chunk = Chunk::new_empty(pos);
    for i in 0..CHUNK_VOLUME {
        chunk.blocks[i] = Block::from_id(id);
    }
    chunk
}

fn sorted(mut keys: Vec<(i64, i64, i64)>) -> Vec<(i64, i64, i64)> {
    keys.sort();
    keys
}

#[test]
fn new_world_is_empty() {
    let world = World::new(6969);
    assert_eq!(world.seed, 6969);
    assert!(world.dirty_chunks.is_empty());
    assert!(world.need_to_load.is_empty());
    assert!(world.get_chunk((0, 0, 0)).is_none());
    assert!(world.get_block((0, 0, 0)).is_none());
    assert!(world.get_mesh((0, 0, 0)).is_none());
}

#[test]
fn get_chunk_uses_euclidean_quotient() {
    let mut world = World::new(1);
    let mut chunk = Chunk::new_empty((-1, 0, 2));
    chunk.blocks[Chunk::index(31, 0, 5)] = Block::from_id(4);
    world.insert_chunk(chunk);
    assert_eq!(world.get_chunk((-1, 0, 64)).unwrap().pos, (-1, 0, 2));
    assert_eq!(world.get_chunk((-32, 31, 95)).unwrap().pos, (-1, 0, 2));
    assert!(world.get_chunk((0, 0, 64)).is_none());
    assert!(world.get_chunk((-33, 0, 64)).is_none());
    assert_eq!(world.get_block((-1, 0, 69)), Some(Block::from_id(4)));
    assert_eq!(world.get_block((-2, 0, 69)), Some(Block::air()));
    assert_eq!(world.get_block((0, 0, 69)), None);
}

#[test]
fn inserting_marks_the_chunk_and_its_loaded_neighbours() {
    let mut world = World::new(1);
    world.insert_chunk(Chunk::new_empty((0, 0, 0)));
    world.insert_chunk(Chunk::new_empty((5, 5, 5)));
    world.insert_chunk(Chunk::new_empty((1, 1, 0)));
    assert_eq!(world.update_meshes().len(), 3);
    assert!(world.dirty_chunks.is_empty());
    world.insert_chunk(Chunk::new_empty((1, 0, 0)));
    assert_eq!(sorted(world.dirty_chunks.clone()), vec![(0, 0, 0), (1, 0, 0), (1, 1, 0)]);
    assert!(world.get_chunk((0, 0, 0)).unwrap().is_dirty);
    assert!(world.get_chunk((32, 0, 0)).unwrap().is_dirty);
    assert!(world.get_chunk((32, 32, 0)).unwrap().is_dirty);
    assert!(!world.get_chunk((160, 160, 160)).unwrap().is_dirty);
}

#[test]
fn inserting_replaces_the_chunk_at_its_coordinate() {
    let mut world = World::new(1);
    world.insert_chunk(solid_chunk((2, 2, 2), 1));
    world.insert_chunk(solid_chunk((2, 2, 2), 9));
    assert_eq!(world.get_block((64, 64, 64)), Some(Block::from_id(9)));
    assert_eq!(world.dirty_chunks, vec![(2, 2, 2)]);
}

#[test]
fn mark_neighbors_dirty_marks_the_six_loaded_neighbours_only() {
    let mut world = World::new(1);
    for key in [(1, 0, 0), (-1, 0, 0), (0, 1, 0), (0, 0, -1), (1, 1, 0), (0, 0, 0), (2, 0, 0)] {
        world.insert_chunk(Chunk::new_empty(key));
    }
    world.update_meshes();
    world.mark_neighbors_dirty((0, 0, 0));
    assert_eq!(sorted(world.dirty_chunks.clone()), vec![(-1, 0, 0), (0, 0, -1), (0, 1, 0), (1, 0, 0)]);
    world.mark_neighbors_dirty((0, 0, 0));
    assert_eq!(world.dirty_chunks.len(), 4);
    world.mark_neighbors_dirty((i64::MAX, i64::MIN, 0));
    assert_eq!(world.dirty_chunks.len(), 4);
}

#[test]
fn mark_dirty_needs_a_loaded_chunk() {
    let mut world = World::new(1);
    world.insert_chunk(Chunk::new_empty((0, 0, 0)));
    world.update_meshes();
    world.mark_dirty((1, 0, 0));
    assert!(world.dirty_chunks.is_empty());
    world.mark_dirty((0, 0, 0));
    world.mark_dirty((0, 0, 0));
    assert_eq!(world.dirty_chunks, vec![(0, 0, 0)]);
}

#[test]
fn load_chunk_generates_once() {
    let mut world = World::new(42);
    world.load_chunk(1, 2, -3, &flat);
    let chunk = world.get_chunk((32, 64, -96)).unwrap();
    assert_eq!(chunk.pos, (1, 2, -3));
    assert_eq!(chunk.blocks[0].id, 42);
    assert_eq!(chunk.blocks[1].id, 1);
    assert!(chunk.is_dirty);
    assert_eq!(world.dirty_chunks, vec![(1, 2, -3)]);
    let other = |_: (i64, i64, i64), _: u32| [Block::from_id(7); CHUNK_VOLUME];
    world.load_chunk(1, 2, -3, &other);
    assert_eq!(world.get_chunk((32, 64, -96)).unwrap().blocks[1].id, 1);
}

#[test]
fn dropping_a_chunk_removes_chunk_mesh_and_dirty_mark_together() {
    let mut world = World::new(1);
    world.insert_chunk(solid_chunk((0, 0, 0), 1));
    world.insert_chunk(solid_chunk((1, 0, 0), 1));
    world.update_meshes();
    world.mark_dirty((0, 0, 0));
    assert!(world.get_mesh((0, 0, 0)).is_some());
    world.drop_chunk((0, 0, 0));
    assert!(world.get_chunk((0, 0, 0)).is_none());
    assert!(world.get_mesh((0, 0, 0)).is_none());
    assert!(world.dirty_chunks.is_empty());
    assert!(world.get_chunk((32, 0, 0)).is_some());
    assert!(world.get_mesh((1, 0, 0)).is_some());
    world.drop_chunk((9, 9, 9));
    assert!(world.get_chunk((32, 0, 0)).is_some());
}

#[test]
fn push_coord_appends() {
    let mut list = vec![(1, 1, 1)];
    push_coord(&mut list, (2, 2, 2));
    assert_eq!(list, vec![(1, 1, 1), (2, 2, 2)]);
}

#[test]
fn remove_coord_removes_one_entry() {
    let mut list = vec![(1, 1, 1), (2, 2, 2), (3, 3, 3)];
    remove_coord(&mut list, (2, 2, 2));
    assert_eq!(list, vec![(1, 1, 1), (3, 3, 3)]);
    remove_coord(&mut list, (9, 9, 9));
    assert_eq!(list, vec![(1, 1, 1), (3, 3, 3)]);
}

#[test]
fn far_chunks_are_those_beyond_the_unload_distance() {
    assert_eq!(UNLOAD_DISTANCE, 2 * LOAD_DISTANCE);
    assert_eq!(UNLOAD_DISTANCE_Z, LOAD_DISTANCE_Z + 10);
    assert!(!chunk_is_far((40, 0, 0), (0, 0, 0)));
    assert!(chunk_is_far((41, 0, 0), (0, 0, 0)));
    assert!(!chunk_is_far((24, 32, 0), (0, 0, 0)));
    assert!(chunk_is_far((24, 33, 0), (0, 0, 0)));
    assert!(!chunk_is_far((0, 0, 15), (0, 0, 0)));
    assert!(chunk_is_far((0, 0, 16), (0, 0, 0)));
    assert!(chunk_is_far((0, 0, -16), (0, 0, 0)));
    assert!(!chunk_is_far((110, -90, 5), (100, -100, 0)));
    assert!(chunk_is_far((MAX_CHUNK_COORD, 0, 0), (-MAX_CHUNK_COORD, 0, 0)));
}

#[test]
fn unload_far_drops_far_chunks_with_their_meshes() {
    let mut world = World::new(1);
    let keys = [(0, 0, 0), (40, 0, 0), (41, 0, 0), (0, 0, 16), (-30, -30, 0), (3, 4, -15)];
    for key in keys {
        world.insert_chunk(solid_chunk(key, 1));
    }
    world.update_meshes();
    world.mark_dirty((41, 0, 0));
    world.mark_dirty((40, 0, 0));
    world.need_to_load.push_back((100, 100, 100));
    world.unload_far((0, 0, 0));
    for key in [(0, 0, 0), (40, 0, 0), (3, 4, -15)] {
        assert!(world.get_chunk((key.0 * 32, key.1 * 32, key.2 * 32)).is_some());
        assert!(world.get_mesh(key).is_some());
    }
    for key in [(41, 0, 0), (0, 0, 16), (-30, -30, 0)] {
        assert!(world.get_chunk((key.0 * 32, key.1 * 32, key.2 * 32)).is_none());
        assert!(world.get_mesh(key).is_none());
    }
    assert_eq!(world.dirty_chunks, vec![(40, 0, 0)]);
    assert_eq!(world.need_to_load.len(), 1);
}

#[test]
fn update_meshes_meshes_every_dirty_chunk() {
    let mut world = World::new(1);
    world.insert_chunk(solid_chunk((0, 0, 0), 3));
    world.insert_chunk(solid_chunk((1, 0, 0), 3));
    let updated = world.update_meshes();
    assert_eq!(sorted(updated), vec![(0, 0, 0), (1, 0, 0)]);
    assert!(world.dirty_chunks.is_empty());
    assert!(!world.get_chunk((0, 0, 0)).unwrap().is_dirty);
    let mesh = world.get_mesh((1, 0, 0)).unwrap();
    assert_eq!(mesh.vertices.len(), 20);
    assert_eq!(mesh.indices.len(), 30);
    assert_eq!(mesh.index_count, 30);
    assert!(mesh.is_dirty);
    assert!(mesh.vertices.iter().all(|v| v.pos.0 >= 32 && v.pos.0 <= 64 && v.tex_id == 3));
    assert!(world.update_meshes().is_empty());
    // A new neighbour hides one more face of the chunk beside it.
    world.insert_chunk(solid_chunk((2, 0, 0), 3));
    let updated = world.update_meshes();
    assert_eq!(sorted(updated), vec![(1, 0, 0), (2, 0, 0)]);
    assert_eq!(world.get_mesh((1, 0, 0)).unwrap().indices.len(), 24);
    assert_eq!(world.get_mesh((0, 0, 0)).unwrap().indices.len(), 30);
}

#[test]
fn take_batch_drains_the_front() {
    let mut world = World::new(1);
    for i in 0..45 {
        world.need_to_load.push_back((i, 0, 0));
    }
    let first = world.take_batch();
    assert_eq!(BATCH_SIZE, 30);
    assert_eq!(first, (0..30).map(|i| (i, 0, 0)).collect::<Vec<_>>());
    assert_eq!(world.need_to_load.len(), 15);
    assert_eq!(world.need_to_load[0], (30, 0, 0));
    let second = world.take_batch();
    assert_eq!(second, (30..45).map(|i| (i, 0, 0)).collect::<Vec<_>>());
    assert!(world.take_batch().is_empty());
}

#[test]
fn two_batches_of_a_hundred_load_sixty() {
    let mut world = World::new(5);
    for i in 0..100 {
        world.need_to_load.push_back((i % 10, i / 10, 0));
    }
    let loaded = world.load_batches(2, &flat);
    assert_eq!(loaded, 60);
    assert_eq!(world.need_to_load.len(), 40);
    for i in 0..100i64 {
        let key = (i % 10, i / 10, 0);
        let present = world.get_chunk((key.0 * 32, key.1 * 32, 0)).is_some();
        assert_eq!(present, i < 60);
        assert_eq!(queue_contains(&world.need_to_load, key), i >= 60);
    }
    assert_eq!(world.need_to_load[0], (0, 6, 0));
    assert_eq!(world.need_to_load[39], (9, 9, 0));
    assert_eq!(world.dirty_chunks.len(), 60);
    assert_eq!(world.get_chunk((0, 0, 0)).unwrap().blocks[0].id, 5);
    assert_eq!(world.load_batches(0, &flat), 0);
    assert_eq!(world.load_batches(5, &flat), 40);
    assert!(world.need_to_load.is_empty());
}

#[test]
fn load_batch_loads_at_most_one_batch() {
    let mut world = World::new(5);
    for i in 0..31 {
        world.need_to_load.push_back((i, 0, -1));
    }
    assert_eq!(world.load_batch(&flat), 30);
    assert_eq!(world.need_to_load.len(), 1);
    assert_eq!(world.get_block((0, 0, -1)), Some(Block::from_id(1)));
    assert_eq!(world.load_batch(&flat), 1);
    assert_eq!(world.load_batch(&flat), 0);
}

#[test]
fn load_new_without_time_loads_nothing() {
    let mut world = World::new(5);
    for i in 0..10 {
        world.need_to_load.push_back((i, 0, 0));
    }
    assert_eq!(world.load_new(0, &flat), 0);
    assert_eq!(world.need_to_load.len(), 10);
    assert!(world.get_chunk((0, 0, 0)).is_none());
}

#[test]
fn load_new_with_time_empties_the_queue() {
    let mut world = World::new(5);
    for x in -1..=1 {
        for y in -1..=1 {
            for z in -1..=1 {
                world.need_to_load.push_back((x, y, z));
            }
        }
    }
    let loaded = world.load_new(1_000_000_000_000, &flat);
    assert_eq!(loaded, 27);
    assert!(world.need_to_load.is_empty());
    assert_eq!(world.dirty_chunks.len(), 27);
    assert_eq!(world.get_block((-32, -32, -32)), Some(Block::from_id(5)));
    assert_eq!(world.get_block((-31, -32, -32)), Some(Block::from_id(1)));
}

#[test]
fn alignment_is_a_thousand_cosines_rounded_down() {
    assert_eq!(alignment_bonus((1000, 0, 0), (1, 0, 0)), 1000);
    assert_eq!(alignment_bonus((1000, 0, 0), (1, 1, 0)), 707);
    assert_eq!(alignment_bonus((3, 4, 0), (20, 20, 5)), 974);
    assert_eq!(alignment_bonus((1, 2, 3), (4, 5, 6)), 974);
    assert_eq!(alignment_bonus((-7, 3, 2), (-40, 30, 3)), 953);
    assert_eq!(alignment_bonus((1, 0, 0), (-1, 0, 0)), 0);
    assert_eq!(alignment_bonus((0, 1, 0), (10, 0, 0)), 0);
    assert_eq!(alignment_bonus((0, 0, 0), (1, 0, 0)), 0);
    assert_eq!(alignment_bonus((0, 0, 1), (0, 0, 0)), 0);
    assert_eq!(alignment_bonus((i32::MAX, i32::MIN, i32::MAX), (1048576, -1048576, 1048576)), 999);
}

#[test]
fn priority_adds_distance_alignment_and_nearness() {
    assert_eq!(calculate_loading_priority((0, 0, 0), (0, 0, 0), (0, 0, 1)), 3000);
    assert_eq!(calculate_loading_priority((1, 0, 0), (0, 0, 0), (1024, 0, 0)), 3999);
    assert_eq!(calculate_loading_priority((11, 21, 30), (10, 20, 30), (1000, 0, 0)), 3705);
    assert_eq!(calculate_loading_priority((-1, 0, 0), (0, 0, 0), (1, 0, 0)), 2999);
    assert_eq!(calculate_loading_priority((10, 0, 0), (0, 0, 0), (0, 1, 0)), 1900);
    assert_eq!(calculate_loading_priority((20, 20, 5), (0, 0, 0), (3, 4, 0)), 2149);
    assert_eq!(calculate_loading_priority((4, 5, 6), (0, 0, 0), (1, 2, 3)), 2897);
    assert_eq!(calculate_loading_priority((-40, 30, 3), (0, 0, 0), (-7, 3, 2)), 953);
    assert_eq!(calculate_loading_priority((5, 5, 5), (0, 0, 0), (0, 0, 0)), 2925);
    assert_eq!(calculate_loading_priority((6, 0, 0), (0, 0, 0), (0, 0, 0)), 1964);
}

#[test]
fn collect_around_queues_the_surroundings_in_load_order() {
    let mut world = World::new(1);
    world.collect_around((0, 0, 0), (1024, 0, 0));
    assert_eq!(world.need_to_load.len(), 41 * 41 * 11);
    let front: Vec<(i64, i64, i64)> = world.need_to_load.iter().take(12).copied().collect();
    assert_eq!(
        front,
        vec![
            (1, 0, 0),
            (2, 0, 0),
            (3, 0, 0),
            (4, 0, 0),
            (5, 0, 0),
            (5, -1, 0),
            (5, 0, -1),
            (5, 0, 1),
            (5, 1, 0),
            (4, -1, 0),
            (4, 0, -1),
            (4, 0, 1),
        ]
    );
    let back: Vec<(i64, i64, i64)> = world.need_to_load.iter().skip(41 * 41 * 11 - 3).copied().collect();
    assert_eq!(back, vec![(-20, -20, 5), (-20, 20, -5), (-20, 20, 5)]);
    let mut last = u32::MAX;
    for &key in world.need_to_load.iter() {
        let p = calculate_loading_priority(key, (0, 0, 0), (1024, 0, 0));
        assert!(p <= last);
        last = p;
    }
}

#[test]
fn collect_around_keeps_what_waits_and_skips_what_is_loaded() {
    let mut world = World::new(1);
    world.insert_chunk(Chunk::new_empty((101, 50, 0)));
    world.need_to_load.push_back((102, 50, 0));
    world.need_to_load.push_back((500, 500, 500));
    world.collect_around((100, 50, 0), (0, 1, 0));
    assert_eq!(world.need_to_load.len(), 41 * 41 * 11 - 1);
    assert!(!queue_contains(&world.need_to_load, (101, 50, 0)));
    assert!(queue_contains(&world.need_to_load, (102, 50, 0)));
    assert!(!queue_contains(&world.need_to_load, (500, 500, 500)));
    assert!(queue_contains(&world.need_to_load, (100, 50, 0)));
    assert!(queue_contains(&world.need_to_load, (120, 70, 5)));
    assert!(queue_contains(&world.need_to_load, (80, 30, -5)));
    assert!(!queue_contains(&world.need_to_load, (121, 50, 0)));
    assert!(!queue_contains(&world.need_to_load, (100, 50, 6)));
    assert_eq!(world.need_to_load[0], (100, 51, 0));
    assert_eq!(world.need_to_load.iter().filter(|&&k| k == (102, 50, 0)).count(), 1);
    // A second round finds the same candidates: nothing that waits is dropped.
    let first: Vec<(i64, i64, i64)> = world.need_to_load.iter().copied().collect();
    world.collect_around((100, 50, 0), (0, 1, 0));
    let second: Vec<(i64, i64, i64)> = world.need_to_load.iter().copied().collect();
    assert_eq!(first, second);
    let mut distinct = second.clone();
    distinct.sort();
    distinct.dedup();
    assert_eq!(distinct.len(), second.len());
}

#[test]
fn collect_around_sorts_the_queue_anew_when_the_observer_turns() {
    let mut world = World::new(1);
    world.collect_around((0, 0, 0), (1024, 0, 0));
    assert_eq!(world.need_to_load[0], (1, 0, 0));
    assert_eq!(world.load_batch(&flat), 30);
    world.collect_around((0, 0, 0), (0, 0, -1024));
    assert_eq!(world.need_to_load.len(), 41 * 41 * 11 - 30);
    assert_eq!(world.need_to_load[0], (0, 0, -1));
    assert!(!queue_contains(&world.need_to_load, (1, 0, 0)));
    // Moving away drops what has left the load distance and keeps the rest.
    world.collect_around((30, 0, 0), (1, 0, 0));
    assert!(queue_contains(&world.need_to_load, (10, 0, 0)));
    assert!(!queue_contains(&world.need_to_load, (9, 0, 0)));
    assert_eq!(world.chunk_state((9, 0, 0)), ChunkState::Unloaded);
    assert_eq!(world.chunk_state((10, 0, 0)), ChunkState::Queued);
}

#[test]
fn load_share_is_seven_tenths_rounded_down() {
    assert_eq!(load_share(0), 0);
    assert_eq!(load_share(1), 0);
    assert_eq!(load_share(2), 1);
    assert_eq!(load_share(9), 6);
    assert_eq!(load_share(10), 7);
    assert_eq!(load_share(16_000_000), 11_200_000);
    assert_eq!(load_share(u128::MAX), u128::MAX / 10 * 7 + 3);
}

#[test]
fn loader_update_without_time_for_loading_loads_nothing() {
    let mut world = World::new(1);
    assert_eq!(world.loader_update(1, (0, 0, 0), (1, 0, 0), &flat), 0);
    assert_eq!(world.need_to_load.len(), 41 * 41 * 11);
    assert_eq!(world.loader_update(1, (0, 0, 0), (1, 0, 0), &flat), 0);
    assert_eq!(world.need_to_load.len(), 41 * 41 * 11);
}

#[test]
fn collect_around_stops_at_the_edge_of_the_world() {
    let mut world = World::new(1);
    world.collect_around((MAX_CHUNK_COORD, 0, 0), (1, 0, 0));
    assert_eq!(world.need_to_load.len(), 21 * 41 * 11);
    assert!(world.need_to_load.iter().all(|&k| is_valid_chunk_coord(k)));
    assert!(is_valid_chunk_coord((MAX_CHUNK_COORD, -MAX_CHUNK_COORD, 0)));
    assert!(!is_valid_chunk_coord((MAX_CHUNK_COORD + 1, 0, 0)));
    assert!(!is_valid_chunk_coord((0, 0, -MAX_CHUNK_COORD - 1)));
}

#[test]
fn loader_update_collects_unloads_and_loads() {
    let mut world = World::new(1);
    world.insert_chunk(Chunk::new_empty((0, 0, 0)));
    world.insert_chunk(Chunk::new_empty((90, 0, 0)));
    let loaded = world.loader_update(0, (0, 0, 0), (1, 0, 0), &flat);
    assert_eq!(loaded, 0);
    assert_eq!(world.need_to_load.len(), 41 * 41 * 11 - 1);
    assert!(world.get_chunk((0, 0, 0)).is_some());
    assert!(world.get_chunk((90 * 32, 0, 0)).is_none());
    assert_eq!(world.dirty_chunks, vec![(0, 0, 0)]);
}

#[test]
fn update_streams_then_meshes() {
    let mut world = World::new(1);
    world.insert_chunk(solid_chunk((0, 0, 0), 2));
    world.insert_chunk(solid_chunk((0, 0, 80), 2));
    let updated = world.update(0, (0, 0, 0), (1, 0, 0), &flat);
    assert_eq!(updated, vec![(0, 0, 0)]);
    assert!(world.dirty_chunks.is_empty());
    assert_eq!(world.get_mesh((0, 0, 0)).unwrap().indices.len(), 36);
    assert!(world.get_mesh((0, 0, 80)).is_none());
    assert!(world.get_chunk((0, 0, 80 * 32)).is_none());
}

#[test]
fn world_face_exposure_looks_one_step_along_the_direction() {
    let mut world = World::new(1);
    let mut chunk = Chunk::new_empty((0, 0, 0));
    chunk.blocks[Chunk::index(5, 5, 5)] = Block::from_id(1);
    world.insert_chunk(chunk);
    assert!(!world.is_face_exposed((4, 5, 5), (1, 0, 0)));
    assert!(world.is_face_exposed((5, 5, 5), (1, 0, 0)));
    assert!(world.is_face_exposed((0, 5, 5), (-1, 0, 0)));
    assert!(world.is_face_exposed((i64::MAX, 0, 0), (1, 0, 0)));
    let mut hidden = solid_chunk((1, 0, 0), 1);
    hidden.is_rendered = false;
    world.insert_chunk(hidden);
    assert!(world.is_face_exposed((31, 0, 0), (1, 0, 0)));
}

#[test]
fn a_coordinate_goes_through_its_states() {
    let mut world = World::new(1);
    let key = (1, 0, 0);
    assert_eq!(world.chunk_state(key), ChunkState::Unloaded);
    world.collect_around((0, 0, 0), (1, 0, 0));
    assert_eq!(world.chunk_state(key), ChunkState::Queued);
    assert_eq!(world.chunk_state((21, 0, 0)), ChunkState::Unloaded);
    assert_eq!(world.load_batch(&flat), 30);
    assert_eq!(world.need_to_load.len(), 41 * 41 * 11 - 30);
    assert_eq!(world.chunk_state(key), ChunkState::LoadedDirty);
    world.update_meshes();
    assert_eq!(world.chunk_state(key), ChunkState::LoadedClean);
    world.mark_neighbors_dirty((2, 0, 0));
    assert_eq!(world.chunk_state(key), ChunkState::LoadedDirty);
    assert_eq!(world.chunk_state((2, 0, 0)), ChunkState::LoadedClean);
    world.set_mesh(key, Vec::new(), Vec::new());
    assert_eq!(world.chunk_state(key), ChunkState::LoadedClean);
    assert!(world.get_mesh(key).unwrap().vertices.is_empty());
    world.unload_far((60, 0, 0));
    assert_eq!(world.chunk_state(key), ChunkState::Unloaded);
    assert!(world.get_mesh(key).is_none());
}

#[test]
fn set_mesh_ignores_chunks_that_are_not_loaded() {
    let mut world = World::new(1);
    world.set_mesh((3, 3, 3), Vec::new(), vec![0, 1, 2]);
    assert!(world.get_mesh((3, 3, 3)).is_none());
    world.insert_chunk(Chunk::new_empty((3, 3, 3)));
    world.set_mesh((3, 3, 3), Vec::new(), vec![0, 1, 2]);
    let mesh = world.get_mesh((3, 3, 3)).unwrap();
    assert_eq!(mesh.indices, vec![0, 1, 2]);
    assert_eq!(mesh.index_count, 3);
    assert!(mesh.is_dirty);
    assert!(world.dirty_chunks.is_empty());
    assert!(!world.get_chunk((96, 96, 96)).unwrap().is_dirty);
}

#[test]
fn load_new_stops_between_batches() {
    let mut world = World::new(5);
    for i in 0..100_000 {
        world.need_to_load.push_back((i % 1000, i / 1000, 0));
    }
    let loaded = world.load_new(200_000, &flat);
    assert!(loaded < 100_000);
    assert_eq!(loaded % BATCH_SIZE, 0);
    assert_eq!(world.need_to_load.len(), 100_000 - loaded);
    assert_eq!(world.dirty_chunks.len(), loaded);
    if loaded > 0 {
        assert!(world.get_chunk((0, 0, 0)).is_some());
    }
    let next = world.need_to_load[0];
    assert_eq!(next, ((loaded as i64) % 1000, (loaded as i64) / 1000, 0));
    assert!(world.get_chunk((next.0 * 32, next.1 * 32, 0)).is_none());
}
