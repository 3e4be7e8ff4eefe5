use rustcraft::bitset::BitSet;
use rustcraft::block::Block;
use rustcraft::chunk::{Chunk, CHUNK_VOLUME};
use rustcraft::faces::Quad;
use rustcraft::greedy_mesher::{direction_normal, face_index, get_block, GreedyMesher};
use rustcraft::mesh::{generate_face, Mesh, Vertex};
use rustcraft::world::World;

fn solid_chunk(pos: (i64, i64, i64), id: u16) -> Chunk {
    let mut chunk = Chunk::new_empty(pos);
    for i in 0..CHUNK_VOLUME {
        chunk.blocks[i] = Block::from_id(id);
    }
    chunk
}

fn vertex(x: i64, y: i64, z: i64, u: u32, v: u32, id: u32) -> Vertex {
    Vertex { pos: (x, y, z), tex_coord: (u, v), tex_id: id }
}

fn faces_of(quads: &[Quad]) -> Vec<(usize, usize, usize, usize, u16)> {
    let mut faces = Vec::new();
    for q in quads {
        for u in q.u..q.u + q.width {
            for v in q.v..q.v + q.height {
                faces.push((q.dir, q.depth, u, v, q.block.id));
            }
        }
    }
    faces.sort();
    faces
}

#[test]
fn solid_chunk_alone_has_six_full_quads() {
    let world = World::new(1);
    let chunk = solid_chunk((0, 0, 0), 7);
    let quads = GreedyMesher::build_quads(&chunk, &world);
    assert_eq!(quads.len(), 6);
    let depths = [31, 0, 31, 0, 31, 0];
    for dir in 0..6 {
        assert_eq!(
            quads[dir],
            Quad { dir, depth: depths[dir], u: 0, v: 0, width: 32, height: 32, block: Block::from_id(7) }
        );
    }
    let (vertices, indices) = GreedyMesher::build_mesh(&chunk, &world);
    assert_eq!(vertices.len(), 24);
    assert_eq!(indices.len(), 36);
    assert_eq!(
        &vertices[0..4],
        &[
            vertex(32, 0, 0, 0, 32, 7),
            vertex(32, 32, 0, 32, 32, 7),
            vertex(32, 32, 32, 32, 0, 7),
            vertex(32, 0, 32, 0, 0, 7)
        ]
    );
    assert_eq!(&indices[0..12], &[0, 1, 2, 2, 3, 0, 4, 5, 6, 6, 7, 4]);
    assert_eq!(&indices[30..36], &[20, 21, 22, 22, 23, 20]);
}

#[test]
fn empty_chunk_has_no_geometry() {
    let world = World::new(1);
    let chunk = Chunk::new_empty((3, -2, 1));
    assert!(GreedyMesher::is_only_air_fast(&chunk));
    assert!(GreedyMesher::is_only_air(&chunk));
    assert!(GreedyMesher::build_quads(&chunk, &world).is_empty());
    let (vertices, indices) = chunk.generate_mesh(&world);
    assert!(vertices.is_empty());
    assert!(indices.is_empty());
}

#[test]
fn hollow_shell_with_air_corners_is_not_rejected() {
    let world = World::new(1);
    let mut chunk = Chunk::new_empty((0, 0, 0));
    chunk.blocks[Chunk::index(10, 11, 12)] = Block::from_id(4);
    assert!(GreedyMesher::is_only_air_fast(&chunk));
    assert!(!GreedyMesher::is_only_air(&chunk));
    let quads = GreedyMesher::build_quads(&chunk, &world);
    assert_eq!(quads.len(), 6);
    assert_eq!(quads[0], Quad { dir: 0, depth: 10, u: 11, v: 12, width: 1, height: 1, block: Block::from_id(4) });
    assert_eq!(quads[2], Quad { dir: 2, depth: 11, u: 10, v: 12, width: 1, height: 1, block: Block::from_id(4) });
    assert_eq!(quads[5], Quad { dir: 5, depth: 12, u: 10, v: 11, width: 1, height: 1, block: Block::from_id(4) });
}

#[test]
fn corner_test_sees_a_solid_corner() {
    let mut chunk = Chunk::new_empty((0, 0, 0));
    chunk.blocks[Chunk::index(31, 0, 31)] = Block::from_id(1);
    assert!(!GreedyMesher::is_only_air_fast(&chunk));
    assert!(!GreedyMesher::is_only_air(&chunk));
}

#[test]
fn shared_face_between_solid_neighbours_is_not_emitted() {
    let mut world = World::new(1);
    world.insert_chunk(solid_chunk((0, 0, 0), 3));
    world.insert_chunk(solid_chunk((1, 0, 0), 3));
    let left = world.get_chunk((0, 0, 0)).unwrap();
    let right = world.get_chunk((32, 0, 0)).unwrap();
    assert_eq!(left.pos, (0, 0, 0));
    assert_eq!(right.pos, (1, 0, 0));
    let left_quads = GreedyMesher::build_quads(left, &world);
    let right_quads = GreedyMesher::build_quads(right, &world);
    assert_eq!(left_quads.len(), 5);
    assert_eq!(right_quads.len(), 5);
    assert!(left_quads.iter().all(|q| q.dir != 0));
    assert!(right_quads.iter().all(|q| q.dir != 1));
    assert!(right_quads.iter().any(|q| q.dir == 0 && q.depth == 31 && q.width == 32 && q.height == 32));
    assert!(left_quads.iter().any(|q| q.dir == 1 && q.depth == 0 && q.width == 32 && q.height == 32));
}

#[test]
fn boundary_face_follows_the_neighbour_chunk() {
    let mut world = World::new(1);
    let chunk = solid_chunk((0, 0, 0), 3);
    assert!(GreedyMesher::is_face_exposed(&world, &chunk, 31, 4, 5, 0));
    assert!(!GreedyMesher::is_face_exposed(&world, &chunk, 30, 4, 5, 0));
    let mut neighbour = Chunk::new_empty((1, 0, 0));
    neighbour.blocks[Chunk::index(0, 4, 5)] = Block::from_id(9);
    world.insert_chunk(neighbour);
    assert!(!GreedyMesher::is_face_exposed(&world, &chunk, 31, 4, 5, 0));
    assert!(GreedyMesher::is_face_exposed(&world, &chunk, 31, 4, 6, 0));
    assert!(GreedyMesher::is_face_exposed(&world, &chunk, 0, 4, 5, 1));
}

#[test]
fn boundary_faces_on_negative_side_wrap_correctly() {
    let mut world = World::new(1);
    let chunk = solid_chunk((-3, 2, -1), 3);
    let mut below = Chunk::new_empty((-3, 2, -2));
    below.blocks[Chunk::index(6, 7, 31)] = Block::from_id(2);
    world.insert_chunk(below);
    assert!(!GreedyMesher::is_face_exposed(&world, &chunk, 6, 7, 0, 5));
    assert!(GreedyMesher::is_face_exposed(&world, &chunk, 7, 7, 0, 5));
    assert!(GreedyMesher::is_face_exposed_new(&world, (-90, 71, -34)));
    assert!(!GreedyMesher::is_face_exposed_new(&world, (-90, 71, -33)));
    assert!(GreedyMesher::is_face_exposed_new(&world, (1000, 1000, 1000)));
}

#[test]
fn exposure_cache_matches_direct_queries() {
    let mut world = World::new(1);
    let mut chunk = Chunk::new_empty((0, 0, 0));
    for x in 0..32 {
        for y in 0..32 {
            for z in 0..32 {
                if (x * 7 + y * 3 + z * 5) % 4 != 0 {
                    chunk.blocks[Chunk::index(x, y, z)] = Block::from_id(1 + ((x + y + z) % 3) as u16);
                }
            }
        }
    }
    world.insert_chunk(solid_chunk((0, 1, 0), 2));
    let cache = GreedyMesher::build_exposed_cache(&chunk, &world);
    for x in 0..32 {
        for y in 0..32 {
            for z in 0..32 {
                for dir in 0..6 {
                    assert_eq!(
                        cache.get(face_index(x, y, z, dir)),
                        GreedyMesher::is_face_exposed(&world, &chunk, x, y, z, dir)
                    );
                }
            }
        }
    }
}

#[test]
fn face_index_is_direction_within_flat_index() {
    assert_eq!(face_index(0, 0, 0, 0), 0);
    assert_eq!(face_index(0, 0, 0, 5), 5);
    assert_eq!(face_index(1, 0, 0, 0), 6);
    assert_eq!(face_index(3, 4, 5, 2), 2 + 6 * (3 + 4 * 32 + 5 * 1024));
    assert_eq!(face_index(31, 31, 31, 5), 6 * CHUNK_VOLUME - 1);
}

#[test]
fn directions_and_positions() {
    assert_eq!(direction_normal(0), (1, 0, 0));
    assert_eq!(direction_normal(1), (-1, 0, 0));
    assert_eq!(direction_normal(2), (0, 1, 0));
    assert_eq!(direction_normal(3), (0, -1, 0));
    assert_eq!(direction_normal(4), (0, 0, 1));
    assert_eq!(direction_normal(5), (0, 0, -1));
    assert_eq!(GreedyMesher::get_position(0, 1, 2, 3), (1, 2, 3));
    assert_eq!(GreedyMesher::get_position(1, 1, 2, 3), (1, 2, 3));
    assert_eq!(GreedyMesher::get_position(2, 1, 2, 3), (2, 1, 3));
    assert_eq!(GreedyMesher::get_position(3, 1, 2, 3), (2, 1, 3));
    assert_eq!(GreedyMesher::get_position(4, 1, 2, 3), (2, 3, 1));
    assert_eq!(GreedyMesher::get_position(5, 1, 2, 3), (2, 3, 1));
    let chunk = solid_chunk((0, 0, 0), 8);
    assert_eq!(get_block(&chunk, 1, 2, 3).id, 8);
}

#[test]
fn greedy_growth_stops_at_other_blocks() {
    let world = World::new(1);
    let mut chunk = Chunk::new_empty((0, 0, 0));
    // In the slice z = 0, seen from above: rows u = x, columns v = y.
    for x in 0..3 {
        for y in 0..2 {
            chunk.blocks[Chunk::index(x, y, 0)] = Block::from_id(1);
        }
    }
    chunk.blocks[Chunk::index(3, 0, 0)] = Block::from_id(2);
    chunk.blocks[Chunk::index(0, 2, 0)] = Block::from_id(1);
    let cache = GreedyMesher::build_exposed_cache(&chunk, &world);
    let top = GreedyMesher::greedy_mesh_direction(&chunk, 4, &cache);
    assert_eq!(
        top,
        vec![
            Quad { dir: 4, depth: 0, u: 0, v: 0, width: 3, height: 2, block: Block::from_id(1) },
            Quad { dir: 4, depth: 0, u: 0, v: 2, width: 1, height: 1, block: Block::from_id(1) },
            Quad { dir: 4, depth: 0, u: 3, v: 0, width: 1, height: 1, block: Block::from_id(2) },
        ]
    );
    let visited = BitSet::new(CHUNK_VOLUME);
    assert_eq!(GreedyMesher::find_quad(&chunk, 0, 0, 0, Block::from_id(1), 4, &visited, &cache), (3, 2));
    assert_eq!(GreedyMesher::find_quad(&chunk, 0, 1, 1, Block::from_id(1), 4, &visited, &cache), (2, 1));
    assert_eq!(GreedyMesher::find_quad(&chunk, 0, 3, 0, Block::from_id(2), 4, &visited, &cache), (1, 1));
    let mut seen = BitSet::new(CHUNK_VOLUME);
    seen.set(2 * 32);
    assert_eq!(GreedyMesher::find_quad(&chunk, 0, 0, 0, Block::from_id(1), 4, &seen, &cache), (2, 2));
}

#[test]
fn greedy_growth_takes_width_before_height() {
    let world = World::new(1);
    let mut chunk = Chunk::new_empty((0, 0, 0));
    // An L: rows 0..4 in column 0, and row 0 in columns 0..4.
    for i in 0..4 {
        chunk.blocks[Chunk::index(i, 0, 5)] = Block::from_id(1);
        chunk.blocks[Chunk::index(0, i, 5)] = Block::from_id(1);
    }
    let cache = GreedyMesher::build_exposed_cache(&chunk, &world);
    let top = GreedyMesher::greedy_mesh_direction(&chunk, 4, &cache);
    assert_eq!(
        top,
        vec![
            Quad { dir: 4, depth: 5, u: 0, v: 0, width: 4, height: 1, block: Block::from_id(1) },
            Quad { dir: 4, depth: 5, u: 0, v: 1, width: 1, height: 3, block: Block::from_id(1) },
        ]
    );
}

#[test]
fn uniform_exposed_slice_is_one_quad_per_open_direction() {
    let world = World::new(1);
    let mut chunk = Chunk::new_empty((0, 0, 0));
    for x in 0..32 {
        for y in 0..32 {
            chunk.blocks[Chunk::index(x, y, 9)] = Block::from_id(6);
        }
    }
    let quads = GreedyMesher::build_quads(&chunk, &world);
    let up: Vec<&Quad> = quads.iter().filter(|q| q.dir == 4).collect();
    let down: Vec<&Quad> = quads.iter().filter(|q| q.dir == 5).collect();
    assert_eq!(up, vec![&Quad { dir: 4, depth: 9, u: 0, v: 0, width: 32, height: 32, block: Block::from_id(6) }]);
    assert_eq!(down, vec![&Quad { dir: 5, depth: 9, u: 0, v: 0, width: 32, height: 32, block: Block::from_id(6) }]);
    // Each of the four sides of the slab is one strip.
    assert_eq!(quads.len(), 6);
    assert_eq!(quads[0], Quad { dir: 0, depth: 31, u: 0, v: 9, width: 32, height: 1, block: Block::from_id(6) });
}

#[test]
fn quads_cover_every_visible_face_exactly_once() {
    let mut world = World::new(1);
    let mut chunk = Chunk::new_empty((2, 0, -1));
    for x in 0..32 {
        for y in 0..32 {
            for z in 0..32 {
                if (x * x + 3 * y + z * 5) % 7 < 4 {
                    chunk.blocks[Chunk::index(x, y, z)] = Block::from_id(1 + ((x / 3 + y / 5 + z) % 3) as u16);
                }
            }
        }
    }
    world.insert_chunk(solid_chunk((3, 0, -1), 2));
    let quads = GreedyMesher::build_quads(&chunk, &world);
    let mut expected = Vec::new();
    for dir in 0..6 {
        for depth in 0..32 {
            for u in 0..32 {
                for v in 0..32 {
                    let (x, y, z) = GreedyMesher::get_position(dir, depth, u, v);
                    let block = chunk.get(x, y, z);
                    if !block.is_transpose() && GreedyMesher::is_face_exposed(&world, &chunk, x, y, z, dir) {
                        expected.push((dir, depth, u, v, block.id));
                    }
                }
            }
        }
    }
    expected.sort();
    assert!(!expected.is_empty());
    assert_eq!(faces_of(&quads), expected);
    let area: usize = quads.iter().map(|q| q.width * q.height).sum();
    assert_eq!(area, expected.len());
}

#[test]
fn remeshing_unchanged_blocks_gives_the_same_mesh() {
    let mut world = World::new(1);
    let mut chunk = Chunk::new_empty((0, 0, 0));
    for i in 0..CHUNK_VOLUME {
        if i % 3 != 0 {
            chunk.blocks[i] = Block::from_id((i % 5) as u16);
        }
    }
    world.insert_chunk(chunk);
    world.insert_chunk(solid_chunk((0, 0, 1), 1));
    let first = world.get_chunk((0, 0, 0)).unwrap().generate_mesh(&world);
    let updated = world.update_meshes();
    assert_eq!(updated.len(), 2);
    let second = world.get_chunk((0, 0, 0)).unwrap().generate_mesh(&world);
    assert_eq!(first, second);
    let stored = world.get_mesh((0, 0, 0)).unwrap();
    assert_eq!(stored.vertices, first.0);
    assert_eq!(stored.indices, first.1);
}

#[test]
fn generate_face_gives_the_corners_of_each_direction() {
    let (v, i) = generate_face((1, 2, 3), 0, 9, 2, 3);
    assert_eq!(v, vec![vertex(2, 2, 3, 0, 3, 9), vertex(2, 4, 3, 2, 3, 9), vertex(2, 4, 6, 2, 0, 9), vertex(2, 2, 6, 0, 0, 9)]);
    assert_eq!(i, vec![0, 1, 2, 2, 3, 0]);
    let (v, _) = generate_face((1, 2, 3), 1, 9, 2, 3);
    assert_eq!(v, vec![vertex(1, 4, 3, 0, 3, 9), vertex(1, 2, 3, 2, 3, 9), vertex(1, 2, 6, 2, 0, 9), vertex(1, 4, 6, 0, 0, 9)]);
    let (v, _) = generate_face((1, 2, 3), 2, 9, 2, 3);
    assert_eq!(v, vec![vertex(3, 3, 3, 2, 3, 9), vertex(1, 3, 3, 0, 3, 9), vertex(1, 3, 6, 0, 0, 9), vertex(3, 3, 6, 2, 0, 9)]);
    let (v, _) = generate_face((1, 2, 3), 3, 9, 2, 3);
    assert_eq!(v, vec![vertex(3, 2, 6, 2, 0, 9), vertex(1, 2, 6, 0, 0, 9), vertex(1, 2, 3, 0, 3, 9), vertex(3, 2, 3, 2, 3, 9)]);
    let (v, _) = generate_face((1, 2, 3), 4, 9, 2, 3);
    assert_eq!(v, vec![vertex(1, 2, 4, 2, 0, 9), vertex(3, 2, 4, 0, 0, 9), vertex(3, 5, 4, 0, 3, 9), vertex(1, 5, 4, 2, 3, 9)]);
    let (v, _) = generate_face((1, 2, 3), 5, 9, 2, 3);
    assert_eq!(v, vec![vertex(3, 2, 3, 2, 0, 9), vertex(1, 2, 3, 2, 3, 9), vertex(1, 5, 3, 0, 3, 9), vertex(3, 5, 3, 0, 0, 9)]);
}

#[test]
fn generate_face_of_no_direction_has_no_corners() {
    let (v, i) = generate_face((0, 0, 0), 6, 1, 1, 1);
    assert!(v.is_empty());
    assert_eq!(i, vec![0, 1, 2, 2, 3, 0]);
}

#[test]
fn create_greedy_quad_appends_with_running_offset() {
    let mut vertices = vec![vertex(0, 0, 0, 0, 0, 0); 8];
    let mut indices = vec![0u32; 12];
    let mut offset = 8u32;
    let q = Quad { dir: 5, depth: 4, u: 1, v: 2, width: 3, height: 5, block: Block::from_id(11) };
    GreedyMesher::create_greedy_quad(&q, &mut vertices, &mut indices, &mut offset);
    assert_eq!(offset, 12);
    assert_eq!(vertices.len(), 12);
    assert_eq!(
        &vertices[8..],
        &[vertex(4, 2, 4, 3, 0, 11), vertex(1, 2, 4, 3, 5, 11), vertex(1, 7, 4, 0, 5, 11), vertex(4, 7, 4, 0, 0, 11)]
    );
    assert_eq!(&indices[12..], &[8, 9, 10, 10, 11, 8]);
}

#[test]
fn generate_mesh_moves_vertices_into_the_world() {
    let world = World::new(1);
    let mut chunk = Chunk::new_empty((2, -1, 3));
    chunk.blocks[Chunk::index(0, 0, 0)] = Block::from_id(5);
    let (local, local_indices) = GreedyMesher::build_mesh(&chunk, &world);
    let (moved, indices) = chunk.generate_mesh(&world);
    assert_eq!(local.len(), 24);
    assert_eq!(indices, local_indices);
    for (a, b) in local.iter().zip(moved.iter()) {
        assert_eq!(b.pos, (a.pos.0 + 64, a.pos.1 - 32, a.pos.2 + 96));
        assert_eq!(b.tex_coord, a.tex_coord);
        assert_eq!(b.tex_id, 5);
    }
    assert_eq!(moved[0], vertex(65, -32, 96, 0, 1, 5));
}

#[test]
fn chunk_that_is_not_rendered_has_no_mesh() {
    let world = World::new(1);
    let mut chunk = solid_chunk((0, 0, 0), 1);
    chunk.is_rendered = false;
    let (vertices, indices) = chunk.generate_mesh(&world);
    assert!(vertices.is_empty());
    assert!(indices.is_empty());
    assert!(chunk.is_dirty);
}

#[test]
fn mesh_counts_its_indices() {
    let mut mesh = Mesh::new(vec![vertex(0, 0, 0, 0, 0, 1); 4], vec![0, 1, 2, 2, 3, 0]);
    assert_eq!(mesh.index_count, 6);
    assert!(mesh.is_dirty);
    mesh.is_dirty = false;
    mesh.update(vec![vertex(1, 1, 1, 0, 0, 2); 8], vec![0, 1, 2, 2, 3, 0, 4, 5, 6, 6, 7, 4]);
    assert_eq!(mesh.index_count, 12);
    assert_eq!(mesh.vertices.len(), 8);
    assert_eq!(mesh.vertices[0].tex_id, 2);
    assert!(mesh.is_dirty);
    assert_eq!(Vertex::new((1, 2, 3), (4, 5), 6), vertex(1, 2, 3, 4, 5, 6));
}
