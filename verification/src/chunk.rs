//! Chunks: fixed-size cubic regions of the voxel grid.

use vstd::prelude::*;
use crate::block::Block;
use crate::faces::chunk_mesh;
use crate::greedy_mesher::GreedyMesher;
use crate::mesh::Vertex;
use crate::world::World;

verus! {

/// Edge length of a chunk, in blocks.
pub const CHUNK_SIZE: usize = 32;

/// Number of blocks in a chunk.
pub const CHUNK_VOLUME: usize = 32768;

/// Largest magnitude of a chunk coordinate. Within this bound every block of
/// the chunk, and every block next to it, has an absolute coordinate that fits
/// in an `i64`.
pub const MAX_CHUNK_COORD: i64 = 288230376151711742;

/// A coordinate of three signed components: of a chunk, in chunks, or of a
/// block, in blocks.
pub type Coord = (i64, i64, i64);

/// A chunk coordinate whose blocks all have representable absolute coordinates.
pub open spec fn valid_chunk_coord(pos: Coord) -> bool {
    &&& -MAX_CHUNK_COORD <= pos.0 <= MAX_CHUNK_COORD
    &&& -MAX_CHUNK_COORD <= pos.1 <= MAX_CHUNK_COORD
    &&& -MAX_CHUNK_COORD <= pos.2 <= MAX_CHUNK_COORD
}

/// Whether a local coordinate lies inside a chunk.
pub open spec fn in_chunk(x: int, y: int, z: int) -> bool {
    0 <= x < 32 && 0 <= y < 32 && 0 <= z < 32
}

/// The canonical mapping from a local coordinate to its place in the flat
/// block array.
pub open spec fn flat_index(x: int, y: int, z: int) -> int {
    x + y * 32 + z * 1024
}

/// The chunk coordinate that owns the block at an absolute coordinate.
pub open spec fn chunk_coord_of(world_pos: Coord) -> Coord {
    ((world_pos.0 as int / 32) as i64, (world_pos.1 as int / 32) as i64, (world_pos.2 as int / 32) as i64)
}

/// The place inside its chunk of the block at an absolute coordinate.
pub open spec fn local_coord_of(world_pos: Coord) -> (int, int, int) {
    (world_pos.0 as int % 32, world_pos.1 as int % 32, world_pos.2 as int % 32)
}

/// A cubic grid of blocks with its place in the world and its lifecycle flags.
pub struct Chunk {
    pub blocks: [Block; CHUNK_VOLUME],
    pub pos: Coord,
    pub is_rendered: bool,
    pub is_dirty: bool,
}

impl Chunk {
    /// The block at a local coordinate.
    pub open spec fn block_at(&self, x: int, y: int, z: int) -> Block {
        self.blocks@[flat_index(x, y, z)]
    }

    /// Whether every block of the chunk is air.
    pub open spec fn all_air(&self) -> bool {
        forall|i: int| 0 <= i < CHUNK_VOLUME ==> (#[trigger] self.blocks@[i]).is_air()
    }

    /// A chunk made of air only, to be rendered and not yet meshed.
    pub fn new_empty(pos: Coord) -> (r: Self)
        ensures
            r.pos == pos,
            r.is_rendered,
            r.is_dirty,
            r.all_air(),
    {
        let blocks = [Block::air(); CHUNK_VOLUME];
        Chunk { blocks, pos, is_rendered: true, is_dirty: true }
    }

    /// A chunk whose blocks come from a terrain generator, called once with
    /// the chunk coordinate and the seed.
    pub fn terrain_gen<G: Fn(Coord, u32) -> [Block; CHUNK_VOLUME]>(
        world_pos: Coord,
        seed: u32,
        generate: &G,
    ) -> (r: Self)
        requires
            generate.requires((world_pos, seed)),
        ensures
            r.pos == world_pos,
            r.is_rendered,
            r.is_dirty,
            generate.ensures((world_pos, seed), r.blocks),
    {
        let blocks = generate(world_pos, seed);
        Chunk { blocks, pos: world_pos, is_rendered: true, is_dirty: true }
    }

    /// The geometry of the chunk, in absolute coordinates. A chunk that is
    /// not rendered has none, wherever it stands. The chunk itself is not
    /// changed.
    pub fn generate_mesh(&self, world: &World) -> (r: (Vec<Vertex>, Vec<u32>))
        requires
            self.is_rendered ==> valid_chunk_coord(self.pos),
        ensures
            r.0@ == chunk_mesh(*self, world.chunks@).0,
            r.1@ == chunk_mesh(*self, world.chunks@).1,
            r.1@.len() <= u32::MAX,
    {
        if !self.is_rendered {
            return (Vec::new(), Vec::new());
        }
        let (mut vertices, indices) = GreedyMesher::build_mesh(self, world);
        let ghost local = vertices@;
        let size: i64 = CHUNK_SIZE as i64;
        let dx: i64 = self.pos.0 * size;
        let dy: i64 = self.pos.1 * size;
        let dz: i64 = self.pos.2 * size;
        let mut i: usize = 0;
        while i < vertices.len()
            invariant
                i <= vertices@.len(),
                vertices@.len() == local.len(),
                valid_chunk_coord(self.pos),
                dx == self.pos.0 * 32,
                dy == self.pos.1 * 32,
                dz == self.pos.2 * 32,
                forall|j: int| 0 <= j < local.len() ==> (#[trigger] local[j]).is_local(),
                forall|j: int| 0 <= j < i ==> vertices@[j] == local[j].translated(dx as int, dy as int, dz as int),
                forall|j: int| i <= j < local.len() ==> vertices@[j] == local[j],
            decreases vertices@.len() - i,
        {
            let v = vertices[i];
            assert(local[i as int].is_local());
            vertices[i] = Vertex::new((v.pos.0 + dx, v.pos.1 + dy, v.pos.2 + dz), v.tex_coord, v.tex_id);
            i += 1;
        }
        proof {
            assert(vertices@ =~= chunk_mesh(*self, world.chunks@).0);
        }
        (vertices, indices)
    }

    /// The flat index of a local coordinate.
    pub fn index(x: usize, y: usize, z: usize) -> (r: usize)
        requires
            x < CHUNK_SIZE,
            y < CHUNK_SIZE,
            z < CHUNK_SIZE,
        ensures
            r == flat_index(x as int, y as int, z as int),
            r < CHUNK_VOLUME,
    {
        x + y * CHUNK_SIZE + z * CHUNK_SIZE * CHUNK_SIZE
    }

    /// The local coordinate of a flat index.
    pub fn from_index(i: usize) -> (r: (usize, usize, usize))
        ensures
            r.0 == i % 32,
            r.1 == (i / 32) % 32,
            r.2 == i / 1024,
            i < CHUNK_VOLUME ==> in_chunk(r.0 as int, r.1 as int, r.2 as int),
            i < CHUNK_VOLUME ==> flat_index(r.0 as int, r.1 as int, r.2 as int) == i,
    {
        (i % CHUNK_SIZE, (i / CHUNK_SIZE) % CHUNK_SIZE, i / (CHUNK_SIZE * CHUNK_SIZE))
    }

    /// The block at a local coordinate.
    pub fn get(&self, x: usize, y: usize, z: usize) -> (r: Block)
        requires
            x < CHUNK_SIZE,
            y < CHUNK_SIZE,
            z < CHUNK_SIZE,
        ensures
            r == self.block_at(x as int, y as int, z as int),
    {
        self.blocks[Self::index(x, y, z)]
    }

    /// The block at an absolute coordinate, taken at its place inside this
    /// chunk: each component is reduced by the Euclidean remainder, so that
    /// negative coordinates wrap to the right place.
    pub fn get_from_world_pos(&self, world_pos: Coord) -> (r: Block)
        ensures
            r == self.block_at(
                local_coord_of(world_pos).0,
                local_coord_of(world_pos).1,
                local_coord_of(world_pos).2,
            ),
            in_chunk(
                local_coord_of(world_pos).0,
                local_coord_of(world_pos).1,
                local_coord_of(world_pos).2,
            ),
    {
        let x = local_component(world_pos.0);
        let y = local_component(world_pos.1);
        let z = local_component(world_pos.2);
        self.get(x, y, z)
    }
}

/// An absolute coordinate splits into a chunk coordinate and a local
/// coordinate inside the chunk, and the two give it back: each component is
/// the chunk component times the chunk size plus the local component.
pub proof fn lemma_world_pos_round_trip(world_pos: Coord)
    ensures
        in_chunk(local_coord_of(world_pos).0, local_coord_of(world_pos).1, local_coord_of(world_pos).2),
        chunk_coord_of(world_pos).0 * 32 + local_coord_of(world_pos).0 == world_pos.0,
        chunk_coord_of(world_pos).1 * 32 + local_coord_of(world_pos).1 == world_pos.1,
        chunk_coord_of(world_pos).2 * 32 + local_coord_of(world_pos).2 == world_pos.2,
{
}

/// The block at a local coordinate of a chunk has one absolute coordinate,
/// which splits into that chunk coordinate and that local coordinate again.
pub proof fn lemma_local_pos_round_trip(key: Coord, x: int, y: int, z: int)
    requires
        valid_chunk_coord(key),
        in_chunk(x, y, z),
    ensures
        chunk_coord_of(((key.0 * 32 + x) as i64, (key.1 * 32 + y) as i64, (key.2 * 32 + z) as i64)) == key,
        local_coord_of(((key.0 * 32 + x) as i64, (key.1 * 32 + y) as i64, (key.2 * 32 + z) as i64)) == (
            x,
            y,
            z,
        ),
{
}

/// A flat index and the local coordinate it stands for give each other
/// back.
pub proof fn lemma_flat_index_round_trip(x: int, y: int, z: int)
    requires
        in_chunk(x, y, z),
    ensures
        0 <= flat_index(x, y, z) < 32768,
        flat_index(x, y, z) % 32 == x,
        (flat_index(x, y, z) / 32) % 32 == y,
        flat_index(x, y, z) / 1024 == z,
{
}

/// The Euclidean remainder of an absolute coordinate by the chunk size.
pub fn local_component(c: i64) -> (r: usize)
    ensures
        r == c as int % 32,
        r < CHUNK_SIZE,
{
    match c.checked_rem_euclid(32) {
        Some(m) => m as usize,
        None => 0,
    }
}

/// The Euclidean quotient of an absolute coordinate by the chunk size.
pub fn chunk_component(c: i64) -> (r: i64)
    ensures
        r == c as int / 32,
        c == r * 32 + c as int % 32,
{
    match c.checked_div_euclid(32) {
        Some(q) => q,
        None => 0,
    }
}

} // verus!
