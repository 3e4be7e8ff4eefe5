//! The faces of a chunk: which block sides border open space, and the
//! rectangles that greedy meshing merges them into.

use vstd::prelude::*;
use crate::block::Block;
use crate::chunk::{flat_index, in_chunk, Chunk, Coord};
use crate::mesh::{face_indices, face_vertices, Vertex};
use crate::world::world_block;

verus! {

/// The unit step of a face direction. Directions are numbered
/// `+x, -x, +y, -y, +z, -z`.
pub open spec fn normal_of(dir: int) -> (int, int, int) {
    if dir == 0 {
        (1, 0, 0)
    } else if dir == 1 {
        (-1, 0, 0)
    } else if dir == 2 {
        (0, 1, 0)
    } else if dir == 3 {
        (0, -1, 0)
    } else if dir == 4 {
        (0, 0, 1)
    } else {
        (0, 0, -1)
    }
}

/// The place of one face in the exposure cache: the direction, within the
/// six faces of the block at the canonical flat index.
pub open spec fn face_slot(x: int, y: int, z: int, dir: int) -> int {
    dir + 6 * flat_index(x, y, z)
}

/// Whether the side of the block at `(x, y, z)` that looks in direction
/// `dir` borders open space. The cell one step along the direction decides:
/// inside the chunk, it must be air; across the chunk boundary, the world is
/// asked at the absolute coordinate, and a cell whose chunk is not loaded
/// counts as open.
pub open spec fn face_exposed(
    chunk: Chunk,
    chunks: Map<Coord, Chunk>,
    x: int,
    y: int,
    z: int,
    dir: int,
) -> bool {
    let n = normal_of(dir);
    let nx = x + n.0;
    let ny = y + n.1;
    let nz = z + n.2;
    if in_chunk(nx, ny, nz) {
        chunk.block_at(nx, ny, nz).is_air()
    } else {
        match world_block(
            chunks,
            ((chunk.pos.0 * 32 + nx) as i64, (chunk.pos.1 * 32 + ny) as i64, (chunk.pos.2 * 32 + nz) as i64),
        ) {
            Some(b) => b.is_air(),
            None => true,
        }
    }
}

/// The exposure of every face of a chunk, laid out by `face_slot`.
pub open spec fn exposure(chunk: Chunk, chunks: Map<Coord, Chunk>) -> Seq<bool> {
    Seq::new(
        196608,
        |i: int| face_exposed(chunk, chunks, (i / 6) % 32, ((i / 6) / 32) % 32, (i / 6) / 1024, i % 6),
    )
}

/// What meshing reads of a chunk: its blocks, in flat order, and the
/// exposure of their faces, laid out by `face_slot`.
pub struct FaceGrid {
    pub blocks: Seq<Block>,
    pub exposed: Seq<bool>,
}

/// The faces of a chunk inside a world.
pub open spec fn chunk_faces(chunk: Chunk, chunks: Map<Coord, Chunk>) -> FaceGrid {
    FaceGrid { blocks: chunk.blocks@, exposed: exposure(chunk, chunks) }
}

/// The cell at row `u`, column `v` of the slice at `depth`, seen along
/// direction `dir`. The depth runs along the direction's axis and the slice
/// is spanned by the two other axes, in ascending order.
pub open spec fn cell_of(dir: int, depth: int, u: int, v: int) -> (int, int, int) {
    if dir < 2 {
        (depth, u, v)
    } else if dir < 4 {
        (u, depth, v)
    } else {
        (u, v, depth)
    }
}

/// The position of a cell in the order in which a sweep scans a direction:
/// slice by slice, row by row within a slice.
pub open spec fn scan_rank(depth: int, u: int, v: int) -> int {
    depth * 1024 + u * 32 + v
}

impl FaceGrid {
    /// The block at a cell of a slice.
    pub open spec fn block(self, dir: int, depth: int, u: int, v: int) -> Block {
        let c = cell_of(dir, depth, u, v);
        self.blocks[flat_index(c.0, c.1, c.2)]
    }

    /// Whether the cell holds a block whose face in direction `dir` must be
    /// drawn: the block is not air and the face is exposed.
    pub open spec fn visible(self, dir: int, depth: int, u: int, v: int) -> bool {
        let c = cell_of(dir, depth, u, v);
        !self.block(dir, depth, u, v).is_air() && self.exposed[face_slot(c.0, c.1, c.2, dir)]
    }
}

/// A rectangle of merged faces: `width` rows from row `u` and `height`
/// columns from column `v` of the slice at `depth`, all of one block, looking
/// in direction `dir`.
#[derive(Debug, Clone, Copy, PartialEq, Eq)]
pub struct Quad {
    pub dir: usize,
    pub depth: usize,
    pub u: usize,
    pub v: usize,
    pub width: usize,
    pub height: usize,
    pub block: Block,
}

impl Quad {
    /// A rectangle that is not empty and lies inside its slice.
    pub open spec fn wf(self) -> bool {
        &&& self.dir < 6
        &&& self.depth < 32
        &&& 1 <= self.width
        &&& 1 <= self.height
        &&& self.u + self.width <= 32
        &&& self.v + self.height <= 32
    }

    /// Whether the rectangle contains a cell.
    pub open spec fn covers(self, depth: int, u: int, v: int) -> bool {
        &&& depth == self.depth
        &&& self.u <= u < self.u + self.width
        &&& self.v <= v < self.v + self.height
    }

    /// The four corners of the rectangle, in chunk-local lattice coordinates.
    pub open spec fn vertices(self) -> Seq<Vertex> {
        let c = cell_of(self.dir as int, self.depth as int, self.u as int, self.v as int);
        face_vertices(c.0, c.1, c.2, self.dir as int, self.block.id as u32, self.width as int, self.height as int)
    }
}

/// Whether one of the rectangles contains a cell.
pub open spec fn covered_by(quads: Seq<Quad>, depth: int, u: int, v: int) -> bool {
    exists|j: int| 0 <= j < quads.len() && (#[trigger] quads[j]).covers(depth, u, v)
}

/// Whether a cell still waits for a rectangle: its face must be drawn and
/// none of the rectangles contains it.
pub open spec fn face_free(grid: FaceGrid, dir: int, quads: Seq<Quad>, depth: int, u: int, v: int) -> bool {
    in_chunk(depth, u, v) && grid.visible(dir, depth, u, v) && !covered_by(quads, depth, u, v)
}

/// Whether a cell can join a rectangle of the given block: it waits for a
/// rectangle and holds the same block.
pub open spec fn face_joins(
    grid: FaceGrid,
    dir: int,
    quads: Seq<Quad>,
    block: Block,
    depth: int,
    u: int,
    v: int,
) -> bool {
    face_free(grid, dir, quads, depth, u, v) && grid.block(dir, depth, u, v) == block
}

/// Whether `q` is the rectangle that a greedy sweep emits after the
/// rectangles `before`:
/// it starts at the first cell in scan order that still waits for a
/// rectangle; it grows row by row for as long as the next row's first cell
/// can join; then it grows column by column for as long as every cell of the
/// next column, over the rows taken, can join.
pub open spec fn greedy_step(grid: FaceGrid, dir: int, before: Seq<Quad>, q: Quad) -> bool {
    &&& q.dir == dir
    &&& q.wf()
    &&& q.block == grid.block(dir, q.depth as int, q.u as int, q.v as int)
    &&& face_free(grid, dir, before, q.depth as int, q.u as int, q.v as int)
    &&& forall|d: int, u: int, v: int|
        in_chunk(d, u, v) && scan_rank(d, u, v) < scan_rank(q.depth as int, q.u as int, q.v as int)
            ==> !#[trigger] face_free(grid, dir, before, d, u, v)
    &&& forall|u: int|
        q.u <= u < q.u + q.width ==> #[trigger] face_joins(grid, dir, before, q.block, q.depth as int, u, q.v as int)
    &&& q.u + q.width < 32 ==> !face_joins(
        grid,
        dir,
        before,
        q.block,
        q.depth as int,
        q.u + q.width,
        q.v as int,
    )
    &&& forall|u: int, v: int|
        q.u <= u < q.u + q.width && q.v <= v < q.v + q.height ==> #[trigger] face_joins(
            grid,
            dir,
            before,
            q.block,
            q.depth as int,
            u,
            v,
        )
    &&& q.v + q.height < 32 ==> exists|u: int|
        q.u <= u < q.u + q.width && !#[trigger] face_joins(
            grid,
            dir,
            before,
            q.block,
            q.depth as int,
            u,
            q.v + q.height,
        )
}

/// Whether every rectangle of the list is the greedy step after the ones
/// before it.
pub open spec fn greedy_prefix(grid: FaceGrid, dir: int, quads: Seq<Quad>) -> bool {
    forall|k: int| 0 <= k < quads.len() ==> greedy_step(grid, dir, quads.take(k), #[trigger] quads[k])
}

/// Whether `quads` is the greedy sweep of one direction: each rectangle is
/// the greedy step after the ones before it, and no face is left waiting.
pub open spec fn is_sweep(grid: FaceGrid, dir: int, quads: Seq<Quad>) -> bool {
    &&& greedy_prefix(grid, dir, quads)
    &&& forall|d: int, u: int, v: int| !#[trigger] face_free(grid, dir, quads, d, u, v)
}

/// The greedy sweep of one direction over the given faces.
pub open spec fn sweep_of(grid: FaceGrid, dir: int) -> Seq<Quad> {
    choose|quads: Seq<Quad>| is_sweep(grid, dir, quads)
}

/// The sweeps of the first `n` directions, one after the other.
pub open spec fn sweeps_upto(grid: FaceGrid, n: int) -> Seq<Quad>
    decreases n,
{
    if n <= 0 {
        Seq::empty()
    } else {
        sweeps_upto(grid, n - 1) + sweep_of(grid, n - 1)
    }
}

/// The rectangles of a greedy mesh: the sweeps of the six directions, in the
/// order of the directions.
pub open spec fn greedy_quads(grid: FaceGrid) -> Seq<Quad> {
    sweeps_upto(grid, 6)
}

/// The vertex list of a list of rectangles: four corners for each.
pub open spec fn quads_vertices(quads: Seq<Quad>) -> Seq<Vertex> {
    Seq::new(4 * quads.len(), |i: int| quads[i / 4].vertices()[i % 4])
}

/// The geometry of a chunk inside a world: nothing for a chunk that is not
/// rendered; otherwise the corners of its greedy mesh, moved from
/// chunk-local to absolute coordinates by the chunk coordinate times the
/// chunk size, and the triangles over them.
pub open spec fn chunk_mesh(chunk: Chunk, chunks: Map<Coord, Chunk>) -> (Seq<Vertex>, Seq<u32>) {
    if !chunk.is_rendered {
        (Seq::empty(), Seq::empty())
    } else {
        let quads = greedy_quads(chunk_faces(chunk, chunks));
        (
            quads_vertices(quads).map_values(
                |v: Vertex| v.translated(chunk.pos.0 * 32, chunk.pos.1 * 32, chunk.pos.2 * 32),
            ),
            quads_indices(quads),
        )
    }
}

/// The index list of a list of rectangles: two triangles for each, over the
/// rectangle's own four corners in the vertex list.
pub open spec fn quads_indices(quads: Seq<Quad>) -> Seq<u32> {
    Seq::new(6 * quads.len(), |i: int| (4 * (i / 6) + face_indices()[i % 6]) as u32)
}

} // verus!
