//! Greedy meshing: the visible faces of a chunk, merged into rectangles.

use vstd::prelude::*;
use crate::bitset::BitSet;
use crate::block::Block;
use crate::chunk::{flat_index, in_chunk, valid_chunk_coord, Chunk, CHUNK_SIZE, CHUNK_VOLUME, Coord};
use crate::faces::{
    cell_of, chunk_faces, covered_by, exposure, face_exposed, face_free, face_joins, face_slot,
    greedy_prefix, greedy_quads, greedy_step, is_sweep, normal_of, quads_indices, quads_vertices,
    scan_rank, sweep_of, sweeps_upto, FaceGrid, Quad,
};
use crate::mesh::{face_indices, generate_face, Vertex};
use crate::sweep_laws::{
    lemma_covered_push, lemma_prefix_push, lemma_scan_rank_injective, lemma_sweep_unique,
};
use crate::world::World;

verus! {

/// The unit step of a face direction.
pub fn direction_normal(dir: usize) -> (r: Coord)
    requires
        dir < 6,
    ensures
        (r.0 as int, r.1 as int, r.2 as int) == normal_of(dir as int),
{
    if dir == 0 {
        (1, 0, 0)
    } else if dir == 1 {
        (-1, 0, 0)
    } else if dir == 2 {
        (0, 1, 0)
    } else if dir == 3 {
        (0, -1, 0)
    } else if dir == 4 {
        (0, 0, 1)
    } else {
        (0, 0, -1)
    }
}

/// The place of a face in the exposure cache.
pub fn face_index(x: usize, y: usize, z: usize, dir: usize) -> (r: usize)
    requires
        x < CHUNK_SIZE,
        y < CHUNK_SIZE,
        z < CHUNK_SIZE,
        dir < 6,
    ensures
        r == face_slot(x as int, y as int, z as int, dir as int),
        r < 6 * CHUNK_VOLUME,
{
    dir + 6 * Chunk::index(x, y, z)
}

/// The block of a chunk at a local coordinate.
pub fn get_block(chunk: &Chunk, x: usize, y: usize, z: usize) -> (r: Block)
    requires
        x < CHUNK_SIZE,
        y < CHUNK_SIZE,
        z < CHUNK_SIZE,
    ensures
        r == chunk.block_at(x as int, y as int, z as int),
{
    chunk.get(x, y, z)
}

/// A face slot decodes to the coordinate and direction it was made from.
pub proof fn lemma_face_slot_decodes(x: int, y: int, z: int, dir: int)
    requires
        in_chunk(x, y, z),
        0 <= dir < 6,
    ensures
        0 <= face_slot(x, y, z, dir) < 196608,
        face_slot(x, y, z, dir) % 6 == dir,
        (face_slot(x, y, z, dir) / 6) % 32 == x,
        ((face_slot(x, y, z, dir) / 6) / 32) % 32 == y,
        (face_slot(x, y, z, dir) / 6) / 1024 == z,
{
}

/// The faces of a chunk as a sweep reads them: the chunk's blocks, and the
/// exposure of their faces as the cache holds it.
pub open spec fn cached_faces(chunk: Chunk, cache: Seq<bool>) -> FaceGrid {
    FaceGrid { blocks: chunk.blocks@, exposed: cache }
}

/// The flags of a sweep's visited set agree with its rectangles: the flag of
/// a cell, at its scan rank, tells whether a rectangle contains the cell.
pub open spec fn visited_matches(visited: Seq<bool>, quads: Seq<Quad>) -> bool {
    &&& visited.len() == 32768
    &&& forall|d: int, u: int, v: int|
        in_chunk(d, u, v) ==> visited[scan_rank(d, u, v)] == #[trigger] covered_by(quads, d, u, v)
}

/// Whether a cell is ready for a rectangle of the given block during a
/// sweep: not visited yet, holding that block, with its face to be drawn.
pub open spec fn cell_open(
    grid: FaceGrid,
    visited: Seq<bool>,
    dir: int,
    block: Block,
    depth: int,
    u: int,
    v: int,
) -> bool {
    !visited[scan_rank(depth, u, v)] && grid.visible(dir, depth, u, v) && grid.block(dir, depth, u, v)
        == block
}

/// No cell before scan rank `n` still waits for a rectangle.
pub open spec fn scanned(grid: FaceGrid, dir: int, quads: Seq<Quad>, n: int) -> bool {
    forall|d: int, u: int, v: int|
        in_chunk(d, u, v) && scan_rank(d, u, v) < n ==> !#[trigger] face_free(grid, dir, quads, d, u, v)
}

/// During a sweep, a cell is ready for a rectangle exactly when it can join
/// one after the rectangles emitted so far.
pub proof fn lemma_open_is_joins(
    grid: FaceGrid,
    visited: Seq<bool>,
    quads: Seq<Quad>,
    dir: int,
    block: Block,
    d: int,
    u: int,
    v: int,
)
    requires
        visited_matches(visited, quads),
        in_chunk(d, u, v),
    ensures
        cell_open(grid, visited, dir, block, d, u, v) == face_joins(grid, dir, quads, block, d, u, v),
{
    assert(visited[scan_rank(d, u, v)] == covered_by(quads, d, u, v));
}

/// A chunk made of air has no rectangles.
pub proof fn lemma_air_has_no_quads(grid: FaceGrid)
    requires
        grid.blocks.len() == 32768,
        forall|i: int| 0 <= i < 32768 ==> (#[trigger] grid.blocks[i]).is_air(),
    ensures
        greedy_quads(grid) == Seq::<Quad>::empty(),
{
    let none = Seq::<Quad>::empty();
    assert forall|dir: int| #![trigger sweep_of(grid, dir)] 0 <= dir < 6 implies sweep_of(grid, dir) == none by {
        assert forall|d: int, u: int, v: int| !#[trigger] face_free(grid, dir, none, d, u, v) by {
            if in_chunk(d, u, v) {
                let c = cell_of(dir, d, u, v);
                assert(grid.blocks[flat_index(c.0, c.1, c.2)].is_air());
            }
        }
        assert(is_sweep(grid, dir, none));
        lemma_sweep_unique(grid, dir, none, sweep_of(grid, dir));
    }
    reveal_with_fuel(sweeps_upto, 7);
    assert(sweeps_upto(grid, 6) =~= none);
}

/// The meshing engine.
pub struct GreedyMesher;

impl GreedyMesher {
    /// Whether all eight corner blocks of the chunk are air: a cheap test
    /// that every chunk made of air passes.
    pub fn is_only_air_fast(chunk: &Chunk) -> (r: bool)
        ensures
            r == (chunk.block_at(0, 0, 0).is_air() && chunk.block_at(0, 0, 31).is_air()
                && chunk.block_at(0, 31, 0).is_air() && chunk.block_at(0, 31, 31).is_air()
                && chunk.block_at(31, 0, 0).is_air() && chunk.block_at(31, 0, 31).is_air()
                && chunk.block_at(31, 31, 0).is_air() && chunk.block_at(31, 31, 31).is_air()),
            chunk.all_air() ==> r,
    {
        let last: usize = CHUNK_SIZE - 1;
        get_block(chunk, 0, 0, 0).is_transpose() && get_block(chunk, 0, 0, last).is_transpose()
            && get_block(chunk, 0, last, 0).is_transpose() && get_block(chunk, 0, last, last).is_transpose()
            && get_block(chunk, last, 0, 0).is_transpose() && get_block(chunk, last, 0, last).is_transpose()
            && get_block(chunk, last, last, 0).is_transpose() && get_block(
            chunk,
            last,
            last,
            last,
        ).is_transpose()
    }

    /// Whether every block of the chunk is air, by a scan of all of them.
    pub fn is_only_air(chunk: &Chunk) -> (r: bool)
        ensures
            r == chunk.all_air(),
    {
        let mut i: usize = 0;
        while i < CHUNK_VOLUME
            invariant
                i <= CHUNK_VOLUME,
                forall|j: int| 0 <= j < i ==> (#[trigger] chunk.blocks@[j]).is_air(),
            decreases CHUNK_VOLUME - i,
        {
            if !chunk.blocks[i].is_transpose() {
                return false;
            }
            i += 1;
        }
        true
    }

    /// Whether the cell at an absolute coordinate is open: air, or in a
    /// chunk that is not loaded.
    pub fn is_face_exposed_new(world: &World, pos: Coord) -> (r: bool)
        ensures
            r == match crate::world::world_block(world.chunks@, pos) {
                Some(b) => b.is_air(),
                None => true,
            },
    {
        match world.get_chunk(pos) {
            Some(chunk) => chunk.get_from_world_pos(pos).is_transpose(),
            None => true,
        }
    }

    /// Whether the face of the block at `(x, y, z)` that looks in direction
    /// `dir` borders open space.
    pub fn is_face_exposed(world: &World, chunk: &Chunk, x: usize, y: usize, z: usize, dir: usize) -> (r:
        bool)
        requires
            valid_chunk_coord(chunk.pos),
            x < CHUNK_SIZE,
            y < CHUNK_SIZE,
            z < CHUNK_SIZE,
            dir < 6,
        ensures
            r == face_exposed(*chunk, world.chunks@, x as int, y as int, z as int, dir as int),
    {
        let normal = direction_normal(dir);
        let nx: i64 = x as i64 + normal.0;
        let ny: i64 = y as i64 + normal.1;
        let nz: i64 = z as i64 + normal.2;
        let size: i64 = CHUNK_SIZE as i64;
        if nx >= 0 && nx < size && ny >= 0 && ny < size && nz >= 0 && nz < size {
            chunk.get(nx as usize, ny as usize, nz as usize).is_transpose()
        } else {
            let world_pos = (chunk.pos.0 * size + nx, chunk.pos.1 * size + ny, chunk.pos.2 * size + nz);
            Self::is_face_exposed_new(world, world_pos)
        }
    }

    /// The exposure of every face of the chunk, computed once so that the
    /// sweeps need not ask the world again.
    pub fn build_exposed_cache(chunk: &Chunk, world: &World) -> (cache: BitSet)
        requires
            valid_chunk_coord(chunk.pos),
        ensures
            cache@ == exposure(*chunk, world.chunks@),
    {
        let mut cache = BitSet::new(6 * CHUNK_VOLUME);
        let mut i: usize = 0;
        while i < 6 * CHUNK_VOLUME
            invariant
                valid_chunk_coord(chunk.pos),
                i <= 6 * CHUNK_VOLUME,
                cache@.len() == 196608,
                forall|j: int| 0 <= j < i ==> cache@[j] == exposure(*chunk, world.chunks@)[j],
                forall|j: int| i <= j < 196608 ==> !cache@[j],
            decreases 6 * CHUNK_VOLUME - i,
        {
            let dir = i % 6;
            let (x, y, z) = Chunk::from_index(i / 6);
            let exposed = Self::is_face_exposed(world, chunk, x, y, z, dir);
            cache.set_if(face_index(x, y, z, dir), exposed);
            i += 1;
        }
        assert(cache@ =~= exposure(*chunk, world.chunks@));
        cache
    }

    /// The cell at row `u`, column `v` of the slice at `depth`, seen along
    /// direction `dir`.
    pub fn get_position(dir: usize, depth: usize, u: usize, v: usize) -> (r: (usize, usize, usize))
        requires
            dir < 6,
            depth < CHUNK_SIZE,
            u < CHUNK_SIZE,
            v < CHUNK_SIZE,
        ensures
            (r.0 as int, r.1 as int, r.2 as int) == cell_of(dir as int, depth as int, u as int, v as int),
            r.0 < CHUNK_SIZE,
            r.1 < CHUNK_SIZE,
            r.2 < CHUNK_SIZE,
    {
        if dir < 2 {
            (depth, u, v)
        } else if dir < 4 {
            (u, depth, v)
        } else {
            (u, v, depth)
        }
    }

    /// Whether a cell is ready for a rectangle of the target block: not
    /// visited, holding the target block, which is not air, and exposed.
    fn cell_is_open(
        chunk: &Chunk,
        depth: usize,
        u: usize,
        v: usize,
        target_block: Block,
        dir: usize,
        visited: &BitSet,
        exposed_cache: &BitSet,
    ) -> (r: bool)
        requires
            dir < 6,
            depth < CHUNK_SIZE,
            u < CHUNK_SIZE,
            v < CHUNK_SIZE,
            visited@.len() == 32768,
            exposed_cache@.len() == 196608,
        ensures
            r == cell_open(
                cached_faces(*chunk, exposed_cache@),
                visited@,
                dir as int,
                target_block,
                depth as int,
                u as int,
                v as int,
            ),
    {
        if visited.get(depth * 1024 + u * 32 + v) {
            return false;
        }
        let (x, y, z) = Self::get_position(dir, depth, u, v);
        let block = get_block(chunk, x, y, z);
        if block != target_block || block.is_transpose() {
            return false;
        }
        exposed_cache.get(face_index(x, y, z, dir))
    }

    /// The size of the rectangle that grows from a start cell: first along
    /// `u`, one row at a time, while the next row's first cell is ready; then
    /// along `v`, one column at a time, while every cell of the next column,
    /// over the rows taken, is ready. The start cell itself is not examined.
    pub fn find_quad(
        chunk: &Chunk,
        depth: usize,
        start_u: usize,
        start_v: usize,
        target_block: Block,
        dir: usize,
        visited: &BitSet,
        exposed_cache: &BitSet,
    ) -> (r: (usize, usize))
        requires
            dir < 6,
            depth < CHUNK_SIZE,
            start_u < CHUNK_SIZE,
            start_v < CHUNK_SIZE,
            visited@.len() == 32768,
            exposed_cache@.len() == 196608,
        ensures
            1 <= r.0,
            start_u + r.0 <= 32,
            1 <= r.1,
            start_v + r.1 <= 32,
            forall|u: int|
                start_u < u < start_u + r.0 ==> #[trigger] cell_open(
                    cached_faces(*chunk, exposed_cache@),
                    visited@,
                    dir as int,
                    target_block,
                    depth as int,
                    u,
                    start_v as int,
                ),
            start_u + r.0 < 32 ==> !cell_open(
                cached_faces(*chunk, exposed_cache@),
                visited@,
                dir as int,
                target_block,
                depth as int,
                start_u + r.0,
                start_v as int,
            ),
            forall|u: int, v: int|
                start_u <= u < start_u + r.0 && start_v < v < start_v + r.1 ==> #[trigger] cell_open(
                    cached_faces(*chunk, exposed_cache@),
                    visited@,
                    dir as int,
                    target_block,
                    depth as int,
                    u,
                    v,
                ),
            start_v + r.1 < 32 ==> exists|u: int|
                start_u <= u < start_u + r.0 && !#[trigger] cell_open(
                    cached_faces(*chunk, exposed_cache@),
                    visited@,
                    dir as int,
                    target_block,
                    depth as int,
                    u,
                    start_v + r.1,
                ),
    {
        let ghost grid = cached_faces(*chunk, exposed_cache@);
        let mut quad_width: usize = 1;
        let mut growing = true;
        while growing && start_u + quad_width < CHUNK_SIZE
            invariant
                dir < 6,
                depth < CHUNK_SIZE,
                start_u < CHUNK_SIZE,
                start_v < CHUNK_SIZE,
                visited@.len() == 32768,
                exposed_cache@.len() == 196608,
                grid == cached_faces(*chunk, exposed_cache@),
                1 <= quad_width,
                start_u + quad_width <= 32,
                forall|u: int|
                    start_u < u < start_u + quad_width ==> #[trigger] cell_open(
                        grid,
                        visited@,
                        dir as int,
                        target_block,
                        depth as int,
                        u,
                        start_v as int,
                    ),
                !growing ==> start_u + quad_width < 32 && !cell_open(
                    grid,
                    visited@,
                    dir as int,
                    target_block,
                    depth as int,
                    start_u + quad_width,
                    start_v as int,
                ),
            decreases 32 - quad_width + (if growing { 1int } else { 0int }),
        {
            if Self::cell_is_open(
                chunk,
                depth,
                start_u + quad_width,
                start_v,
                target_block,
                dir,
                visited,
                exposed_cache,
            ) {
                quad_width += 1;
            } else {
                growing = false;
            }
        }
        let mut quad_height: usize = 1;
        growing = true;
        while growing && start_v + quad_height < CHUNK_SIZE
            invariant
                dir < 6,
                depth < CHUNK_SIZE,
                start_u < CHUNK_SIZE,
                start_v < CHUNK_SIZE,
                visited@.len() == 32768,
                exposed_cache@.len() == 196608,
                grid == cached_faces(*chunk, exposed_cache@),
                1 <= quad_width,
                start_u + quad_width <= 32,
                1 <= quad_height,
                start_v + quad_height <= 32,
                forall|u: int, v: int|
                    start_u <= u < start_u + quad_width && start_v < v < start_v + quad_height
                        ==> #[trigger] cell_open(grid, visited@, dir as int, target_block, depth as int, u, v),
                !growing ==> start_v + quad_height < 32 && exists|u: int|
                    start_u <= u < start_u + quad_width && !#[trigger] cell_open(
                        grid,
                        visited@,
                        dir as int,
                        target_block,
                        depth as int,
                        u,
                        start_v + quad_height,
                    ),
            decreases 32 - quad_height + (if growing { 1int } else { 0int }),
        {
            let mut w: usize = 0;
            let mut column_open = true;
            while column_open && w < quad_width
                invariant
                    dir < 6,
                    depth < CHUNK_SIZE,
                    start_u < CHUNK_SIZE,
                    start_v < CHUNK_SIZE,
                    visited@.len() == 32768,
                    exposed_cache@.len() == 196608,
                    grid == cached_faces(*chunk, exposed_cache@),
                    start_u + quad_width <= 32,
                    start_v + quad_height < 32,
                    w <= quad_width,
                    forall|u: int|
                        start_u <= u < start_u + w ==> #[trigger] cell_open(
                            grid,
                            visited@,
                            dir as int,
                            target_block,
                            depth as int,
                            u,
                            start_v + quad_height,
                        ),
                    !column_open ==> w < quad_width && !cell_open(
                        grid,
                        visited@,
                        dir as int,
                        target_block,
                        depth as int,
                        start_u + w,
                        start_v + quad_height,
                    ),
                decreases quad_width - w + (if column_open { 1int } else { 0int }),
            {
                if Self::cell_is_open(
                    chunk,
                    depth,
                    start_u + w,
                    start_v + quad_height,
                    target_block,
                    dir,
                    visited,
                    exposed_cache,
                ) {
                    w += 1;
                } else {
                    column_open = false;
                }
            }
            if column_open {
                quad_height += 1;
            } else {
                growing = false;
            }
        }
        (quad_width, quad_height)
    }

    /// Marks every cell of a rectangle as visited.
    fn mark_visited(visited: &mut BitSet, q: &Quad)
        requires
            old(visited)@.len() == 32768,
            q.wf(),
        ensures
            final(visited)@.len() == 32768,
            forall|d: int, u: int, v: int|
                in_chunk(d, u, v) ==> final(visited)@[#[trigger] scan_rank(d, u, v)] == (old(visited)@[scan_rank(
                    d,
                    u,
                    v,
                )] || q.covers(d, u, v)),
    {
        let mut du: usize = 0;
        while du < q.width
            invariant
                q.wf(),
                du <= q.width,
                visited@.len() == 32768,
                forall|d: int, u: int, v: int|
                    in_chunk(d, u, v) ==> visited@[#[trigger] scan_rank(d, u, v)] == (old(visited)@[scan_rank(
                        d,
                        u,
                        v,
                    )] || (q.covers(d, u, v) && u < q.u + du)),
            decreases q.width - du,
        {
            let mut dv: usize = 0;
            while dv < q.height
                invariant
                    q.wf(),
                    du < q.width,
                    dv <= q.height,
                    visited@.len() == 32768,
                    forall|d: int, u: int, v: int|
                        in_chunk(d, u, v) ==> visited@[#[trigger] scan_rank(d, u, v)] == (old(
                            visited,
                        )@[scan_rank(d, u, v)] || (q.covers(d, u, v) && (u < q.u + du || (u == q.u + du && v
                            < q.v + dv)))),
                decreases q.height - dv,
            {
                let ghost before = visited@;
                let index = q.depth * 1024 + (q.u + du) * 32 + (q.v + dv);
                visited.set(index);
                proof {
                    assert forall|d: int, u: int, v: int| in_chunk(d, u, v) implies visited@[#[trigger] scan_rank(
                        d,
                        u,
                        v,
                    )] == (old(visited)@[scan_rank(d, u, v)] || (q.covers(d, u, v) && (u < q.u + du || (u
                        == q.u + du && v < q.v + dv + 1)))) by {
                        if scan_rank(d, u, v) == index {
                            lemma_scan_rank_injective(
                                d,
                                u,
                                v,
                                q.depth as int,
                                q.u + du,
                                q.v + dv,
                            );
                        }
                        assert(before[scan_rank(d, u, v)] == (old(visited)@[scan_rank(d, u, v)] || (q.covers(
                            d,
                            u,
                            v,
                        ) && (u < q.u + du || (u == q.u + du && v < q.v + dv)))));
                    }
                }
                dv += 1;
            }
            du += 1;
        }
    }
    /// One step of a sweep, at one cell of the scan: where the cell still
    /// waits for a rectangle, the rectangle that grows from it is emitted and
    /// its cells are marked.
    fn sweep_cell(
        chunk: &Chunk,
        dir: usize,
        exposed_cache: &BitSet,
        depth: usize,
        u: usize,
        v: usize,
        quads: &mut Vec<Quad>,
        visited: &mut BitSet,
    )
        requires
            dir < 6,
            depth < CHUNK_SIZE,
            u < CHUNK_SIZE,
            v < CHUNK_SIZE,
            exposed_cache@.len() == 196608,
            greedy_prefix(
                cached_faces(*chunk, exposed_cache@),
                dir as int,
                old(quads)@,
            ),
            visited_matches(old(visited)@, old(quads)@),
            scanned(
                cached_faces(*chunk, exposed_cache@),
                dir as int,
                old(quads)@,
                scan_rank(depth as int, u as int, v as int),
            ),
        ensures
            greedy_prefix(
                cached_faces(*chunk, exposed_cache@),
                dir as int,
                final(quads)@,
            ),
            visited_matches(final(visited)@, final(quads)@),
            scanned(
                cached_faces(*chunk, exposed_cache@),
                dir as int,
                final(quads)@,
                scan_rank(depth as int, u as int, v as int) + 1,
            ),
            final(quads)@.len() <= old(quads)@.len() + 1,
    {
        let ghost grid = cached_faces(*chunk, exposed_cache@);
        let ghost before = quads@;
        let ghost seen = visited@;
        let ghost here = scan_rank(depth as int, u as int, v as int);
        let (x, y, z) = Self::get_position(dir, depth, u, v);
        let block = get_block(chunk, x, y, z);
        let waiting = !visited.get(depth * 1024 + u * 32 + v) && !block.is_transpose() && exposed_cache.get(
            face_index(x, y, z, dir),
        );
        proof {
            assert(seen[here] == covered_by(before, depth as int, u as int, v as int));
            assert(waiting == face_free(grid, dir as int, before, depth as int, u as int, v as int));
        }
        if !waiting {
            proof {
                assert forall|d: int, uu: int, vv: int|
                    in_chunk(d, uu, vv) && scan_rank(d, uu, vv) < here + 1 implies !#[trigger] face_free(
                    grid,
                    dir as int,
                    before,
                    d,
                    uu,
                    vv,
                ) by {
                    if scan_rank(d, uu, vv) == here {
                        lemma_scan_rank_injective(d, uu, vv, depth as int, u as int, v as int);
                    }
                }
            }
            return ;
        }
        let (quad_width, quad_height) = Self::find_quad(
            chunk,
            depth,
            u,
            v,
            block,
            dir,
            visited,
            exposed_cache,
        );
        let q = Quad { dir, depth, u, v, width: quad_width, height: quad_height, block };
        proof {
            assert(cell_open(grid, seen, dir as int, block, depth as int, u as int, v as int));
            assert forall|uu: int| q.u <= uu < q.u + q.width implies #[trigger] face_joins(
                grid,
                dir as int,
                before,
                q.block,
                q.depth as int,
                uu,
                q.v as int,
            ) by {
                lemma_open_is_joins(grid, seen, before, dir as int, block, depth as int, uu, v as int);
                if uu > q.u {
                    assert(cell_open(grid, seen, dir as int, block, depth as int, uu, v as int));
                }
            }
            if q.u + q.width < 32 {
                lemma_open_is_joins(
                    grid,
                    seen,
                    before,
                    dir as int,
                    block,
                    depth as int,
                    q.u + q.width,
                    v as int,
                );
            }
            assert forall|uu: int, vv: int|
                q.u <= uu < q.u + q.width && q.v <= vv < q.v + q.height implies #[trigger] face_joins(
                grid,
                dir as int,
                before,
                q.block,
                q.depth as int,
                uu,
                vv,
            ) by {
                lemma_open_is_joins(grid, seen, before, dir as int, block, depth as int, uu, vv);
                if vv > q.v {
                    assert(cell_open(grid, seen, dir as int, block, depth as int, uu, vv));
                } else {
                    assert(face_joins(grid, dir as int, before, q.block, q.depth as int, uu, q.v as int));
                }
            }
            if q.v + q.height < 32 {
                let uu = choose|uu: int|
                    q.u <= uu < q.u + q.width && !#[trigger] cell_open(
                        grid,
                        seen,
                        dir as int,
                        block,
                        depth as int,
                        uu,
                        q.v + q.height,
                    );
                lemma_open_is_joins(grid, seen, before, dir as int, block, depth as int, uu, q.v + q.height);
                assert(!face_joins(grid, dir as int, before, q.block, q.depth as int, uu, q.v + q.height));
            }
            assert(greedy_step(grid, dir as int, before, q));
            lemma_prefix_push(grid, dir as int, before, q);
        }
        if quad_width > 0 && quad_height > 0 {
            quads.push(q);
            Self::mark_visited(visited, &q);
        }
        proof {
            assert(quads@ == before.push(q));
            assert forall|d: int, uu: int, vv: int| in_chunk(d, uu, vv) implies visited@[scan_rank(d, uu, vv)]
                == #[trigger] covered_by(quads@, d, uu, vv) by {
                lemma_covered_push(before, q, d, uu, vv);
                assert(seen[scan_rank(d, uu, vv)] == covered_by(before, d, uu, vv));
            }
            assert forall|d: int, uu: int, vv: int|
                in_chunk(d, uu, vv) && scan_rank(d, uu, vv) < here + 1 implies !#[trigger] face_free(
                grid,
                dir as int,
                quads@,
                d,
                uu,
                vv,
            ) by {
                lemma_covered_push(before, q, d, uu, vv);
                if scan_rank(d, uu, vv) == here {
                    lemma_scan_rank_injective(d, uu, vv, depth as int, u as int, v as int);
                    assert(q.covers(d, uu, vv));
                } else {
                    assert(!face_free(grid, dir as int, before, d, uu, vv));
                }
            }
        }
    }

    /// The greedy sweep of one direction: slice by slice along the
    /// direction's axis, each slice scanned row by row, a rectangle grown
    /// from every cell that still waits for one.
    pub fn greedy_mesh_direction(chunk: &Chunk, dir: usize, exposed_cache: &BitSet) -> (quads: Vec<Quad>)
        requires
            dir < 6,
            exposed_cache@.len() == 196608,
        ensures
            is_sweep(cached_faces(*chunk, exposed_cache@), dir as int, quads@),
            quads@ == sweep_of(cached_faces(*chunk, exposed_cache@), dir as int),
            quads@.len() <= 32768,
    {
        let ghost grid = cached_faces(*chunk, exposed_cache@);
        let mut quads: Vec<Quad> = Vec::new();
        let mut visited = BitSet::new(CHUNK_VOLUME);
        proof {
            assert forall|d: int, u: int, v: int| in_chunk(d, u, v) implies visited@[scan_rank(d, u, v)]
                == #[trigger] covered_by(quads@, d, u, v) by {}
        }
        let mut depth: usize = 0;
        while depth < CHUNK_SIZE
            invariant
                dir < 6,
                depth <= CHUNK_SIZE,
                exposed_cache@.len() == 196608,
                grid == cached_faces(*chunk, exposed_cache@),
                greedy_prefix(grid, dir as int, quads@),
                visited_matches(visited@, quads@),
                scanned(grid, dir as int, quads@, scan_rank(depth as int, 0, 0)),
                quads@.len() <= scan_rank(depth as int, 0, 0),
            decreases CHUNK_SIZE - depth,
        {
            let mut u: usize = 0;
            while u < CHUNK_SIZE
                invariant
                    dir < 6,
                    depth < CHUNK_SIZE,
                    u <= CHUNK_SIZE,
                    exposed_cache@.len() == 196608,
                    grid == cached_faces(*chunk, exposed_cache@),
                    greedy_prefix(grid, dir as int, quads@),
                    visited_matches(visited@, quads@),
                    scanned(grid, dir as int, quads@, scan_rank(depth as int, u as int, 0)),
                    quads@.len() <= scan_rank(depth as int, u as int, 0),
                decreases CHUNK_SIZE - u,
            {
                let mut v: usize = 0;
                while v < CHUNK_SIZE
                    invariant
                        dir < 6,
                        depth < CHUNK_SIZE,
                        u < CHUNK_SIZE,
                        v <= CHUNK_SIZE,
                        exposed_cache@.len() == 196608,
                        grid == cached_faces(*chunk, exposed_cache@),
                        greedy_prefix(grid, dir as int, quads@),
                        visited_matches(visited@, quads@),
                        scanned(grid, dir as int, quads@, scan_rank(depth as int, u as int, v as int)),
                        quads@.len() <= scan_rank(depth as int, u as int, v as int),
                    decreases CHUNK_SIZE - v,
                {
                    Self::sweep_cell(chunk, dir, exposed_cache, depth, u, v, &mut quads, &mut visited);
                    v += 1;
                }
                u += 1;
            }
            depth += 1;
        }
        proof {
            lemma_sweep_unique(grid, dir as int, quads@, sweep_of(grid, dir as int));
        }
        quads
    }

    /// The rectangles of the chunk's greedy mesh: for each of the six
    /// directions in turn, the greedy sweep of the faces that border open
    /// space. A chunk made of air has none.
    pub fn build_quads(chunk: &Chunk, world: &World) -> (quads: Vec<Quad>)
        requires
            valid_chunk_coord(chunk.pos),
        ensures
            quads@ == greedy_quads(chunk_faces(*chunk, world.chunks@)),
            quads@.len() <= 196608,
            forall|k: int| 0 <= k < quads@.len() ==> (#[trigger] quads@[k]).wf(),
    {
        let ghost grid = chunk_faces(*chunk, world.chunks@);
        if Self::is_only_air_fast(chunk) && Self::is_only_air(chunk) {
            proof {
                lemma_air_has_no_quads(grid);
            }
            return Vec::new();
        }
        let exposed_cache = Self::build_exposed_cache(chunk, world);
        let mut quads: Vec<Quad> = Vec::new();
        let mut dir: usize = 0;
        while dir < 6
            invariant
                dir <= 6,
                exposed_cache@.len() == 196608,
                grid == cached_faces(*chunk, exposed_cache@),
                quads@ == sweeps_upto(grid, dir as int),
                quads@.len() <= 32768 * dir,
                forall|k: int| 0 <= k < quads@.len() ==> (#[trigger] quads@[k]).wf(),
            decreases 6 - dir,
        {
            let mut part = Self::greedy_mesh_direction(chunk, dir, &exposed_cache);
            proof {
                assert forall|k: int| 0 <= k < part@.len() implies (#[trigger] part@[k]).wf() by {
                    assert(greedy_step(grid, dir as int, part@.take(k), part@[k]));
                }
            }
            quads.append(&mut part);
            dir += 1;
        }
        quads
    }

    /// Adds the four corners and the two triangles of a rectangle to a
    /// mesh. The triangles index the new corners, which start at
    /// `index_offset` in the vertex list.
    pub fn create_greedy_quad(
        q: &Quad,
        vertices: &mut Vec<Vertex>,
        indices: &mut Vec<u32>,
        index_offset: &mut u32,
    )
        requires
            q.wf(),
            *old(index_offset) + 4 <= u32::MAX,
        ensures
            final(vertices)@ == old(vertices)@ + q.vertices(),
            final(indices)@ == old(indices)@ + Seq::new(
                6,
                |i: int| (*old(index_offset) + face_indices()[i]) as u32,
            ),
            *final(index_offset) == *old(index_offset) + 4,
    {
        let (x, y, z) = Self::get_position(q.dir, q.depth, q.u, q.v);
        let (mut quad_vertices, quad_indices) = generate_face(
            (x as i64, y as i64, z as i64),
            q.dir,
            q.block.id as u32,
            q.width as u32,
            q.height as u32,
        );
        let vertex_count = quad_vertices.len();
        vertices.append(&mut quad_vertices);
        let ghost first = indices@;
        let mut i: usize = 0;
        while i < quad_indices.len()
            invariant
                i <= 6,
                quad_indices@ == face_indices(),
                *index_offset + 4 <= u32::MAX,
                indices@ == first + Seq::new(i as nat, |j: int| (*index_offset + face_indices()[j]) as u32),
            decreases 6 - i,
        {
            indices.push(quad_indices[i] + *index_offset);
            i += 1;
            assert(indices@ =~= first + Seq::new(
                i as nat,
                |j: int| (*index_offset + face_indices()[j]) as u32,
            ));
        }
        *index_offset += vertex_count as u32;
    }

    /// The greedy mesh of the chunk, in chunk-local coordinates: the corners
    /// and triangles of the rectangles that `build_quads` finds, in their
    /// order.
    pub fn build_mesh(chunk: &Chunk, world: &World) -> (r: (Vec<Vertex>, Vec<u32>))
        requires
            valid_chunk_coord(chunk.pos),
        ensures
            r.0@ == quads_vertices(greedy_quads(chunk_faces(*chunk, world.chunks@))),
            r.1@ == quads_indices(greedy_quads(chunk_faces(*chunk, world.chunks@))),
            forall|i: int| 0 <= i < r.0@.len() ==> (#[trigger] r.0@[i]).is_local(),
            r.1@.len() <= u32::MAX,
    {
        let quads = Self::build_quads(chunk, world);
        let mut vertices: Vec<Vertex> = Vec::new();
        let mut indices: Vec<u32> = Vec::new();
        let mut index_offset: u32 = 0;
        let mut k: usize = 0;
        proof {
            assert(vertices@ =~= quads_vertices(quads@.take(0)));
            assert(indices@ =~= quads_indices(quads@.take(0)));
        }
        while k < quads.len()
            invariant
                k <= quads@.len(),
                quads@.len() <= 196608,
                quads@ == greedy_quads(chunk_faces(*chunk, world.chunks@)),
                forall|j: int| 0 <= j < quads@.len() ==> (#[trigger] quads@[j]).wf(),
                index_offset == 4 * k,
                vertices@ == quads_vertices(quads@.take(k as int)),
                indices@ == quads_indices(quads@.take(k as int)),
            decreases quads@.len() - k,
        {
            let ghost done_vertices = vertices@;
            let ghost done_indices = indices@;
            Self::create_greedy_quad(&quads[k], &mut vertices, &mut indices, &mut index_offset);
            proof {
                let before = quads@.take(k as int);
                let after = quads@.take(k + 1);
                assert(after =~= before.push(quads@[k as int]));
                assert(quads@[k as int].vertices().len() == 4);
                assert(vertices@ =~= quads_vertices(after));
                assert(indices@ =~= quads_indices(after));
            }
            k += 1;
        }
        proof {
            assert(quads@.take(k as int) =~= quads@);
            assert forall|i: int| 0 <= i < vertices@.len() implies (#[trigger] vertices@[i]).is_local() by {
                let q = quads@[i / 4];
                assert(q.wf());
                assert(vertices@[i] == q.vertices()[i % 4]);
            }
        }
        (vertices, indices)
    }
}

} // verus!
