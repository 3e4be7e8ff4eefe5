//! What holds of every greedy sweep.

use vstd::prelude::*;
use crate::block::Block;
use crate::chunk::in_chunk;
use crate::chunk::{chunk_coord_of, local_coord_of, valid_chunk_coord, Chunk, Coord};
use crate::faces::normal_of;
use crate::faces::{
    chunk_faces, chunk_mesh, covered_by, exposure, face_exposed, face_free, face_joins, greedy_prefix,
    greedy_step, is_sweep, scan_rank, FaceGrid, Quad,
};

verus! {

/// Whether two chunk tables hold the same blocks: the same chunks are
/// loaded, each with the same blocks. Flags may differ.
pub open spec fn same_blocks(a: Map<Coord, Chunk>, b: Map<Coord, Chunk>) -> bool {
    forall|k: Coord|
        #![trigger a.contains_key(k)]
        #![trigger b.contains_key(k)]
        a.contains_key(k) == b.contains_key(k) && (a.contains_key(k) ==> a[k].blocks == b[k].blocks)
}

/// Meshing again gives the same geometry while the blocks stay: the mesh of
/// a chunk depends on its coordinate, its rendering flag and its blocks, and
/// on which chunks are loaded around it and their blocks, and on nothing
/// else.
pub proof fn lemma_remesh_unchanged(
    chunk_a: Chunk,
    chunks_a: Map<Coord, Chunk>,
    chunk_b: Chunk,
    chunks_b: Map<Coord, Chunk>,
)
    requires
        chunk_a.pos == chunk_b.pos,
        chunk_a.is_rendered == chunk_b.is_rendered,
        chunk_a.blocks == chunk_b.blocks,
        same_blocks(chunks_a, chunks_b),
    ensures
        exposure(chunk_a, chunks_a) == exposure(chunk_b, chunks_b),
        chunk_faces(chunk_a, chunks_a) == chunk_faces(chunk_b, chunks_b),
        chunk_mesh(chunk_a, chunks_a) == chunk_mesh(chunk_b, chunks_b),
{
    assert forall|x: int, y: int, z: int, dir: int|
        face_exposed(chunk_a, chunks_a, x, y, z, dir) == face_exposed(chunk_b, chunks_b, x, y, z, dir) by {
        let key = crate::chunk::chunk_coord_of(
            (
                (chunk_a.pos.0 * 32 + x + crate::faces::normal_of(dir).0) as i64,
                (chunk_a.pos.1 * 32 + y + crate::faces::normal_of(dir).1) as i64,
                (chunk_a.pos.2 * 32 + z + crate::faces::normal_of(dir).2) as i64,
            ),
        );
        assert(chunks_a.contains_key(key) == chunks_b.contains_key(key));
    }
    assert(exposure(chunk_a, chunks_a) =~= exposure(chunk_b, chunks_b));
}

/// At the boundary of a chunk the neighbour chunk decides: a face that
/// looks out of the chunk is exposed where no chunk is loaded on the other
/// side, or where the block that faces it there, at the mirrored local
/// coordinate, is air; it is hidden where that block is solid.
pub proof fn lemma_boundary_exposure(
    chunk: Chunk,
    chunks: Map<Coord, Chunk>,
    x: int,
    y: int,
    z: int,
    dir: int,
)
    requires
        valid_chunk_coord(chunk.pos),
        in_chunk(x, y, z),
        0 <= dir < 6,
        !in_chunk(x + normal_of(dir).0, y + normal_of(dir).1, z + normal_of(dir).2),
    ensures
        ({
            let n = normal_of(dir);
            let beyond = ((chunk.pos.0 + n.0) as i64, (chunk.pos.1 + n.1) as i64, (chunk.pos.2 + n.2) as i64);
            face_exposed(chunk, chunks, x, y, z, dir) == (!chunks.contains_key(beyond) || chunks[beyond].block_at(
                (x + n.0) % 32,
                (y + n.1) % 32,
                (z + n.2) % 32,
            ).is_air())
        }),
{
    let n = normal_of(dir);
    let p = (
        (chunk.pos.0 * 32 + x + n.0) as i64,
        (chunk.pos.1 * 32 + y + n.1) as i64,
        (chunk.pos.2 * 32 + z + n.2) as i64,
    );
    let beyond = ((chunk.pos.0 + n.0) as i64, (chunk.pos.1 + n.1) as i64, (chunk.pos.2 + n.2) as i64);
    assert(chunk_coord_of(p) == beyond);
    assert(local_coord_of(p) == ((x + n.0) % 32, (y + n.1) % 32, (z + n.2) % 32));
}

/// Two cells of a chunk with the same scan rank are the same cell.
pub proof fn lemma_scan_rank_injective(d1: int, u1: int, v1: int, d2: int, u2: int, v2: int)
    requires
        in_chunk(d1, u1, v1),
        in_chunk(d2, u2, v2),
        scan_rank(d1, u1, v1) == scan_rank(d2, u2, v2),
    ensures
        d1 == d2 && u1 == u2 && v1 == v2,
{
}

/// A rectangle added to a list covers what the list covered, and its own
/// cells.
pub proof fn lemma_covered_push(quads: Seq<Quad>, q: Quad, d: int, u: int, v: int)
    ensures
        covered_by(quads.push(q), d, u, v) == (covered_by(quads, d, u, v) || q.covers(d, u, v)),
{
    let after = quads.push(q);
    if covered_by(quads, d, u, v) {
        let j = choose|j: int| 0 <= j < quads.len() && (#[trigger] quads[j]).covers(d, u, v);
        assert(after[j].covers(d, u, v));
    }
    if q.covers(d, u, v) {
        assert(after[quads.len() as int].covers(d, u, v));
    }
    if covered_by(after, d, u, v) {
        let j = choose|j: int| 0 <= j < after.len() && (#[trigger] after[j]).covers(d, u, v);
        if j < quads.len() {
            assert(quads[j].covers(d, u, v));
        }
    }
}

/// A list of greedy steps stays one when the greedy step after it is added.
pub proof fn lemma_prefix_push(grid: FaceGrid, dir: int, quads: Seq<Quad>, q: Quad)
    requires
        greedy_prefix(grid, dir, quads),
        greedy_step(grid, dir, quads, q),
    ensures
        greedy_prefix(grid, dir, quads.push(q)),
{
    let after = quads.push(q);
    assert forall|k: int| 0 <= k < after.len() implies greedy_step(
        grid,
        dir,
        after.take(k),
        #[trigger] after[k],
    ) by {
        assert(after.take(k) =~= quads.take(k));
        if k == quads.len() {
            assert(quads.take(k) =~= quads);
        }
    }
}

/// The greedy step after a list of rectangles is unique.
pub proof fn lemma_step_unique(grid: FaceGrid, dir: int, before: Seq<Quad>, a: Quad, b: Quad)
    requires
        greedy_step(grid, dir, before, a),
        greedy_step(grid, dir, before, b),
    ensures
        a == b,
{
    let ra = scan_rank(a.depth as int, a.u as int, a.v as int);
    let rb = scan_rank(b.depth as int, b.u as int, b.v as int);
    assert(in_chunk(a.depth as int, a.u as int, a.v as int));
    assert(in_chunk(b.depth as int, b.u as int, b.v as int));
    if ra < rb {
        assert(!face_free(grid, dir, before, a.depth as int, a.u as int, a.v as int));
    }
    if rb < ra {
        assert(!face_free(grid, dir, before, b.depth as int, b.u as int, b.v as int));
    }
    assert(a.depth == b.depth && a.u == b.u && a.v == b.v);
    assert(a.block == b.block);
    if a.width < b.width {
        assert(face_joins(grid, dir, before, b.block, b.depth as int, a.u + a.width, b.v as int));
    }
    if b.width < a.width {
        assert(face_joins(grid, dir, before, a.block, a.depth as int, b.u + b.width, a.v as int));
    }
    assert(a.width == b.width);
    if a.height < b.height {
        let u = choose|u: int|
            a.u <= u < a.u + a.width && !#[trigger] face_joins(
                grid,
                dir,
                before,
                a.block,
                a.depth as int,
                u,
                a.v + a.height,
            );
        assert(face_joins(grid, dir, before, b.block, b.depth as int, u, a.v + a.height));
    }
    if b.height < a.height {
        let u = choose|u: int|
            b.u <= u < b.u + b.width && !#[trigger] face_joins(
                grid,
                dir,
                before,
                b.block,
                b.depth as int,
                u,
                b.v + b.height,
            );
        assert(face_joins(grid, dir, before, a.block, a.depth as int, u, b.v + b.height));
    }
    assert(a.height == b.height);
}

/// Two lists of greedy steps over the same faces agree on as many
/// rectangles as both have.
pub proof fn lemma_prefixes_agree(grid: FaceGrid, dir: int, a: Seq<Quad>, b: Seq<Quad>, k: int)
    requires
        greedy_prefix(grid, dir, a),
        greedy_prefix(grid, dir, b),
        0 <= k <= a.len(),
        k <= b.len(),
    ensures
        a.take(k) == b.take(k),
    decreases k,
{
    if k == 0 {
        assert(a.take(0) =~= b.take(0));
    } else {
        lemma_prefixes_agree(grid, dir, a, b, k - 1);
        assert(greedy_step(grid, dir, a.take(k - 1), a[k - 1]));
        assert(greedy_step(grid, dir, b.take(k - 1), b[k - 1]));
        lemma_step_unique(grid, dir, a.take(k - 1), a[k - 1], b[k - 1]);
        assert(a.take(k) =~= a.take(k - 1).push(a[k - 1]));
        assert(b.take(k) =~= b.take(k - 1).push(b[k - 1]));
    }
}

/// The greedy sweep of a direction is unique: the faces determine the
/// rectangles and their order.
pub proof fn lemma_sweep_unique(grid: FaceGrid, dir: int, a: Seq<Quad>, b: Seq<Quad>)
    requires
        is_sweep(grid, dir, a),
        is_sweep(grid, dir, b),
    ensures
        a == b,
{
    if a.len() < b.len() {
        let k = a.len() as int;
        lemma_prefixes_agree(grid, dir, a, b, k);
        assert(a.take(k) =~= a);
        assert(greedy_step(grid, dir, b.take(k), b[k]));
        assert(face_free(grid, dir, a, b[k].depth as int, b[k].u as int, b[k].v as int));
    } else if b.len() < a.len() {
        let k = b.len() as int;
        lemma_prefixes_agree(grid, dir, a, b, k);
        assert(b.take(k) =~= b);
        assert(greedy_step(grid, dir, a.take(k), a[k]));
        assert(face_free(grid, dir, b, a[k].depth as int, a[k].u as int, a[k].v as int));
    } else {
        let k = a.len() as int;
        lemma_prefixes_agree(grid, dir, a, b, k);
        assert(a.take(k) =~= a);
        assert(b.take(k) =~= b);
    }
}

/// What an earlier part of a list covers, the list covers.
pub proof fn lemma_covered_take(quads: Seq<Quad>, k: int, d: int, u: int, v: int)
    requires
        0 <= k <= quads.len(),
        covered_by(quads.take(k), d, u, v),
    ensures
        covered_by(quads, d, u, v),
        exists|j: int| 0 <= j < k && (#[trigger] quads[j]).covers(d, u, v),
{
    let j = choose|j: int| 0 <= j < quads.take(k).len() && (#[trigger] quads.take(k)[j]).covers(d, u, v);
    assert(quads[j].covers(d, u, v));
}

/// Every cell of a rectangle of a sweep holds the rectangle's block, shows
/// a face that must be drawn, and lies in no earlier rectangle.
pub proof fn lemma_sweep_rectangles_sound(
    grid: FaceGrid,
    dir: int,
    quads: Seq<Quad>,
    k: int,
    d: int,
    u: int,
    v: int,
)
    requires
        is_sweep(grid, dir, quads),
        0 <= k < quads.len(),
        quads[k].covers(d, u, v),
    ensures
        in_chunk(d, u, v),
        grid.visible(dir, d, u, v),
        grid.block(dir, d, u, v) == quads[k].block,
        !quads[k].block.is_air(),
        forall|j: int| 0 <= j < k ==> !(#[trigger] quads[j]).covers(d, u, v),
{
    let q = quads[k];
    assert(greedy_step(grid, dir, quads.take(k), q));
    assert(face_joins(grid, dir, quads.take(k), q.block, q.depth as int, u, v));
    assert forall|j: int| 0 <= j < k implies !(#[trigger] quads[j]).covers(d, u, v) by {
        if quads[j].covers(d, u, v) {
            assert(quads.take(k)[j].covers(d, u, v));
        }
    }
}

/// A sweep leaves no face out: every cell whose face must be drawn lies in
/// exactly one rectangle of the sweep.
pub proof fn lemma_sweep_covers_once(grid: FaceGrid, dir: int, quads: Seq<Quad>, d: int, u: int, v: int)
    requires
        is_sweep(grid, dir, quads),
        in_chunk(d, u, v),
        grid.visible(dir, d, u, v),
    ensures
        exists|k: int|
            0 <= k < quads.len() && (#[trigger] quads[k]).covers(d, u, v) && forall|j: int|
                0 <= j < quads.len() && j != k ==> !(#[trigger] quads[j]).covers(d, u, v),
{
    assert(!face_free(grid, dir, quads, d, u, v));
    let k = choose|k: int| 0 <= k < quads.len() && (#[trigger] quads[k]).covers(d, u, v);
    assert forall|j: int| 0 <= j < quads.len() && j != k implies !(#[trigger] quads[j]).covers(d, u, v) by {
        if quads[j].covers(d, u, v) {
            if j < k {
                lemma_sweep_rectangles_sound(grid, dir, quads, k, d, u, v);
            } else {
                lemma_sweep_rectangles_sound(grid, dir, quads, j, d, u, v);
            }
        }
    }
}

/// A slice that holds one block throughout, every face of it to be drawn,
/// becomes a single rectangle that covers the whole slice.
pub proof fn lemma_uniform_slice_is_one_quad(
    grid: FaceGrid,
    dir: int,
    quads: Seq<Quad>,
    depth: int,
    block: Block,
)
    requires
        is_sweep(grid, dir, quads),
        0 <= depth < 32,
        forall|u: int, v: int|
            0 <= u < 32 && 0 <= v < 32 ==> #[trigger] grid.visible(dir, depth, u, v) && grid.block(
                dir,
                depth,
                u,
                v,
            ) == block,
    ensures
        exists|k: int|
            0 <= k < quads.len() && (#[trigger] quads[k]) == (Quad {
                dir: dir as usize,
                depth: depth as usize,
                u: 0,
                v: 0,
                width: 32,
                height: 32,
                block,
            }) && forall|j: int| 0 <= j < quads.len() && j != k ==> (#[trigger] quads[j]).depth != depth,
{
    assert(grid.visible(dir, depth, 0, 0));
    assert(!face_free(grid, dir, quads, depth, 0, 0));
    let k = choose|k: int| 0 <= k < quads.len() && (#[trigger] quads[k]).covers(depth, 0, 0);
    let q = quads[k];
    let before = quads.take(k);
    assert(greedy_step(grid, dir, before, q));
    // No earlier rectangle lies in the slice.
    assert forall|j: int| 0 <= j < k implies (#[trigger] quads[j]).depth < depth by {
        let p = quads[j];
        assert(greedy_step(grid, dir, quads.take(j), p));
        if covered_by(quads.take(j), depth, 0, 0) {
            lemma_covered_take(quads, j, depth, 0, 0);
            let i = choose|i: int| 0 <= i < j && (#[trigger] quads[i]).covers(depth, 0, 0);
            assert(before[i].covers(depth, 0, 0));
        }
        assert(face_free(grid, dir, quads.take(j), depth, 0, 0));
        assert(before[j].covers(p.depth as int, p.u as int, p.v as int));
        assert(scan_rank(p.depth as int, p.u as int, p.v as int) != scan_rank(depth, 0, 0));
    }
    assert forall|u: int, v: int| 0 <= u < 32 && 0 <= v < 32 implies #[trigger] face_joins(
        grid,
        dir,
        before,
        block,
        depth,
        u,
        v,
    ) by {
        assert(grid.visible(dir, depth, u, v));
        if covered_by(before, depth, u, v) {
            lemma_covered_take(quads, k, depth, u, v);
        }
    }
    assert(q.block == block);
    if q.width < 32 {
        assert(face_joins(grid, dir, before, block, depth, q.u + q.width, 0));
    }
    if q.height < 32 {
        let u = choose|u: int|
            q.u <= u < q.u + q.width && !#[trigger] face_joins(
                grid,
                dir,
                before,
                q.block,
                q.depth as int,
                u,
                q.v + q.height,
            );
        assert(face_joins(grid, dir, before, block, depth, u, q.v + q.height));
    }
    assert forall|j: int| 0 <= j < quads.len() && j != k implies (#[trigger] quads[j]).depth != depth by {
        if j > k {
            let p = quads[j];
            assert(greedy_step(grid, dir, quads.take(j), p));
            if p.depth == depth {
                assert(quads.take(j)[k].covers(p.depth as int, p.u as int, p.v as int));
            }
        }
    }
}

} // verus!
