//! Every chunk has a greedy sweep in every direction.

use vstd::prelude::*;
use crate::block::Block;
use crate::chunk::in_chunk;
use crate::faces::{
    face_free, face_joins, greedy_prefix, greedy_step, is_sweep, scan_rank, sweep_of, FaceGrid, Quad,
};
use crate::sweep_laws::{lemma_covered_push, lemma_prefix_push, lemma_uniform_slice_is_one_quad};

verus! {

/// The first scan rank from `from` on whose cell still waits for a
/// rectangle, or the number of cells if there is none.
pub open spec fn first_free(grid: FaceGrid, dir: int, quads: Seq<Quad>, from: int) -> int
    decreases 32768 - from,
{
    if from >= 32768 || from < 0 {
        32768
    } else if face_free(grid, dir, quads, from / 1024, (from / 32) % 32, from % 32) {
        from
    } else {
        first_free(grid, dir, quads, from + 1)
    }
}

/// How many rows a rectangle takes that has `width` rows already: it grows
/// while the next row's first cell can join.
pub open spec fn grown_width(
    grid: FaceGrid,
    dir: int,
    quads: Seq<Quad>,
    block: Block,
    depth: int,
    u: int,
    v: int,
    width: int,
) -> int
    decreases 32 - (u + width),
{
    if u + width < 32 && face_joins(grid, dir, quads, block, depth, u + width, v) {
        grown_width(grid, dir, quads, block, depth, u, v, width + 1)
    } else {
        width
    }
}

/// Whether every cell of a column, over the rows of a rectangle, can join.
pub open spec fn column_joins(
    grid: FaceGrid,
    dir: int,
    quads: Seq<Quad>,
    block: Block,
    depth: int,
    u: int,
    width: int,
    v: int,
) -> bool {
    forall|uu: int| u <= uu < u + width ==> #[trigger] face_joins(grid, dir, quads, block, depth, uu, v)
}

/// How many columns a rectangle takes that has `height` columns already:
/// it grows while the whole next column can join.
pub open spec fn grown_height(
    grid: FaceGrid,
    dir: int,
    quads: Seq<Quad>,
    block: Block,
    depth: int,
    u: int,
    width: int,
    v: int,
    height: int,
) -> int
    decreases 32 - (v + height),
{
    if v + height < 32 && column_joins(grid, dir, quads, block, depth, u, width, v + height) {
        grown_height(grid, dir, quads, block, depth, u, width, v, height + 1)
    } else {
        height
    }
}

proof fn lemma_first_free(grid: FaceGrid, dir: int, quads: Seq<Quad>, from: int)
    requires
        0 <= from <= 32768,
    ensures
        from <= first_free(grid, dir, quads, from) <= 32768,
        forall|d: int, u: int, v: int|
            in_chunk(d, u, v) && from <= scan_rank(d, u, v) < first_free(grid, dir, quads, from)
                ==> !#[trigger] face_free(grid, dir, quads, d, u, v),
        first_free(grid, dir, quads, from) < 32768 ==> face_free(
            grid,
            dir,
            quads,
            first_free(grid, dir, quads, from) / 1024,
            (first_free(grid, dir, quads, from) / 32) % 32,
            first_free(grid, dir, quads, from) % 32,
        ),
    decreases 32768 - from,
{
    if from < 32768 && !face_free(grid, dir, quads, from / 1024, (from / 32) % 32, from % 32) {
        lemma_first_free(grid, dir, quads, from + 1);
        assert forall|d: int, u: int, v: int|
            in_chunk(d, u, v) && from <= scan_rank(d, u, v) < first_free(grid, dir, quads, from) implies !#[trigger] face_free(
            grid,
            dir,
            quads,
            d,
            u,
            v,
        ) by {
            if scan_rank(d, u, v) == from {
                assert(d == from / 1024 && u == (from / 32) % 32 && v == from % 32);
            }
        }
    }
}

proof fn lemma_grown_width(
    grid: FaceGrid,
    dir: int,
    quads: Seq<Quad>,
    block: Block,
    depth: int,
    u: int,
    v: int,
    width: int,
)
    requires
        0 <= u,
        1 <= width,
        u + width <= 32,
        forall|uu: int| u <= uu < u + width ==> #[trigger] face_joins(grid, dir, quads, block, depth, uu, v),
    ensures
        ({
            let w = grown_width(grid, dir, quads, block, depth, u, v, width);
            &&& width <= w
            &&& u + w <= 32
            &&& forall|uu: int| u <= uu < u + w ==> #[trigger] face_joins(grid, dir, quads, block, depth, uu, v)
            &&& u + w < 32 ==> !face_joins(grid, dir, quads, block, depth, u + w, v)
        }),
    decreases 32 - (u + width),
{
    if u + width < 32 && face_joins(grid, dir, quads, block, depth, u + width, v) {
        lemma_grown_width(grid, dir, quads, block, depth, u, v, width + 1);
    }
}

proof fn lemma_grown_height(
    grid: FaceGrid,
    dir: int,
    quads: Seq<Quad>,
    block: Block,
    depth: int,
    u: int,
    width: int,
    v: int,
    height: int,
)
    requires
        0 <= v,
        1 <= height,
        v + height <= 32,
        forall|uu: int, vv: int|
            u <= uu < u + width && v <= vv < v + height ==> #[trigger] face_joins(
                grid,
                dir,
                quads,
                block,
                depth,
                uu,
                vv,
            ),
    ensures
        ({
            let h = grown_height(grid, dir, quads, block, depth, u, width, v, height);
            &&& height <= h
            &&& v + h <= 32
            &&& forall|uu: int, vv: int|
                u <= uu < u + width && v <= vv < v + h ==> #[trigger] face_joins(
                    grid,
                    dir,
                    quads,
                    block,
                    depth,
                    uu,
                    vv,
                )
            &&& v + h < 32 ==> !column_joins(grid, dir, quads, block, depth, u, width, v + h)
        }),
    decreases 32 - (v + height),
{
    if v + height < 32 && column_joins(grid, dir, quads, block, depth, u, width, v + height) {
        lemma_grown_height(grid, dir, quads, block, depth, u, width, v, height + 1);
    }
}

/// The rectangle that a greedy sweep emits next, where a face still waits.
pub open spec fn next_quad(grid: FaceGrid, dir: int, quads: Seq<Quad>) -> Quad {
    let start = first_free(grid, dir, quads, 0);
    let depth = start / 1024;
    let u = (start / 32) % 32;
    let v = start % 32;
    let block = grid.block(dir, depth, u, v);
    let width = grown_width(grid, dir, quads, block, depth, u, v, 1);
    let height = grown_height(grid, dir, quads, block, depth, u, width, v, 1);
    Quad {
        dir: dir as usize,
        depth: depth as usize,
        u: u as usize,
        v: v as usize,
        width: width as usize,
        height: height as usize,
        block,
    }
}

/// Where a face still waits for a rectangle, there is a greedy step.
pub proof fn lemma_next_quad_is_step(grid: FaceGrid, dir: int, quads: Seq<Quad>)
    requires
        0 <= dir < 6,
        first_free(grid, dir, quads, 0) < 32768,
    ensures
        greedy_step(grid, dir, quads, next_quad(grid, dir, quads)),
{
    let start = first_free(grid, dir, quads, 0);
    lemma_first_free(grid, dir, quads, 0);
    let depth = start / 1024;
    let u = (start / 32) % 32;
    let v = start % 32;
    assert(scan_rank(depth, u, v) == start);
    let block = grid.block(dir, depth, u, v);
    assert(face_joins(grid, dir, quads, block, depth, u, v));
    lemma_grown_width(grid, dir, quads, block, depth, u, v, 1);
    let width = grown_width(grid, dir, quads, block, depth, u, v, 1);
    lemma_grown_height(grid, dir, quads, block, depth, u, width, v, 1);
    let height = grown_height(grid, dir, quads, block, depth, u, width, v, 1);
    let q = next_quad(grid, dir, quads);
    assert(q.depth == depth && q.u == u && q.v == v && q.width == width && q.height == height);
    if v + height < 32 {
        assert(!column_joins(grid, dir, quads, block, depth, u, width, v + height));
        let uu = choose|uu: int|
            u <= uu < u + width && !#[trigger] face_joins(grid, dir, quads, block, depth, uu, v + height);
        assert(q.u <= uu < q.u + q.width && !face_joins(
            grid,
            dir,
            quads,
            q.block,
            q.depth as int,
            uu,
            q.v + q.height,
        ));
    }
}

/// A list of greedy steps can be continued to a greedy sweep.
pub proof fn lemma_prefix_extends(grid: FaceGrid, dir: int, quads: Seq<Quad>)
    requires
        0 <= dir < 6,
        greedy_prefix(grid, dir, quads),
    ensures
        exists|full: Seq<Quad>| is_sweep(grid, dir, full),
    decreases 32768 - first_free(grid, dir, quads, 0),
{
    lemma_first_free(grid, dir, quads, 0);
    let start = first_free(grid, dir, quads, 0);
    if start >= 32768 {
        assert forall|d: int, u: int, v: int| !#[trigger] face_free(grid, dir, quads, d, u, v) by {
            if in_chunk(d, u, v) {
                assert(0 <= scan_rank(d, u, v) < 32768);
            }
        }
        assert(is_sweep(grid, dir, quads));
    } else {
        let q = next_quad(grid, dir, quads);
        lemma_next_quad_is_step(grid, dir, quads);
        lemma_prefix_push(grid, dir, quads, q);
        let longer = quads.push(q);
        lemma_first_free(grid, dir, longer, 0);
        let next = first_free(grid, dir, longer, 0);
        if next <= start {
            let d = next / 1024;
            let u = (next / 32) % 32;
            let v = next % 32;
            assert(scan_rank(d, u, v) == next);
            assert(face_free(grid, dir, longer, d, u, v));
            lemma_covered_push(quads, q, d, u, v);
            assert(face_free(grid, dir, quads, d, u, v));
            assert(next == start);
            assert(q.covers(d, u, v));
        }
        lemma_prefix_extends(grid, dir, longer);
    }
}

/// Every direction has its greedy sweep, whatever the faces. It is
/// `sweep_of`.
pub proof fn lemma_sweep_exists(grid: FaceGrid, dir: int)
    requires
        0 <= dir < 6,
    ensures
        is_sweep(grid, dir, sweep_of(grid, dir)),
{
    let none = Seq::<Quad>::empty();
    assert(greedy_prefix(grid, dir, none));
    lemma_prefix_extends(grid, dir, none);
}

/// In the mesh of a chunk, a slice that holds one block throughout, every
/// face of it to be drawn in some direction, is a single rectangle of that
/// direction's sweep, which covers the whole slice.
pub proof fn lemma_uniform_slice_meshes_to_one_quad(grid: FaceGrid, dir: int, depth: int, block: Block)
    requires
        0 <= dir < 6,
        0 <= depth < 32,
        forall|u: int, v: int|
            0 <= u < 32 && 0 <= v < 32 ==> #[trigger] grid.visible(dir, depth, u, v) && grid.block(
                dir,
                depth,
                u,
                v,
            ) == block,
    ensures
        exists|k: int|
            0 <= k < sweep_of(grid, dir).len() && (#[trigger] sweep_of(grid, dir)[k]) == (Quad {
                dir: dir as usize,
                depth: depth as usize,
                u: 0,
                v: 0,
                width: 32,
                height: 32,
                block,
            }) && forall|j: int|
                0 <= j < sweep_of(grid, dir).len() && j != k ==> (#[trigger] sweep_of(grid, dir)[j]).depth
                    != depth,
{
    lemma_sweep_exists(grid, dir);
    lemma_uniform_slice_is_one_quad(grid, dir, sweep_of(grid, dir), depth, block);
}

} // verus!
