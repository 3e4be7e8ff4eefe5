//! The world: the tables of loaded chunks and their meshes, the set of
//! chunks whose mesh is stale, and the queue of chunks waiting to be loaded.

use vstd::prelude::*;
use std::collections::VecDeque;
use crate::block::Block;
use crate::chunk::{
    chunk_component, chunk_coord_of, local_coord_of, valid_chunk_coord, Chunk, Coord, CHUNK_VOLUME,
};
use crate::storage::{
    chunk_map_contains, chunk_map_get, chunk_map_get_mut, chunk_map_insert, chunk_map_new,
    chunk_map_remove, mesh_map_get, mesh_map_insert, mesh_map_new, mesh_map_remove, ChunkMap,
    MeshMap,
};
use crate::faces::chunk_mesh;
use crate::mesh::{Mesh, Vertex};
use crate::sweep_laws::{lemma_remesh_unchanged, same_blocks};

verus! {

/// The block at an absolute coordinate, if the chunk that owns it is loaded.
pub open spec fn world_block(chunks: Map<Coord, Chunk>, world_pos: Coord) -> Option<Block> {
    let key = chunk_coord_of(world_pos);
    let local = local_coord_of(world_pos);
    if chunks.contains_key(key) {
        Some(chunks[key].block_at(local.0, local.1, local.2))
    } else {
        None
    }
}

/// A chunk with its stale flag set to the given value.
pub open spec fn with_dirty(chunk: Chunk, dirty: bool) -> Chunk {
    Chunk { is_dirty: dirty, ..chunk }
}

/// Whether two chunk coordinates are neighbours across a face: they differ
/// by one in exactly one component.
pub open spec fn adjacent(a: Coord, b: Coord) -> bool {
    let dx = a.0 - b.0;
    let dy = a.1 - b.1;
    let dz = a.2 - b.2;
    ||| (dx == 1 || dx == -1) && dy == 0 && dz == 0
    ||| dx == 0 && (dy == 1 || dy == -1) && dz == 0
    ||| dx == 0 && dy == 0 && (dz == 1 || dz == -1)
}

/// Whether two worlds differ at most in which chunks are stale: the same
/// seed, meshes and queue, the same chunks loaded, each with the same
/// blocks, coordinate and rendering flag.
pub open spec fn same_but_dirty(before: World, after: World) -> bool {
    &&& after.seed == before.seed
    &&& after.meshes@ == before.meshes@
    &&& after.need_to_load@ == before.need_to_load@
    &&& forall|k: Coord|
        #![trigger after.chunks@.contains_key(k)]
        #![trigger before.chunks@.contains_key(k)]
        after.chunks@.contains_key(k) == before.chunks@.contains_key(k)
    &&& forall|k: Coord| #[trigger]
        before.chunks@.contains_key(k) ==> after.chunks@[k] == with_dirty(
            before.chunks@[k],
            after.chunks@[k].is_dirty,
        )
}

/// Adds a coordinate to a list without repetitions that does not hold it.
pub fn push_coord(list: &mut Vec<Coord>, key: Coord)
    requires
        old(list)@.no_duplicates(),
        !old(list)@.contains(key),
    ensures
        final(list)@ == old(list)@.push(key),
        final(list)@.no_duplicates(),
        forall|k: Coord|
            #![trigger final(list)@.contains(k)]
            #![trigger old(list)@.contains(k)]
            final(list)@.contains(k) == (old(list)@.contains(k) || k == key),
{
    list.push(key);
    proof {
        let before = old(list)@;
        assert(list@[before.len() as int] == key);
        assert forall|k: Coord|
            #![trigger list@.contains(k)]
            #![trigger before.contains(k)]
            list@.contains(k) == (before.contains(k) || k == key) by {
            if before.contains(k) {
                let j = choose|j: int| 0 <= j < before.len() && before[j] == k;
                assert(list@[j] == k);
            }
        }
        assert forall|a: int, b: int| 0 <= a < list@.len() && 0 <= b < list@.len() && a != b implies list@[a]
            != list@[b] by {
            if a == before.len() {
                assert(before.contains(list@[b]));
            }
            if b == before.len() {
                assert(before.contains(list@[a]));
            }
        }
    }
}

/// Removes a coordinate from a list without repetitions.
pub fn remove_coord(list: &mut Vec<Coord>, key: Coord)
    requires
        old(list)@.no_duplicates(),
    ensures
        final(list)@.no_duplicates(),
        forall|k: Coord|
            #![trigger final(list)@.contains(k)]
            #![trigger old(list)@.contains(k)]
            final(list)@.contains(k) == (old(list)@.contains(k) && k != key),
{
    let mut i: usize = 0;
    while i < list.len()
        invariant
            i <= list@.len(),
            list@ == old(list)@,
            old(list)@.no_duplicates(),
            forall|j: int| 0 <= j < i ==> list@[j] != key,
        decreases list@.len() - i,
    {
        let c = list[i];
        if c.0 == key.0 && c.1 == key.1 && c.2 == key.2 {
            list.remove(i);
            proof {
                let before = old(list)@;
                let after = list@;
                before.remove_ensures(i as int);
                assert(before[i as int] == key);
                assert forall|a: int, b: int| 0 <= a < after.len() && 0 <= b < after.len() && a != b implies after[a]
                    != after[b] by {
                    let a0 = if a < i { a } else { a + 1 };
                    let b0 = if b < i { b } else { b + 1 };
                    assert(after[a] == before[a0]);
                    assert(after[b] == before[b0]);
                }
                assert forall|k: Coord|
                    #![trigger after.contains(k)]
                    #![trigger before.contains(k)]
                    after.contains(k) == (before.contains(k) && k != key) by {
                        if after.contains(k) {
                            let j = choose|j: int| 0 <= j < after.len() && after[j] == k;
                            let j0 = if j < i { j } else { j + 1 };
                            assert(before[j0] == k);
                        }
                        if before.contains(k) && k != key {
                            let j = choose|j: int| 0 <= j < before.len() && before[j] == k;
                            let j1 = if j < i { j } else { j - 1 };
                            assert(after[j1] == k);
                        }
                }
            }
            return ;
        }
        i += 1;
    }
    proof {
        assert forall|k: Coord| list@.contains(k) implies k != key by {
            let j = choose|j: int| 0 <= j < list@.len() && list@[j] == k;
        }
    }
}

/// Whether `after` is `before` with a chunk taken in at `key`: the chunk
/// stands under `key`, stale; `key` and its loaded neighbours across the six
/// faces are stale besides what was; every other chunk keeps its blocks,
/// and meshes, queue and seed stay.
pub open spec fn inserted(before: World, after: World, key: Coord) -> bool {
    &&& after.seed == before.seed
    &&& after.meshes@ == before.meshes@
    &&& after.need_to_load@ == before.need_to_load@
    &&& forall|k: Coord|
        #![trigger after.chunks@.contains_key(k)]
        #![trigger before.chunks@.contains_key(k)]
        after.chunks@.contains_key(k) == (before.chunks@.contains_key(k) || k == key)
    &&& after.chunks@[key].pos == key
    &&& forall|k: Coord| #[trigger]
        before.chunks@.contains_key(k) && k != key ==> after.chunks@[k] == with_dirty(
            before.chunks@[k],
            after.chunks@[k].is_dirty,
        )
    &&& forall|k: Coord|
        #![trigger after.dirty_chunks@.contains(k)]
        #![trigger before.dirty_chunks@.contains(k)]
        after.dirty_chunks@.contains(k) == (before.dirty_chunks@.contains(k) || k == key || (adjacent(
            k,
            key,
        ) && before.chunks@.contains_key(k)))
}

/// Whether a coordinate stands among the first `n` entries of a list.
pub open spec fn listed_upto(list: Seq<Coord>, n: int, key: Coord) -> bool {
    exists|j: int| 0 <= j < n && j < list.len() && #[trigger] list[j] == key
}

/// The first `n + 1` entries of a list are the first `n` and the next one.
pub proof fn lemma_listed_next(list: Seq<Coord>, n: int)
    requires
        0 <= n < list.len(),
    ensures
        forall|k: Coord|
            #![trigger listed_upto(list, n + 1, k)]
            #![trigger listed_upto(list, n, k)]
            listed_upto(list, n + 1, k) == (listed_upto(list, n, k) || k == list[n]),
{
    assert forall|k: Coord|
        #![trigger listed_upto(list, n + 1, k)]
        #![trigger listed_upto(list, n, k)]
        listed_upto(list, n + 1, k) == (listed_upto(list, n, k) || k == list[n]) by {
        if listed_upto(list, n, k) {
            let j = choose|j: int| 0 <= j < n && j < list.len() && #[trigger] list[j] == k;
            assert(list[j] == k);
        }
        if k == list[n] {
            assert(list[n] == k);
        }
    }
}

/// All entries of a list are what the list holds.
pub proof fn lemma_listed_all(list: Seq<Coord>)
    ensures
        forall|k: Coord|
            #![trigger listed_upto(list, list.len() as int, k)]
            #![trigger list.contains(k)]
            listed_upto(list, list.len() as int, k) == list.contains(k),
{
    assert forall|k: Coord|
        #![trigger listed_upto(list, list.len() as int, k)]
        #![trigger list.contains(k)]
        listed_upto(list, list.len() as int, k) == list.contains(k) by {
        if list.contains(k) {
            let j = choose|j: int| 0 <= j < list.len() && list[j] == k;
            assert(list[j] == k);
        }
        if listed_upto(list, list.len() as int, k) {
            let j = choose|j: int| 0 <= j < list.len() && j < list.len() && #[trigger] list[j] == k;
            assert(list[j] == k);
        }
    }
}

/// Whether a mesh holds the given geometry, counts its indices, and waits
/// to be uploaded.
pub open spec fn holds_geometry(mesh: Mesh, vertices: Seq<Vertex>, indices: Seq<u32>) -> bool {
    &&& mesh.vertices@ == vertices
    &&& mesh.indices@ == indices
    &&& mesh.index_count == indices.len()
    &&& mesh.is_dirty
}

/// Whether a mesh is the fresh mesh of a chunk inside a world.
pub open spec fn is_mesh_of(mesh: Mesh, chunk: Chunk, chunks: Map<Coord, Chunk>) -> bool {
    holds_geometry(mesh, chunk_mesh(chunk, chunks).0, chunk_mesh(chunk, chunks).1)
}

/// Whether `after` is `before` with geometry taken for the chunk at `key`:
/// where the chunk is loaded, the geometry is its mesh and the chunk is
/// stale no more, and nothing else differs; where it is not, nothing
/// differs at all.
pub open spec fn mesh_set(
    before: World,
    after: World,
    key: Coord,
    vertices: Seq<Vertex>,
    indices: Seq<u32>,
) -> bool {
    if !before.chunks@.contains_key(key) {
        after == before
    } else {
        &&& after.seed == before.seed
        &&& after.need_to_load@ == before.need_to_load@
        &&& after.chunks@ == before.chunks@.insert(key, with_dirty(before.chunks@[key], false))
        &&& after.meshes@.dom() == before.meshes@.dom().insert(key)
        &&& forall|k: Coord| #[trigger]
            before.meshes@.contains_key(k) && k != key ==> after.meshes@[k] == before.meshes@[k]
        &&& holds_geometry(after.meshes@[key], vertices, indices)
        &&& forall|k: Coord|
            #![trigger after.dirty_chunks@.contains(k)]
            #![trigger before.dirty_chunks@.contains(k)]
            after.dirty_chunks@.contains(k) == (before.dirty_chunks@.contains(k) && k != key)
    }
}

/// Whether `after` is `before` with every stale chunk meshed anew: no
/// chunk is stale; each chunk that was has a fresh mesh of its blocks, in
/// place of its earlier mesh if it had one; the other meshes, the blocks,
/// the queue and the seed are as they were.
pub open spec fn remeshed(before: World, after: World) -> bool {
    &&& after.dirty_chunks@.len() == 0
    &&& after.seed == before.seed
    &&& after.need_to_load@ == before.need_to_load@
    &&& forall|k: Coord|
        #![trigger after.chunks@.contains_key(k)]
        #![trigger before.chunks@.contains_key(k)]
        after.chunks@.contains_key(k) == before.chunks@.contains_key(k)
    &&& forall|k: Coord| #[trigger]
        before.chunks@.contains_key(k) ==> after.chunks@[k] == with_dirty(
            before.chunks@[k],
            false,
        )
    &&& forall|k: Coord|
        #![trigger after.meshes@.contains_key(k)]
        after.meshes@.contains_key(k) == (before.meshes@.contains_key(k)
            || before.dirty_chunks@.contains(k))
    &&& forall|k: Coord| #[trigger]
        before.dirty_chunks@.contains(k) ==> is_mesh_of(
            after.meshes@[k],
            before.chunks@[k],
            before.chunks@,
        )
    &&& forall|k: Coord| #[trigger]
        before.meshes@.contains_key(k) && !before.dirty_chunks@.contains(k) ==> after.meshes@[k]
            == before.meshes@[k]
}

/// Whether the cell one step from `pos` along `dir` is open: air, or in a
/// chunk that is not loaded or not rendered, or beyond the coordinates that
/// the world can hold.
pub open spec fn step_is_open(
    chunks: Map<Coord, Chunk>,
    pos: Coord,
    dir: Coord,
) -> bool {
    let x = pos.0 + dir.0;
    let y = pos.1 + dir.1;
    let z = pos.2 + dir.2;
    if i64::MIN <= x <= i64::MAX && i64::MIN <= y <= i64::MAX && i64::MIN <= z <= i64::MAX {
        let neighbor = (x as i64, y as i64, z as i64);
        let key = chunk_coord_of(neighbor);
        if chunks.contains_key(key) && chunks[key].is_rendered {
            world_block(chunks, neighbor).unwrap().is_air()
        } else {
            true
        }
    } else {
        true
    }
}

/// The voxel world around the observer.
pub struct World {
    /// The loaded chunks, each under its own coordinate.
    pub chunks: ChunkMap,
    /// The mesh of every chunk that has been meshed and is still loaded.
    pub meshes: MeshMap,
    /// The seed handed to the terrain generator.
    pub seed: u32,
    /// The loaded chunks whose mesh is stale, each listed once.
    pub dirty_chunks: Vec<Coord>,
    /// The coordinates waiting for terrain generation, most urgent first.
    pub need_to_load: VecDeque<Coord>,
}

impl World {
    /// The invariant of the world's tables.
    pub open spec fn wf(&self) -> bool {
        &&& forall|k: Coord| #[trigger]
            self.chunks@.contains_key(k) ==> self.chunks@[k].pos == k && valid_chunk_coord(k)
        &&& forall|k: Coord| #[trigger]
            self.chunks@.contains_key(k) ==> self.chunks@[k].is_dirty == self.dirty_chunks@.contains(k)
        &&& self.dirty_chunks@.no_duplicates()
        &&& forall|k: Coord| #[trigger]
            self.dirty_chunks@.contains(k) ==> self.chunks@.contains_key(k)
        &&& forall|k: Coord| #[trigger]
            self.meshes@.contains_key(k) ==> self.chunks@.contains_key(k) && self.meshes@[k].wf()
        &&& forall|i: int|
            0 <= i < self.need_to_load@.len() ==> valid_chunk_coord(#[trigger] self.need_to_load@[i])
    }

    /// An empty world: nothing loaded, nothing meshed, nothing queued.
    pub fn new(seed: u32) -> (r: Self)
        ensures
            r.wf(),
            r.seed == seed,
            forall|k: Coord| !r.chunks@.contains_key(k),
            forall|k: Coord| !r.meshes@.contains_key(k),
            r.dirty_chunks@.len() == 0,
            r.need_to_load@.len() == 0,
    {
        Self {
            chunks: chunk_map_new(),
            meshes: mesh_map_new(),
            seed,
            dirty_chunks: Vec::new(),
            need_to_load: VecDeque::new(),
        }
    }

    /// Loads the chunk at a coordinate from the terrain generator, unless it
    /// is loaded already.
    pub fn load_chunk<G: Fn(Coord, u32) -> [Block; CHUNK_VOLUME]>(
        &mut self,
        x: i64,
        y: i64,
        z: i64,
        generate: &G,
    )
        requires
            old(self).wf(),
            valid_chunk_coord((x, y, z)),
            generate.requires(((x, y, z), old(self).seed)),
        ensures
            final(self).wf(),
            old(self).chunks@.contains_key((x, y, z)) ==> *final(self) == *old(self),
            !old(self).chunks@.contains_key((x, y, z)) ==> inserted(*old(self), *final(self), (x, y, z)) && generate.ensures(
                ((x, y, z), old(self).seed),
                final(self).chunks@[(x, y, z)].blocks,
            ) && final(self).chunks@[(x, y, z)].is_rendered,
    {
        let key = (x, y, z);
        if !chunk_map_contains(&self.chunks, key) {
            let chunk = Chunk::terrain_gen(key, self.seed, generate);
            self.insert_chunk(chunk);
        }
    }

    /// Marks a chunk stale, if it is loaded.
    pub fn mark_dirty(&mut self, key: Coord)
        requires
            old(self).wf(),
        ensures
            final(self).wf(),
            same_but_dirty(*old(self), *final(self)),
            forall|k: Coord|
                #![trigger final(self).dirty_chunks@.contains(k)]
                #![trigger old(self).dirty_chunks@.contains(k)]
                final(self).dirty_chunks@.contains(k) == (old(self).dirty_chunks@.contains(k) || (k == key
                    && old(self).chunks@.contains_key(k))),
    {
        let mut fresh = false;
        match chunk_map_get_mut(&mut self.chunks, key) {
            Some(chunk) => {
                if !chunk.is_dirty {
                    chunk.is_dirty = true;
                    fresh = true;
                }
            },
            None => {},
        }
        proof {
            assert forall|k: Coord| #[trigger] self.chunks@.contains_key(k) implies old(self).chunks@.contains_key(
                k,
            ) && self.chunks@[k] == with_dirty(
                old(self).chunks@[k],
                old(self).chunks@[k].is_dirty || k == key,
            ) by {}
            assert forall|k: Coord| #[trigger] old(self).chunks@.contains_key(k) implies self.chunks@.contains_key(
                k,
            ) by {}
        }
        if fresh {
            push_coord(&mut self.dirty_chunks, key);
        }
    }

    /// Takes a generated chunk into the world, under its own coordinate and
    /// in place of any chunk loaded there: the chunk itself and its loaded
    /// neighbours across the six faces become stale, since a new chunk can
    /// change which of their faces are exposed.
    pub fn insert_chunk(&mut self, chunk: Chunk)
        requires
            old(self).wf(),
            valid_chunk_coord(chunk.pos),
        ensures
            final(self).wf(),
            inserted(*old(self), *final(self), chunk.pos),
            final(self).chunks@[chunk.pos] == with_dirty(chunk, true),
    {
        let key = chunk.pos;
        let mut chunk = chunk;
        chunk.is_dirty = true;
        let was_dirty = match chunk_map_insert(&mut self.chunks, key, chunk) {
            Some(replaced) => replaced.is_dirty,
            None => false,
        };
        proof {
            if old(self).chunks@.contains_key(key) {
                assert(was_dirty == old(self).dirty_chunks@.contains(key));
            } else if old(self).dirty_chunks@.contains(key) {
                assert(old(self).chunks@.contains_key(key));
            }
        }
        if !was_dirty {
            push_coord(&mut self.dirty_chunks, key);
        }
        let ghost mid = *self;
        proof {
            assert forall|k: Coord| #[trigger] self.chunks@.contains_key(k) implies (k == key
                || old(self).chunks@.contains_key(k)) && self.chunks@[k] == (if k == key {
                chunk
            } else {
                old(self).chunks@[k]
            }) by {}
            assert forall|k: Coord| #[trigger] old(self).chunks@.contains_key(k) implies self.chunks@.contains_key(
                k,
            ) by {}
            assert(self.chunks@.contains_key(key));
        }
        self.mark_neighbors_dirty(key);
        proof {
            assert forall|k: Coord| #[trigger] old(self).chunks@.contains_key(k) && k != key implies self.chunks@[k]
                == with_dirty(old(self).chunks@[k], self.chunks@[k].is_dirty) by {
                assert(mid.chunks@.contains_key(k));
            }
            assert(mid.chunks@.contains_key(key));
        }
    }

    /// Unloads the chunk at a coordinate: the chunk, its mesh and its stale
    /// mark leave the world together.
    pub fn drop_chunk(&mut self, key: Coord)
        requires
            old(self).wf(),
        ensures
            final(self).wf(),
            final(self).chunks@ == old(self).chunks@.remove(key),
            final(self).meshes@ == old(self).meshes@.remove(key),
            forall|k: Coord|
                #![trigger final(self).dirty_chunks@.contains(k)]
                #![trigger old(self).dirty_chunks@.contains(k)]
                final(self).dirty_chunks@.contains(k) == (old(self).dirty_chunks@.contains(k) && k != key),
            final(self).need_to_load@ == old(self).need_to_load@,
            final(self).seed == old(self).seed,
    {
        chunk_map_remove(&mut self.chunks, key);
        mesh_map_remove(&mut self.meshes, key);
        remove_coord(&mut self.dirty_chunks, key);
        proof {
            assert forall|k: Coord| #[trigger] self.chunks@.contains_key(k) implies old(self).chunks@.contains_key(k)
                && self.chunks@[k] == old(self).chunks@[k] by {}
            assert forall|k: Coord| #[trigger] self.meshes@.contains_key(k) implies old(self).meshes@.contains_key(k)
                && self.meshes@[k] == old(self).meshes@[k] by {}
        }
    }

    /// Stores geometry as the mesh of a loaded chunk, in place of its mesh if
    /// it has one, and clears the chunk's own stale flag. The list of stale
    /// chunks is left as it is.
    fn store_mesh(&mut self, key: Coord, vertices: Vec<Vertex>, indices: Vec<u32>)
        requires
            old(self).chunks@.contains_key(key),
            indices@.len() <= u32::MAX,
        ensures
            final(self).seed == old(self).seed,
            final(self).need_to_load@ == old(self).need_to_load@,
            final(self).dirty_chunks@ == old(self).dirty_chunks@,
            final(self).chunks@ == old(self).chunks@.insert(key, with_dirty(old(self).chunks@[key], false)),
            final(self).meshes@.dom() == old(self).meshes@.dom().insert(key),
            forall|k: Coord| #[trigger]
                old(self).meshes@.contains_key(k) && k != key ==> final(self).meshes@[k] == old(self).meshes@[k],
            holds_geometry(final(self).meshes@[key], vertices@, indices@),
    {
        match mesh_map_remove(&mut self.meshes, key) {
            Some(mesh) => {
                let mut mesh = mesh;
                mesh.update(vertices, indices);
                mesh_map_insert(&mut self.meshes, key, mesh);
            },
            None => {
                mesh_map_insert(&mut self.meshes, key, Mesh::new(vertices, indices));
            },
        }
        match chunk_map_get_mut(&mut self.chunks, key) {
            Some(chunk) => {
                chunk.is_dirty = false;
            },
            None => {},
        }
        proof {
            assert(self.meshes@.dom() =~= old(self).meshes@.dom().insert(key));
        }
    }

    /// Takes geometry that was generated for a loaded chunk: it becomes the
    /// chunk's mesh, in place of its mesh if it has one, and the chunk is
    /// stale no more. Geometry for a chunk that is not loaded is dropped.
    pub fn set_mesh(&mut self, key: Coord, vertices: Vec<Vertex>, indices: Vec<u32>)
        requires
            old(self).wf(),
            indices@.len() <= u32::MAX,
        ensures
            final(self).wf(),
            mesh_set(*old(self), *final(self), key, vertices@, indices@),
    {
        if !chunk_map_contains(&self.chunks, key) {
            return ;
        }
        self.store_mesh(key, vertices, indices);
        remove_coord(&mut self.dirty_chunks, key);
        proof {
            assert forall|k: Coord| #[trigger] self.chunks@.contains_key(k) implies old(self).chunks@.contains_key(
                k,
            ) && self.chunks@[k] == with_dirty(old(self).chunks@[k], old(self).chunks@[k].is_dirty && k != key) by {}
            assert forall|k: Coord| #[trigger] old(self).chunks@.contains_key(k) implies self.chunks@.contains_key(
                k,
            ) by {}
            assert forall|k: Coord| #[trigger] self.meshes@.contains_key(k) implies (old(self).meshes@.contains_key(
                k,
            ) || k == key) && self.meshes@[k].wf() by {
                if k != key {
                    assert(old(self).meshes@.contains_key(k));
                }
            }
        }
    }

    /// Brings the mesh of one loaded chunk up to date: the geometry is
    /// generated anew and stored as the chunk's mesh, and the chunk's own
    /// stale flag is cleared. The list of stale chunks is left as it is.
    fn remesh(&mut self, key: Coord)
        requires
            old(self).chunks@.contains_key(key),
            valid_chunk_coord(old(self).chunks@[key].pos),
        ensures
            final(self).seed == old(self).seed,
            final(self).need_to_load@ == old(self).need_to_load@,
            final(self).dirty_chunks@ == old(self).dirty_chunks@,
            final(self).chunks@ == old(self).chunks@.insert(key, with_dirty(old(self).chunks@[key], false)),
            final(self).meshes@.dom() == old(self).meshes@.dom().insert(key),
            forall|k: Coord| #[trigger]
                old(self).meshes@.contains_key(k) && k != key ==> final(self).meshes@[k] == old(self).meshes@[k],
            is_mesh_of(final(self).meshes@[key], old(self).chunks@[key], old(self).chunks@),
    {
        let (vertices, indices) = match chunk_map_get(&self.chunks, key) {
            Some(chunk) => chunk.generate_mesh(self),
            None => (Vec::new(), Vec::new()),
        };
        self.store_mesh(key, vertices, indices);
    }

    /// Regenerates the mesh of every stale chunk. Each gets the geometry of
    /// its blocks as they stand, in place of its earlier mesh if it had one,
    /// and is stale no more. Returns the coordinates whose mesh was
    /// replaced, for whoever draws them.
    pub fn update_meshes(&mut self) -> (updated: Vec<Coord>)
        requires
            old(self).wf(),
        ensures
            final(self).wf(),
            updated@ == old(self).dirty_chunks@,
            remeshed(*old(self), *final(self)),
    {
        let mut dirty: Vec<Coord> = Vec::new();
        std::mem::swap(&mut dirty, &mut self.dirty_chunks);
        let mut i: usize = 0;
        while i < dirty.len()
            invariant
                i <= dirty@.len(),
                old(self).wf(),
                dirty@ == old(self).dirty_chunks@,
                self.dirty_chunks@.len() == 0,
                self.seed == old(self).seed,
                self.need_to_load@ == old(self).need_to_load@,
                forall|k: Coord|
                    #![trigger self.chunks@.contains_key(k)]
                    #![trigger old(self).chunks@.contains_key(k)]
                    self.chunks@.contains_key(k) == old(self).chunks@.contains_key(k),
                forall|k: Coord| #[trigger]
                    old(self).chunks@.contains_key(k) ==> self.chunks@[k] == with_dirty(
                        old(self).chunks@[k],
                        old(self).chunks@[k].is_dirty && !listed_upto(dirty@, i as int, k),
                    ),
                forall|k: Coord|
                    #![trigger self.meshes@.contains_key(k)]
                    self.meshes@.contains_key(k) == (old(self).meshes@.contains_key(k) || listed_upto(
                        dirty@,
                        i as int,
                        k,
                    )),
                forall|k: Coord| #[trigger]
                    listed_upto(dirty@, i as int, k) ==> is_mesh_of(
                        self.meshes@[k],
                        old(self).chunks@[k],
                        old(self).chunks@,
                    ),
                forall|k: Coord| #[trigger]
                    old(self).meshes@.contains_key(k) && !listed_upto(dirty@, i as int, k)
                        ==> self.meshes@[k] == old(self).meshes@[k],
            decreases dirty@.len() - i,
        {
            let key = dirty[i];
            let ghost before = *self;
            proof {
                assert(old(self).dirty_chunks@.contains(key));
                assert(old(self).chunks@.contains_key(key));
                assert(self.chunks@.contains_key(key));
                lemma_listed_next(dirty@, i as int);
                assert(same_blocks(before.chunks@, old(self).chunks@));
                lemma_remesh_unchanged(
                    before.chunks@[key],
                    before.chunks@,
                    old(self).chunks@[key],
                    old(self).chunks@,
                );
            }
            self.remesh(key);
            proof {
                assert forall|k: Coord| #[trigger] self.chunks@.contains_key(k) implies before.chunks@.contains_key(
                    k,
                ) by {}
                assert forall|k: Coord| #[trigger] before.chunks@.contains_key(k) implies self.chunks@.contains_key(
                    k,
                ) by {}
                assert forall|k: Coord| #[trigger] self.meshes@.contains_key(k) implies before.meshes@.contains_key(
                    k,
                ) || k == key by {}
                assert forall|k: Coord| #[trigger] before.meshes@.contains_key(k) implies self.meshes@.contains_key(
                    k,
                ) by {}
                assert(self.meshes@.contains_key(key));
                assert forall|k: Coord| #[trigger] listed_upto(dirty@, i + 1, k) implies is_mesh_of(
                    self.meshes@[k],
                    old(self).chunks@[k],
                    old(self).chunks@,
                ) by {
                    if k != key {
                        assert(listed_upto(dirty@, i as int, k));
                        assert(before.meshes@.contains_key(k));
                    }
                }
                assert forall|k: Coord| #[trigger]
                    old(self).meshes@.contains_key(k) && !listed_upto(dirty@, i + 1, k) implies self.meshes@[k]
                    == old(self).meshes@[k] by {
                    assert(before.meshes@.contains_key(k));
                    assert(!listed_upto(dirty@, i as int, k));
                }
            }
            i += 1;
        }
        proof {
            lemma_listed_all(dirty@);
            assert forall|k: Coord| #[trigger] self.chunks@.contains_key(k) implies self.chunks@[k]
                == with_dirty(old(self).chunks@[k], false) by {
                assert(old(self).chunks@.contains_key(k));
                assert(old(self).chunks@[k].is_dirty == old(self).dirty_chunks@.contains(k));
            }
            assert forall|k: Coord| #[trigger] self.meshes@.contains_key(k) implies self.chunks@.contains_key(
                k,
            ) && self.meshes@[k].wf() by {
                if old(self).dirty_chunks@.contains(k) {
                    assert(old(self).chunks@.contains_key(k));
                    assert(listed_upto(dirty@, dirty@.len() as int, k));
                } else {
                    assert(!listed_upto(dirty@, dirty@.len() as int, k));
                    assert(old(self).meshes@.contains_key(k));
                }
            }
            assert forall|k: Coord| #[trigger] self.chunks@.contains_key(k) implies self.chunks@[k].pos
                == k && valid_chunk_coord(k) && self.chunks@[k].is_dirty == self.dirty_chunks@.contains(k) by {
                assert(old(self).chunks@.contains_key(k));
            }
        }
        dirty
    }

    /// The mesh of the chunk at a coordinate, if it has one.
    pub fn get_mesh(&self, key: Coord) -> (r: Option<&Mesh>)
        ensures
            r.is_some() == self.meshes@.contains_key(key),
            r.is_some() ==> *r.unwrap() == self.meshes@[key],
    {
        mesh_map_get(&self.meshes, key)
    }

    /// Whether the cell one step from `pos` along `dir` is open: air, or in a
    /// chunk that is not loaded or not rendered, or beyond the coordinates
    /// that the world can hold.
    pub fn is_face_exposed(&self, pos: Coord, dir: Coord) -> (r: bool)
        ensures
            r == step_is_open(self.chunks@, pos, dir),
    {
        let nx = pos.0.checked_add(dir.0);
        let ny = pos.1.checked_add(dir.1);
        let nz = pos.2.checked_add(dir.2);
        match (nx, ny, nz) {
            (Some(x), Some(y), Some(z)) => {
                let neighbor = (x, y, z);
                match self.get_chunk(neighbor) {
                    Some(chunk) => {
                        if chunk.is_rendered {
                            chunk.get_from_world_pos(neighbor).is_transpose()
                        } else {
                            true
                        }
                    },
                    None => true,
                }
            },
            _ => true,
        }
    }

    /// The loaded chunk that owns the block at an absolute coordinate, found
    /// by the Euclidean quotient of each component by the chunk size.
    pub fn get_chunk(&self, world_pos: Coord) -> (r: Option<&Chunk>)
        ensures
            r.is_some() == self.chunks@.contains_key(chunk_coord_of(world_pos)),
            r.is_some() ==> *r.unwrap() == self.chunks@[chunk_coord_of(world_pos)],
    {
        let chunk_idx = (
            chunk_component(world_pos.0),
            chunk_component(world_pos.1),
            chunk_component(world_pos.2),
        );
        chunk_map_get(&self.chunks, chunk_idx)
    }

    /// The block at an absolute coordinate, or nothing where no chunk is
    /// loaded.
    pub fn get_block(&self, world_pos: Coord) -> (r: Option<Block>)
        ensures
            r == world_block(self.chunks@, world_pos),
    {
        match self.get_chunk(world_pos) {
            Some(chunk) => Some(chunk.get_from_world_pos(world_pos)),
            None => None,
        }
    }
}

} // verus!
