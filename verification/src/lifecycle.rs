//! The life of a chunk coordinate: unloaded, queued, loaded and stale,
//! loaded and clean, and unloaded again.

use vstd::prelude::*;
use crate::block::Block;
use crate::chunk::{valid_chunk_coord, Coord, CHUNK_VOLUME};
use crate::load_order::in_load_range;
use crate::loading::{collected, is_far, queue_contains, streamed, unloaded, wanted};
use crate::storage::chunk_map_get;
use crate::world::{adjacent, inserted, mesh_set, remeshed, World};

verus! {

/// Where a chunk coordinate stands.
#[derive(Debug, Clone, Copy, PartialEq, Eq, Structural)]
pub enum ChunkState {
    /// Not loaded and not waiting to be.
    Unloaded,
    /// Waiting in the load queue.
    Queued,
    /// Loaded, with a mesh that is stale or missing.
    LoadedDirty,
    /// Loaded, with a mesh of its blocks as they stand.
    LoadedClean,
}

/// The state of a coordinate in a world.
pub open spec fn state_of(world: World, key: Coord) -> ChunkState {
    if world.chunks@.contains_key(key) {
        if world.dirty_chunks@.contains(key) {
            ChunkState::LoadedDirty
        } else {
            ChunkState::LoadedClean
        }
    } else if world.need_to_load@.contains(key) {
        ChunkState::Queued
    } else {
        ChunkState::Unloaded
    }
}

impl World {
    /// The state of a coordinate.
    pub fn chunk_state(&self, key: Coord) -> (r: ChunkState)
        requires
            self.wf(),
        ensures
            r == state_of(*self, key),
    {
        match chunk_map_get(&self.chunks, key) {
            Some(chunk) => {
                if chunk.is_dirty {
                    ChunkState::LoadedDirty
                } else {
                    ChunkState::LoadedClean
                }
            },
            None => {
                if queue_contains(&self.need_to_load, key) {
                    ChunkState::Queued
                } else {
                    ChunkState::Unloaded
                }
            },
        }
    }
}

/// Rebuilding the queue moves coordinates between unloaded and queued, and
/// nothing else: a loaded chunk stays as it is; any other coordinate is
/// queued if it lies inside the load distance, whether it was queued before
/// or not, and unloaded if it does not.
pub proof fn lemma_collecting_queues(
    before: World,
    after: World,
    player_chunk: Coord,
    camera_dir: (i32, i32, i32),
    key: Coord,
)
    requires
        collected(before, after, player_chunk, camera_dir),
    ensures
        before.chunks@.contains_key(key) ==> state_of(after, key) == state_of(before, key),
        !before.chunks@.contains_key(key) ==> state_of(after, key) == (if wanted(before, key, player_chunk) {
            ChunkState::Queued
        } else {
            ChunkState::Unloaded
        }),
        state_of(before, key) == ChunkState::Queued && in_load_range(key, player_chunk) && valid_chunk_coord(
            key,
        ) ==> state_of(after, key) == ChunkState::Queued,
{
    assert(after.need_to_load@.contains(key) == wanted(before, key, player_chunk));
}

/// Taking a chunk into the world makes it loaded and stale, makes its
/// loaded neighbours across a face stale, and leaves every other
/// coordinate as it is.
pub proof fn lemma_inserting_loads(before: World, after: World, at: Coord, key: Coord)
    requires
        inserted(before, after, at),
    ensures
        key == at ==> state_of(after, key) == ChunkState::LoadedDirty,
        key != at && adjacent(key, at) && before.chunks@.contains_key(key) ==> state_of(after, key)
            == ChunkState::LoadedDirty,
        key != at && !(adjacent(key, at) && before.chunks@.contains_key(key)) ==> state_of(after, key)
            == state_of(before, key),
{
    assert(after.chunks@.contains_key(key) == (before.chunks@.contains_key(key) || key == at));
    assert(after.dirty_chunks@.contains(key) == (before.dirty_chunks@.contains(key) || key == at || (adjacent(
        key,
        at,
    ) && before.chunks@.contains_key(key))));
}

/// Loading makes every chunk that was loaded from the queue loaded and
/// stale.
pub proof fn lemma_streaming_loads<G: Fn(Coord, u32) -> [Block; CHUNK_VOLUME]>(
    before: World,
    after: World,
    keys: Seq<Coord>,
    generate: G,
    key: Coord,
)
    requires
        streamed(before, after, keys, generate),
        keys.contains(key),
    ensures
        state_of(after, key) == ChunkState::LoadedDirty,
{
    assert(after.chunks@.contains_key(key) == (before.chunks@.contains_key(key) || keys.contains(key)));
    assert(after.dirty_chunks@.contains(key));
}

/// Meshing the stale chunks makes every loaded chunk clean, and leaves the
/// coordinates that are not loaded as they are.
pub proof fn lemma_remeshing_cleans(before: World, after: World, key: Coord)
    requires
        remeshed(before, after),
    ensures
        before.chunks@.contains_key(key) ==> state_of(after, key) == ChunkState::LoadedClean,
        !before.chunks@.contains_key(key) ==> state_of(after, key) == state_of(before, key),
{
    assert(after.chunks@.contains_key(key) == before.chunks@.contains_key(key));
    if after.dirty_chunks@.contains(key) {
        let j = choose|j: int| 0 <= j < after.dirty_chunks@.len() && after.dirty_chunks@[j] == key;
    }
}

/// Geometry taken for a loaded chunk makes that chunk clean, and leaves
/// every other coordinate as it is.
pub proof fn lemma_mesh_cleans(
    before: World,
    after: World,
    at: Coord,
    vertices: Seq<crate::mesh::Vertex>,
    indices: Seq<u32>,
    key: Coord,
)
    requires
        mesh_set(before, after, at, vertices, indices),
    ensures
        key == at && before.chunks@.contains_key(at) ==> state_of(after, key) == ChunkState::LoadedClean,
        !(key == at && before.chunks@.contains_key(at)) ==> state_of(after, key) == state_of(before, key),
{
    if before.chunks@.contains_key(at) {
        assert(after.dirty_chunks@.contains(key) == (before.dirty_chunks@.contains(key) && key != at));
    }
}

/// Unloading takes the far chunks out of the world whatever state they were
/// in, and leaves every other coordinate as it is.
pub proof fn lemma_unloading_unloads(
    before: World,
    after: World,
    player_chunk: Coord,
    key: Coord,
)
    requires
        unloaded(before, after, player_chunk),
    ensures
        before.chunks@.contains_key(key) && is_far(key, player_chunk) ==> !after.chunks@.contains_key(key)
            && !after.meshes@.contains_key(key) && !after.dirty_chunks@.contains(key) && state_of(
            after,
            key,
        ) == (if before.need_to_load@.contains(key) {
            ChunkState::Queued
        } else {
            ChunkState::Unloaded
        }),
        !(before.chunks@.contains_key(key) && is_far(key, player_chunk)) ==> state_of(after, key)
            == state_of(before, key),
{
    assert(after.chunks@.contains_key(key) == (before.chunks@.contains_key(key) && !is_far(key, player_chunk)));
    assert(after.meshes@.contains_key(key) == (before.meshes@.contains_key(key) && !is_far(key, player_chunk)));
    assert(after.dirty_chunks@.contains(key) == (before.dirty_chunks@.contains(key) && !is_far(
        key,
        player_chunk,
    )));
}

} // verus!
