//! The world's two coordinate-keyed tables, kept in `hashbrown` hash maps.
//!
//! Verus does not look inside the hash maps. Each table is described by the
//! mathematical map it holds, and every operation used on it is a small
//! function whose contract is taken on trust from `hashbrown`'s documented
//! behaviour.

use vstd::prelude::*;
use crate::chunk::Chunk;
use crate::mesh::Mesh;

verus! {

/// The table of loaded chunks, keyed by chunk coordinate.
#[verifier::external_body]
pub struct ChunkMap {
    inner: hashbrown::HashMap<(i64, i64, i64), Chunk>,
}

/// The table of chunk meshes, keyed by chunk coordinate.
#[verifier::external_body]
pub struct MeshMap {
    inner: hashbrown::HashMap<(i64, i64, i64), Mesh>,
}

/// The key-value pairs that a chunk table holds.
pub uninterp spec fn chunk_map_contents(m: ChunkMap) -> Map<(i64, i64, i64), Chunk>;

/// The key-value pairs that a mesh table holds.
pub uninterp spec fn mesh_map_contents(m: MeshMap) -> Map<(i64, i64, i64), Mesh>;

impl View for ChunkMap {
    type V = Map<(i64, i64, i64), Chunk>;

    open spec fn view(&self) -> Map<(i64, i64, i64), Chunk> {
        chunk_map_contents(*self)
    }
}

impl View for MeshMap {
    type V = Map<(i64, i64, i64), Mesh>;

    open spec fn view(&self) -> Map<(i64, i64, i64), Mesh> {
        mesh_map_contents(*self)
    }
}

/// `hashbrown::HashMap::new`: the new table holds no key.
#[verifier::external_body]
pub(crate) fn chunk_map_new() -> (r: ChunkMap)
    ensures
        forall|k: (i64, i64, i64)| !chunk_map_contents(r).contains_key(k),
{
    ChunkMap { inner: hashbrown::HashMap::new() }
}

/// `hashbrown::HashMap::contains_key`: whether the table holds the key.
#[verifier::external_body]
pub(crate) fn chunk_map_contains(m: &ChunkMap, key: (i64, i64, i64)) -> (r: bool)
    ensures
        r == chunk_map_contents(*m).contains_key(key),
{
    m.inner.contains_key(&key)
}

/// `hashbrown::HashMap::get`: a reference to the value stored under the key,
/// or nothing when the table does not hold the key.
#[verifier::external_body]
pub(crate) fn chunk_map_get<'a>(m: &'a ChunkMap, key: (i64, i64, i64)) -> (r: Option<&'a Chunk>)
    ensures
        r.is_some() == chunk_map_contents(*m).contains_key(key),
        r.is_some() ==> *r.unwrap() == chunk_map_contents(*m)[key],
{
    m.inner.get(&key)
}

/// `hashbrown::HashMap::get_mut`: a mutable reference to the value stored
/// under the key, or nothing when the table does not hold the key. Whatever
/// is written through the reference is what the table holds under the key
/// afterwards; nothing else changes.
#[verifier::external_body]
pub(crate) fn chunk_map_get_mut<'a>(m: &'a mut ChunkMap, key: (i64, i64, i64)) -> (r: Option<
    &'a mut Chunk,
>)
    ensures
        match r {
            Some(value) => chunk_map_contents(*old(m)).contains_key(key) && *value == chunk_map_contents(
                *old(m),
            )[key] && chunk_map_contents(*final(m)) == chunk_map_contents(*old(m)).insert(
                key,
                *final(value),
            ),
            None => !chunk_map_contents(*old(m)).contains_key(key) && chunk_map_contents(*final(m))
                == chunk_map_contents(*old(m)),
        },
{
    m.inner.get_mut(&key)
}

/// `hashbrown::HashMap::insert`: afterwards the table holds the value under
/// the key, whether or not it held the key before, and the returned value is
/// the one that was stored under the key before, if any.
#[verifier::external_body]
pub(crate) fn chunk_map_insert(m: &mut ChunkMap, key: (i64, i64, i64), value: Chunk) -> (r: Option<
    Chunk,
>)
    ensures
        chunk_map_contents(*final(m)) == chunk_map_contents(*old(m)).insert(key, value),
        r.is_some() == chunk_map_contents(*old(m)).contains_key(key),
        r.is_some() ==> r.unwrap() == chunk_map_contents(*old(m))[key],
{
    m.inner.insert(key, value)
}

/// `hashbrown::HashMap::remove`: afterwards the table no longer holds the
/// key, and the returned value is the one that was stored under it, if any.
#[verifier::external_body]
pub(crate) fn chunk_map_remove(m: &mut ChunkMap, key: (i64, i64, i64)) -> (r: Option<Chunk>)
    ensures
        chunk_map_contents(*final(m)) == chunk_map_contents(*old(m)).remove(key),
        r.is_some() == chunk_map_contents(*old(m)).contains_key(key),
        r.is_some() ==> r.unwrap() == chunk_map_contents(*old(m))[key],
{
    m.inner.remove(&key)
}

/// `hashbrown::HashMap::keys`, collected: every key of the table exactly
/// once, in an order that is not specified.
#[verifier::external_body]
pub(crate) fn chunk_map_keys(m: &ChunkMap) -> (r: Vec<(i64, i64, i64)>)
    ensures
        r@.no_duplicates(),
        forall|k: (i64, i64, i64)| r@.contains(k) == chunk_map_contents(*m).contains_key(k),
{
    m.inner.keys().copied().collect()
}

/// `hashbrown::HashMap::new`: the new table holds no key.
#[verifier::external_body]
pub(crate) fn mesh_map_new() -> (r: MeshMap)
    ensures
        forall|k: (i64, i64, i64)| !mesh_map_contents(r).contains_key(k),
{
    MeshMap { inner: hashbrown::HashMap::new() }
}

/// `hashbrown::HashMap::get`: a reference to the value stored under the key,
/// or nothing when the table does not hold the key.
#[verifier::external_body]
pub(crate) fn mesh_map_get<'a>(m: &'a MeshMap, key: (i64, i64, i64)) -> (r: Option<&'a Mesh>)
    ensures
        r.is_some() == mesh_map_contents(*m).contains_key(key),
        r.is_some() ==> *r.unwrap() == mesh_map_contents(*m)[key],
{
    m.inner.get(&key)
}

/// `hashbrown::HashMap::insert`: afterwards the table holds the value under
/// the key, whether or not it held the key before, and the returned value is
/// the one that was stored under the key before, if any.
#[verifier::external_body]
pub(crate) fn mesh_map_insert(m: &mut MeshMap, key: (i64, i64, i64), value: Mesh) -> (r: Option<
    Mesh,
>)
    ensures
        mesh_map_contents(*final(m)) == mesh_map_contents(*old(m)).insert(key, value),
        r.is_some() == mesh_map_contents(*old(m)).contains_key(key),
        r.is_some() ==> r.unwrap() == mesh_map_contents(*old(m))[key],
{
    m.inner.insert(key, value)
}

/// `hashbrown::HashMap::remove`: afterwards the table no longer holds the
/// key, and the returned value is the one that was stored under it, if any.
#[verifier::external_body]
pub(crate) fn mesh_map_remove(m: &mut MeshMap, key: (i64, i64, i64)) -> (r: Option<Mesh>)
    ensures
        mesh_map_contents(*final(m)) == mesh_map_contents(*old(m)).remove(key),
        r.is_some() == mesh_map_contents(*old(m)).contains_key(key),
        r.is_some() ==> r.unwrap() == mesh_map_contents(*old(m))[key],
{
    m.inner.remove(&key)
}

} // verus!
