//! Streaming: which chunks are loaded around the observer, and which become
//! stale.

use vstd::prelude::*;
use crate::block::Block;
use crate::clock::{clock_elapsed, clock_now, span_nanos};
use crate::chunk::{valid_chunk_coord, Chunk, CHUNK_VOLUME, Coord, MAX_CHUNK_COORD};
use std::collections::VecDeque;
use crate::load_order::{
    lemma_load_order_has_no_duplicates,
    in_load_range, in_scan_order, queue_in_load_order, scan_pos, sort_range,
};
use crate::priority::{calculate_loading_priority, loading_priority};
use crate::storage::{chunk_map_contains, chunk_map_keys};
use crate::world::{
    adjacent, inserted, lemma_listed_all, lemma_listed_next, listed_upto, remeshed, same_but_dirty,
    with_dirty, World,
};

verus! {

/// How far from the observer, in chunks along `x` and `y`, chunks are
/// loaded.
pub const LOAD_DISTANCE: i64 = 20;

/// How far from the observer, in chunks along `z`, chunks are loaded.
pub const LOAD_DISTANCE_Z: i64 = 5;

/// How far from the observer, in chunks in the horizontal plane, a loaded
/// chunk is kept.
pub const UNLOAD_DISTANCE: i64 = 40;

/// How far from the observer, in chunks along `z`, a loaded chunk is kept.
pub const UNLOAD_DISTANCE_Z: i64 = 15;

/// Whether a chunk is too far from the observer's chunk to stay loaded:
/// its squared horizontal distance is beyond the square of the unload
/// distance, or its vertical distance is beyond the vertical unload
/// distance.
pub open spec fn is_far(key: Coord, player_chunk: Coord) -> bool {
    let dx = key.0 - player_chunk.0;
    let dy = key.1 - player_chunk.1;
    let dz = key.2 - player_chunk.2;
    dx * dx + dy * dy > 1600 || dz > 15 || dz < -15
}

/// Whether a chunk is too far from the observer's chunk to stay loaded.
pub fn chunk_is_far(key: Coord, player_chunk: Coord) -> (r: bool)
    requires
        valid_chunk_coord(key),
        valid_chunk_coord(player_chunk),
    ensures
        r == is_far(key, player_chunk),
{
    let dx = key.0 - player_chunk.0;
    let dy = key.1 - player_chunk.1;
    let dz = key.2 - player_chunk.2;
    if dz > UNLOAD_DISTANCE_Z || dz < -UNLOAD_DISTANCE_Z {
        return true;
    }
    if dx > UNLOAD_DISTANCE || dx < -UNLOAD_DISTANCE || dy > UNLOAD_DISTANCE || dy < -UNLOAD_DISTANCE {
        proof {
            assert(dx * dx + dy * dy > 1600) by (nonlinear_arith)
                requires
                    dx > 40 || dx < -40 || dy > 40 || dy < -40,
            ;
        }
        return true;
    }
    proof {
        assert(0 <= dx * dx <= 1600 && 0 <= dy * dy <= 1600) by (nonlinear_arith)
            requires
                -40 <= dx <= 40,
                -40 <= dy <= 40,
        ;
    }
    dx * dx + dy * dy > UNLOAD_DISTANCE * UNLOAD_DISTANCE
}

/// Whether a list of candidates holds a coordinate.
pub open spec fn listed_key(s: Seq<(u32, Coord)>, key: Coord) -> bool {
    exists|p: int| 0 <= p < s.len() && (#[trigger] s[p]).1 == key
}

/// Whether a chunk is a candidate for loading: inside the load distance of
/// the observer's chunk, at a coordinate that the world can hold, and not
/// loaded. Whether it waits in the queue already does not matter.
pub open spec fn wanted(world: World, key: Coord, player_chunk: Coord) -> bool {
    &&& in_load_range(key, player_chunk)
    &&& valid_chunk_coord(key)
    &&& !world.chunks@.contains_key(key)
}

/// Whether a coordinate is one that the world can hold.
pub fn is_valid_chunk_coord(key: Coord) -> (r: bool)
    ensures
        r == valid_chunk_coord(key),
{
    -MAX_CHUNK_COORD <= key.0 && key.0 <= MAX_CHUNK_COORD && -MAX_CHUNK_COORD <= key.1 && key.1
        <= MAX_CHUNK_COORD && -MAX_CHUNK_COORD <= key.2 && key.2 <= MAX_CHUNK_COORD
}

/// Whether a queue holds a coordinate.
pub fn queue_contains(queue: &VecDeque<Coord>, key: Coord) -> (r: bool)
    ensures
        r == queue@.contains(key),
{
    let mut i: usize = 0;
    while i < queue.len()
        invariant
            i <= queue@.len(),
            forall|j: int| 0 <= j < i ==> queue@[j] != key,
        decreases queue@.len() - i,
    {
        let c = queue[i];
        if c.0 == key.0 && c.1 == key.1 && c.2 == key.2 {
            assert(queue@[i as int] == key);
            return true;
        }
        i += 1;
    }
    false
}

/// Whether `after` is `before` with the chunks unloaded that are too far
/// from the observer's chunk: each of them is gone with its mesh and its
/// stale mark, and everything else is as it was.
pub open spec fn unloaded(before: World, after: World, player_chunk: Coord) -> bool {
    &&& after.seed == before.seed
    &&& after.need_to_load@ == before.need_to_load@
    &&& forall|k: Coord|
        #![trigger after.chunks@.contains_key(k)]
        #![trigger before.chunks@.contains_key(k)]
        after.chunks@.contains_key(k) == (before.chunks@.contains_key(k) && !is_far(
            k,
            player_chunk,
        ))
    &&& forall|k: Coord| #[trigger]
        after.chunks@.contains_key(k) ==> after.chunks@[k] == before.chunks@[k]
    &&& forall|k: Coord|
        #![trigger after.meshes@.contains_key(k)]
        #![trigger before.meshes@.contains_key(k)]
        after.meshes@.contains_key(k) == (before.meshes@.contains_key(k) && !is_far(
            k,
            player_chunk,
        ))
    &&& forall|k: Coord| #[trigger]
        after.meshes@.contains_key(k) ==> after.meshes@[k] == before.meshes@[k]
    &&& forall|k: Coord|
        #![trigger after.dirty_chunks@.contains(k)]
        #![trigger before.dirty_chunks@.contains(k)]
        after.dirty_chunks@.contains(k) == (before.dirty_chunks@.contains(k) && !is_far(
            k,
            player_chunk,
        ))
}

/// Whether `after` is `before` with the load queue rebuilt around the
/// observer: the queue holds every candidate for loading, those that
/// waited in it before included, each once and in load order, and no other
/// coordinate; everything else is as it was.
pub open spec fn collected(
    before: World,
    after: World,
    player_chunk: Coord,
    camera_dir: (i32, i32, i32),
) -> bool {
    &&& after.chunks@ == before.chunks@
    &&& after.meshes@ == before.meshes@
    &&& after.dirty_chunks@ == before.dirty_chunks@
    &&& after.seed == before.seed
    &&& forall|k: Coord|
        #![trigger after.need_to_load@.contains(k)]
        after.need_to_load@.contains(k) == wanted(before, k, player_chunk)
    &&& after.need_to_load@.no_duplicates()
    &&& queue_in_load_order(after.need_to_load@, player_chunk, camera_dir)
}

/// The share of a time budget, in nanoseconds, that loading may take:
/// seven tenths of it, rounded down.
pub open spec fn load_share_of(has_time: int) -> int {
    has_time * 7 / 10
}

/// The share of a time budget, in nanoseconds, that loading may take.
pub fn load_share(has_time: u128) -> (r: u128)
    ensures
        r == load_share_of(has_time as int),
{
    has_time / 10 * 7 + (has_time % 10) * 7 / 10
}

/// Whether `now` is `origin` with the first `loaded` coordinates of its
/// queue loaded: they have left the queue, whose rest waits in the order it
/// had, and their chunks are loaded from the terrain generator.
pub open spec fn loaded_front<G: Fn(Coord, u32) -> [Block; CHUNK_VOLUME]>(
    origin: World,
    now: World,
    loaded: int,
    generate: G,
) -> bool {
    &&& 0 <= loaded <= origin.need_to_load@.len()
    &&& now.need_to_load@ == origin.need_to_load@.skip(loaded)
    &&& streamed(origin, now, origin.need_to_load@.take(loaded), generate)
}

/// Whether `after` is `before` after one round of streaming around the
/// observer: the load queue was rebuilt, then the chunks too far away were
/// unloaded, then `loaded` chunks were loaded from the front of the queue,
/// a whole number of batches unless the queue ran empty.
pub open spec fn loader_updated<G: Fn(Coord, u32) -> [Block; CHUNK_VOLUME]>(
    before: World,
    after: World,
    player_chunk: Coord,
    camera_dir: (i32, i32, i32),
    loaded: int,
    generate: G,
) -> bool {
    exists|queued: World, kept: World|
        {
            &&& #[trigger] collected(before, queued, player_chunk, camera_dir)
            &&& #[trigger] unloaded(queued, kept, player_chunk)
            &&& loaded_front(kept, after, loaded, generate)
            &&& loaded == kept.need_to_load@.len() || loaded % 30 == 0
        }
}

/// How many coordinates are taken from the queue at a time.
pub const BATCH_SIZE: usize = 30;

/// Whether a coordinate is a neighbour across a face of one of the listed
/// coordinates.
pub open spec fn near_any(keys: Seq<Coord>, k: Coord) -> bool {
    exists|j: int| 0 <= j < keys.len() && adjacent(k, #[trigger] keys[j])
}

/// Whether `after` is `before` with the chunks at `keys` loaded from the
/// terrain generator: each of them is loaded, under its own coordinate, to
/// be rendered, with blocks that the generator gave for that coordinate and
/// the world's seed; the chunks loaded before, other than those, keep their
/// blocks; stale are the chunks that were, the chunks at `keys`, and the
/// loaded neighbours of those across a face; the meshes and the seed stay.
/// The queue is not spoken of.
pub open spec fn streamed<G: Fn(Coord, u32) -> [Block; CHUNK_VOLUME]>(
    before: World,
    after: World,
    keys: Seq<Coord>,
    generate: G,
) -> bool {
    &&& after.seed == before.seed
    &&& after.meshes@ == before.meshes@
    &&& forall|k: Coord|
        #![trigger after.chunks@.contains_key(k)]
        after.chunks@.contains_key(k) == (before.chunks@.contains_key(k) || keys.contains(k))
    &&& forall|k: Coord| #[trigger]
        keys.contains(k) ==> after.chunks@[k].pos == k && after.chunks@[k].is_rendered && generate.ensures(
            (k, before.seed),
            after.chunks@[k].blocks,
        )
    &&& forall|k: Coord| #[trigger]
        before.chunks@.contains_key(k) ==> keys.contains(k) || after.chunks@[k] == with_dirty(
            before.chunks@[k],
            after.chunks@[k].is_dirty,
        )
    &&& forall|k: Coord|
        #![trigger after.dirty_chunks@.contains(k)]
        after.dirty_chunks@.contains(k) == (before.dirty_chunks@.contains(k) || keys.contains(k) || (
        after.chunks@.contains_key(k) && near_any(keys, k)))
}

/// Loading nothing changes nothing.
pub proof fn lemma_streamed_none<G: Fn(Coord, u32) -> [Block; CHUNK_VOLUME]>(
    world: World,
    generate: G,
)
    ensures
        streamed(world, world, Seq::empty(), generate),
{
    let keys = Seq::<Coord>::empty();
    assert forall|k: Coord| !keys.contains(k) && !near_any(keys, k) by {}
}

/// Taking one generated chunk into the world is loading the chunk at its
/// coordinate.
pub proof fn lemma_streamed_one<G: Fn(Coord, u32) -> [Block; CHUNK_VOLUME]>(
    before: World,
    after: World,
    key: Coord,
    generate: G,
)
    requires
        inserted(before, after, key),
        after.chunks@[key].is_rendered,
        generate.ensures((key, before.seed), after.chunks@[key].blocks),
    ensures
        streamed(before, after, seq![key], generate),
{
    let keys = seq![key];
    assert(keys[0] == key);
    assert forall|k: Coord| keys.contains(k) == (k == key) by {}
    assert forall|k: Coord| near_any(keys, k) == adjacent(k, key) by {
        if adjacent(k, key) {
            assert(adjacent(k, keys[0]));
        }
    }
    assert forall|k: Coord|
        #![trigger after.dirty_chunks@.contains(k)]
        after.dirty_chunks@.contains(k) == (before.dirty_chunks@.contains(k) || keys.contains(k) || (
        after.chunks@.contains_key(k) && near_any(keys, k))) by {
        assert(!adjacent(key, key));
    }
}

/// Loading one list of chunks and then another is loading the two lists
/// joined.
pub proof fn lemma_streamed_then<G: Fn(Coord, u32) -> [Block; CHUNK_VOLUME]>(
    a: World,
    b: World,
    c: World,
    first: Seq<Coord>,
    second: Seq<Coord>,
    generate: G,
)
    requires
        streamed(a, b, first, generate),
        streamed(b, c, second, generate),
    ensures
        streamed(a, c, first + second, generate),
{
    let keys = first + second;
    assert forall|k: Coord| keys.contains(k) == (first.contains(k) || second.contains(k)) by {
        if first.contains(k) {
            let j = choose|j: int| 0 <= j < first.len() && first[j] == k;
            assert(keys[j] == k);
        }
        if second.contains(k) {
            let j = choose|j: int| 0 <= j < second.len() && second[j] == k;
            assert(keys[first.len() + j] == k);
        }
        if keys.contains(k) {
            let j = choose|j: int| 0 <= j < keys.len() && keys[j] == k;
            if j < first.len() {
                assert(first[j] == k);
            } else {
                assert(second[j - first.len()] == k);
            }
        }
    }
    assert forall|k: Coord| near_any(keys, k) == (near_any(first, k) || near_any(second, k)) by {
        if near_any(first, k) {
            let j = choose|j: int| 0 <= j < first.len() && adjacent(k, #[trigger] first[j]);
            assert(adjacent(k, keys[j]));
        }
        if near_any(second, k) {
            let j = choose|j: int| 0 <= j < second.len() && adjacent(k, #[trigger] second[j]);
            assert(adjacent(k, keys[first.len() + j]));
        }
        if near_any(keys, k) {
            let j = choose|j: int| 0 <= j < keys.len() && adjacent(k, #[trigger] keys[j]);
            if j < first.len() {
                assert(adjacent(k, first[j]));
            } else {
                assert(adjacent(k, second[j - first.len()]));
            }
        }
    }
    assert forall|k: Coord|
        #![trigger c.chunks@.contains_key(k)]
        c.chunks@.contains_key(k) == (a.chunks@.contains_key(k) || keys.contains(k)) by {
        assert(b.chunks@.contains_key(k) == (a.chunks@.contains_key(k) || first.contains(k)));
    }
    assert forall|k: Coord| #[trigger] keys.contains(k) implies c.chunks@[k].pos == k
        && c.chunks@[k].is_rendered && generate.ensures((k, a.seed), c.chunks@[k].blocks) by {
        if !second.contains(k) {
            assert(first.contains(k));
            assert(b.chunks@.contains_key(k));
        }
    }
    assert forall|k: Coord| #[trigger] a.chunks@.contains_key(k) implies keys.contains(k)
        || c.chunks@[k] == with_dirty(a.chunks@[k], c.chunks@[k].is_dirty) by {
        assert(b.chunks@.contains_key(k));
    }
    assert forall|k: Coord|
        #![trigger c.dirty_chunks@.contains(k)]
        c.dirty_chunks@.contains(k) == (a.dirty_chunks@.contains(k) || keys.contains(k) || (
        c.chunks@.contains_key(k) && near_any(keys, k))) by {
        assert(b.dirty_chunks@.contains(k) == (a.dirty_chunks@.contains(k) || first.contains(k) || (
        b.chunks@.contains_key(k) && near_any(first, k))));
        assert(c.chunks@.contains_key(k) == (b.chunks@.contains_key(k) || second.contains(k)));
    }
}

/// Loading nothing from the queue changes nothing.
pub proof fn lemma_loaded_front_none<G: Fn(Coord, u32) -> [Block; CHUNK_VOLUME]>(world: World, generate: G)
    ensures
        loaded_front(world, world, 0, generate),
{
    lemma_streamed_none(world, generate);
    assert(world.need_to_load@.take(0) =~= Seq::empty());
    assert(world.need_to_load@.skip(0) =~= world.need_to_load@);
}

/// Loading the front of the queue, and then the front of what is left, is
/// loading the two fronts together.
pub proof fn lemma_loaded_front_more<G: Fn(Coord, u32) -> [Block; CHUNK_VOLUME]>(
    origin: World,
    before: World,
    after: World,
    loaded: int,
    count: int,
    generate: G,
)
    requires
        loaded_front(origin, before, loaded, generate),
        loaded_front(before, after, count, generate),
    ensures
        loaded_front(origin, after, loaded + count, generate),
{
    let queue = origin.need_to_load@;
    let rest = queue.skip(loaded);
    lemma_streamed_then(origin, before, after, queue.take(loaded), rest.take(count), generate);
    assert(queue.take(loaded + count) =~= queue.take(loaded) + rest.take(count));
    assert(rest.skip(count) =~= queue.skip(loaded + count));
}

impl World {
    /// Takes the next batch off the front of the queue: as many coordinates
    /// as a batch holds, or all that are left.
    pub fn take_batch(&mut self) -> (batch: Vec<Coord>)
        requires
            old(self).wf(),
        ensures
            final(self).wf(),
            batch@.len() == (if old(self).need_to_load@.len() < BATCH_SIZE {
                old(self).need_to_load@.len()
            } else {
                BATCH_SIZE as nat
            }),
            batch@ == old(self).need_to_load@.take(batch@.len() as int),
            final(self).need_to_load@ == old(self).need_to_load@.skip(batch@.len() as int),
            final(self).chunks@ == old(self).chunks@,
            final(self).meshes@ == old(self).meshes@,
            final(self).dirty_chunks@ == old(self).dirty_chunks@,
            final(self).seed == old(self).seed,
    {
        let mut batch: Vec<Coord> = Vec::new();
        let mut more = true;
        while more && batch.len() < BATCH_SIZE
            invariant
                batch@.len() <= BATCH_SIZE,
                batch@.len() <= old(self).need_to_load@.len(),
                batch@ == old(self).need_to_load@.take(batch@.len() as int),
                self.need_to_load@ == old(self).need_to_load@.skip(batch@.len() as int),
                !more ==> batch@.len() == old(self).need_to_load@.len(),
                self.chunks@ == old(self).chunks@,
                self.meshes@ == old(self).meshes@,
                self.dirty_chunks@ == old(self).dirty_chunks@,
                self.seed == old(self).seed,
            decreases BATCH_SIZE - batch@.len() + (if more { 1int } else { 0int }),
        {
            match self.need_to_load.pop_front() {
                Some(key) => {
                    let ghost taken = batch@;
                    batch.push(key);
                    proof {
                        let queue = old(self).need_to_load@;
                        assert(batch@ =~= queue.take(batch@.len() as int));
                        assert(self.need_to_load@ =~= queue.skip(batch@.len() as int));
                    }
                },
                None => {
                    more = false;
                },
            }
        }
        proof {
            assert forall|i: int| 0 <= i < self.need_to_load@.len() implies valid_chunk_coord(
                #[trigger] self.need_to_load@[i],
            ) by {
                assert(self.need_to_load@[i] == old(self).need_to_load@[i + batch@.len()]);
            }
        }
        batch
    }

    /// Loads one batch: the coordinates at the front of the queue leave it,
    /// the terrain generator is called once for each with the world's seed,
    /// and each generated chunk is taken into the world. Returns how many
    /// chunks were loaded.
    pub fn load_batch<G: Fn(Coord, u32) -> [Block; CHUNK_VOLUME]>(&mut self, generate: &G) -> (loaded:
        usize)
        requires
            old(self).wf(),
            forall|key: Coord| generate.requires((key, old(self).seed)),
        ensures
            final(self).wf(),
            loaded == (if old(self).need_to_load@.len() < BATCH_SIZE {
                old(self).need_to_load@.len()
            } else {
                BATCH_SIZE as nat
            }),
            loaded_front(*old(self), *final(self), loaded as int, *generate),
    {
        let batch = self.take_batch();
        let ghost start = *self;
        let mut i: usize = 0;
        proof {
            lemma_streamed_none(*old(self), *generate);
            assert(batch@.take(0) =~= Seq::empty());
            assert(streamed(*old(self), *self, batch@.take(0), *generate));
        }
        while i < batch.len()
            invariant
                i <= batch@.len(),
                self.wf(),
                self.seed == old(self).seed,
                self.need_to_load@ == start.need_to_load@,
                forall|key: Coord| generate.requires((key, old(self).seed)),
                forall|j: int| 0 <= j < batch@.len() ==> valid_chunk_coord(#[trigger] batch@[j]),
                streamed(*old(self), *self, batch@.take(i as int), *generate),
            decreases batch@.len() - i,
        {
            let key = batch[i];
            let ghost before = *self;
            let chunk = Chunk::terrain_gen(key, self.seed, generate);
            self.insert_chunk(chunk);
            proof {
                lemma_streamed_one(before, *self, key, *generate);
                lemma_streamed_then(*old(self), before, *self, batch@.take(i as int), seq![key], *generate);
                assert(batch@.take(i + 1) =~= batch@.take(i as int) + seq![key]);
            }
            i += 1;
        }
        proof {
            assert(batch@.take(batch@.len() as int) =~= batch@);
        }
        batch.len()
    }

    /// Loads up to `max_batches` batches, one after the other, and stops
    /// early when the queue is empty. Returns how many chunks were loaded.
    pub fn load_batches<G: Fn(Coord, u32) -> [Block; CHUNK_VOLUME]>(
        &mut self,
        max_batches: usize,
        generate: &G,
    ) -> (loaded: usize)
        requires
            old(self).wf(),
            forall|key: Coord| generate.requires((key, old(self).seed)),
        ensures
            final(self).wf(),
            loaded == (if old(self).need_to_load@.len() < BATCH_SIZE * max_batches {
                old(self).need_to_load@.len() as int
            } else {
                BATCH_SIZE * max_batches
            }),
            loaded_front(*old(self), *final(self), loaded as int, *generate),
    {
        let total = self.need_to_load.len();
        let mut loaded: usize = 0;
        let mut batches: usize = 0;
        proof {
            lemma_loaded_front_none(*old(self), *generate);
        }
        while batches < max_batches && self.need_to_load.len() > 0
            invariant
                self.wf(),
                total == old(self).need_to_load@.len(),
                self.seed == old(self).seed,
                forall|key: Coord| generate.requires((key, old(self).seed)),
                batches <= max_batches,
                loaded <= BATCH_SIZE * batches,
                loaded == BATCH_SIZE * batches || loaded == total,
                loaded_front(*old(self), *self, loaded as int, *generate),
            decreases max_batches - batches,
        {
            let ghost before = *self;
            let count = self.load_batch(generate);
            proof {
                lemma_loaded_front_more(*old(self), before, *self, loaded as int, count as int, *generate);
                assert(BATCH_SIZE * (batches + 1) == BATCH_SIZE * batches + BATCH_SIZE) by (nonlinear_arith);
            }
            loaded = loaded + count;
            batches = batches + 1;
        }
        proof {
            if batches < max_batches {
                assert(BATCH_SIZE * batches <= BATCH_SIZE * max_batches) by (nonlinear_arith)
                    requires
                        batches <= max_batches,
                ;
            }
        }
        loaded
    }

    /// Rebuilds the load queue around the observer. The surroundings of the
    /// observer's chunk are scanned out to the load distance, and every
    /// chunk found there that is not loaded is a candidate, whether it was
    /// queued before or not. The candidates, sorted anew into load order,
    /// become the queue: what waited stays queued, each coordinate stands in
    /// the queue once, and only what has left the load distance leaves it.
    pub fn collect_around(&mut self, player_chunk: Coord, camera_dir: (i32, i32, i32))
        requires
            old(self).wf(),
            valid_chunk_coord(player_chunk),
        ensures
            final(self).wf(),
            collected(*old(self), *final(self), player_chunk, camera_dir),
    {
        let mut chunks_to_load: Vec<(u32, Coord)> = Vec::new();
        let mut i: usize = 0;
        while i < 18491
            invariant
                i <= 18491,
                valid_chunk_coord(player_chunk),
                *self == *old(self),
                chunks_to_load@.len() <= i,
                in_scan_order(chunks_to_load@, player_chunk),
                forall|p: int|
                    0 <= p < chunks_to_load@.len() ==> {
                        let e = #[trigger] chunks_to_load@[p];
                        &&& wanted(*self, e.1, player_chunk)
                        &&& scan_pos(e.1, player_chunk) < i
                        &&& e.0 == loading_priority(e.1, player_chunk, camera_dir)
                    },
                forall|k: Coord|
                    wanted(*self, k, player_chunk) && scan_pos(k, player_chunk) < i ==> #[trigger] listed_key(
                        chunks_to_load@,
                        k,
                    ),
            decreases 18491 - i,
        {
            let x: i64 = (i / 451) as i64 - LOAD_DISTANCE;
            let y: i64 = ((i / 11) % 41) as i64 - LOAD_DISTANCE;
            let z: i64 = (i % 11) as i64 - LOAD_DISTANCE_Z;
            let key = (player_chunk.0 + x, player_chunk.1 + y, player_chunk.2 + z);
            let ghost seen = chunks_to_load@;
            assert(scan_pos(key, player_chunk) == i);
            if is_valid_chunk_coord(key) && !chunk_map_contains(&self.chunks, key) {
                let priority = calculate_loading_priority(key, player_chunk, camera_dir);
                chunks_to_load.push((priority, key));
                proof {
                    assert(chunks_to_load@[seen.len() as int].1 == key);
                    assert(listed_key(chunks_to_load@, key));
                }
            }
            proof {
                assert forall|k: Coord|
                    wanted(*self, k, player_chunk) && scan_pos(k, player_chunk) < i + 1 implies #[trigger] listed_key(
                    chunks_to_load@,
                    k,
                ) by {
                    if scan_pos(k, player_chunk) < i {
                        assert(listed_key(seen, k));
                        let p = choose|p: int| 0 <= p < seen.len() && (#[trigger] seen[p]).1 == k;
                        assert(chunks_to_load@[p].1 == k);
                    } else {
                        assert(k == key);
                    }
                }
            }
            i += 1;
        }
        let sorted = sort_range(&chunks_to_load, 0, chunks_to_load.len(), Ghost(player_chunk));
        proof {
            assert(chunks_to_load@.subrange(0, chunks_to_load@.len() as int) =~= chunks_to_load@);
            assert forall|p: int| 0 <= p < sorted@.len() implies chunks_to_load@.contains(
                #[trigger] sorted@[p],
            ) by {
                assert(sorted@.contains(sorted@[p]));
            }
        }
        let mut queue: VecDeque<Coord> = VecDeque::new();
        let mut j: usize = 0;
        while j < sorted.len()
            invariant
                j <= sorted@.len(),
                queue@.len() == j,
                forall|p: int| 0 <= p < j ==> queue@[p] == (#[trigger] sorted@[p]).1,
            decreases sorted@.len() - j,
        {
            queue.push_back(sorted[j].1);
            j += 1;
        }
        self.need_to_load = queue;
        proof {
            let queue = self.need_to_load@;
            assert forall|p: int| 0 <= p < queue.len() implies wanted(
                *old(self),
                #[trigger] queue[p],
                player_chunk,
            ) && sorted@[p].0 == loading_priority(queue[p], player_chunk, camera_dir) by {
                let e = sorted@[p];
                assert(chunks_to_load@.contains(e));
                let q = choose|q: int| 0 <= q < chunks_to_load@.len() && chunks_to_load@[q] == e;
                assert(chunks_to_load@[q] == e);
            }
            assert forall|k: Coord| #![trigger queue.contains(k)] queue.contains(k) == wanted(
                *old(self),
                k,
                player_chunk,
            ) by {
                if queue.contains(k) {
                    let p = choose|p: int| 0 <= p < queue.len() && queue[p] == k;
                    assert(wanted(*old(self), queue[p], player_chunk));
                }
                if wanted(*old(self), k, player_chunk) {
                    assert(scan_pos(k, player_chunk) < 18491);
                    assert(listed_key(chunks_to_load@, k));
                    let q = choose|q: int| 0 <= q < chunks_to_load@.len() && (#[trigger] chunks_to_load@[q]).1 == k;
                    let e = chunks_to_load@[q];
                    assert(chunks_to_load@.contains(e));
                    assert(sorted@.contains(e));
                    let p = choose|p: int| 0 <= p < sorted@.len() && sorted@[p] == e;
                    assert(queue[p] == k);
                }
            }
            assert forall|a: int, b: int| 0 <= a < b < queue.len() implies crate::load_order::loads_before(
                (loading_priority(#[trigger] queue[a], player_chunk, camera_dir) as u32, queue[a]),
                (loading_priority(#[trigger] queue[b], player_chunk, camera_dir) as u32, queue[b]),
                player_chunk,
            ) by {
                assert(crate::load_order::loads_before(sorted@[a], sorted@[b], player_chunk));
            }
            assert forall|p: int| 0 <= p < queue.len() implies valid_chunk_coord(#[trigger] queue[p]) by {
                assert(wanted(*old(self), queue[p], player_chunk));
            }
            lemma_load_order_has_no_duplicates(queue, player_chunk, camera_dir);
        }
    }

    /// One round of streaming around the observer: the load queue is
    /// rebuilt, the chunks too far away are unloaded, and chunks are loaded
    /// from the queue for seven tenths of the time budget, which is given
    /// in nanoseconds. Returns how many chunks were loaded; with no time for
    /// loading, none is.
    pub fn loader_update<G: Fn(Coord, u32) -> [Block; CHUNK_VOLUME]>(
        &mut self,
        has_time: u128,
        player_chunk: Coord,
        camera_dir: (i32, i32, i32),
        generate: &G,
    ) -> (loaded: usize)
        requires
            old(self).wf(),
            valid_chunk_coord(player_chunk),
            forall|key: Coord| generate.requires((key, old(self).seed)),
        ensures
            final(self).wf(),
            loader_updated(*old(self), *final(self), player_chunk, camera_dir, loaded as int, *generate),
            load_share_of(has_time as int) == 0 ==> loaded == 0,
    {
        self.collect_around(player_chunk, camera_dir);
        let ghost queued = *self;
        self.unload_far(player_chunk);
        let ghost kept = *self;
        let loaded = self.load_new(load_share(has_time), generate);
        proof {
            assert(collected(*old(self), queued, player_chunk, camera_dir));
            assert(unloaded(queued, kept, player_chunk));
        }
        loaded
    }

    /// One tick of the world: a round of streaming around the observer
    /// within the time budget, which is given in nanoseconds, then a new
    /// mesh for every stale chunk. Returns the coordinates whose mesh was
    /// replaced, for whoever draws them.
    pub fn update<G: Fn(Coord, u32) -> [Block; CHUNK_VOLUME]>(
        &mut self,
        has_time: u128,
        player_chunk: Coord,
        camera_dir: (i32, i32, i32),
        generate: &G,
    ) -> (updated: Vec<Coord>)
        requires
            old(self).wf(),
            valid_chunk_coord(player_chunk),
            forall|key: Coord| generate.requires((key, old(self).seed)),
        ensures
            final(self).wf(),
            exists|streamed_world: World, loaded: int|
                {
                    &&& #[trigger] loader_updated(
                        *old(self),
                        streamed_world,
                        player_chunk,
                        camera_dir,
                        loaded,
                        *generate,
                    )
                    &&& load_share_of(has_time as int) == 0 ==> loaded == 0
                    &&& remeshed(streamed_world, *final(self))
                    &&& updated@ == streamed_world.dirty_chunks@
                },
    {
        let loaded = self.loader_update(has_time, player_chunk, camera_dir, generate);
        let ghost streamed_world = *self;
        let updated = self.update_meshes();
        proof {
            assert(loader_updated(
                *old(self),
                streamed_world,
                player_chunk,
                camera_dir,
                loaded as int,
                *generate,
            ));
        }
        updated
    }

    /// Loads batches from the front of the queue for as long as the time
    /// budget, given in nanoseconds, lasts and the queue is not empty. The
    /// clock is read before each batch, and a batch begins only while less
    /// time than the budget has passed: with no time at all, none begins. A
    /// batch that has begun is finished. Returns how many chunks were
    /// loaded, which is a whole number of batches unless the queue ran
    /// empty.
    pub fn load_new<G: Fn(Coord, u32) -> [Block; CHUNK_VOLUME]>(
        &mut self,
        has_time: u128,
        generate: &G,
    ) -> (loaded: usize)
        requires
            old(self).wf(),
            forall|key: Coord| generate.requires((key, old(self).seed)),
        ensures
            final(self).wf(),
            loaded_front(*old(self), *final(self), loaded as int, *generate),
            loaded == old(self).need_to_load@.len() || loaded % BATCH_SIZE == 0,
            has_time == 0 ==> loaded == 0,
    {
        let started = clock_now();
        let total = self.need_to_load.len();
        let mut loaded: usize = 0;
        proof {
            lemma_loaded_front_none(*old(self), *generate);
        }
        while span_nanos(&clock_elapsed(&started)) < has_time && self.need_to_load.len() > 0
            invariant
                self.wf(),
                total == old(self).need_to_load@.len(),
                self.seed == old(self).seed,
                forall|key: Coord| generate.requires((key, old(self).seed)),
                loaded == total || loaded % BATCH_SIZE == 0,
                has_time == 0 ==> loaded == 0,
                loaded_front(*old(self), *self, loaded as int, *generate),
            decreases total - loaded,
        {
            let ghost before = *self;
            let count = self.load_batch(generate);
            proof {
                lemma_loaded_front_more(*old(self), before, *self, loaded as int, count as int, *generate);
            }
            loaded = loaded + count;
        }
        loaded
    }

    /// Marks stale the loaded neighbours of a chunk across its six faces.
    pub fn mark_neighbors_dirty(&mut self, center: Coord)
        requires
            old(self).wf(),
        ensures
            final(self).wf(),
            same_but_dirty(*old(self), *final(self)),
            forall|k: Coord|
                #![trigger final(self).dirty_chunks@.contains(k)]
                #![trigger old(self).dirty_chunks@.contains(k)]
                final(self).dirty_chunks@.contains(k) == (old(self).dirty_chunks@.contains(k) || (adjacent(
                    k,
                    center,
                ) && old(self).chunks@.contains_key(k))),
    {
        self.mark_offset_dirty(center, (1, 0, 0));
        self.mark_offset_dirty(center, (-1, 0, 0));
        self.mark_offset_dirty(center, (0, 1, 0));
        self.mark_offset_dirty(center, (0, -1, 0));
        self.mark_offset_dirty(center, (0, 0, 1));
        self.mark_offset_dirty(center, (0, 0, -1));
    }

    /// Unloads every chunk that is too far from the observer's chunk, with
    /// its mesh and its stale mark.
    pub fn unload_far(&mut self, player_chunk: Coord)
        requires
            old(self).wf(),
            valid_chunk_coord(player_chunk),
        ensures
            final(self).wf(),
            unloaded(*old(self), *final(self), player_chunk),
    {
        let keys = chunk_map_keys(&self.chunks);
        let mut i: usize = 0;
        while i < keys.len()
            invariant
                i <= keys@.len(),
                valid_chunk_coord(player_chunk),
                self.wf(),
                self.seed == old(self).seed,
                self.need_to_load@ == old(self).need_to_load@,
                forall|k: Coord| keys@.contains(k) == old(self).chunks@.contains_key(k),
                forall|k: Coord| #[trigger]
                    old(self).chunks@.contains_key(k) ==> valid_chunk_coord(k),
                forall|k: Coord| #[trigger]
                    old(self).meshes@.contains_key(k) ==> old(self).chunks@.contains_key(k),
                forall|k: Coord| #[trigger]
                    old(self).dirty_chunks@.contains(k) ==> old(self).chunks@.contains_key(k),
                forall|k: Coord|
                    #![trigger self.chunks@.contains_key(k)]
                    #![trigger old(self).chunks@.contains_key(k)]
                    self.chunks@.contains_key(k) == (old(self).chunks@.contains_key(k) && !(is_far(
                        k,
                        player_chunk,
                    ) && listed_upto(keys@, i as int, k))),
                forall|k: Coord| #[trigger]
                    self.chunks@.contains_key(k) ==> self.chunks@[k] == old(self).chunks@[k],
                forall|k: Coord|
                    #![trigger self.meshes@.contains_key(k)]
                    #![trigger old(self).meshes@.contains_key(k)]
                    self.meshes@.contains_key(k) == (old(self).meshes@.contains_key(k) && !(is_far(
                        k,
                        player_chunk,
                    ) && listed_upto(keys@, i as int, k))),
                forall|k: Coord| #[trigger]
                    self.meshes@.contains_key(k) ==> self.meshes@[k] == old(self).meshes@[k],
                forall|k: Coord|
                    #![trigger self.dirty_chunks@.contains(k)]
                    #![trigger old(self).dirty_chunks@.contains(k)]
                    self.dirty_chunks@.contains(k) == (old(self).dirty_chunks@.contains(k) && !(is_far(
                        k,
                        player_chunk,
                    ) && listed_upto(keys@, i as int, k))),
            decreases keys@.len() - i,
        {
            let key = keys[i];
            let ghost before = *self;
            proof {
                assert(keys@.contains(key));
                lemma_listed_next(keys@, i as int);
            }
            if chunk_is_far(key, player_chunk) {
                self.drop_chunk(key);
                proof {
                    assert forall|k: Coord| #[trigger] self.chunks@.contains_key(k) implies before.chunks@.contains_key(
                        k,
                    ) && k != key && self.chunks@[k] == before.chunks@[k] by {}
                    assert forall|k: Coord| #[trigger] before.chunks@.contains_key(k) && k
                        != key implies self.chunks@.contains_key(k) by {}
                    assert forall|k: Coord| #[trigger] self.meshes@.contains_key(k) implies before.meshes@.contains_key(
                        k,
                    ) && k != key && self.meshes@[k] == before.meshes@[k] by {}
                    assert forall|k: Coord| #[trigger] before.meshes@.contains_key(k) && k
                        != key implies self.meshes@.contains_key(k) by {}
                }
            }
            i += 1;
        }
        proof {
            lemma_listed_all(keys@);
            assert forall|k: Coord| #[trigger] old(self).chunks@.contains_key(k) implies listed_upto(
                keys@,
                keys@.len() as int,
                k,
            ) by {
                assert(keys@.contains(k));
            }
        }
    }

    /// Marks stale the chunk at an offset from a coordinate, if it is
    /// loaded. A coordinate that does not fit the integer range holds no
    /// chunk.
    fn mark_offset_dirty(&mut self, center: Coord, offset: Coord)
        requires
            old(self).wf(),
        ensures
            final(self).wf(),
            same_but_dirty(*old(self), *final(self)),
            forall|k: Coord|
                #![trigger final(self).dirty_chunks@.contains(k)]
                #![trigger old(self).dirty_chunks@.contains(k)]
                final(self).dirty_chunks@.contains(k) == (old(self).dirty_chunks@.contains(k) || (old(
                    self,
                ).chunks@.contains_key(k) && k.0 == center.0 + offset.0 && k.1 == center.1 + offset.1
                    && k.2 == center.2 + offset.2)),
    {
        let x = center.0.checked_add(offset.0);
        let y = center.1.checked_add(offset.1);
        let z = center.2.checked_add(offset.2);
        match (x, y, z) {
            (Some(x), Some(y), Some(z)) => {
                self.mark_dirty((x, y, z));
            },
            _ => {},
        }
    }
}

} // verus!
