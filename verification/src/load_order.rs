//! The order of the load queue: by descending priority, and among equal
//! priorities in the order in which the surroundings of the observer are
//! scanned.

use vstd::prelude::*;
use crate::chunk::Coord;
use crate::priority::loading_priority;

verus! {

/// Whether a chunk lies inside the load distance of the observer's chunk.
pub open spec fn in_load_range(key: Coord, player_chunk: Coord) -> bool {
    &&& -20 <= key.0 - player_chunk.0 <= 20
    &&& -20 <= key.1 - player_chunk.1 <= 20
    &&& -5 <= key.2 - player_chunk.2 <= 5
}

/// The place of a chunk in the scan of the observer's surroundings, which
/// runs through `x`, then `y`, then `z`, each in ascending order.
pub open spec fn scan_pos(key: Coord, player_chunk: Coord) -> int {
    ((key.0 - player_chunk.0 + 20) * 41 + (key.1 - player_chunk.1 + 20)) * 11 + (key.2 - player_chunk.2
        + 5)
}

/// Whether candidate `a` is loaded before candidate `b`: its priority is
/// higher, or the priorities are equal and the scan meets `a` first.
pub open spec fn loads_before(
    a: (u32, Coord),
    b: (u32, Coord),
    player_chunk: Coord,
) -> bool {
    a.0 > b.0 || (a.0 == b.0 && scan_pos(a.1, player_chunk) < scan_pos(b.1, player_chunk))
}

/// Whether a list of candidates, each with its priority, is in load order.
pub open spec fn in_load_order(s: Seq<(u32, Coord)>, player_chunk: Coord) -> bool {
    forall|i: int, j: int| 0 <= i < j < s.len() ==> loads_before(#[trigger] s[i], #[trigger] s[j], player_chunk)
}

/// Whether a list of candidates is in the order of the scan.
pub open spec fn in_scan_order(s: Seq<(u32, Coord)>, player_chunk: Coord) -> bool {
    forall|i: int, j: int|
        0 <= i < j < s.len() ==> scan_pos((#[trigger] s[i]).1, player_chunk) < scan_pos(
            (#[trigger] s[j]).1,
            player_chunk,
        )
}

/// Whether a candidate stands among the first `n` entries of a list.
pub open spec fn among(s: Seq<(u32, Coord)>, n: int, e: (u32, Coord)) -> bool {
    exists|p: int| 0 <= p < n && p < s.len() && #[trigger] s[p] == e
}

/// Whether a queue of coordinates is in load order for an observer in
/// `player_chunk` who looks along `camera_dir`.
pub open spec fn queue_in_load_order(
    queue: Seq<Coord>,
    player_chunk: Coord,
    camera_dir: (i32, i32, i32),
) -> bool {
    forall|i: int, j: int|
        0 <= i < j < queue.len() ==> loads_before(
            (loading_priority(#[trigger] queue[i], player_chunk, camera_dir) as u32, queue[i]),
            (loading_priority(#[trigger] queue[j], player_chunk, camera_dir) as u32, queue[j]),
            player_chunk,
        )
}

/// A queue in load order holds no coordinate twice.
pub proof fn lemma_load_order_has_no_duplicates(
    queue: Seq<Coord>,
    player_chunk: Coord,
    camera_dir: (i32, i32, i32),
)
    requires
        queue_in_load_order(queue, player_chunk, camera_dir),
    ensures
        queue.no_duplicates(),
{
    assert forall|i: int, j: int| 0 <= i < queue.len() && 0 <= j < queue.len() && i != j implies queue[i]
        != queue[j] by {
        if i < j {
            assert(loads_before(
                (loading_priority(queue[i], player_chunk, camera_dir) as u32, queue[i]),
                (loading_priority(queue[j], player_chunk, camera_dir) as u32, queue[j]),
                player_chunk,
            ));
        } else {
            assert(loads_before(
                (loading_priority(queue[j], player_chunk, camera_dir) as u32, queue[j]),
                (loading_priority(queue[i], player_chunk, camera_dir) as u32, queue[i]),
                player_chunk,
            ));
        }
    }
}

/// Merges two lists in load order into one, where the scan meets every
/// candidate of the first list before every candidate of the second.
fn merge(
    left: &Vec<(u32, Coord)>,
    right: &Vec<(u32, Coord)>,
    Ghost(player_chunk): Ghost<Coord>,
) -> (out: Vec<(u32, Coord)>)
    requires
        in_load_order(left@, player_chunk),
        in_load_order(right@, player_chunk),
        left@.len() + right@.len() <= usize::MAX,
        forall|i: int, j: int|
            0 <= i < left@.len() && 0 <= j < right@.len() ==> scan_pos((#[trigger] left@[i]).1, player_chunk)
                < scan_pos((#[trigger] right@[j]).1, player_chunk),
    ensures
        in_load_order(out@, player_chunk),
        out@.len() == left@.len() + right@.len(),
        forall|e: (u32, Coord)|
            #![trigger out@.contains(e)]
            out@.contains(e) == (left@.contains(e) || right@.contains(e)),
{
    let mut out: Vec<(u32, Coord)> = Vec::new();
    let mut i: usize = 0;
    let mut j: usize = 0;
    while i < left.len() || j < right.len()
        invariant
            i <= left@.len(),
            j <= right@.len(),
            left@.len() + right@.len() <= usize::MAX,
            out@.len() == i + j,
            in_load_order(left@, player_chunk),
            in_load_order(right@, player_chunk),
            forall|p: int, q: int|
                0 <= p < left@.len() && 0 <= q < right@.len() ==> scan_pos(
                    (#[trigger] left@[p]).1,
                    player_chunk,
                ) < scan_pos((#[trigger] right@[q]).1, player_chunk),
            in_load_order(out@, player_chunk),
            forall|r: int, p: int|
                0 <= r < out@.len() && i <= p < left@.len() ==> loads_before(
                    #[trigger] out@[r],
                    #[trigger] left@[p],
                    player_chunk,
                ),
            forall|r: int, q: int|
                0 <= r < out@.len() && j <= q < right@.len() ==> loads_before(
                    #[trigger] out@[r],
                    #[trigger] right@[q],
                    player_chunk,
                ),
            forall|e: (u32, Coord)|
                #![trigger out@.contains(e)]
                out@.contains(e) == (among(left@, i as int, e) || among(right@, j as int, e)),
        decreases left@.len() - i + right@.len() - j,
    {
        let ghost seen = out@;
        let take_left = if i >= left.len() {
            false
        } else if j >= right.len() {
            true
        } else {
            left[i].0 >= right[j].0
        };
        if take_left {
            let e = left[i];
            out.push(e);
            proof {
                assert forall|x: (u32, Coord)| #![trigger out@.contains(x)] out@.contains(x) == (among(
                    left@,
                    i + 1,
                    x,
                ) || among(right@, j as int, x)) by {
                    lemma_push_contains(seen, e, x);
                    lemma_among_next(left@, i as int, x);
                }
                assert forall|r: int, q: int| 0 <= r < out@.len() && j <= q < right@.len() implies loads_before(
                    #[trigger] out@[r],
                    #[trigger] right@[q],
                    player_chunk,
                ) by {
                    if r == seen.len() {
                        if q > j {
                            assert(loads_before(right@[j as int], right@[q], player_chunk));
                        }
                    }
                }
            }
            i += 1;
        } else {
            let e = right[j];
            out.push(e);
            proof {
                assert forall|x: (u32, Coord)| #![trigger out@.contains(x)] out@.contains(x) == (among(
                    left@,
                    i as int,
                    x,
                ) || among(right@, j + 1, x)) by {
                    lemma_push_contains(seen, e, x);
                    lemma_among_next(right@, j as int, x);
                }
                assert forall|r: int, p: int| 0 <= r < out@.len() && i <= p < left@.len() implies loads_before(
                    #[trigger] out@[r],
                    #[trigger] left@[p],
                    player_chunk,
                ) by {
                    if r == seen.len() {
                        if p > i {
                            assert(loads_before(left@[i as int], left@[p], player_chunk));
                        }
                    }
                }
            }
            j += 1;
        }
    }
    proof {
        assert forall|e: (u32, Coord)| #![trigger out@.contains(e)] out@.contains(e) == (
        left@.contains(e) || right@.contains(e)) by {
            lemma_among_all(left@, e);
            lemma_among_all(right@, e);
        }
    }
    out
}

/// A list with one more entry holds what it held, and the entry.
proof fn lemma_push_contains<T>(s: Seq<T>, e: T, x: T)
    ensures
        s.push(e).contains(x) == (s.contains(x) || x == e),
{
    let t = s.push(e);
    if s.contains(x) {
        let p = choose|p: int| 0 <= p < s.len() && s[p] == x;
        assert(t[p] == x);
    }
    if x == e {
        assert(t[s.len() as int] == x);
    }
    if t.contains(x) {
        let p = choose|p: int| 0 <= p < t.len() && t[p] == x;
        if p < s.len() {
            assert(s[p] == x);
        }
    }
}

/// The first `n + 1` entries of a list are the first `n` and the next.
proof fn lemma_among_next(s: Seq<(u32, Coord)>, n: int, x: (u32, Coord))
    requires
        0 <= n < s.len(),
    ensures
        among(s, n + 1, x) == (among(s, n, x) || x == s[n]),
{
    if among(s, n, x) {
        let p = choose|p: int| 0 <= p < n && p < s.len() && #[trigger] s[p] == x;
        assert(s[p] == x);
    }
    if x == s[n] {
        assert(s[n] == x);
    }
}

/// All entries of a list are what the list holds.
proof fn lemma_among_all(s: Seq<(u32, Coord)>, x: (u32, Coord))
    ensures
        among(s, s.len() as int, x) == s.contains(x),
{
    if among(s, s.len() as int, x) {
        let p = choose|p: int| 0 <= p < s.len() && p < s.len() && #[trigger] s[p] == x;
        assert(s[p] == x);
    }
    if s.contains(x) {
        let p = choose|p: int| 0 <= p < s.len() && s[p] == x;
        assert(s[p] == x);
    }
}

/// The candidates from `lo` up to `hi` of a list in scan order, in load
/// order: a merge sort that keeps candidates of equal priority in the
/// order of the scan.
pub(crate) fn sort_range(
    v: &Vec<(u32, Coord)>,
    lo: usize,
    hi: usize,
    Ghost(player_chunk): Ghost<Coord>,
) -> (out: Vec<(u32, Coord)>)
    requires
        lo <= hi <= v@.len(),
        in_scan_order(v@, player_chunk),
    ensures
        in_load_order(out@, player_chunk),
        out@.len() == hi - lo,
        forall|e: (u32, Coord)|
            #![trigger out@.contains(e)]
            out@.contains(e) == v@.subrange(lo as int, hi as int).contains(e),
    decreases hi - lo,
{
    let ghost part = v@.subrange(lo as int, hi as int);
    if hi - lo == 0 {
        let out: Vec<(u32, Coord)> = Vec::new();
        proof {
            assert forall|e: (u32, Coord)| #![trigger out@.contains(e)] out@.contains(e)
                == part.contains(e) by {}
        }
        return out;
    }
    if hi - lo == 1 {
        let mut out: Vec<(u32, Coord)> = Vec::new();
        out.push(v[lo]);
        proof {
            assert(out@ =~= part);
        }
        return out;
    }
    let mid = lo + (hi - lo) / 2;
    let left = sort_range(v, lo, mid, Ghost(player_chunk));
    let right = sort_range(v, mid, hi, Ghost(player_chunk));
    proof {
        let first = v@.subrange(lo as int, mid as int);
        let second = v@.subrange(mid as int, hi as int);
        assert forall|i: int, j: int| 0 <= i < left@.len() && 0 <= j < right@.len() implies scan_pos(
            (#[trigger] left@[i]).1,
            player_chunk,
        ) < scan_pos((#[trigger] right@[j]).1, player_chunk) by {
            assert(left@.contains(left@[i]));
            assert(right@.contains(right@[j]));
            let p = choose|p: int| 0 <= p < first.len() && first[p] == left@[i];
            let q = choose|q: int| 0 <= q < second.len() && second[q] == right@[j];
            assert(v@[lo + p] == left@[i]);
            assert(v@[mid + q] == right@[j]);
        }
    }
    let out = merge(&left, &right, Ghost(player_chunk));
    proof {
        let first = v@.subrange(lo as int, mid as int);
        let second = v@.subrange(mid as int, hi as int);
        assert(part =~= first + second);
        assert forall|e: (u32, Coord)| #![trigger out@.contains(e)] out@.contains(e) == part.contains(
            e,
        ) by {
            if first.contains(e) {
                let p = choose|p: int| 0 <= p < first.len() && first[p] == e;
                assert(part[p] == e);
            }
            if second.contains(e) {
                let q = choose|q: int| 0 <= q < second.len() && second[q] == e;
                assert(part[first.len() + q] == e);
            }
            if part.contains(e) {
                let p = choose|p: int| 0 <= p < part.len() && part[p] == e;
                if p < first.len() {
                    assert(first[p] == e);
                } else {
                    assert(second[p - first.len()] == e);
                }
            }
        }
    }
    out
}

} // verus!
