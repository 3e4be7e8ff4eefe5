//! The order in which chunks are loaded: near the observer first, ahead of
//! the observer before behind.

use vstd::prelude::*;
use crate::chunk::{valid_chunk_coord, Coord};

verus! {

/// The largest distance, in chunks along each axis, over which a loading
/// priority is computed.
pub const PRIORITY_RANGE: i64 = 1048576;

/// The squared length of a vector.
pub open spec fn norm_sq(v: (int, int, int)) -> int {
    v.0 * v.0 + v.1 * v.1 + v.2 * v.2
}

/// The dot product of two vectors.
pub open spec fn dot(a: (int, int, int), b: (int, int, int)) -> int {
    a.0 * b.0 + a.1 * b.1 + a.2 * b.2
}

/// Whether `bonus` is the alignment bonus of a chunk at offset `delta` from
/// the observer, who looks along `camera_dir`: a thousand times the cosine
/// of the angle between the two, rounded down, and nothing where the angle
/// is not acute or one of the vectors is zero. The length of `camera_dir`
/// does not matter.
pub open spec fn is_alignment(camera_dir: (int, int, int), delta: (int, int, int), bonus: int) -> bool {
    let d = dot(camera_dir, delta);
    let n = norm_sq(camera_dir) * norm_sq(delta);
    if d <= 0 {
        bonus == 0
    } else {
        &&& 0 <= bonus <= 1000
        &&& bonus * bonus * n <= 1000000 * (d * d)
        &&& bonus == 1000 || (bonus + 1) * (bonus + 1) * n > 1000000 * (d * d)
    }
}

/// The alignment bonus of a chunk at offset `delta` from the observer.
pub open spec fn alignment(camera_dir: (int, int, int), delta: (int, int, int)) -> int {
    choose|bonus: int| is_alignment(camera_dir, delta, bonus)
}

/// The loading priority of a chunk at offset `delta` from the observer's
/// chunk: two thousand less the squared distance, but not below zero; the
/// alignment bonus; and a thousand more within five chunks along every
/// axis.
pub open spec fn priority_of(camera_dir: (int, int, int), delta: (int, int, int)) -> int {
    let distance_sq = norm_sq(delta);
    let base = if distance_sq < 2000 {
        2000 - distance_sq
    } else {
        0
    };
    let near: int = if -5 <= delta.0 <= 5 && -5 <= delta.1 <= 5 && -5 <= delta.2 <= 5 {
        1000
    } else {
        0
    };
    base + alignment(camera_dir, delta) + near
}

/// The loading priority of the chunk at `chunk_pos` for an observer in
/// `player_chunk`.
pub open spec fn loading_priority(
    chunk_pos: Coord,
    player_chunk: Coord,
    camera_dir: (i32, i32, i32),
) -> int {
    priority_of(
        (camera_dir.0 as int, camera_dir.1 as int, camera_dir.2 as int),
        (chunk_pos.0 - player_chunk.0, chunk_pos.1 - player_chunk.1, chunk_pos.2 - player_chunk.2),
    )
}

/// There is one alignment bonus, and no other.
pub proof fn lemma_alignment_unique(camera_dir: (int, int, int), delta: (int, int, int), a: int, b: int)
    requires
        is_alignment(camera_dir, delta, a),
        is_alignment(camera_dir, delta, b),
    ensures
        a == b,
{
    let d = dot(camera_dir, delta);
    let n = norm_sq(camera_dir) * norm_sq(delta);
    let t = 1000000 * (d * d);
    if d > 0 {
        assert(n >= 0) by (nonlinear_arith)
            requires
                n == (camera_dir.0 * camera_dir.0 + camera_dir.1 * camera_dir.1 + camera_dir.2
                    * camera_dir.2) * (delta.0 * delta.0 + delta.1 * delta.1 + delta.2 * delta.2),
        ;
        if a < b {
            assert((a + 1) * (a + 1) * n <= b * b * n) by (nonlinear_arith)
                requires
                    0 <= a + 1 <= b,
                    n >= 0,
            ;
        }
        if b < a {
            assert((b + 1) * (b + 1) * n <= a * a * n) by (nonlinear_arith)
                requires
                    0 <= b + 1 <= a,
                    n >= 0,
            ;
        }
    }
}

/// The alignment bonus of a chunk at offset `delta` from the observer, who
/// looks along `camera_dir`.
pub fn alignment_bonus(camera_dir: (i32, i32, i32), delta: Coord) -> (bonus: u32)
    requires
        -PRIORITY_RANGE <= delta.0 <= PRIORITY_RANGE,
        -PRIORITY_RANGE <= delta.1 <= PRIORITY_RANGE,
        -PRIORITY_RANGE <= delta.2 <= PRIORITY_RANGE,
    ensures
        bonus <= 1000,
        bonus == alignment(
            (camera_dir.0 as int, camera_dir.1 as int, camera_dir.2 as int),
            (delta.0 as int, delta.1 as int, delta.2 as int),
        ),
{
    let ghost c = (camera_dir.0 as int, camera_dir.1 as int, camera_dir.2 as int);
    let ghost v = (delta.0 as int, delta.1 as int, delta.2 as int);
    let cx: i128 = camera_dir.0 as i128;
    let cy: i128 = camera_dir.1 as i128;
    let cz: i128 = camera_dir.2 as i128;
    let vx: i128 = delta.0 as i128;
    let vy: i128 = delta.1 as i128;
    let vz: i128 = delta.2 as i128;
    proof {
        assert(-0x8_0000_0000_0000 <= cx * vx <= 0x8_0000_0000_0000) by (nonlinear_arith)
            requires
                -0x8000_0000 <= cx <= 0x8000_0000,
                -0x10_0000 <= vx <= 0x10_0000,
        ;
        assert(-0x8_0000_0000_0000 <= cy * vy <= 0x8_0000_0000_0000) by (nonlinear_arith)
            requires
                -0x8000_0000 <= cy <= 0x8000_0000,
                -0x10_0000 <= vy <= 0x10_0000,
        ;
        assert(-0x8_0000_0000_0000 <= cz * vz <= 0x8_0000_0000_0000) by (nonlinear_arith)
            requires
                -0x8000_0000 <= cz <= 0x8000_0000,
                -0x10_0000 <= vz <= 0x10_0000,
        ;
    }
    let d: i128 = cx * vx + cy * vy + cz * vz;
    if d <= 0 {
        proof {
            lemma_alignment_unique(c, v, 0, alignment(c, v));
        }
        return 0;
    }
    proof {
        assert(0 <= cx * cx <= 0x4000_0000_0000_0000) by (nonlinear_arith)
            requires
                -0x8000_0000 <= cx <= 0x8000_0000,
        ;
        assert(0 <= cy * cy <= 0x4000_0000_0000_0000) by (nonlinear_arith)
            requires
                -0x8000_0000 <= cy <= 0x8000_0000,
        ;
        assert(0 <= cz * cz <= 0x4000_0000_0000_0000) by (nonlinear_arith)
            requires
                -0x8000_0000 <= cz <= 0x8000_0000,
        ;
        assert(0 <= vx * vx <= 0x100_0000_0000) by (nonlinear_arith)
            requires
                -0x10_0000 <= vx <= 0x10_0000,
        ;
        assert(0 <= vy * vy <= 0x100_0000_0000) by (nonlinear_arith)
            requires
                -0x10_0000 <= vy <= 0x10_0000,
        ;
        assert(0 <= vz * vz <= 0x100_0000_0000) by (nonlinear_arith)
            requires
                -0x10_0000 <= vz <= 0x10_0000,
        ;
    }
    let cc: u128 = (cx * cx + cy * cy + cz * cz) as u128;
    let vv: u128 = (vx * vx + vy * vy + vz * vz) as u128;
    proof {
        assert(0 <= cc * vv <= 0xC000_0000_0000_0000 * 0x300_0000_0000) by (nonlinear_arith)
            requires
                0 <= cc <= 0xC000_0000_0000_0000,
                0 <= vv <= 0x300_0000_0000,
        ;
        assert(0 < d * d <= 0x18_0000_0000_0000 * 0x18_0000_0000_0000) by (nonlinear_arith)
            requires
                0 < d <= 0x18_0000_0000_0000,
        ;
    }
    let n: u128 = cc * vv;
    let dd: u128 = (d * d) as u128;
    let t: u128 = 1000000 * dd;
    let mut lo: u128 = 0;
    let mut hi: u128 = 1000;
    proof {
        assert(0 * 0 * n == 0);
        assert(n == norm_sq(c) * norm_sq(v));
        assert(t == 1000000 * (dot(c, v) * dot(c, v)));
    }
    while lo < hi
        invariant
            0 <= lo <= hi <= 1000,
            n <= 0xC000_0000_0000_0000 * 0x300_0000_0000,
            lo * lo * n <= t,
            hi == 1000 || (hi + 1) * (hi + 1) * n > t,
        decreases hi - lo,
    {
        let mid: u128 = (lo + hi + 1) / 2;
        proof {
            assert(0 <= mid * mid <= 1000000) by (nonlinear_arith)
                requires
                    0 <= mid <= 1000,
            ;
            assert(mid * mid * n <= 1000000 * (0xC000_0000_0000_0000 * 0x300_0000_0000)) by (nonlinear_arith)
                requires
                    0 <= mid * mid <= 1000000,
                    0 <= n <= 0xC000_0000_0000_0000 * 0x300_0000_0000,
            ;
        }
        if mid * mid * n <= t {
            lo = mid;
        } else {
            hi = mid - 1;
        }
    }
    proof {
        assert(is_alignment(c, v, lo as int));
        lemma_alignment_unique(c, v, lo as int, alignment(c, v));
    }
    lo as u32
}

/// The loading priority of the chunk at `chunk_pos` for an observer in
/// `player_chunk` who looks along `camera_dir`.
pub fn calculate_loading_priority(
    chunk_pos: Coord,
    player_chunk: Coord,
    camera_dir: (i32, i32, i32),
) -> (priority: u32)
    requires
        valid_chunk_coord(chunk_pos),
        valid_chunk_coord(player_chunk),
        -PRIORITY_RANGE <= chunk_pos.0 - player_chunk.0 <= PRIORITY_RANGE,
        -PRIORITY_RANGE <= chunk_pos.1 - player_chunk.1 <= PRIORITY_RANGE,
        -PRIORITY_RANGE <= chunk_pos.2 - player_chunk.2 <= PRIORITY_RANGE,
    ensures
        priority == loading_priority(chunk_pos, player_chunk, camera_dir),
        priority <= 4000,
{
    let delta = (chunk_pos.0 - player_chunk.0, chunk_pos.1 - player_chunk.1, chunk_pos.2 - player_chunk.2);
    proof {
        assert(0 <= delta.0 * delta.0 <= 0x100_0000_0000) by (nonlinear_arith)
            requires
                -0x10_0000 <= delta.0 <= 0x10_0000,
        ;
        assert(0 <= delta.1 * delta.1 <= 0x100_0000_0000) by (nonlinear_arith)
            requires
                -0x10_0000 <= delta.1 <= 0x10_0000,
        ;
        assert(0 <= delta.2 * delta.2 <= 0x100_0000_0000) by (nonlinear_arith)
            requires
                -0x10_0000 <= delta.2 <= 0x10_0000,
        ;
    }
    let distance_sq: i64 = delta.0 * delta.0 + delta.1 * delta.1 + delta.2 * delta.2;
    let mut priority: u32 = if distance_sq < 2000 {
        (2000 - distance_sq) as u32
    } else {
        0
    };
    priority += alignment_bonus(camera_dir, delta);
    if -5 <= delta.0 && delta.0 <= 5 && -5 <= delta.1 && delta.1 <= 5 && -5 <= delta.2 && delta.2 <= 5 {
        priority += 1000;
    }
    priority
}

} // verus!
