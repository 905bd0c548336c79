use vstd::prelude::*;

use crate::chunk::SandboxChunk;
use crate::particle::CollisionType;
use crate::sandbox::Sandbox;

verus! {

/// The largest coordinate, in absolute value, on which polyline arithmetic is exact.
pub const COORD_LIMIT: i64 = 0x4000_0000;

pub open spec fn in_range(p: (i64, i64)) -> bool {
    -COORD_LIMIT <= p.0 <= COORD_LIMIT && -COORD_LIMIT <= p.1 <= COORD_LIMIT
}

pub open spec fn all_in_range(s: Seq<(i64, i64)>) -> bool {
    forall|i: int| 0 <= i < s.len() ==> in_range(#[trigger] s[i])
}

/// Twice the signed area of the triangle `start`, `end`, `point`.
pub open spec fn cross(point: (i64, i64), start: (i64, i64), end: (i64, i64)) -> int {
    (point.0 - start.0) * (end.1 - start.1) - (point.1 - start.1) * (end.0 - start.0)
}

pub open spec fn dist2(a: (i64, i64), b: (i64, i64)) -> int {
    (a.0 - b.0) * (a.0 - b.0) + (a.1 - b.1) * (a.1 - b.1)
}

/// The squared distance of `point` from the line through `start` and `end`
/// (from `start` itself when the two coincide), as a fraction.
pub open spec fn deviation(point: (i64, i64), start: (i64, i64), end: (i64, i64)) -> (int, int) {
    if start == end {
        (dist2(point, start), 1)
    } else {
        (cross(point, start, end) * cross(point, start, end), dist2(start, end))
    }
}

/// `point` lies farther than `epsilon` from the chord.
pub open spec fn exceeds(point: (i64, i64), start: (i64, i64), end: (i64, i64), epsilon: int) -> bool {
    deviation(point, start, end).0 > epsilon * epsilon * deviation(point, start, end).1
}

proof fn lemma_square_bounds(a: int, b: int)
    requires
        -0x8000_0000 <= a <= 0x8000_0000,
        -0x8000_0000 <= b <= 0x8000_0000,
    ensures
        0 <= a * a <= 0x4000_0000_0000_0000,
        -0x4000_0000_0000_0000 <= a * b <= 0x4000_0000_0000_0000,
{
    assert(0 <= a * a <= 0x4000_0000_0000_0000) by (nonlinear_arith)
        requires
            -0x8000_0000 <= a <= 0x8000_0000,
    ;
    assert(-0x4000_0000_0000_0000 <= a * b <= 0x4000_0000_0000_0000) by (nonlinear_arith)
        requires
            -0x8000_0000 <= a <= 0x8000_0000,
            -0x8000_0000 <= b <= 0x8000_0000,
    ;
}

/// The squared perpendicular distance of `point` from the line through
/// `line_start` and `line_end`, as `(numerator, denominator)`.
pub fn perpendicular_distance(point: (i64, i64), line_start: (i64, i64), line_end: (i64, i64)) -> (r:
    (i128, i128))
    requires
        in_range(point),
        in_range(line_start),
        in_range(line_end),
    ensures
        (r.0 as int, r.1 as int) == deviation(point, line_start, line_end),
        0 <= r.0 <= 0x4000_0000_0000_0000_0000_0000_0000_0000,
        0 < r.1 <= 0x8000_0000_0000_0000,
{
    let px = (point.0 - line_start.0) as i128;
    let py = (point.1 - line_start.1) as i128;
    let dx = (line_end.0 - line_start.0) as i128;
    let dy = (line_end.1 - line_start.1) as i128;
    proof {
        lemma_square_bounds(px as int, dy as int);
        lemma_square_bounds(py as int, dx as int);
        lemma_square_bounds(px as int, px as int);
        lemma_square_bounds(py as int, py as int);
        lemma_square_bounds(dx as int, dx as int);
        lemma_square_bounds(dy as int, dy as int);
    }
    if line_start.0 == line_end.0 && line_start.1 == line_end.1 {
        assert(px * px + py * py == dist2(point, line_start)) by (nonlinear_arith)
            requires
                px == point.0 - line_start.0,
                py == point.1 - line_start.1,
        ;
        return (px * px + py * py, 1);
    }
    let c = px * dy - py * dx;
    assert(0 <= c * c <= 0x4000_0000_0000_0000_0000_0000_0000_0000) by (nonlinear_arith)
        requires
            -0x8000_0000_0000_0000 <= c <= 0x8000_0000_0000_0000,
    ;
    assert(dx * dx + dy * dy > 0) by (nonlinear_arith)
        requires
            dx != 0 || dy != 0,
    ;
    assert(dx * dx + dy * dy == dist2(line_start, line_end)) by (nonlinear_arith)
        requires
            dx == line_end.0 - line_start.0,
            dy == line_end.1 - line_start.1,
    ;
    assert(c == cross(point, line_start, line_end));
    (c * c, dx * dx + dy * dy)
}

/// Whether `(x, y)` holds a particle of collision category `collision_type`: 1 or 0.
pub open spec fn matches_at(sandbox: &Sandbox, x: int, y: int, collision_type: CollisionType) -> bool {
    sandbox.in_bounds(x, y) && sandbox.cell(x, y) is Some && sandbox.cell(x, y).unwrap().collision_type
        == collision_type
}

pub fn get_at(sandbox: &Sandbox, x: i32, y: i32, collision_type: CollisionType) -> (r: usize)
    requires
        sandbox.wf(),
    ensures
        r == (if matches_at(sandbox, x as int, y as int, collision_type) { 1usize } else { 0usize }),
{
    match sandbox.checked_get_i32(x, y) {
        Some(particle) => {
            if particle.collision_type == collision_type {
                1
            } else {
                0
            }
        },
        None => 0,
    }
}

/// Turns a position local to `chunk` into a grid position.
pub fn local_to_world(chunk: &SandboxChunk, local_position: (i64, i64)) -> (r: (i64, i64))
    requires
        chunk.position().0 * chunk.spec_width() <= i32::MAX,
        chunk.position().1 * chunk.spec_height() <= i32::MAX,
        -0x4000_0000_0000_0000 <= local_position.0 <= 0x4000_0000_0000_0000,
        -0x4000_0000_0000_0000 <= local_position.1 <= 0x4000_0000_0000_0000,
    ensures
        r.0 == local_position.0 + chunk.position().0 * chunk.spec_width(),
        r.1 == local_position.1 + chunk.position().1 * chunk.spec_height(),
{
    let position = chunk.local_position();
    let gx = (position.0 * chunk.width()) as i64;
    let gy = (position.1 * chunk.height()) as i64;
    (local_position.0 + gx, local_position.1 + gy)
}

/// The squared-distance numerator of `s[i]` from the chord of `s`.
pub open spec fn dev_num(s: Seq<(i64, i64)>, i: int) -> int {
    deviation(s[i], s[0], s[s.len() - 1]).0
}

/// The index among `1..k` whose point lies farthest from the chord of `s`
/// (the first such), or 0 when none lies off it.
pub open spec fn farthest(s: Seq<(i64, i64)>, k: int) -> int
    decreases k,
{
    if k <= 1 {
        0
    } else {
        let b = farthest(s, k - 1);
        if dev_num(s, k - 1) > dev_num(s, b) {
            k - 1
        } else {
            b
        }
    }
}

/// Ramer-Douglas-Peucker simplification of the polyline `s` with tolerance
/// `epsilon`: keep the endpoints, and split at the farthest point while that
/// lies farther than `epsilon` from the chord.
pub open spec fn rdp(s: Seq<(i64, i64)>, epsilon: int) -> Seq<(i64, i64)>
    decreases s.len(),
{
    if s.len() <= 2 {
        seq![s[0], s[s.len() - 1]]
    } else {
        let end = s.len() - 1;
        let idx = farthest(s, end);
        if 1 <= idx < end && exceeds(s[idx], s[0], s[end], epsilon) {
            rdp(s.subrange(0, idx + 1), epsilon).drop_last() + rdp(s.subrange(idx, s.len() as int), epsilon)
        } else {
            seq![s[0], s[end]]
        }
    }
}

proof fn lemma_farthest_range(s: Seq<(i64, i64)>, k: int)
    ensures
        0 <= farthest(s, k),
        k >= 1 ==> farthest(s, k) < k,
    decreases k,
{
    if k > 1 {
        lemma_farthest_range(s, k - 1);
    }
}

proof fn lemma_rdp_len(s: Seq<(i64, i64)>, epsilon: int)
    requires
        s.len() >= 1,
    ensures
        rdp(s, epsilon).len() >= 2,
    decreases s.len(),
{
    if s.len() > 2 {
        let end = s.len() - 1;
        let idx = farthest(s, end);
        if 1 <= idx < end && exceeds(s[idx], s[0], s[end], epsilon) {
            lemma_rdp_len(s.subrange(0, idx + 1), epsilon);
            lemma_rdp_len(s.subrange(idx, s.len() as int), epsilon);
        }
    }
}

/// Simplification keeps only points of the input.
pub proof fn lemma_rdp_in_range(s: Seq<(i64, i64)>, epsilon: int)
    requires
        s.len() >= 1,
        all_in_range(s),
    ensures
        all_in_range(rdp(s, epsilon)),
    decreases s.len(),
{
    if s.len() > 2 {
        let end = s.len() - 1;
        let idx = farthest(s, end);
        if 1 <= idx < end && exceeds(s[idx], s[0], s[end], epsilon) {
            let l = s.subrange(0, idx + 1);
            let r = s.subrange(idx, s.len() as int);
            assert(all_in_range(l));
            assert(all_in_range(r));
            lemma_rdp_in_range(l, epsilon);
            lemma_rdp_in_range(r, epsilon);
            let a = rdp(l, epsilon).drop_last();
            let b = rdp(r, epsilon);
            lemma_rdp_len(l, epsilon);
            assert forall|i: int| 0 <= i < a.len() implies in_range(#[trigger] a[i]) by {
                assert(a[i] == rdp(l, epsilon)[i]);
            }
            assert forall|i: int| 0 <= i < (a + b).len() implies in_range(#[trigger] (a + b)[i]) by {
                if i >= a.len() {
                    assert((a + b)[i] == b[i - a.len()]);
                } else {
                    assert((a + b)[i] == a[i]);
                }
            }
        }
    } else {
        assert(in_range(s[s.len() - 1]));
    }
}

fn rdp_range(data: &Vec<(i64, i64)>, lo: usize, hi: usize, epsilon: u32) -> (r: Vec<(i64, i64)>)
    requires
        lo <= hi < data@.len(),
        all_in_range(data@),
    ensures
        r@ == rdp(data@.subrange(lo as int, hi + 1), epsilon as int),
    decreases hi - lo,
{
    let ghost s = data@.subrange(lo as int, hi + 1);
    if hi - lo < 2 {
        let mut r = Vec::new();
        r.push(data[lo]);
        r.push(data[hi]);
        assert(r@ =~= rdp(s, epsilon as int));
        return r;
    }
    let start = data[lo];
    let end = data[hi];
    let mut index: usize = lo;
    let mut max_distance: i128 = 0;
    let mut i: usize = lo + 1;
    proof {
        assert(in_range(data@[lo as int]));
        assert(in_range(data@[hi as int]));
        assert(dev_num(s, 0) == 0) by (nonlinear_arith)
            requires
                s[0] == start,
                dev_num(s, 0) == deviation(start, start, s[s.len() - 1]).0,
        ;
    }
    while i < hi
        invariant
            lo + 1 <= i <= hi,
            hi - lo >= 2,
            hi < data@.len(),
            all_in_range(data@),
            s == data@.subrange(lo as int, hi + 1),
            start == data@[lo as int],
            end == data@[hi as int],
            index - lo == farthest(s, i - lo),
            lo <= index < i,
            max_distance == dev_num(s, index - lo),
        decreases hi - i,
    {
        let d = perpendicular_distance(data[i], start, end);
        assert(d.0 == dev_num(s, i - lo));
        if d.0 > max_distance {
            index = i;
            max_distance = d.0;
        }
        i = i + 1;
    }
    let d = perpendicular_distance(data[index], start, end);
    assert(0 <= epsilon * epsilon <= 0xFFFF_FFFE_0000_0001) by (nonlinear_arith)
        requires
            0 <= epsilon <= 0xFFFF_FFFF,
    ;
    let eps2: i128 = epsilon as i128 * epsilon as i128;
    assert(0 <= eps2 * d.1 <= 0xFFFF_FFFE_0000_0001 * 0x8000_0000_0000_0000) by (nonlinear_arith)
        requires
            0 <= eps2 <= 0xFFFF_FFFE_0000_0001,
            0 < d.1 <= 0x8000_0000_0000_0000,
    ;
    if index > lo && d.0 > eps2 * d.1 {
        let mut left = rdp_range(data, lo, index, epsilon);
        let mut right = rdp_range(data, index, hi, epsilon);
        proof {
            assert(s.subrange(0, index - lo + 1) =~= data@.subrange(lo as int, index + 1));
            assert(s.subrange(index - lo, s.len() as int) =~= data@.subrange(index as int, hi + 1));
        }
        proof {
            lemma_rdp_len(data@.subrange(lo as int, index + 1), epsilon as int);
        }
        left.pop();
        left.append(&mut right);
        return left;
    }
    let mut r = Vec::new();
    r.push(start);
    r.push(end);
    assert(r@ =~= rdp(s, epsilon as int));
    r
}

/// Simplifies the polyline `data` with tolerance `epsilon`.
pub fn ramer_douglas_peucker(data: &Vec<(i64, i64)>, epsilon: u32) -> (r: Vec<(i64, i64)>)
    requires
        data@.len() >= 1,
        all_in_range(data@),
    ensures
        r@ == rdp(data@, epsilon as int),
{
    let r = rdp_range(data, 0, data.len() - 1, epsilon);
    assert(data@.subrange(0, data@.len() as int) =~= data@);
    r
}

/// A perfectly straight run of points, for any positive tolerance, is
/// simplified to its two endpoints.
pub proof fn lemma_straight_run_collapses(s: Seq<(i64, i64)>, epsilon: int)
    requires
        s.len() >= 2,
        epsilon > 0,
        s[0] != s[s.len() - 1],
        forall|i: int| 0 <= i < s.len() ==> cross(#[trigger] s[i], s[0], s[s.len() - 1]) == 0,
    ensures
        rdp(s, epsilon) == seq![s[0], s[s.len() - 1]],
{
    if s.len() > 2 {
        let end = s.len() - 1;
        let idx = farthest(s, end);
        lemma_farthest_range(s, end);
        assert(cross(s[idx], s[0], s[end]) == 0);
        assert(deviation(s[idx], s[0], s[end]).0 == 0);
        assert(dist2(s[0], s[end]) >= 0) by (nonlinear_arith);
        assert(deviation(s[idx], s[0], s[end]).1 == dist2(s[0], s[end]));
        assert(epsilon * epsilon * deviation(s[idx], s[0], s[end]).1 >= 0) by (nonlinear_arith)
            requires
                deviation(s[idx], s[0], s[end]).1 >= 0,
        ;
    }
}

} // verus!
