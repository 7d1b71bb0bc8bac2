//! Integer voxel-coordinate geometry shared by assembly, fusion and cleanup.

use vstd::prelude::*;

verus! {

/// Largest coordinate magnitude admitted in authored or fused frames.
pub const MAX_COORDINATE_ABS: i64 = 1_048_576;

/// Coordinate within the admitted range on every axis.
pub open spec fn coordinate_admitted(c: [i64; 3]) -> bool {
    &&& -MAX_COORDINATE_ABS <= c[0] <= MAX_COORDINATE_ABS
    &&& -MAX_COORDINATE_ABS <= c[1] <= MAX_COORDINATE_ABS
    &&& -MAX_COORDINATE_ABS <= c[2] <= MAX_COORDINATE_ABS
}

/// Lexicographic order on coordinates (x, then y, then z).
pub open spec fn coord_lt(a: [i64; 3], b: [i64; 3]) -> bool {
    a[0] < b[0] || (a[0] == b[0] && (a[1] < b[1] || (a[1] == b[1] && a[2] < b[2])))
}

pub proof fn lemma_coord_eq(a: [i64; 3], b: [i64; 3])
    ensures
        (a[0] == b[0] && a[1] == b[1] && a[2] == b[2]) <==> a == b,
{
    broadcast use vstd::array::group_array_axioms;
    if a[0] == b[0] && a[1] == b[1] && a[2] == b[2] {
        assert(a =~= b);
    }
}

pub proof fn lemma_coord_lt_total(a: [i64; 3], b: [i64; 3])
    ensures
        coord_lt(a, b) || coord_lt(b, a) || a == b,
        !(coord_lt(a, b) && coord_lt(b, a)),
        !coord_lt(a, a),
{
    lemma_coord_eq(a, b);
}

pub proof fn lemma_coord_lt_trans(a: [i64; 3], b: [i64; 3], c: [i64; 3])
    requires
        coord_lt(a, b),
        coord_lt(b, c),
    ensures
        coord_lt(a, c),
{
}

/// `a` and `b` are equal.
pub fn same_coord(a: [i64; 3], b: [i64; 3]) -> (same: bool)
    ensures
        same == (a == b),
{
    proof {
        lemma_coord_eq(a, b);
    }
    a[0] == b[0] && a[1] == b[1] && a[2] == b[2]
}

/// `a` sorts strictly before `b`.
pub fn coord_less(a: [i64; 3], b: [i64; 3]) -> (less: bool)
    ensures
        less == coord_lt(a, b),
{
    a[0] < b[0] || (a[0] == b[0] && (a[1] < b[1] || (a[1] == b[1] && a[2] < b[2])))
}

pub open spec fn abs_diff(a: i64, b: i64) -> int {
    if a >= b { a - b } else { b - a }
}

/// Sum of per-axis distances.
pub open spec fn manhattan_distance(a: [i64; 3], b: [i64; 3]) -> int {
    abs_diff(a[0], b[0]) + abs_diff(a[1], b[1]) + abs_diff(a[2], b[2])
}

/// Largest per-axis distance.
pub open spec fn chebyshev_distance(a: [i64; 3], b: [i64; 3]) -> int {
    let d0 = abs_diff(a[0], b[0]);
    let d1 = abs_diff(a[1], b[1]);
    let d2 = abs_diff(a[2], b[2]);
    if d0 >= d1 && d0 >= d2 { d0 } else if d1 >= d2 { d1 } else { d2 }
}

fn axis_abs_diff(a: i64, b: i64) -> (d: u64)
    ensures
        d == abs_diff(a, b),
{
    if a >= b {
        ((a as i128) - (b as i128)) as u64
    } else {
        ((b as i128) - (a as i128)) as u64
    }
}

/// Manhattan distance between two cells.
pub fn manhattan(left: [i64; 3], right: [i64; 3]) -> (d: u64)
    requires
        manhattan_distance(left, right) <= u64::MAX,
    ensures
        d == manhattan_distance(left, right),
{
    let a = axis_abs_diff(left[0], right[0]);
    let b = axis_abs_diff(left[1], right[1]);
    let c = axis_abs_diff(left[2], right[2]);
    a + b + c
}

/// Chebyshev (king-move) distance between two cells.
pub fn chebyshev(left: [i64; 3], right: [i64; 3]) -> (d: u64)
    ensures
        d == chebyshev_distance(left, right),
        forall|k: int| 0 <= k < 3 ==> d >= left[k] - right[k] && d >= right[k] - left[k],
        exists|k: int| 0 <= k < 3 && (d == left[k] - right[k] || d == right[k] - left[k]),
{
    proof {
        law_chebyshev_is_the_largest_axis_gap(left, right);
    }
    let a = axis_abs_diff(left[0], right[0]);
    let b = axis_abs_diff(left[1], right[1]);
    let c = axis_abs_diff(left[2], right[2]);
    if a >= b && a >= c {
        a
    } else if b >= c {
        b
    } else {
        c
    }
}

/// The six face-neighbor offsets, in order -x, +x, -y, +y, -z, +z.
pub open spec fn face_offset(k: int) -> [i64; 3] {
    if k == 0 {
        [-1i64, 0i64, 0i64]
    } else if k == 1 {
        [1i64, 0i64, 0i64]
    } else if k == 2 {
        [0i64, -1i64, 0i64]
    } else if k == 3 {
        [0i64, 1i64, 0i64]
    } else if k == 4 {
        [0i64, 0i64, -1i64]
    } else {
        [0i64, 0i64, 1i64]
    }
}

/// Component-wise sum; `None` when an axis overflows i64.
pub open spec fn spec_add(a: [i64; 3], b: [i64; 3]) -> Option<[i64; 3]> {
    if i64::MIN <= a[0] + b[0] <= i64::MAX && i64::MIN <= a[1] + b[1] <= i64::MAX && i64::MIN
        <= a[2] + b[2] <= i64::MAX {
        Some([(a[0] + b[0]) as i64, (a[1] + b[1]) as i64, (a[2] + b[2]) as i64])
    } else {
        None
    }
}

/// Component-wise checked sum of two coordinates.
pub fn checked_add_coord(a: [i64; 3], b: [i64; 3]) -> (sum: Option<[i64; 3]>)
    ensures
        sum == spec_add(a, b),
{
    let x = a[0].checked_add(b[0]);
    let y = a[1].checked_add(b[1]);
    let z = a[2].checked_add(b[2]);
    match (x, y, z) {
        (Some(x), Some(y), Some(z)) => {
            let r = [x, y, z];
            proof {
                lemma_coord_eq(r, [(a[0] + b[0]) as i64, (a[1] + b[1]) as i64, (a[2] + b[2]) as i64]);
            }
            Some(r)
        },
        _ => None,
    }
}

/// The face-offset coordinate for index `k < 6`.
pub fn face_offset_exec(k: usize) -> (offset: [i64; 3])
    requires
        k < 6,
    ensures
        offset == face_offset(k as int),
{
    if k == 0 {
        [-1, 0, 0]
    } else if k == 1 {
        [1, 0, 0]
    } else if k == 2 {
        [0, -1, 0]
    } else if k == 3 {
        [0, 1, 0]
    } else if k == 4 {
        [0, 0, -1]
    } else {
        [0, 0, 1]
    }
}

/// Axis-aligned bounds over a non-empty sequence of coordinates.
pub open spec fn seq_min_axis(s: Seq<[i64; 3]>, axis: int) -> i64
    decreases s.len(),
{
    if s.len() <= 1 {
        s[0][axis]
    } else {
        let rest = seq_min_axis(s.drop_last(), axis);
        if s.last()[axis] < rest { s.last()[axis] } else { rest }
    }
}

pub open spec fn seq_max_axis(s: Seq<[i64; 3]>, axis: int) -> i64
    decreases s.len(),
{
    if s.len() <= 1 {
        s[0][axis]
    } else {
        let rest = seq_max_axis(s.drop_last(), axis);
        if s.last()[axis] > rest { s.last()[axis] } else { rest }
    }
}

/// Inclusive bounds of the coordinates, `None` when there are none.
pub open spec fn spec_bounds(s: Seq<[i64; 3]>) -> Option<([i64; 3], [i64; 3])> {
    if s.len() == 0 {
        None
    } else {
        Some(
            (
                [seq_min_axis(s, 0), seq_min_axis(s, 1), seq_min_axis(s, 2)],
                [seq_max_axis(s, 0), seq_max_axis(s, 1), seq_max_axis(s, 2)],
            ),
        )
    }
}

pub proof fn lemma_bounds_contain(s: Seq<[i64; 3]>, axis: int)
    requires
        s.len() > 0,
        0 <= axis < 3,
    ensures
        forall|i: int| 0 <= i < s.len() ==> seq_min_axis(s, axis) <= #[trigger] s[i][axis] <= seq_max_axis(s, axis),
        exists|i: int| 0 <= i < s.len() && s[i][axis] == seq_min_axis(s, axis),
        exists|i: int| 0 <= i < s.len() && s[i][axis] == seq_max_axis(s, axis),
    decreases s.len(),
{
    if s.len() > 1 {
        lemma_bounds_contain(s.drop_last(), axis);
        assert forall|i: int| 0 <= i < s.len() implies seq_min_axis(s, axis) <= #[trigger] s[i][axis] <= seq_max_axis(s, axis) by {
            if i < s.len() - 1 {
                assert(s[i] == s.drop_last()[i]);
            }
        }
        let j = choose|j: int| 0 <= j < s.drop_last().len() && s.drop_last()[j][axis] == seq_min_axis(s.drop_last(), axis);
        let k = choose|k: int| 0 <= k < s.drop_last().len() && s.drop_last()[k][axis] == seq_max_axis(s.drop_last(), axis);
        assert(s[j] == s.drop_last()[j]);
        assert(s[k] == s.drop_last()[k]);
        let l = s.len() - 1;
        assert(s[l] == s.last());
        if s.last()[axis] < seq_min_axis(s.drop_last(), axis) {
            assert(s[l][axis] == seq_min_axis(s, axis));
        } else {
            assert(s[j][axis] == seq_min_axis(s, axis));
        }
        if s.last()[axis] > seq_max_axis(s.drop_last(), axis) {
            assert(s[l][axis] == seq_max_axis(s, axis));
        } else {
            assert(s[k][axis] == seq_max_axis(s, axis));
        }
    } else {
        assert(s[0][axis] == seq_min_axis(s, axis));
        assert(s[0][axis] == seq_max_axis(s, axis));
    }
}

/// Inclusive axis-aligned bounds of the coordinates.
pub fn bounds_of(coordinates: &Vec<[i64; 3]>) -> (b: Option<([i64; 3], [i64; 3])>)
    ensures
        b == spec_bounds(coordinates@),
{
    if coordinates.len() == 0 {
        return None;
    }
    let first = coordinates[0];
    let mut lo = first;
    let mut hi = first;
    let mut i: usize = 1;
    while i < coordinates.len()
        invariant
            1 <= i <= coordinates@.len(),
            lo == [seq_min_axis(coordinates@.take(i as int), 0), seq_min_axis(coordinates@.take(i as int), 1), seq_min_axis(coordinates@.take(i as int), 2)],
            hi == [seq_max_axis(coordinates@.take(i as int), 0), seq_max_axis(coordinates@.take(i as int), 1), seq_max_axis(coordinates@.take(i as int), 2)],
        decreases coordinates@.len() - i,
    {
        let c = coordinates[i];
        let x0 = if c[0] < lo[0] { c[0] } else { lo[0] };
        let y0 = if c[1] < lo[1] { c[1] } else { lo[1] };
        let z0 = if c[2] < lo[2] { c[2] } else { lo[2] };
        let x1 = if c[0] > hi[0] { c[0] } else { hi[0] };
        let y1 = if c[1] > hi[1] { c[1] } else { hi[1] };
        let z1 = if c[2] > hi[2] { c[2] } else { hi[2] };
        proof {
            let s = coordinates@.take(i + 1);
            assert(s.drop_last() =~= coordinates@.take(i as int));
            assert(s.last() == c);
        }
        lo = [x0, y0, z0];
        hi = [x1, y1, z1];
        i = i + 1;
    }
    assert(coordinates@.take(coordinates@.len() as int) =~= coordinates@);
    Some((lo, hi))
}

/// The face-connected path of the greedy walk used by fusion: each step moves
/// one cell along the axis with the largest remaining distance (ties: highest
/// axis), ending at `to`.
pub open spec fn greedy_axis(a: [i64; 3], b: [i64; 3]) -> int {
    let d0 = abs_diff(a[0], b[0]);
    let d1 = abs_diff(a[1], b[1]);
    let d2 = abs_diff(a[2], b[2]);
    if d2 >= d0 && d2 >= d1 { 2 } else if d1 >= d0 { 1 } else { 0 }
}

pub open spec fn step_toward(current: [i64; 3], target: [i64; 3], axis: int) -> [i64; 3] {
    let delta: int = if current[axis] < target[axis] { 1 } else if current[axis] > target[axis] { -1 } else { 0 };
    let moved = (current[axis] + delta) as i64;
    if axis == 0 {
        [moved, current[1], current[2]]
    } else if axis == 1 {
        [current[0], moved, current[2]]
    } else {
        [current[0], current[1], moved]
    }
}

pub open spec fn greedy_path(current: [i64; 3], target: [i64; 3]) -> Seq<[i64; 3]>
    decreases manhattan_distance(current, target),
{
    if manhattan_distance(current, target) == 0 {
        seq![current]
    } else {
        seq![current] + greedy_path(step_toward(current, target, greedy_axis(current, target)), target)
    }
}

/// Walk along x, then y, then z, one cell per step, from `from` to `to`.
pub open spec fn axis_order_path(from: [i64; 3], to: [i64; 3], axis: int) -> Seq<[i64; 3]>
    decreases 3 - axis, abs_diff(from[axis], to[axis]),
{
    if axis >= 3 || axis < 0 {
        seq![]
    } else if from[axis] == to[axis] {
        axis_order_path(from, to, axis + 1)
    } else {
        let next = step_toward(from, to, axis);
        seq![next] + axis_order_path(next, to, axis)
    }
}

} // verus!

verus! {

proof fn lemma_greedy_step(current: [i64; 3], target: [i64; 3])
    requires
        manhattan_distance(current, target) > 0,
    ensures
        manhattan_distance(step_toward(current, target, greedy_axis(current, target)), target) == manhattan_distance(current, target) - 1,
        manhattan_distance(current, step_toward(current, target, greedy_axis(current, target))) == 1,
{
}

/// The greedy fusion path starts at `from`, ends at `to`, has one cell per
/// unit of Manhattan distance plus one, and each step crosses one face.
pub proof fn law_greedy_path_face_connected(from: [i64; 3], to: [i64; 3])
    ensures
        greedy_path(from, to).len() == manhattan_distance(from, to) + 1,
        greedy_path(from, to)[0] == from,
        greedy_path(from, to).last() == to,
        forall|i: int| 0 <= i < greedy_path(from, to).len() - 1 ==> manhattan_distance(
            #[trigger] greedy_path(from, to)[i],
            greedy_path(from, to)[i + 1],
        ) == 1,
    decreases manhattan_distance(from, to),
{
    if manhattan_distance(from, to) == 0 {
        lemma_coord_eq(from, to);
    } else {
        let next = step_toward(from, to, greedy_axis(from, to));
        lemma_greedy_step(from, to);
        law_greedy_path_face_connected(next, to);
        let rest = greedy_path(next, to);
        let p = greedy_path(from, to);
        assert(p == seq![from] + rest);
        assert forall|i: int| 0 <= i < p.len() - 1 implies manhattan_distance(#[trigger] p[i], p[i + 1]) == 1 by {
            if i > 0 {
                assert(p[i] == rest[i - 1] && p[i + 1] == rest[i]);
            }
        }
    }
}

} // verus!

verus! {

/// The Chebyshev distance is the largest per-axis gap: at least the gap on
/// every one of the three axes, and equal to the gap on one of them.
pub proof fn law_chebyshev_is_the_largest_axis_gap(a: [i64; 3], b: [i64; 3])
    ensures
        forall|k: int| 0 <= k < 3 ==> chebyshev_distance(a, b) >= a[k] - b[k] && chebyshev_distance(a, b) >= b[k] - a[k],
        exists|k: int| 0 <= k < 3 && (chebyshev_distance(a, b) == a[k] - b[k] || chebyshev_distance(a, b) == b[k] - a[k]),
{
    let d = chebyshev_distance(a, b);
    if d == abs_diff(a[0], b[0]) {
        assert(d == a[0] - b[0] || d == b[0] - a[0]);
    } else if d == abs_diff(a[1], b[1]) {
        assert(d == a[1] - b[1] || d == b[1] - a[1]);
    } else {
        assert(d == a[2] - b[2] || d == b[2] - a[2]);
    }
}

} // verus!
