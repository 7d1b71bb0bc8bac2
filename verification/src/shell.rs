//! The nearest free cell around a collision: shells of growing max-norm
//! distance, searched in order of squared distance, then coordinate.

use vstd::prelude::*;

use crate::cellmap::{contains, occupies, sorted_by_loc, Located};
use crate::voxel::{coord_lt, lemma_coord_lt_total};

verus! {

pub open spec fn abs_int(v: int) -> int {
    if v < 0 { -v } else { v }
}

/// The max-norm (Chebyshev) distance of an offset from the origin.
pub open spec fn cheb(o: (int, int, int)) -> int {
    let a = abs_int(o.0);
    let b = abs_int(o.1);
    let c = abs_int(o.2);
    if a >= b && a >= c { a } else if b >= c { b } else { c }
}

pub open spec fn sq_norm(o: (int, int, int)) -> int {
    o.0 * o.0 + o.1 * o.1 + o.2 * o.2
}

/// Search order within a shell: squared distance, then coordinate.
pub open spec fn offset_before(a: (int, int, int), b: (int, int, int)) -> bool {
    sq_norm(a) < sq_norm(b) || (sq_norm(a) == sq_norm(b) && (a.0 < b.0 || (a.0 == b.0 && (a.1 < b.1 || (a.1 == b.1
        && a.2 < b.2)))))
}

/// The offset from `origin` to `c`.
pub open spec fn offset_of(origin: [i64; 3], c: [i64; 3]) -> (int, int, int) {
    (c[0] - origin[0], c[1] - origin[1], c[2] - origin[2])
}

/// `c` is the cell the shell search settles on: free, every cell of the
/// nearer shells is occupied, and no free cell of its own shell comes
/// before it in search order.
pub open spec fn nearest_free(occupied: Seq<[i64; 3]>, origin: [i64; 3], c: [i64; 3]) -> bool {
    let d = offset_of(origin, c);
    &&& cheb(d) >= 1
    &&& !occupies(occupied, c)
    &&& forall|e: [i64; 3]| 1 <= cheb(#[trigger] offset_of(origin, e)) < cheb(d) ==> occupies(occupied, e)
    &&& forall|e: [i64; 3]| cheb(#[trigger] offset_of(origin, e)) == cheb(d) && !occupies(occupied, e) ==> !offset_before(
        offset_of(origin, e),
        d,
    )
}

} // verus!

verus! {

/// Within this bound the search's arithmetic cannot overflow.
pub const SEARCH_BOUND: i64 = 0x1000_0000_0000_0000;

/// `d` comes before the loop position `(x, y, z)` of a box scan.
pub open spec fn scanned(d: (int, int, int), x: int, y: int, z: int) -> bool {
    d.0 < x || (d.0 == x && (d.1 < y || (d.1 == y && d.2 < z)))
}

/// What a shell scan has established for the cells scanned so far.
pub open spec fn shell_state(
    occupied: Seq<[i64; 3]>,
    origin: [i64; 3],
    r: int,
    best: Option<[i64; 3]>,
    x: int,
    y: int,
    z: int,
) -> bool {
    &&& best matches Some(b) ==> cheb(offset_of(origin, b)) == r && !occupies(occupied, b)
    &&& forall|e: [i64; 3]| #![trigger offset_of(origin, e)]
        cheb(offset_of(origin, e)) == r && scanned(offset_of(origin, e), x, y, z) && !occupies(occupied, e)
            ==> (best matches Some(b) && !offset_before(offset_of(origin, e), offset_of(origin, b)))
}

fn i128_abs(v: i64) -> (a: i128)
    ensures
        a == abs_int(v as int),
{
    if v < 0 { -(v as i128) } else { v as i128 }
}

fn cheb_exec(d: [i64; 3]) -> (c: i128)
    ensures
        c == cheb((d[0] as int, d[1] as int, d[2] as int)),
{
    let a = i128_abs(d[0]);
    let b = i128_abs(d[1]);
    let c = i128_abs(d[2]);
    if a >= b && a >= c { a } else if b >= c { b } else { c }
}

fn before_exec(a: [i64; 3], b: [i64; 3]) -> (before: bool)
    requires
        -SEARCH_BOUND < a[0] < SEARCH_BOUND,
        -SEARCH_BOUND < a[1] < SEARCH_BOUND,
        -SEARCH_BOUND < a[2] < SEARCH_BOUND,
        -SEARCH_BOUND < b[0] < SEARCH_BOUND,
        -SEARCH_BOUND < b[1] < SEARCH_BOUND,
        -SEARCH_BOUND < b[2] < SEARCH_BOUND,
    ensures
        before == offset_before((a[0] as int, a[1] as int, a[2] as int), (b[0] as int, b[1] as int, b[2] as int)),
{
    let (a0, a1, a2) = (a[0] as i128, a[1] as i128, a[2] as i128);
    let (b0, b1, b2) = (b[0] as i128, b[1] as i128, b[2] as i128);
    proof {
        assert(a0 * a0 <= 0x100_0000_0000_0000_0000_0000_0000_0000) by (nonlinear_arith)
            requires
                -0x1000_0000_0000_0000 < a0 < 0x1000_0000_0000_0000,
        ;
        assert(a1 * a1 <= 0x100_0000_0000_0000_0000_0000_0000_0000) by (nonlinear_arith)
            requires
                -0x1000_0000_0000_0000 < a1 < 0x1000_0000_0000_0000,
        ;
        assert(a2 * a2 <= 0x100_0000_0000_0000_0000_0000_0000_0000) by (nonlinear_arith)
            requires
                -0x1000_0000_0000_0000 < a2 < 0x1000_0000_0000_0000,
        ;
        assert(b0 * b0 <= 0x100_0000_0000_0000_0000_0000_0000_0000) by (nonlinear_arith)
            requires
                -0x1000_0000_0000_0000 < b0 < 0x1000_0000_0000_0000,
        ;
        assert(b1 * b1 <= 0x100_0000_0000_0000_0000_0000_0000_0000) by (nonlinear_arith)
            requires
                -0x1000_0000_0000_0000 < b1 < 0x1000_0000_0000_0000,
        ;
        assert(b2 * b2 <= 0x100_0000_0000_0000_0000_0000_0000_0000) by (nonlinear_arith)
            requires
                -0x1000_0000_0000_0000 < b2 < 0x1000_0000_0000_0000,
        ;
        assert(0 <= a0 * a0 && 0 <= a1 * a1 && 0 <= a2 * a2 && 0 <= b0 * b0 && 0 <= b1 * b1 && 0 <= b2 * b2)
            by (nonlinear_arith);
    }
    let sa = a0 * a0 + a1 * a1 + a2 * a2;
    let sb = b0 * b0 + b1 * b1 + b2 * b2;
    sa < sb || (sa == sb && (a[0] < b[0] || (a[0] == b[0] && (a[1] < b[1] || (a[1] == b[1] && a[2] < b[2])))))
}

} // verus!

verus! {

proof fn lemma_offset_of_cell(origin: [i64; 3], c: [i64; 3], e: [i64; 3])
    requires
        offset_of(origin, e) == offset_of(origin, c),
    ensures
        e == c,
{
    broadcast use vstd::array::group_array_axioms;

    assert(e =~= c);
}

proof fn lemma_shell_box(d: (int, int, int), r: int)
    requires
        cheb(d) == r,
    ensures
        -r <= d.0 <= r,
        -r <= d.1 <= r,
        -r <= d.2 <= r,
{
}

/// The free cell of shell `r` that comes first in search order, if any.
fn shell_best(occupied: &Vec<[i64; 3]>, origin: [i64; 3], r: i64) -> (best: Option<[i64; 3]>)
    requires
        sorted_by_loc(occupied@),
        -SEARCH_BOUND < origin[0] < SEARCH_BOUND,
        -SEARCH_BOUND < origin[1] < SEARCH_BOUND,
        -SEARCH_BOUND < origin[2] < SEARCH_BOUND,
        1 <= r < SEARCH_BOUND,
    ensures
        shell_state(occupied@, origin, r as int, best, r + 1, -r, -r),
{
    let mut best: Option<[i64; 3]> = None;
    let mut best_d: [i64; 3] = [0, 0, 0];
    let mut x: i64 = -r;
    while x <= r
        invariant
            sorted_by_loc(occupied@),
            -SEARCH_BOUND < origin[0] < SEARCH_BOUND,
            -SEARCH_BOUND < origin[1] < SEARCH_BOUND,
            -SEARCH_BOUND < origin[2] < SEARCH_BOUND,
            1 <= r < SEARCH_BOUND,
            -r <= x <= r + 1,
            best matches Some(b) ==> best_d == [
                (b[0] - origin[0]) as i64,
                (b[1] - origin[1]) as i64,
                (b[2] - origin[2]) as i64,
            ] && -r <= best_d[0] <= r && -r <= best_d[1] <= r && -r <= best_d[2] <= r && offset_of(origin, b) == (
                best_d[0] as int,
                best_d[1] as int,
                best_d[2] as int,
            ),
            shell_state(occupied@, origin, r as int, best, x as int, -r, -r),
        decreases r + 1 - x,
    {
        let mut y: i64 = -r;
        while y <= r
            invariant
                sorted_by_loc(occupied@),
                -SEARCH_BOUND < origin[0] < SEARCH_BOUND,
                -SEARCH_BOUND < origin[1] < SEARCH_BOUND,
                -SEARCH_BOUND < origin[2] < SEARCH_BOUND,
                1 <= r < SEARCH_BOUND,
                -r <= x <= r,
                -r <= y <= r + 1,
                best matches Some(b) ==> best_d == [
                    (b[0] - origin[0]) as i64,
                    (b[1] - origin[1]) as i64,
                    (b[2] - origin[2]) as i64,
                ] && -r <= best_d[0] <= r && -r <= best_d[1] <= r && -r <= best_d[2] <= r && offset_of(origin, b) == (
                    best_d[0] as int,
                    best_d[1] as int,
                    best_d[2] as int,
                ),
                shell_state(occupied@, origin, r as int, best, x as int, y as int, -r),
            decreases r + 1 - y,
        {
            let mut z: i64 = -r;
            while z <= r
                invariant
                    sorted_by_loc(occupied@),
                    -SEARCH_BOUND < origin[0] < SEARCH_BOUND,
                    -SEARCH_BOUND < origin[1] < SEARCH_BOUND,
                    -SEARCH_BOUND < origin[2] < SEARCH_BOUND,
                    1 <= r < SEARCH_BOUND,
                    -r <= x <= r,
                    -r <= y <= r,
                    -r <= z <= r + 1,
                    best matches Some(b) ==> best_d == [
                        (b[0] - origin[0]) as i64,
                        (b[1] - origin[1]) as i64,
                        (b[2] - origin[2]) as i64,
                    ] && -r <= best_d[0] <= r && -r <= best_d[1] <= r && -r <= best_d[2] <= r && offset_of(origin, b)
                        == (best_d[0] as int, best_d[1] as int, best_d[2] as int),
                    shell_state(occupied@, origin, r as int, best, x as int, y as int, z as int),
                decreases r + 1 - z,
            {
                let d: [i64; 3] = [x, y, z];
                let ghost old_best = best;
                if cheb_exec(d) == r as i128 {
                    let c: [i64; 3] = [origin[0] + x, origin[1] + y, origin[2] + z];
                    proof {
                        broadcast use vstd::array::group_array_axioms;

                        assert(offset_of(origin, c) == (x as int, y as int, z as int));
                    }
                    if !contains(occupied, c) {
                        let better = match best {
                            None => true,
                            Some(_) => before_exec(d, best_d),
                        };
                        if better {
                            best = Some(c);
                            best_d = d;
                            proof {
                                broadcast use vstd::array::group_array_axioms;

                                assert(best_d == [
                                    (c[0] - origin[0]) as i64,
                                    (c[1] - origin[1]) as i64,
                                    (c[2] - origin[2]) as i64,
                                ]);
                            }
                        }
                    }
                    proof {
                        assert forall|e: [i64; 3]| #![trigger offset_of(origin, e)]
                            cheb(offset_of(origin, e)) == r && scanned(offset_of(origin, e), x as int, y as int, z + 1)
                                && !occupies(occupied@, e) implies (best matches Some(b) && !offset_before(
                            offset_of(origin, e),
                            offset_of(origin, b),
                        )) by {
                            if offset_of(origin, e) == (x as int, y as int, z as int) {
                                lemma_offset_of_cell(origin, c, e);
                            } else {
                                assert(scanned(offset_of(origin, e), x as int, y as int, z as int));
                            }
                        }
                    }
                } else {
                    proof {
                        assert forall|e: [i64; 3]| #![trigger offset_of(origin, e)]
                            cheb(offset_of(origin, e)) == r && scanned(offset_of(origin, e), x as int, y as int, z + 1)
                                && !occupies(occupied@, e) implies (best matches Some(b) && !offset_before(
                            offset_of(origin, e),
                            offset_of(origin, b),
                        )) by {
                            assert(offset_of(origin, e) != (x as int, y as int, z as int));
                            assert(scanned(offset_of(origin, e), x as int, y as int, z as int));
                        }
                    }
                }
                z = z + 1;
            }
            proof {
                assert forall|e: [i64; 3]| #![trigger offset_of(origin, e)]
                    cheb(offset_of(origin, e)) == r && scanned(offset_of(origin, e), x as int, y + 1, -r)
                        && !occupies(occupied@, e) implies (best matches Some(b) && !offset_before(
                    offset_of(origin, e),
                    offset_of(origin, b),
                )) by {
                    lemma_shell_box(offset_of(origin, e), r as int);
                    assert(scanned(offset_of(origin, e), x as int, y as int, r + 1));
                }
            }
            y = y + 1;
        }
        proof {
            assert forall|e: [i64; 3]| #![trigger offset_of(origin, e)]
                cheb(offset_of(origin, e)) == r && scanned(offset_of(origin, e), x + 1, -r, -r)
                    && !occupies(occupied@, e) implies (best matches Some(b) && !offset_before(
                offset_of(origin, e),
                offset_of(origin, b),
            )) by {
                lemma_shell_box(offset_of(origin, e), r as int);
                assert(scanned(offset_of(origin, e), x as int, r + 1, -r));
            }
        }
        x = x + 1;
    }
    best
}

} // verus!

verus! {

/// When every cell of the shells `1..=r` around `origin` is occupied, the
/// sorted list holds at least `r` cells: the `r` cells along +x are distinct
/// and ascending.
proof fn lemma_shells_fill(occupied: Seq<[i64; 3]>, origin: [i64; 3], r: int)
    requires
        sorted_by_loc(occupied),
        1 <= r,
        -SEARCH_BOUND < origin[0] < SEARCH_BOUND,
        r < SEARCH_BOUND,
        forall|e: [i64; 3]| 1 <= cheb(#[trigger] offset_of(origin, e)) <= r ==> occupies(occupied, e),
    ensures
        r <= occupied.len(),
{
    let i = lemma_chain_index(occupied, origin, r);
}

/// The cell `k` steps along +x from `origin` sits at index at least `k - 1`.
proof fn lemma_chain_index(occupied: Seq<[i64; 3]>, origin: [i64; 3], k: int) -> (i: int)
    requires
        sorted_by_loc(occupied),
        1 <= k,
        -SEARCH_BOUND < origin[0] < SEARCH_BOUND,
        k < SEARCH_BOUND,
        forall|e: [i64; 3]| 1 <= cheb(#[trigger] offset_of(origin, e)) <= k ==> occupies(occupied, e),
    ensures
        0 <= i < occupied.len(),
        occupied[i] == [(origin[0] + k) as i64, origin[1], origin[2]],
        i >= k - 1,
    decreases k,
{
    broadcast use vstd::array::group_array_axioms;

    let p: [i64; 3] = [(origin[0] + k) as i64, origin[1], origin[2]];
    assert(offset_of(origin, p) == (k, 0int, 0int));
    assert(occupies(occupied, p));
    let j = choose|j: int| 0 <= j < occupied.len() && #[trigger] occupied[j].loc() == p;
    if k > 1 {
        let i = lemma_chain_index(occupied, origin, k - 1);
        if j <= i {
            if j < i {
                assert(coord_lt(occupied[j].loc(), occupied[i].loc()));
            }
            assert(coord_lt(occupied[i], p));
            lemma_coord_lt_total(occupied[i], p);
        }
    }
    j
}

/// The nearest free cell around `origin`: in the first shell of max-norm
/// distance `1, 2, ...` that has one, the free cell of least squared
/// distance, ties broken by coordinate.
pub fn nearest_free_cell(origin: [i64; 3], occupied: &Vec<[i64; 3]>) -> (cell: [i64; 3])
    requires
        sorted_by_loc(occupied@),
        -SEARCH_BOUND < origin[0] < SEARCH_BOUND,
        -SEARCH_BOUND < origin[1] < SEARCH_BOUND,
        -SEARCH_BOUND < origin[2] < SEARCH_BOUND,
        occupied@.len() < SEARCH_BOUND - 1,
    ensures
        nearest_free(occupied@, origin, cell),
{
    let mut r: i64 = 1;
    loop
        invariant
            sorted_by_loc(occupied@),
            -SEARCH_BOUND < origin[0] < SEARCH_BOUND,
            -SEARCH_BOUND < origin[1] < SEARCH_BOUND,
            -SEARCH_BOUND < origin[2] < SEARCH_BOUND,
            occupied@.len() < SEARCH_BOUND - 1,
            1 <= r <= occupied@.len() + 1,
            forall|e: [i64; 3]| 1 <= cheb(#[trigger] offset_of(origin, e)) < r ==> occupies(occupied@, e),
        decreases occupied@.len() + 1 - r,
    {
        match shell_best(occupied, origin, r) {
            Some(c) => {
                return c;
            },
            None => {
                proof {
                    assert forall|e: [i64; 3]| 1 <= cheb(#[trigger] offset_of(origin, e)) <= r implies occupies(
                        occupied@,
                        e,
                    ) by {
                        if cheb(offset_of(origin, e)) == r {
                            lemma_shell_box(offset_of(origin, e), r as int);
                            assert(scanned(offset_of(origin, e), r + 1, -r, -r));
                        }
                    }
                    lemma_shells_fill(occupied@, origin, r as int);
                }
                r = r + 1;
            },
        }
    }
}

} // verus!

verus! {

/// A cell next to `c` on `axis`, one step toward `origin`.
pub open spec fn toward(origin: [i64; 3], c: [i64; 3], axis: int) -> [i64; 3] {
    let step = if c[axis] > origin[axis] { -1int } else { 1int };
    if axis == 0 {
        [(c[0] + step) as i64, c[1], c[2]]
    } else if axis == 1 {
        [c[0], (c[1] + step) as i64, c[2]]
    } else {
        [c[0], c[1], (c[2] + step) as i64]
    }
}

/// When the search starts from an occupied cell, the cell it settles on
/// shares a face with an occupied cell: displacing a collision never
/// detaches it from the body.
pub proof fn law_nearest_free_touches_occupied(occupied: Seq<[i64; 3]>, origin: [i64; 3], c: [i64; 3])
    requires
        nearest_free(occupied, origin, c),
        occupies(occupied, origin),
    ensures
        exists|n: [i64; 3]| occupies(occupied, n) && crate::voxel::manhattan_distance(n, c) == 1,
{
    broadcast use vstd::array::group_array_axioms;

    let d = offset_of(origin, c);
    let axis: int = if d.0 != 0 { 0 } else if d.1 != 0 { 1 } else { 2 };
    let n = toward(origin, c, axis);
    let e = offset_of(origin, n);
    assert(crate::voxel::manhattan_distance(n, c) == 1);
    assert(sq_norm(e) < sq_norm(d)) by (nonlinear_arith)
        requires
            (axis == 0 && d.0 != 0 && e.1 == d.1 && e.2 == d.2 && (e.0 == d.0 - 1 || e.0 == d.0 + 1) && abs_int(e.0)
                < abs_int(d.0)) || (axis == 1 && d.1 != 0 && e.0 == d.0 && e.2 == d.2 && (e.1 == d.1 - 1 || e.1
                == d.1 + 1) && abs_int(e.1) < abs_int(d.1)) || (axis == 2 && d.2 != 0 && e.0 == d.0 && e.1 == d.1
                && (e.2 == d.2 - 1 || e.2 == d.2 + 1) && abs_int(e.2) < abs_int(d.2)),
    ;
    if e == (0int, 0int, 0int) {
        assert(n =~= origin);
    } else if cheb(e) < cheb(d) {
        assert(1 <= cheb(offset_of(origin, n)) < cheb(d));
    } else {
        assert(cheb(offset_of(origin, n)) == cheb(d));
        assert(offset_before(e, d));
    }
}

} // verus!
