//! Enforcing face connectivity inside an edit region: while the region's
//! occupied cells fall apart into several components, the component of the
//! lowest cell is bridged to the nearest other cell by a straight-axis path.

use vstd::prelude::*;
use vstd::string::StringExecFns;

use crate::cellmap::{contains, lemma_map_at, lemma_push_map, located_map, sorted_by_loc, Located};
use crate::cellstore::{fill_absent, fill_cells, listed, region_coordinates, region_set};
use crate::cleanup::{fault, spec_edit_path, spec_neighbor, EditBounds, EditError, Fault};
use crate::fusion::{cells_view, FusedCellView, FusedVoxelCell};
use crate::region::{component, component_of, lemma_listed_occupies, lemma_reach_extend, reachable};
use crate::text::{decimal_text, decimal_u64};
use crate::voxel::{
    abs_diff, axis_order_path, coord_less, coord_lt, coordinate_admitted, face_offset, lemma_coord_eq,
    lemma_coord_lt_total, lemma_coord_lt_trans, manhattan, manhattan_distance, same_coord, step_toward,
    MAX_COORDINATE_ABS,
};

verus! {

/// The occupied cells of `m` inside `region`.
pub open spec fn occupied_in(m: Map<[i64; 3], FusedCellView>, region: EditBounds) -> Set<[i64; 3]> {
    Set::new(|c: [i64; 3]| m.contains_key(c) && region.spec_contains(c))
}

/// The lowest coordinate of a set.
#[verifier::opaque]
pub open spec fn least(s: Set<[i64; 3]>) -> [i64; 3] {
    choose|c: [i64; 3]| s.contains(c) && forall|d: [i64; 3]| #[trigger] s.contains(d) ==> !coord_lt(d, c)
}

/// The component of the lowest cell.
pub open spec fn first_group(s: Set<[i64; 3]>) -> Set<[i64; 3]> {
    component(s, least(s))
}

/// Pairs ordered by Manhattan distance, then source, then target coordinate.
pub open spec fn pair_lt(a: ([i64; 3], [i64; 3]), b: ([i64; 3], [i64; 3])) -> bool {
    let da = manhattan_distance(a.0, a.1);
    let db = manhattan_distance(b.0, b.1);
    da < db || (da == db && (coord_lt(a.0, b.0) || (a.0 == b.0 && coord_lt(a.1, b.1))))
}

/// The least pair from `f` to `o`.
#[verifier::opaque]
pub open spec fn closest_pair(f: Set<[i64; 3]>, o: Set<[i64; 3]>) -> ([i64; 3], [i64; 3]) {
    choose|p: ([i64; 3], [i64; 3])|
        f.contains(p.0) && o.contains(p.1) && forall|q: ([i64; 3], [i64; 3])|
            #![trigger f.contains(q.0), o.contains(q.1)]
            f.contains(q.0) && o.contains(q.1) ==> !pair_lt(q, p)
}

/// One round: `None` when the region is connected, else the bridged cells.
pub open spec fn bridge_step(
    m: Map<[i64; 3], FusedCellView>,
    region: EditBounds,
    material: u16,
    max_length: u32,
    index: u32,
) -> Result<Option<Map<[i64; 3], FusedCellView>>, Fault> {
    let s = occupied_in(m, region);
    let f = first_group(s);
    if f == s {
        Ok(None)
    } else {
        let p = closest_pair(f, s.difference(f));
        let d = manhattan_distance(p.0, p.1);
        if d > max_length {
            Err(fault(
                "edit.connectivityBridgeTooLong",
                "maximumBridgeLength"@,
                "closest disconnected regions require "@ + decimal_text(d) + " cells"@,
            ))
        } else {
            Ok(Some(fill_cells(m, listed(spec_edit_path(p.0, p.1)), material, index)))
        }
    }
}

/// At most `k` rounds of bridging, stopping early once connected.
pub open spec fn connect_run(
    m: Map<[i64; 3], FusedCellView>,
    region: EditBounds,
    material: u16,
    max_length: u32,
    index: u32,
    k: nat,
) -> Result<Map<[i64; 3], FusedCellView>, Fault>
    decreases k,
{
    if k == 0 {
        Ok(m)
    } else {
        match bridge_step(m, region, material, max_length, index) {
            Err(f) => Err(f),
            Ok(None) => Ok(m),
            Ok(Some(next)) => connect_run(next, region, material, max_length, index, (k - 1) as nat),
        }
    }
}

/// `k` rounds reach a failure or a connected region.
pub open spec fn settled(
    m: Map<[i64; 3], FusedCellView>,
    region: EditBounds,
    material: u16,
    max_length: u32,
    index: u32,
    k: nat,
) -> bool {
    match connect_run(m, region, material, max_length, index, k) {
        Err(_) => true,
        Ok(last) => bridge_step(last, region, material, max_length, index) == Ok::<Option<Map<[i64; 3], FusedCellView>>, Fault>(None),
    }
}

/// The outcome of bridging until the region is connected.
pub open spec fn spec_connect(
    m: Map<[i64; 3], FusedCellView>,
    region: EditBounds,
    material: u16,
    max_length: u32,
    index: u32,
) -> Result<Map<[i64; 3], FusedCellView>, Fault> {
    connect_run(m, region, material, max_length, index, choose|k: nat| settled(m, region, material, max_length, index, k))
}

/// The bridge-length check, then bridging.
pub open spec fn spec_enforce(
    m: Map<[i64; 3], FusedCellView>,
    region: EditBounds,
    material: u16,
    max_length: u32,
    index: u32,
) -> Result<Map<[i64; 3], FusedCellView>, Fault> {
    if max_length == 0 || max_length > 256 {
        Err(fault("edit.invalidBridgeLength", "maximumBridgeLength"@, "maximumBridgeLength must be within 1..=256"@))
    } else {
        spec_connect(m, region, material, max_length, index)
    }
}

proof fn lemma_run_step(
    m: Map<[i64; 3], FusedCellView>,
    region: EditBounds,
    material: u16,
    max_length: u32,
    index: u32,
    k: nat,
    mk: Map<[i64; 3], FusedCellView>,
)
    requires
        connect_run(m, region, material, max_length, index, k) == Ok::<Map<[i64; 3], FusedCellView>, Fault>(mk),
    ensures
        connect_run(m, region, material, max_length, index, k + 1) == match bridge_step(mk, region, material, max_length, index) {
            Err(f) => Err(f),
            Ok(None) => Ok(mk),
            Ok(Some(next)) => Ok(next),
        },
    decreases k,
{
    if k > 0 {
        match bridge_step(m, region, material, max_length, index) {
            Err(f) => {},
            Ok(None) => {},
            Ok(Some(next)) => {
                lemma_run_step(next, region, material, max_length, index, (k - 1) as nat, mk);
            },
        }
    } else {
        match bridge_step(m, region, material, max_length, index) {
            Err(f) => {},
            Ok(None) => {},
            Ok(Some(next)) => {
                assert(connect_run(next, region, material, max_length, index, 0) == Ok::<Map<[i64; 3], FusedCellView>, Fault>(next));
            },
        }
    }
}

proof fn lemma_settled_stable(
    m: Map<[i64; 3], FusedCellView>,
    region: EditBounds,
    material: u16,
    max_length: u32,
    index: u32,
    k: nat,
    j: nat,
)
    requires
        settled(m, region, material, max_length, index, k),
        j >= k,
    ensures
        connect_run(m, region, material, max_length, index, j) == connect_run(m, region, material, max_length, index, k),
    decreases k,
{
    if k == 0 {
        if j > 0 {
            assert(bridge_step(m, region, material, max_length, index) == Ok::<Option<Map<[i64; 3], FusedCellView>>, Fault>(None));
        }
    } else {
        match bridge_step(m, region, material, max_length, index) {
            Err(f) => {},
            Ok(None) => {},
            Ok(Some(next)) => {
                lemma_settled_stable(next, region, material, max_length, index, (k - 1) as nat, (j - 1) as nat);
            },
        }
    }
}

proof fn lemma_settled_outcome(
    m: Map<[i64; 3], FusedCellView>,
    region: EditBounds,
    material: u16,
    max_length: u32,
    index: u32,
    k: nat,
)
    requires
        settled(m, region, material, max_length, index, k),
    ensures
        spec_connect(m, region, material, max_length, index) == connect_run(m, region, material, max_length, index, k),
{
    let c = choose|c: nat| settled(m, region, material, max_length, index, c);
    if c <= k {
        lemma_settled_stable(m, region, material, max_length, index, c, k);
    } else {
        lemma_settled_stable(m, region, material, max_length, index, k, c);
    }
}

pub(crate) proof fn lemma_least_sorted(s: Seq<[i64; 3]>)
    requires
        sorted_by_loc(s),
        s.len() > 0,
    ensures
        least(listed(s)) == s[0],
        listed(s).contains(s[0]),
{
    let set = listed(s);
    assert(set.contains(s[0])) by {
        assert(s[0] == s[0]);
    }
    assert forall|d: [i64; 3]| #[trigger] set.contains(d) implies !coord_lt(d, s[0]) by {
        let j = choose|j: int| #![auto] 0 <= j < s.len() && s[j] == d;
        if j > 0 {
            assert(coord_lt(s[0].loc(), s[j].loc()));
        }
        lemma_coord_lt_total(d, s[0]);
    }
    reveal(least);
    let c = least(set);
    lemma_coord_lt_total(c, s[0]);
}

proof fn lemma_pair_total(p: ([i64; 3], [i64; 3]), q: ([i64; 3], [i64; 3]))
    ensures
        p == q || pair_lt(p, q) || pair_lt(q, p),
        !(pair_lt(p, q) && pair_lt(q, p)),
{
    lemma_coord_lt_total(p.0, q.0);
    lemma_coord_lt_total(p.1, q.1);
}

proof fn lemma_pair_trans(p: ([i64; 3], [i64; 3]), q: ([i64; 3], [i64; 3]), r: ([i64; 3], [i64; 3]))
    requires
        pair_lt(p, q),
        pair_lt(q, r),
    ensures
        pair_lt(p, r),
{
    if coord_lt(p.0, q.0) && coord_lt(q.0, r.0) {
        lemma_coord_lt_trans(p.0, q.0, r.0);
    }
    if coord_lt(p.1, q.1) && coord_lt(q.1, r.1) {
        lemma_coord_lt_trans(p.1, q.1, r.1);
    }
}

/// The minimal pair of `f` x `o` is the chosen closest pair.
proof fn lemma_closest_unique(f: Set<[i64; 3]>, o: Set<[i64; 3]>, best: ([i64; 3], [i64; 3]))
    requires
        f.contains(best.0),
        o.contains(best.1),
        forall|q: ([i64; 3], [i64; 3])| #![trigger f.contains(q.0), o.contains(q.1)] f.contains(q.0) && o.contains(q.1) ==> !pair_lt(q, best),
    ensures
        closest_pair(f, o) == best,
{
    reveal(closest_pair);
    let c = closest_pair(f, o);
    lemma_pair_total(c, best);
}

/// Copies of the coordinates of cells inside `region`, ascending.
fn occupied_coordinates(cells: &Vec<FusedVoxelCell>, region: EditBounds) -> (occ: Vec<[i64; 3]>)
    requires
        sorted_by_loc(cells@),
    ensures
        sorted_by_loc(occ@),
        listed(occ@) == occupied_in(cells_view(cells@), region),
{
    let ghost m = cells_view(cells@);
    let mut occ: Vec<[i64; 3]> = Vec::new();
    let ghost mut last: int = -1;
    let mut i: usize = 0;
    while i < cells.len()
        invariant
            i <= cells@.len(),
            sorted_by_loc(cells@),
            m == cells_view(cells@),
            sorted_by_loc(occ@),
            -1 <= last < i,
            occ@.len() > 0 ==> 0 <= last && occ@.last() == cells@[last].coordinate,
            forall|c: [i64; 3]| #[trigger] listed(occ@).contains(c) ==> occupied_in(m, region).contains(c),
            forall|j: int| 0 <= j < i && region.spec_contains(#[trigger] cells@[j].coordinate) ==> listed(occ@).contains(cells@[j].coordinate),
        decreases cells@.len() - i,
    {
        let c = cells[i].coordinate;
        proof {
            lemma_map_at(cells@, i as int);
        }
        if region.contains(c) {
            let ghost before = occ@;
            proof {
                if occ@.len() > 0 {
                    assert(coord_lt(cells@[last].loc(), cells@[i as int].loc()));
                }
                lemma_push_map(occ@, c);
            }
            occ.push(c);
            proof {
                crate::cellstore::lemma_listed_push(before, c);
                last = i as int;
            }
        }
        i = i + 1;
    }
    proof {
        assert forall|c: [i64; 3]| #[trigger] occupied_in(m, region).contains(c) implies listed(occ@).contains(c) by {
            let j = crate::cellmap::index_at(cells@, c);
            assert(cells@[j].coordinate == c);
        }
        assert(listed(occ@) =~= occupied_in(m, region));
    }
    occ
}

/// The listed coordinates of `s` that `exclude` does not list, ascending.
pub(crate) fn coords_without(s: &Vec<[i64; 3]>, exclude: &Vec<[i64; 3]>) -> (out: Vec<[i64; 3]>)
    requires
        sorted_by_loc(s@),
        sorted_by_loc(exclude@),
    ensures
        sorted_by_loc(out@),
        listed(out@) == listed(s@).difference(listed(exclude@)),
{
    let mut out: Vec<[i64; 3]> = Vec::new();
    let ghost mut last: int = -1;
    let mut i: usize = 0;
    while i < s.len()
        invariant
            i <= s@.len(),
            sorted_by_loc(s@),
            sorted_by_loc(exclude@),
            sorted_by_loc(out@),
            -1 <= last < i,
            out@.len() > 0 ==> 0 <= last && out@.last() == s@[last],
            forall|c: [i64; 3]| #[trigger] listed(out@).contains(c) ==> listed(s@).difference(listed(exclude@)).contains(c),
            forall|j: int| 0 <= j < i && !listed(exclude@).contains(#[trigger] s@[j]) ==> listed(out@).contains(s@[j]),
        decreases s@.len() - i,
    {
        let c = s[i];
        proof {
            lemma_listed_occupies(exclude@, c);
            assert(listed(s@).contains(c));
        }
        if !contains(exclude, c) {
            let ghost before = out@;
            proof {
                if out@.len() > 0 {
                    assert(coord_lt(s@[last].loc(), s@[i as int].loc()));
                }
                lemma_push_map(out@, c);
            }
            out.push(c);
            proof {
                crate::cellstore::lemma_listed_push(before, c);
                last = i as int;
            }
        }
        i = i + 1;
    }
    proof {
        assert forall|c: [i64; 3]| #[trigger] listed(s@).difference(listed(exclude@)).contains(c) implies listed(out@).contains(c) by {
            let j = choose|j: int| #![auto] 0 <= j < s@.len() && s@[j] == c;
        }
        assert(listed(out@) =~= listed(s@).difference(listed(exclude@)));
    }
    out
}

/// The least pair from a cell of `first` to a cell of `others`.
fn closest(first: &Vec<[i64; 3]>, others: &Vec<[i64; 3]>) -> (best: ([i64; 3], [i64; 3]))
    requires
        first@.len() > 0,
        others@.len() > 0,
        forall|j: int| 0 <= j < first@.len() ==> coordinate_admitted(#[trigger] first@[j]),
        forall|j: int| 0 <= j < others@.len() ==> coordinate_admitted(#[trigger] others@[j]),
    ensures
        listed(first@).contains(best.0),
        listed(others@).contains(best.1),
        forall|q: ([i64; 3], [i64; 3])|
            #![trigger listed(first@).contains(q.0), listed(others@).contains(q.1)]
            listed(first@).contains(q.0) && listed(others@).contains(q.1) ==> !pair_lt(q, best),
{
    let mut best = (first[0], others[0]);
    let mut best_d = manhattan(first[0], others[0]);
    let mut i: usize = 0;
    proof {
        assert(first@[0] == best.0 && others@[0] == best.1);
    }
    while i < first.len()
        invariant
            i <= first@.len(),
            first@.len() > 0,
            others@.len() > 0,
            forall|j: int| 0 <= j < first@.len() ==> coordinate_admitted(#[trigger] first@[j]),
            forall|j: int| 0 <= j < others@.len() ==> coordinate_admitted(#[trigger] others@[j]),
            exists|a: int| 0 <= a < first@.len() && #[trigger] first@[a] == best.0,
            exists|b: int| 0 <= b < others@.len() && #[trigger] others@[b] == best.1,
            best_d == manhattan_distance(best.0, best.1),
            forall|a: int, b: int|
                0 <= a < i && 0 <= b < others@.len() ==> !pair_lt((#[trigger] first@[a], #[trigger] others@[b]), best),
        decreases first@.len() - i,
    {
        let mut j: usize = 0;
        while j < others.len()
            invariant
                i < first@.len(),
                j <= others@.len(),
                forall|jj: int| 0 <= jj < first@.len() ==> coordinate_admitted(#[trigger] first@[jj]),
                forall|jj: int| 0 <= jj < others@.len() ==> coordinate_admitted(#[trigger] others@[jj]),
                exists|a: int| 0 <= a < first@.len() && #[trigger] first@[a] == best.0,
                exists|b: int| 0 <= b < others@.len() && #[trigger] others@[b] == best.1,
                best_d == manhattan_distance(best.0, best.1),
                forall|a: int, b: int|
                    0 <= a < i && 0 <= b < others@.len() ==> !pair_lt((#[trigger] first@[a], #[trigger] others@[b]), best),
                forall|b: int| 0 <= b < j ==> !pair_lt((first@[i as int], #[trigger] others@[b]), best),
            decreases others@.len() - j,
        {
            let f = first[i];
            let o = others[j];
            let d = manhattan(f, o);
            let ghost old_best = best;
            if d < best_d || (d == best_d && (coord_less(f, best.0) || (same_coord(f, best.0) && coord_less(o, best.1)))) {
                best = (f, o);
                best_d = d;
                proof {
                    assert(pair_lt((f, o), old_best));
                    assert forall|a: int, b: int|
                        0 <= a < i && 0 <= b < others@.len() implies !pair_lt((#[trigger] first@[a], #[trigger] others@[b]), best) by {
                        if pair_lt((first@[a], others@[b]), best) {
                            lemma_pair_trans((first@[a], others@[b]), best, old_best);
                        }
                    }
                    assert forall|b: int| 0 <= b < j + 1 implies !pair_lt((first@[i as int], #[trigger] others@[b]), best) by {
                        if b < j && pair_lt((first@[i as int], others@[b]), best) {
                            lemma_pair_trans((first@[i as int], others@[b]), best, old_best);
                        }
                        if b == j {
                            lemma_pair_total(best, best);
                        }
                    }
                }
            } else {
                proof {
                    assert(!pair_lt((first@[i as int], others@[j as int]), best));
                }
            }
            j = j + 1;
        }
        i = i + 1;
    }
    proof {
        assert forall|q: ([i64; 3], [i64; 3])|
            #![trigger listed(first@).contains(q.0), listed(others@).contains(q.1)]
            listed(first@).contains(q.0) && listed(others@).contains(q.1) implies !pair_lt(q, best) by {
            let a = choose|a: int| #![auto] 0 <= a < first@.len() && first@[a] == q.0;
            let b = choose|b: int| #![auto] 0 <= b < others@.len() && others@[b] == q.1;
            assert(!pair_lt((first@[a], others@[b]), best));
        }
    }
    best
}

/// The first step of an axis-order path leaves `from` by one face step
/// toward `to`, staying between them.
proof fn lemma_first_step(from: [i64; 3], to: [i64; 3])
    requires
        from != to,
        coordinate_admitted(from),
        coordinate_admitted(to),
    ensures
        spec_edit_path(from, to).len() >= 2,
        spec_edit_path(from, to)[0] == from,
        crate::region::step(from, spec_edit_path(from, to)[1]),
        manhattan_distance(spec_edit_path(from, to)[1], to) == manhattan_distance(from, to) - 1,
        forall|a: int| 0 <= a < 3 ==> (from[a] <= #[trigger] spec_edit_path(from, to)[1][a] <= to[a]) || (to[a]
            <= spec_edit_path(from, to)[1][a] <= from[a]),
{
    broadcast use vstd::array::group_array_axioms;
    lemma_coord_eq(from, to);
    let a: int = if from[0] != to[0] { 0 } else if from[1] != to[1] { 1 } else { 2 };
    let next = step_toward(from, to, a);
    if a == 0 {
        assert(axis_order_path(from, to, 0) == seq![next] + axis_order_path(next, to, 0));
    } else if a == 1 {
        assert(axis_order_path(from, to, 0) == axis_order_path(from, to, 1));
        assert(axis_order_path(from, to, 1) == seq![next] + axis_order_path(next, to, 1));
    } else {
        assert(axis_order_path(from, to, 0) == axis_order_path(from, to, 1));
        assert(axis_order_path(from, to, 1) == axis_order_path(from, to, 2));
        assert(axis_order_path(from, to, 2) == seq![next] + axis_order_path(next, to, 2));
    }
    let p = spec_edit_path(from, to);
    assert(p[1] == next);
    let k: int = if from[a] < to[a] { 2 * a + 1 } else { 2 * a };
    let n = spec_neighbor(from, k);
    lemma_coord_eq(n, next);
    assert(spec_neighbor(from, k) == next);
}

pub(crate) proof fn lemma_component_inside(s: Set<[i64; 3]>, a: [i64; 3], b: [i64; 3])
    requires
        reachable(s, a, b),
    ensures
        s.contains(b),
{
    let p = choose|p: Seq<[i64; 3]>| #[trigger] crate::region::is_walk(s, p) && p[0] == a && p.last() == b;
    assert(s.contains(p[p.len() - 1]));
}

/// Bridging the closest pair occupies a region cell that was free.
proof fn lemma_bridge_progress(m: Map<[i64; 3], FusedCellView>, region: EditBounds, best: ([i64; 3], [i64; 3]))
    requires
        region.valid(),
        first_group(occupied_in(m, region)).contains(best.0),
        occupied_in(m, region).difference(first_group(occupied_in(m, region))).contains(best.1),
        forall|q: ([i64; 3], [i64; 3])|
            #![trigger first_group(occupied_in(m, region)).contains(q.0), occupied_in(m, region).difference(first_group(occupied_in(m, region))).contains(q.1)]
            first_group(occupied_in(m, region)).contains(q.0) && occupied_in(m, region).difference(
                first_group(occupied_in(m, region)),
            ).contains(q.1) ==> !pair_lt(q, best),
    ensures
        spec_edit_path(best.0, best.1).len() >= 2,
        region.spec_contains(spec_edit_path(best.0, best.1)[1]),
        !m.contains_key(spec_edit_path(best.0, best.1)[1]),
{
    let s = occupied_in(m, region);
    let f = first_group(s);
    let o = s.difference(f);
    let (from, to) = best;
    lemma_component_inside(s, least(s), from);
    assert(s.contains(from));
    assert(from != to);
    lemma_first_step(from, to);
    let p1 = spec_edit_path(from, to)[1];
    assert(region.spec_contains(p1)) by {
        assert(from[0] <= p1[0] <= to[0] || to[0] <= p1[0] <= from[0]);
        assert(from[1] <= p1[1] <= to[1] || to[1] <= p1[1] <= from[1]);
        assert(from[2] <= p1[2] <= to[2] || to[2] <= p1[2] <= from[2]);
    }
    if m.contains_key(p1) {
        assert(s.contains(p1));
        let k = choose|k: int| 0 <= k < 6 && #[trigger] spec_neighbor(from, k) == p1;
        lemma_reach_extend(s, least(s), from, k);
        assert(f.contains(p1));
        if p1 == to {
            assert(false);
        } else {
            assert(o.contains(to));
            assert(pair_lt((p1, to), best));
            assert(!pair_lt((p1, to), best));
        }
    }
}

/// Bridge the region's components until they form one, within
/// `max_length` cells per bridge.
pub fn connect_region(
    cells: &mut Vec<FusedVoxelCell>,
    region: EditBounds,
    material: u16,
    max_length: u32,
    index: u32,
) -> (result: Result<(), EditError>)
    requires
        sorted_by_loc(old(cells)@),
        region.valid(),
    ensures
        crate::replay::cells_outcome(result, old(cells)@, final(cells)@, spec_enforce(cells_view(old(cells)@), region, material, max_length, index)),
{
    if max_length == 0 || max_length > 256 {
        return Err(EditError::new("edit.invalidBridgeLength", "maximumBridgeLength", String::from_str("maximumBridgeLength must be within 1..=256")));
    }
    let ghost m0 = cells_view(cells@);
    let all = region_coordinates(region);
    let ghost mut rounds: nat = 0;
    proof {
        assert(region_set(region) =~= all@.to_set());
        vstd::seq_lib::seq_to_set_is_finite(all@);
    }
    loop
        invariant
            sorted_by_loc(cells@),
            region.valid(),
            1 <= max_length <= 256,
            region_set(region).finite(),
            m0 == cells_view(old(cells)@),
            connect_run(m0, region, material, max_length, index, rounds) == Ok::<Map<[i64; 3], FusedCellView>, Fault>(cells_view(cells@)),
        decreases region_set(region).difference(occupied_in(cells_view(cells@), region)).len(),
    {
        let ghost m = cells_view(cells@);
        let ghost s = occupied_in(m, region);
        let occ = occupied_coordinates(cells, region);
        if occ.len() == 0 {
            proof {
                assert(s =~= Set::<[i64; 3]>::empty());
                assert forall|b: [i64; 3]| !#[trigger] first_group(s).contains(b) by {
                    if first_group(s).contains(b) {
                        lemma_component_inside(s, least(s), b);
                    }
                }
                assert(first_group(s) =~= s);
                lemma_settled_outcome(m0, region, material, max_length, index, rounds);
            }
            return Ok(());
        }
        proof {
            lemma_least_sorted(occ@);
        }
        let first = component_of(&occ, occ[0]);
        let others = coords_without(&occ, &first);
        proof {
            assert forall|b: [i64; 3]| #[trigger] first_group(s).contains(b) implies s.contains(b) by {
                lemma_component_inside(s, least(s), b);
            }
        }
        if others.len() == 0 {
            proof {
                assert forall|b: [i64; 3]| #[trigger] s.contains(b) implies first_group(s).contains(b) by {
                    if !first_group(s).contains(b) {
                        assert(listed(others@).contains(b));
                        let j = choose|j: int| #![auto] 0 <= j < others@.len() && others@[j] == b;
                    }
                }
                assert(first_group(s) =~= s);
                lemma_settled_outcome(m0, region, material, max_length, index, rounds);
            }
            return Ok(());
        }
        proof {
            assert(listed(first@).contains(occ@[0])) by {
                crate::region::lemma_reach_start(s, occ@[0]);
            }
            assert forall|j: int| 0 <= j < first@.len() implies coordinate_admitted(#[trigger] first@[j]) by {
                assert(listed(first@).contains(first@[j]));
            }
            assert forall|j: int| 0 <= j < others@.len() implies coordinate_admitted(#[trigger] others@[j]) by {
                assert(listed(others@).contains(others@[j]));
            }
            assert(first@.len() > 0);
        }
        let best = closest(&first, &others);
        proof {
            lemma_closest_unique(listed(first@), listed(others@), best);
        }
        let d = manhattan(best.0, best.1);
        if d > max_length as u64 {
            let mut message = String::from_str("closest disconnected regions require ");
            message.append(decimal_u64(d).as_str());
            message.append(" cells");
            proof {
                lemma_run_step(m0, region, material, max_length, index, rounds, m);
                lemma_settled_outcome(m0, region, material, max_length, index, rounds + 1);
            }
            return Err(EditError::new("edit.connectivityBridgeTooLong", "maximumBridgeLength", message));
        }
        let path = crate::cleanup::manhattan_path(best.0, best.1);
        proof {
            lemma_bridge_progress(m, region, best);
        }
        fill_absent(cells, &path, material, index);
        proof {
            lemma_run_step(m0, region, material, max_length, index, rounds, m);
            rounds = rounds + 1;
            let p1 = path@[1];
            assert(listed(path@).contains(p1));
            let d0 = region_set(region).difference(s);
            let d1 = region_set(region).difference(occupied_in(cells_view(cells@), region));
            vstd::set_lib::lemma_set_subset_finite(region_set(region), d0);
            assert(d0.contains(p1));
            assert(d1.subset_of(d0.remove(p1)));
            vstd::set_lib::lemma_len_subset(d1, d0.remove(p1));
        }
    }
}

} // verus!
