//! Structural repair passes of joint fusion: bridging one-cell gaps, filling
//! one-cell cavities near seams, and restoring ground contact.

use vstd::prelude::*;
use vstd::string::StringExecFns;

use crate::candidate::lemma_listed_len;
use crate::cellmap::{contains, insert_absent, sorted_by_loc, Located};
use crate::cellstore::listed;
use crate::connect::{lemma_least_sorted, least};
use crate::fusion::{
    cells_view, generated_cell, insert_generated, neighboring_material, spec_neighboring_material,
    CleanupOperation, FusedCellView, FusedVoxelCell, FusionError, GeneratedOperation,
};
use crate::text::{decimal_i64, decimal_text};
use crate::voxel::{
    checked_add_coord, chebyshev_distance, coord_lt, face_offset, face_offset_exec, lemma_coord_lt_total, spec_add,
};
use crate::fusion::{cell_coordinates, copy_operations, copy_origin, near_seam, neighbor_present, overflow_text};
use crate::voxel::{bounds_of, spec_bounds};
use crate::structural::{
    half_range, part_coordinates, refused, FusionKit, FusionPart, Refusal,
};
use crate::assemble::AssembledVoxelCell;
use crate::cellmap::lemma_map_at;
use crate::region::lemma_listed_occupies;

verus! {

/// The material a generated cell takes: its neighbour's, else slot 1.
pub open spec fn material_or_default(material: Option<u16>) -> u16 {
    match material {
        Some(slot) => slot,
        None => 1,
    }
}

/// One generated cell at `d`, unless `d` is occupied.
pub open spec fn fill_one(m: Map<[i64; 3], FusedCellView>, d: [i64; 3], op: CleanupOperation) -> Map<[i64; 3], FusedCellView> {
    if m.contains_key(d) {
        m
    } else {
        m.insert(
            d,
            generated_cell(d, material_or_default(spec_neighboring_material(m, d)), GeneratedOperation::Cleanup { operation: op }),
        )
    }
}

/// Generated cells at every pending coordinate, lowest coordinate first, each
/// taking its material from the cells present at that moment.
pub open spec fn fill_ascending(
    m: Map<[i64; 3], FusedCellView>,
    pending: Set<[i64; 3]>,
    op: CleanupOperation,
) -> Map<[i64; 3], FusedCellView>
    decreases pending.len(),
{
    if pending.finite() && pending.len() > 0 && pending.contains(least(pending)) {
        fill_ascending(fill_one(m, least(pending), op), pending.remove(least(pending)), op)
    } else {
        m
    }
}

/// The quota failure of a generated-cell insertion.
pub open spec fn quota_error(e: FusionError, maximum_total_cells: usize) -> bool {
    &&& e.spec_code() == "fusion.generatedVoxelQuotaExceeded"
    &&& e.spec_message() == "candidate cell cap "@ + decimal_text(maximum_total_cells as int) + " would be exceeded"@
}

proof fn lemma_listed_skip(s: Seq<[i64; 3]>, k: int)
    requires
        sorted_by_loc(s),
        0 <= k < s.len(),
    ensures
        sorted_by_loc(s.skip(k)),
        listed(s.skip(k)).remove(s[k]) == listed(s.skip(k + 1)),
        listed(s.skip(k)).finite(),
        listed(s.skip(k)).len() == s.len() - k,
        least(listed(s.skip(k))) == s[k],
        listed(s.skip(k)).contains(s[k]),
{
    let t = s.skip(k);
    assert(sorted_by_loc(t)) by {
        assert forall|i: int, j: int| 0 <= i < j < t.len() implies coord_lt(#[trigger] t[i].loc(), #[trigger] t[j].loc()) by {
            assert(t[i] == s[i + k] && t[j] == s[j + k]);
        }
    }
    lemma_listed_len(t);
    lemma_least_sorted(t);
    assert(t[0] == s[k]);
    assert forall|d: [i64; 3]| #[trigger] listed(t).remove(s[k]).contains(d) == listed(s.skip(k + 1)).contains(d) by {
        if listed(t).remove(s[k]).contains(d) {
            let j = choose|j: int| #![auto] 0 <= j < t.len() && t[j] == d;
            assert(j != 0);
            assert(s.skip(k + 1)[j - 1] == d);
        }
        let u = s.skip(k + 1);
        if listed(u).contains(d) {
            let j = choose|j: int| #![auto] 0 <= j < u.len() && u[j] == d;
            assert(t[j + 1] == d);
            assert(coord_lt(s[k].loc(), s[k + 1 + j].loc()));
            lemma_coord_lt_total(s[k], d);
        }
    }
    assert(listed(t).remove(s[k]) =~= listed(s.skip(k + 1)));
}

/// Insert a generated cell at each listed coordinate, lowest first.
fn fill_listed(
    cells: &mut Vec<FusedVoxelCell>,
    adds: &Vec<[i64; 3]>,
    op: CleanupOperation,
    maximum_total_cells: usize,
) -> (result: Result<(), FusionError>)
    requires
        sorted_by_loc(old(cells)@),
        sorted_by_loc(adds@),
        forall|j: int| 0 <= j < adds@.len() ==> !cells_view(old(cells)@).contains_key(#[trigger] adds@[j]),
    ensures
        sorted_by_loc(final(cells)@),
        adds@.len() > 0 && old(cells)@.len() + adds@.len() > maximum_total_cells ==> result is Err && quota_error(
            result->Err_0,
            maximum_total_cells,
        ),
        !(adds@.len() > 0 && old(cells)@.len() + adds@.len() > maximum_total_cells) ==> result is Ok && cells_view(
            final(cells)@,
        ) == fill_ascending(cells_view(old(cells)@), listed(adds@), op),
{
    let ghost start = cells@;
    let mut k: usize = 0;
    proof {
        assert(adds@.skip(0) =~= adds@);
    }
    while k < adds.len()
        invariant
            k <= adds@.len(),
            start == old(cells)@,
            sorted_by_loc(cells@),
            sorted_by_loc(adds@),
            cells@.len() == start.len() + k,
            k == 0 || start.len() + k <= maximum_total_cells,
            fill_ascending(cells_view(start), listed(adds@), op) == fill_ascending(
                cells_view(cells@),
                listed(adds@.skip(k as int)),
                op,
            ),
            forall|j: int| k <= j < adds@.len() ==> !cells_view(cells@).contains_key(#[trigger] adds@[j]),
        decreases adds@.len() - k,
    {
        let d = adds[k];
        let material = match neighboring_material(cells, d) {
            Some(slot) => slot,
            None => 1,
        };
        let ghost before = cells_view(cells@);
        proof {
            lemma_listed_skip(adds@, k as int);
        }
        match insert_generated(cells, d, material, GeneratedOperation::Cleanup { operation: op }, maximum_total_cells) {
            Ok(()) => {},
            Err(e) => {
                assert(!before.contains_key(d));
                assert(start.len() + k >= maximum_total_cells);
                return Err(e);
            },
        }
        proof {
            assert(cells_view(cells@) == fill_one(before, d, op));
            assert forall|j: int| k + 1 <= j < adds@.len() implies !cells_view(cells@).contains_key(#[trigger] adds@[j]) by {
                assert(coord_lt(adds@[k as int].loc(), adds@[j].loc()));
                lemma_coord_lt_total(adds@[k as int], adds@[j]);
            }
        }
        k = k + 1;
    }
    proof {
        assert(listed(adds@.skip(k as int)) =~= Set::<[i64; 3]>::empty());
    }
    Ok(())
}


/// Some seam cell lies within Chebyshev `radius` of `c`.
pub open spec fn seam_near(seam: Seq<[i64; 3]>, c: [i64; 3], radius: int) -> bool {
    exists|i: int| 0 <= i < seam.len() && chebyshev_distance(#[trigger] seam[i], c) <= radius
}

/// `d` closes a one-cell gap along `axis`: both cells beside it on that axis
/// are occupied, `d` is empty, and a seam cell lies within two cells.
pub open spec fn bridge_at(m: Map<[i64; 3], FusedCellView>, seam: Seq<[i64; 3]>, d: [i64; 3], axis: int) -> bool {
    &&& !m.contains_key(d)
    &&& spec_add(d, face_offset(2 * axis)) matches Some(below) && m.contains_key(below)
    &&& spec_add(d, face_offset(2 * axis + 1)) matches Some(above) && m.contains_key(above)
    &&& seam_near(seam, d, 2)
}

/// Every coordinate that closes a one-cell gap.
pub open spec fn bridge_targets(m: Map<[i64; 3], FusedCellView>, seam: Seq<[i64; 3]>) -> Set<[i64; 3]> {
    Set::new(|d: [i64; 3]| exists|axis: int| 0 <= axis < 3 && #[trigger] bridge_at(m, seam, d, axis))
}

/// Some axis of `c` lies within two of the top of the i64 range.
pub open spec fn near_top(c: [i64; 3]) -> bool {
    c[0] > i64::MAX - 2 || c[1] > i64::MAX - 2 || c[2] > i64::MAX - 2
}

/// Some occupied cell lies within two of the top of the coordinate range.
pub open spec fn gap_overflow(m: Map<[i64; 3], FusedCellView>) -> bool {
    exists|c: [i64; 3]| #[trigger] m.contains_key(c) && near_top(c)
}

/// The gap cell found from occupied `c` along `axis`.
pub open spec fn gap_from(m: Map<[i64; 3], FusedCellView>, seam: Seq<[i64; 3]>, c: [i64; 3], axis: int, d: [i64; 3]) -> bool {
    spec_add(c, face_offset(2 * axis + 1)) == Some(d) && bridge_at(m, seam, d, axis)
}

proof fn lemma_axis_step(c: [i64; 3], axis: int)
    requires
        0 <= axis < 3,
    ensures
        spec_add(c, face_offset(2 * axis + 1)) is None <==> c[axis] == i64::MAX,
        spec_add(c, face_offset(2 * axis + 1)) matches Some(d) ==> spec_add(d, face_offset(2 * axis)) == Some(c),
        spec_add(c, face_offset(2 * axis)) matches Some(d) ==> spec_add(d, face_offset(2 * axis + 1)) == Some(c),
        spec_add(c, face_offset(2 * axis + 1)) matches Some(d) ==> d[axis] == c[axis] + 1,
{
    if let Some(d) = spec_add(c, face_offset(2 * axis + 1)) {
        crate::voxel::lemma_coord_eq(spec_add(d, face_offset(2 * axis)).unwrap(), c);
    }
    if let Some(d) = spec_add(c, face_offset(2 * axis)) {
        crate::voxel::lemma_coord_eq(spec_add(d, face_offset(2 * axis + 1)).unwrap(), c);
    }
}

fn overflow_error() -> (e: FusionError)
    ensures
        e.spec_code() == "fusion.coordinateOverflow",
        e.spec_message() == "gap bridge coordinate overflow"@,
{
    FusionError::new("fusion.coordinateOverflow", String::from_str("gap bridge coordinate overflow"))
}

/// Fill every empty cell that sits between two occupied cells along an axis
/// and within two cells of a seam, lowest coordinate first.
pub fn bridge_one_voxel_gaps(
    cells: &mut Vec<FusedVoxelCell>,
    seam_coordinates: &Vec<[i64; 3]>,
    maximum_total_cells: usize,
) -> (result: Result<(), FusionError>)
    requires
        sorted_by_loc(old(cells)@),
    ensures
        sorted_by_loc(final(cells)@),
        gap_overflow(cells_view(old(cells)@)) ==> result is Err && final(cells)@ == old(cells)@
            && result->Err_0.spec_code() == "fusion.coordinateOverflow" && result->Err_0.spec_message()
            == "gap bridge coordinate overflow"@,
        !gap_overflow(cells_view(old(cells)@)) ==> bridge_targets(cells_view(old(cells)@), seam_coordinates@).finite(),
        ({
            let targets = bridge_targets(cells_view(old(cells)@), seam_coordinates@);
            !gap_overflow(cells_view(old(cells)@)) && targets.len() > 0 && old(cells)@.len() + targets.len()
                > maximum_total_cells ==> result is Err && quota_error(result->Err_0, maximum_total_cells)
        }),
        ({
            let targets = bridge_targets(cells_view(old(cells)@), seam_coordinates@);
            !gap_overflow(cells_view(old(cells)@)) && !(targets.len() > 0 && old(cells)@.len() + targets.len()
                > maximum_total_cells) ==> result is Ok && cells_view(final(cells)@) == fill_ascending(
                cells_view(old(cells)@),
                targets,
                CleanupOperation::BridgeOneVoxelGap,
            )
        }),
{
    let ghost m = cells_view(cells@);
    let ghost seam = seam_coordinates@;
    let mut adds: Vec<[i64; 3]> = Vec::new();
    let mut i: usize = 0;
    while i < cells.len()
        invariant
            i <= cells@.len(),
            cells@ == old(cells)@,
            sorted_by_loc(cells@),
            m == cells_view(cells@),
            seam == seam_coordinates@,
            sorted_by_loc(adds@),
            forall|j: int| 0 <= j < i ==> !near_top(#[trigger] cells@[j].coordinate),
            forall|d: [i64; 3]| #[trigger] listed(adds@).contains(d) <==> exists|j: int, axis: int|
                0 <= j < i && 0 <= axis < 3 && #[trigger] gap_from(m, seam, cells@[j].coordinate, axis, d),
        decreases cells@.len() - i,
    {
        let c = cells[i].coordinate;
        proof {
            lemma_map_at(cells@, i as int);
        }
        let mut axis: usize = 0;
        while axis < 3
            invariant
                i < cells@.len(),
                axis <= 3,
                cells@ == old(cells)@,
                c == cells@[i as int].coordinate,
                m.contains_key(c),
                sorted_by_loc(cells@),
                m == cells_view(cells@),
                seam == seam_coordinates@,
                sorted_by_loc(adds@),
                forall|j: int| 0 <= j < i ==> !near_top(#[trigger] cells@[j].coordinate),
                forall|a: int| 0 <= a < axis ==> c[a] <= i64::MAX - 2,
                forall|d: [i64; 3]| #[trigger] listed(adds@).contains(d) <==> (exists|j: int, a: int|
                    0 <= j < i && 0 <= a < 3 && #[trigger] gap_from(m, seam, cells@[j].coordinate, a, d)) || (exists|a: int|
                    0 <= a < axis && #[trigger] gap_from(m, seam, c, a, d)),
            decreases 3 - axis,
        {
            let up = face_offset_exec(2 * axis + 1);
            proof {
                lemma_axis_step(c, axis as int);
            }
            let middle = match checked_add_coord(c, up) {
                Some(v) => v,
                None => {
                    assert(near_top(c));
                    assert(gap_overflow(m));
                    return Err(overflow_error());
                },
            };
            proof {
                lemma_axis_step(middle, axis as int);
            }
            let far = match checked_add_coord(middle, up) {
                Some(v) => v,
                None => {
                    assert(near_top(c));
                    assert(gap_overflow(m));
                    return Err(overflow_error());
                },
            };
            let ghost before = adds@;
            if contains(cells, far) && !contains(cells, middle) && near_seam(middle, seam_coordinates, 2) {
                assert(gap_from(m, seam, c, axis as int, middle));
                if !contains(&adds, middle) {
                    insert_absent(&mut adds, middle);
                }
                proof {
                    assert forall|d: [i64; 3]| #[trigger] listed(adds@).contains(d) <==> (listed(before).contains(d) || d == middle) by {
                        lemma_listed_occupies(adds@, d);
                        lemma_listed_occupies(before, d);
                    }
                }
            } else {
                assert(!gap_from(m, seam, c, axis as int, middle));
            }
            proof {
                assert forall|d: [i64; 3]| #[trigger] listed(adds@).contains(d) <==> (exists|j: int, a: int|
                    0 <= j < i && 0 <= a < 3 && #[trigger] gap_from(m, seam, cells@[j].coordinate, a, d)) || (exists|a: int|
                    0 <= a < axis + 1 && #[trigger] gap_from(m, seam, c, a, d)) by {
                    if gap_from(m, seam, c, axis as int, d) {
                        assert(d == middle);
                    }
                }
            }
            axis = axis + 1;
        }
        proof {
            assert(!near_top(c));
            assert forall|d: [i64; 3]| #[trigger] listed(adds@).contains(d) <==> exists|j: int, a: int|
                0 <= j < i + 1 && 0 <= a < 3 && #[trigger] gap_from(m, seam, cells@[j].coordinate, a, d) by {
                if exists|a: int| 0 <= a < 3 && #[trigger] gap_from(m, seam, c, a, d) {
                    let a = choose|a: int| 0 <= a < 3 && #[trigger] gap_from(m, seam, c, a, d);
                    assert(gap_from(m, seam, cells@[i as int].coordinate, a, d));
                }
                if exists|j: int, a: int| 0 <= j < i + 1 && 0 <= a < 3 && #[trigger] gap_from(m, seam, cells@[j].coordinate, a, d) {
                    let (j, a) = choose|j: int, a: int| 0 <= j < i + 1 && 0 <= a < 3 && #[trigger] gap_from(m, seam, cells@[j].coordinate, a, d);
                    if j == i {
                        assert(gap_from(m, seam, c, a, d));
                    }
                }
            }
        }
        i = i + 1;
    }
    proof {
        assert(!gap_overflow(m)) by {
            if gap_overflow(m) {
                let c = choose|c: [i64; 3]| #[trigger] m.contains_key(c) && near_top(c);
                let j = crate::cellmap::index_at(cells@, c);
                assert(cells@[j].coordinate == c);
            }
        }
        let targets = bridge_targets(m, seam);
        assert forall|d: [i64; 3]| #[trigger] listed(adds@).contains(d) == targets.contains(d) by {
            if listed(adds@).contains(d) {
                let (j, a) = choose|j: int, a: int| 0 <= j < i && 0 <= a < 3 && #[trigger] gap_from(m, seam, cells@[j].coordinate, a, d);
                assert(bridge_at(m, seam, d, a));
            }
            if targets.contains(d) {
                let a = choose|a: int| 0 <= a < 3 && #[trigger] bridge_at(m, seam, d, a);
                let below = spec_add(d, face_offset(2 * a)).unwrap();
                lemma_axis_step(d, a);
                let j = crate::cellmap::index_at(cells@, below);
                assert(cells@[j].coordinate == below);
                lemma_axis_step(below, a);
                assert(gap_from(m, seam, cells@[j].coordinate, a, d));
            }
        }
        assert(listed(adds@) =~= targets);
        lemma_listed_len(adds@);
        assert forall|j: int| 0 <= j < adds@.len() implies !cells_view(cells@).contains_key(#[trigger] adds@[j]) by {
            assert(listed(adds@).contains(adds@[j]));
        }
    }
    fill_listed(cells, &adds, CleanupOperation::BridgeOneVoxelGap, maximum_total_cells)
}


/// `d` is an empty cell inside the bounds, near a seam, whose six face
/// neighbours are all occupied.
pub open spec fn cavity_at(
    m: Map<[i64; 3], FusedCellView>,
    seam: Seq<[i64; 3]>,
    lo: [i64; 3],
    hi: [i64; 3],
    d: [i64; 3],
) -> bool {
    &&& !m.contains_key(d)
    &&& lo[0] <= d[0] <= hi[0] && lo[1] <= d[1] <= hi[1] && lo[2] <= d[2] <= hi[2]
    &&& seam_near(seam, d, 2)
    &&& forall|k: int| 0 <= k < 6 ==> #[trigger] neighbor_present(m, d, k)
}

/// Every one-cell cavity of the cells, within their bounds.
pub open spec fn cavity_targets(cells: Seq<FusedVoxelCell>, seam: Seq<[i64; 3]>) -> Set<[i64; 3]> {
    match spec_bounds(cell_coordinates(cells)) {
        Some((lo, hi)) => Set::new(|d: [i64; 3]| cavity_at(cells_view(cells), seam, lo, hi, d)),
        None => Set::empty(),
    }
}

/// The first axis on which `c` sits at an end of the i64 range.
pub open spec fn extreme_axis(c: [i64; 3]) -> Option<int> {
    if c[0] == i64::MIN || c[0] == i64::MAX {
        Some(0)
    } else if c[1] == i64::MIN || c[1] == i64::MAX {
        Some(1)
    } else if c[2] == i64::MIN || c[2] == i64::MAX {
        Some(2)
    } else {
        None
    }
}

/// The extreme axis of the first cell, from `i` on, that has one.
pub open spec fn first_extreme_from(cells: Seq<FusedVoxelCell>, i: int) -> Option<int>
    decreases cells.len() - i,
{
    if i < 0 || i >= cells.len() {
        None
    } else if extreme_axis(cells[i].coordinate) is Some {
        extreme_axis(cells[i].coordinate)
    } else {
        first_extreme_from(cells, i + 1)
    }
}

pub open spec fn axis_overflow_text(axis: int) -> Seq<char> {
    if axis == 0 {
        "X coordinate overflow"@
    } else if axis == 1 {
        "Y coordinate overflow"@
    } else {
        "Z coordinate overflow"@
    }
}

/// The cavity found as face neighbour `k` of occupied `c`.
pub open spec fn cavity_from(
    m: Map<[i64; 3], FusedCellView>,
    seam: Seq<[i64; 3]>,
    lo: [i64; 3],
    hi: [i64; 3],
    c: [i64; 3],
    k: int,
    d: [i64; 3],
) -> bool {
    spec_add(c, face_offset(k)) == Some(d) && cavity_at(m, seam, lo, hi, d)
}

proof fn lemma_offset_overflow(c: [i64; 3], k: int)
    requires
        0 <= k < 6,
    ensures
        spec_add(c, face_offset(k)) is None <==> (if k % 2 == 0 {
            c[k / 2] == i64::MIN
        } else {
            c[k / 2] == i64::MAX
        }),
        spec_add(c, face_offset(k)) is None ==> overflow_text(c, face_offset(k)) == axis_overflow_text(k / 2),
{
}

fn surrounded(cells: &Vec<FusedVoxelCell>, d: [i64; 3]) -> (all: bool)
    requires
        sorted_by_loc(cells@),
    ensures
        all == forall|k: int| 0 <= k < 6 ==> #[trigger] neighbor_present(cells_view(cells@), d, k),
{
    let mut k: usize = 0;
    while k < 6
        invariant
            k <= 6,
            sorted_by_loc(cells@),
            forall|j: int| 0 <= j < k ==> #[trigger] neighbor_present(cells_view(cells@), d, j),
        decreases 6 - k,
    {
        match checked_add_coord(d, face_offset_exec(k)) {
            Some(n) => {
                if !contains(cells, n) {
                    assert(!cells_view(cells@).contains_key(n));
                    assert(!neighbor_present(cells_view(cells@), d, k as int));
                    return false;
                }
            },
            None => {
                assert(!neighbor_present(cells_view(cells@), d, k as int));
                return false;
            },
        }
        k = k + 1;
    }
    true
}

pub(crate) fn coordinates_of(cells: &Vec<FusedVoxelCell>) -> (coords: Vec<[i64; 3]>)
    ensures
        coords@ == cell_coordinates(cells@),
{
    let mut coords: Vec<[i64; 3]> = Vec::new();
    let mut i: usize = 0;
    while i < cells.len()
        invariant
            i <= cells@.len(),
            coords@ == cell_coordinates(cells@.take(i as int)),
        decreases cells@.len() - i,
    {
        coords.push(cells[i].coordinate);
        proof {
            assert(cell_coordinates(cells@.take(i + 1)) =~= cell_coordinates(cells@.take(i as int)).push(cells@[i as int].coordinate));
        }
        i = i + 1;
    }
    assert(cells@.take(cells@.len() as int) =~= cells@);
    coords
}

/// Fill every empty cell inside the frame's bounds, within two cells of a
/// seam, whose six face neighbours are occupied; lowest coordinate first.
pub fn fill_one_voxel_cavities(
    cells: &mut Vec<FusedVoxelCell>,
    seam_coordinates: &Vec<[i64; 3]>,
    maximum_total_cells: usize,
) -> (result: Result<(), FusionError>)
    requires
        sorted_by_loc(old(cells)@),
    ensures
        sorted_by_loc(final(cells)@),
        first_extreme_from(old(cells)@, 0) matches Some(axis) ==> result is Err && final(cells)@ == old(cells)@
            && result->Err_0.spec_code() == "fusion.coordinateOverflow" && result->Err_0.spec_message()
            == axis_overflow_text(axis),
        first_extreme_from(old(cells)@, 0) is None ==> cavity_targets(old(cells)@, seam_coordinates@).finite(),
        ({
            let targets = cavity_targets(old(cells)@, seam_coordinates@);
            first_extreme_from(old(cells)@, 0) is None && targets.len() > 0 && old(cells)@.len() + targets.len()
                > maximum_total_cells ==> result is Err && quota_error(result->Err_0, maximum_total_cells)
        }),
        ({
            let targets = cavity_targets(old(cells)@, seam_coordinates@);
            first_extreme_from(old(cells)@, 0) is None && !(targets.len() > 0 && old(cells)@.len() + targets.len()
                > maximum_total_cells) ==> result is Ok && cells_view(final(cells)@) == fill_ascending(
                cells_view(old(cells)@),
                targets,
                CleanupOperation::FillOneVoxelCavity,
            )
        }),
{
    let ghost m = cells_view(cells@);
    let ghost seam = seam_coordinates@;
    let coords = coordinates_of(cells);
    let (lo, hi) = match bounds_of(&coords) {
        Some(b) => b,
        None => {
            proof {
                assert(cavity_targets(cells@, seam) =~= Set::<[i64; 3]>::empty());
            }
            return Ok(());
        },
    };
    let mut adds: Vec<[i64; 3]> = Vec::new();
    let mut i: usize = 0;
    while i < cells.len()
        invariant
            i <= cells@.len(),
            cells@ == old(cells)@,
            sorted_by_loc(cells@),
            m == cells_view(cells@),
            seam == seam_coordinates@,
            sorted_by_loc(adds@),
            first_extreme_from(cells@, 0) == first_extreme_from(cells@, i as int),
            forall|d: [i64; 3]| #[trigger] listed(adds@).contains(d) <==> exists|j: int, k: int|
                0 <= j < i && 0 <= k < 6 && #[trigger] cavity_from(m, seam, lo, hi, cells@[j].coordinate, k, d),
        decreases cells@.len() - i,
    {
        let c = cells[i].coordinate;
        let mut k: usize = 0;
        while k < 6
            invariant
                i < cells@.len(),
                k <= 6,
                cells@ == old(cells)@,
                c == cells@[i as int].coordinate,
                sorted_by_loc(cells@),
                m == cells_view(cells@),
                seam == seam_coordinates@,
                sorted_by_loc(adds@),
                first_extreme_from(cells@, 0) == first_extreme_from(cells@, i as int),
                forall|j: int| 0 <= j < k ==> (#[trigger] spec_add(c, face_offset(j))) is Some,
                forall|d: [i64; 3]| #[trigger] listed(adds@).contains(d) <==> (exists|j: int, kk: int|
                    0 <= j < i && 0 <= kk < 6 && #[trigger] cavity_from(m, seam, lo, hi, cells@[j].coordinate, kk, d)) || (exists|kk: int|
                    0 <= kk < k && #[trigger] cavity_from(m, seam, lo, hi, c, kk, d)),
            decreases 6 - k,
        {
            proof {
                lemma_offset_overflow(c, k as int);
            }
            let candidate = match crate::fusion::add(c, face_offset_exec(k)) {
                Ok(v) => v,
                Err(e) => {
                    proof {
                        assert forall|j: int| 0 <= j < k implies (#[trigger] spec_add(c, face_offset(j))) is Some by {}
                        if k >= 2 {
                            lemma_offset_overflow(c, 0);
                            lemma_offset_overflow(c, 1);
                        }
                        if k >= 4 {
                            lemma_offset_overflow(c, 2);
                            lemma_offset_overflow(c, 3);
                        }
                        assert(extreme_axis(c) == Some(k as int / 2));
                    }
                    return Err(e);
                },
            };
            let ghost before = adds@;
            if candidate[0] < lo[0] || candidate[1] < lo[1] || candidate[2] < lo[2] || candidate[0] > hi[0]
                || candidate[1] > hi[1] || candidate[2] > hi[2] || contains(cells, candidate) || !near_seam(
                candidate,
                seam_coordinates,
                2,
            ) {
                assert(!cavity_from(m, seam, lo, hi, c, k as int, candidate));
            } else if surrounded(cells, candidate) {
                assert(cavity_from(m, seam, lo, hi, c, k as int, candidate));
                if !contains(&adds, candidate) {
                    insert_absent(&mut adds, candidate);
                }
                proof {
                    assert forall|d: [i64; 3]| #[trigger] listed(adds@).contains(d) <==> (listed(before).contains(d) || d == candidate) by {
                        lemma_listed_occupies(adds@, d);
                        lemma_listed_occupies(before, d);
                    }
                }
            } else {
                assert(!cavity_from(m, seam, lo, hi, c, k as int, candidate));
            }
            proof {
                assert forall|d: [i64; 3]| #[trigger] listed(adds@).contains(d) <==> (exists|j: int, kk: int|
                    0 <= j < i && 0 <= kk < 6 && #[trigger] cavity_from(m, seam, lo, hi, cells@[j].coordinate, kk, d)) || (exists|kk: int|
                    0 <= kk < k + 1 && #[trigger] cavity_from(m, seam, lo, hi, c, kk, d)) by {
                    if cavity_from(m, seam, lo, hi, c, k as int, d) {
                        assert(d == candidate);
                    }
                }
            }
            k = k + 1;
        }
        proof {
            assert(extreme_axis(c) is None) by {
                lemma_offset_overflow(c, 0);
                lemma_offset_overflow(c, 1);
                lemma_offset_overflow(c, 2);
                lemma_offset_overflow(c, 3);
                lemma_offset_overflow(c, 4);
                lemma_offset_overflow(c, 5);
                assert(spec_add(c, face_offset(0)) is Some);
                assert(spec_add(c, face_offset(1)) is Some);
                assert(spec_add(c, face_offset(2)) is Some);
                assert(spec_add(c, face_offset(3)) is Some);
                assert(spec_add(c, face_offset(4)) is Some);
                assert(spec_add(c, face_offset(5)) is Some);
            }
            assert forall|d: [i64; 3]| #[trigger] listed(adds@).contains(d) <==> exists|j: int, kk: int|
                0 <= j < i + 1 && 0 <= kk < 6 && #[trigger] cavity_from(m, seam, lo, hi, cells@[j].coordinate, kk, d) by {
                if exists|kk: int| 0 <= kk < 6 && #[trigger] cavity_from(m, seam, lo, hi, c, kk, d) {
                    let kk = choose|kk: int| 0 <= kk < 6 && #[trigger] cavity_from(m, seam, lo, hi, c, kk, d);
                    assert(cavity_from(m, seam, lo, hi, cells@[i as int].coordinate, kk, d));
                }
                if exists|j: int, kk: int| 0 <= j < i + 1 && 0 <= kk < 6 && #[trigger] cavity_from(m, seam, lo, hi, cells@[j].coordinate, kk, d) {
                    let (j, kk) = choose|j: int, kk: int| 0 <= j < i + 1 && 0 <= kk < 6 && #[trigger] cavity_from(m, seam, lo, hi, cells@[j].coordinate, kk, d);
                    if j == i {
                        assert(cavity_from(m, seam, lo, hi, c, kk, d));
                    }
                }
            }
        }
        i = i + 1;
    }
    proof {
        let targets = cavity_targets(cells@, seam);
        assert(spec_bounds(cell_coordinates(cells@)) == Some((lo, hi)));
        assert forall|d: [i64; 3]| #[trigger] listed(adds@).contains(d) == targets.contains(d) by {
            if listed(adds@).contains(d) {
                let (j, kk) = choose|j: int, kk: int| 0 <= j < i && 0 <= kk < 6 && #[trigger] cavity_from(m, seam, lo, hi, cells@[j].coordinate, kk, d);
                assert(cavity_at(m, seam, lo, hi, d));
            }
            if targets.contains(d) {
                assert(cavity_at(m, seam, lo, hi, d));
                assert(neighbor_present(m, d, 0));
                let below = spec_add(d, face_offset(0)).unwrap();
                lemma_axis_step(d, 0);
                let j = crate::cellmap::index_at(cells@, below);
                assert(cells@[j].coordinate == below);
                lemma_axis_step(below, 0);
                assert(cavity_from(m, seam, lo, hi, cells@[j].coordinate, 1, d));
            }
        }
        assert(listed(adds@) =~= targets);
        lemma_listed_len(adds@);
        assert forall|j: int| 0 <= j < adds@.len() implies !cells_view(cells@).contains_key(#[trigger] adds@[j]) by {
            assert(listed(adds@).contains(adds@[j]));
        }
    }
    fill_listed(cells, &adds, CleanupOperation::FillOneVoxelCavity, maximum_total_cells)
}


/// The lowest y of the cells, when there are any.
pub open spec fn lowest_y(cells: Seq<FusedVoxelCell>) -> Option<i64> {
    match spec_bounds(cell_coordinates(cells)) {
        Some((lo, _)) => Some(lo[1]),
        None => None,
    }
}

/// A cell moved up by `shift` cells, with ground contact added to its ledger.
pub open spec fn grounded_view(cell: FusedCellView, shift: int) -> FusedCellView {
    FusedCellView {
        coordinate: [cell.coordinate[0], (cell.coordinate[1] + shift) as i64, cell.coordinate[2]],
        material_slot: cell.material_slot,
        origin: cell.origin,
        operations: cell.operations.push(CleanupOperation::RestoreGroundContact),
    }
}

/// Some cell's y would leave the i64 range after the shift.
pub open spec fn shift_overflows(cells: Seq<FusedVoxelCell>, shift: int) -> bool {
    exists|i: int| 0 <= i < cells.len() && !(i64::MIN <= #[trigger] cells[i].coordinate[1] + shift <= i64::MAX)
}

pub open spec fn ground_message(shift: int, lowest: int, ground_y: int) -> Seq<char> {
    "ground correction "@ + decimal_text(shift) + " exceeds the four-cell repair policy (min y "@ + decimal_text(lowest)
        + ", ground y "@ + decimal_text(ground_y) + ")"@
}

/// Move the whole frame vertically so its lowest cell rests on `ground_y`,
/// when that takes at most four cells; every moved cell records the repair.
pub fn restore_ground_contact(
    ground_y: i64,
    cells: &mut Vec<FusedVoxelCell>,
    _maximum_total_cells: usize,
) -> (result: Result<(), FusionError>)
    requires
        sorted_by_loc(old(cells)@),
    ensures
        sorted_by_loc(final(cells)@),
        lowest_y(old(cells)@) is None ==> result is Err && final(cells)@ == old(cells)@ && result->Err_0.spec_code()
            == "fusion.missingRequiredRegion" && result->Err_0.spec_message() == "empty frame"@,
        lowest_y(old(cells)@) matches Some(lowest) ==> {
            let shift = ground_y - lowest;
            &&& !(i64::MIN <= shift <= i64::MAX) ==> result is Err && final(cells)@ == old(cells)@
                && result->Err_0.spec_code() == "fusion.coordinateOverflow" && result->Err_0.spec_message()
                == "ground correction distance overflow"@
            &&& shift == 0 ==> result is Ok && final(cells)@ == old(cells)@
            &&& (i64::MIN <= shift <= i64::MAX && (shift > 4 || shift < -4)) ==> result is Err && final(cells)@
                == old(cells)@ && result->Err_0.spec_code() == "fusion.invalidGroundPlane"
                && result->Err_0.spec_message() == ground_message(shift, lowest as int, ground_y as int)
            &&& (shift != 0 && -4 <= shift <= 4 && shift_overflows(old(cells)@, shift)) ==> result is Err
                && final(cells)@.len() == 0 && result->Err_0.spec_code() == "fusion.coordinateOverflow"
                && result->Err_0.spec_message() == "ground correction overflow"@
            &&& (shift != 0 && -4 <= shift <= 4 && !shift_overflows(old(cells)@, shift)) ==> result is Ok
                && final(cells)@.len() == old(cells)@.len() && forall|i: int|
                0 <= i < old(cells)@.len() ==> (#[trigger] final(cells)@[i])@ == grounded_view(old(cells)@[i]@, shift)
        },
{
    let coords = coordinates_of(cells);
    let lowest = match bounds_of(&coords) {
        Some((lo, _)) => lo[1],
        None => {
            return Err(FusionError::new("fusion.missingRequiredRegion", String::from_str("empty frame")));
        },
    };
    let shift = match ground_y.checked_sub(lowest) {
        Some(v) => v,
        None => {
            return Err(
                FusionError::new("fusion.coordinateOverflow", String::from_str("ground correction distance overflow")),
            );
        },
    };
    if shift == 0 {
        return Ok(());
    }
    if shift > 4 || shift < -4 {
        let mut message = String::from_str("ground correction ");
        message.append(decimal_i64(shift).as_str());
        message.append(" exceeds the four-cell repair policy (min y ");
        message.append(decimal_i64(lowest).as_str());
        message.append(", ground y ");
        message.append(decimal_i64(ground_y).as_str());
        message.append(")");
        return Err(FusionError::new("fusion.invalidGroundPlane", message));
    }
    let mut grounded: Vec<FusedVoxelCell> = Vec::new();
    let mut i: usize = 0;
    while i < cells.len()
        invariant
            i <= cells@.len(),
            cells@ == old(cells)@,
            sorted_by_loc(cells@),
            -4 <= shift <= 4,
            shift != 0,
            lowest_y(old(cells)@) == Some(lowest),
            shift == ground_y - lowest,
            grounded@.len() == i,
            forall|j: int| 0 <= j < i ==> (#[trigger] grounded@[j])@ == grounded_view(cells@[j]@, shift as int),
            forall|j: int| 0 <= j < i ==> i64::MIN <= #[trigger] cells@[j].coordinate[1] + shift <= i64::MAX,
        decreases cells@.len() - i,
    {
        let cell = &cells[i];
        let y = match cell.coordinate[1].checked_add(shift) {
            Some(v) => v,
            None => {
                assert(shift_overflows(old(cells)@, shift as int));
                *cells = Vec::new();
                return Err(FusionError::new("fusion.coordinateOverflow", String::from_str("ground correction overflow")));
            },
        };
        let mut operations = copy_operations(&cell.operations);
        operations.push(CleanupOperation::RestoreGroundContact);
        let moved = FusedVoxelCell {
            coordinate: [cell.coordinate[0], y, cell.coordinate[2]],
            material_slot: cell.material_slot,
            origin: copy_origin(&cell.origin),
            operations,
        };
        assert(moved@ == grounded_view(cell@, shift as int));
        grounded.push(moved);
        i = i + 1;
    }
    proof {
        assert(!shift_overflows(old(cells)@, shift as int));
        assert forall|a: int, b: int| 0 <= a < b < grounded@.len() implies coord_lt(
            #[trigger] grounded@[a].loc(),
            #[trigger] grounded@[b].loc(),
        ) by {
            assert(coord_lt(cells@[a].loc(), cells@[b].loc()));
        }
    }
    *cells = grounded;
    Ok(())
}


/// The rough seam cells of part `p` (those that still need fusion), in order.
pub open spec fn limb_seam(voxels: Seq<AssembledVoxelCell>, p: int) -> Seq<[i64; 3]>
    decreases voxels.len(),
{
    if voxels.len() == 0 {
        seq![]
    } else {
        limb_seam(voxels.drop_last(), p) + if voxels.last().part_id == p && voxels.last().needs_fusion {
            seq![voxels.last().coordinate]
        } else {
            Seq::<[i64; 3]>::empty()
        }
    }
}

/// The axis of greatest extent; among equal extents the last one.
pub open spec fn main_axis(e0: int, e1: int, e2: int) -> int {
    let m: int = if e1 >= e0 { 1 } else { 0 };
    let em = if m == 1 { e1 } else { e0 };
    if e2 >= em { 2 } else { m }
}

pub open spec fn extent_of(lo: [i64; 3], hi: [i64; 3], a: int) -> int {
    hi[a] - lo[a] + 1
}

/// The axes below `upto`, other than the main axis, whose extent is below
/// the minimum.
pub open spec fn thin_axes(lo: [i64; 3], hi: [i64; 3], minimum: int, upto: int) -> Seq<int>
    decreases upto,
{
    if upto <= 0 {
        seq![]
    } else {
        let a = upto - 1;
        let main = main_axis(extent_of(lo, hi, 0), extent_of(lo, hi, 1), extent_of(lo, hi, 2));
        thin_axes(lo, hi, minimum, a) + if a != main && extent_of(lo, hi, a) < minimum {
            seq![a]
        } else {
            Seq::<int>::empty()
        }
    }
}

/// One thickening step: part, axis, and the seam cell to grow along it.
pub open spec fn axis_steps(p: int, a: int, seam: Seq<[i64; 3]>) -> Seq<(int, int, [i64; 3])> {
    Seq::new(seam.len(), |k: int| (p, a, seam[k]))
}

pub open spec fn steps_over_axes(p: int, axes: Seq<int>, seam: Seq<[i64; 3]>) -> Seq<(int, int, [i64; 3])>
    decreases axes.len(),
{
    if axes.len() == 0 {
        seq![]
    } else {
        steps_over_axes(p, axes.drop_last(), seam) + axis_steps(p, axes.last(), seam)
    }
}

/// The thickening steps of part `p`: for each thin axis, every seam cell of
/// the part.
pub open spec fn part_limb_steps(
    kit: FusionKit,
    voxels: Seq<AssembledVoxelCell>,
    cells: Seq<FusedVoxelCell>,
    p: int,
) -> Seq<(int, int, [i64; 3])> {
    if !kit.parts@[p].limb {
        seq![]
    } else {
        match spec_bounds(part_coordinates(cells, p)) {
            Some((lo, hi)) => steps_over_axes(p, thin_axes(lo, hi, kit.min_limb_thickness as int, 3), limb_seam(voxels, p)),
            None => seq![],
        }
    }
}

/// The thickening steps of the parts below `upto`, in part order.
pub open spec fn limb_plan(
    kit: FusionKit,
    voxels: Seq<AssembledVoxelCell>,
    cells: Seq<FusedVoxelCell>,
    upto: int,
) -> Seq<(int, int, [i64; 3])>
    decreases upto,
{
    if upto <= 0 {
        seq![]
    } else {
        limb_plan(kit, voxels, cells, upto - 1) + part_limb_steps(kit, voxels, cells, upto - 1)
    }
}

/// Material for a thickening cell with no occupied neighbour.
pub open spec fn limb_fallback(part: FusionPart) -> u16 {
    if part.cells@.len() > 0 {
        part.cells@[0].material_slot
    } else {
        1
    }
}

pub open spec fn limb_quota(maximum_total_cells: int) -> Refusal {
    ("fusion.generatedVoxelQuotaExceeded", "candidate cell cap "@ + decimal_text(maximum_total_cells) + " would be exceeded"@)
}

/// One thickening step applied to the cells.
pub open spec fn apply_limb_step(
    kit: FusionKit,
    m: Map<[i64; 3], FusedCellView>,
    step: (int, int, [i64; 3]),
    maximum_total_cells: int,
) -> Result<Map<[i64; 3], FusedCellView>, Refusal> {
    let part = kit.parts@[step.0];
    match spec_add(step.2, face_offset(2 * step.1 + 1)) {
        None => Err(("fusion.coordinateOverflow", "part "@ + part.id@ + " thickness expansion overflow"@)),
        Some(x) => if m.contains_key(x) {
            Ok(m)
        } else if m.dom().len() >= maximum_total_cells {
            Err(limb_quota(maximum_total_cells))
        } else {
            Ok(
                m.insert(
                    x,
                    generated_cell(
                        x,
                        match spec_neighboring_material(m, x) {
                            Some(slot) => slot,
                            None => limb_fallback(part),
                        },
                        GeneratedOperation::Cleanup { operation: CleanupOperation::EnforceMinimumLimbThickness },
                    ),
                ),
            )
        },
    }
}

/// The steps applied in order, stopping at the first failure.
pub open spec fn run_limb_steps(
    kit: FusionKit,
    m: Map<[i64; 3], FusedCellView>,
    steps: Seq<(int, int, [i64; 3])>,
    maximum_total_cells: int,
) -> Result<Map<[i64; 3], FusedCellView>, Refusal>
    decreases steps.len(),
{
    if steps.len() == 0 {
        Ok(m)
    } else {
        match run_limb_steps(kit, m, steps.drop_last(), maximum_total_cells) {
            Ok(n) => apply_limb_step(kit, n, steps.last(), maximum_total_cells),
            Err(r) => Err(r),
        }
    }
}

proof fn lemma_run_stays_failed(
    kit: FusionKit,
    m: Map<[i64; 3], FusedCellView>,
    steps: Seq<(int, int, [i64; 3])>,
    k: int,
    maximum_total_cells: int,
)
    requires
        0 <= k <= steps.len(),
        run_limb_steps(kit, m, steps.take(k), maximum_total_cells) is Err,
    ensures
        run_limb_steps(kit, m, steps, maximum_total_cells) == run_limb_steps(kit, m, steps.take(k), maximum_total_cells),
    decreases steps.len() - k,
{
    if k < steps.len() {
        assert(steps.take(k + 1).drop_last() =~= steps.take(k));
        lemma_run_stays_failed(kit, m, steps, k + 1, maximum_total_cells);
    } else {
        assert(steps.take(k) =~= steps);
    }
}

fn limb_seam_exec(voxels: &Vec<AssembledVoxelCell>, p: u32) -> (seam: Vec<[i64; 3]>)
    ensures
        seam@ == limb_seam(voxels@, p as int),
{
    let mut seam: Vec<[i64; 3]> = Vec::new();
    let mut i: usize = 0;
    while i < voxels.len()
        invariant
            i <= voxels@.len(),
            seam@ == limb_seam(voxels@.take(i as int), p as int),
        decreases voxels@.len() - i,
    {
        assert(voxels@.take(i + 1).drop_last() =~= voxels@.take(i as int));
        if voxels[i].part_id == p && voxels[i].needs_fusion {
            seam.push(voxels[i].coordinate);
        }
        assert(seam@ =~= limb_seam(voxels@.take(i + 1), p as int));
        i = i + 1;
    }
    assert(voxels@.take(i as int) =~= voxels@);
    seam
}

pub open spec fn step_view(s: (usize, usize, [i64; 3])) -> (int, int, [i64; 3]) {
    (s.0 as int, s.1 as int, s.2)
}

pub open spec fn steps_view(plan: Seq<(usize, usize, [i64; 3])>) -> Seq<(int, int, [i64; 3])> {
    Seq::new(plan.len(), |k: int| step_view(plan[k]))
}

fn main_axis_exec(e0: i64, e1: i64, e2: i64) -> (m: usize)
    ensures
        m == main_axis(e0 as int, e1 as int, e2 as int),
        m < 3,
{
    let m: usize = if e1 >= e0 { 1 } else { 0 };
    let em = if m == 1 { e1 } else { e0 };
    if e2 >= em { 2 } else { m }
}

/// The thickening plan of every limb part, from the cells before any
/// thickening.
fn plan_limbs(kit: &FusionKit, voxels: &Vec<AssembledVoxelCell>, cells: &Vec<FusedVoxelCell>) -> (plan: Vec<(usize, usize, [i64; 3])>)
    requires
        kit.parts@.len() <= u32::MAX,
        forall|i: int| 0 <= i < cells@.len() ==> half_range(#[trigger] cells@[i].coordinate),
    ensures
        steps_view(plan@) == limb_plan(*kit, voxels@, cells@, kit.parts@.len() as int),
        forall|k: int| 0 <= k < plan@.len() ==> (#[trigger] plan@[k]).0 < kit.parts@.len() && plan@[k].1 < 3,
{
    let minimum = kit.min_limb_thickness as i64;
    let mut plan: Vec<(usize, usize, [i64; 3])> = Vec::new();
    let mut p: usize = 0;
    while p < kit.parts.len()
        invariant
            p <= kit.parts@.len() <= u32::MAX,
            minimum == kit.min_limb_thickness,
            forall|i: int| 0 <= i < cells@.len() ==> half_range(#[trigger] cells@[i].coordinate),
            steps_view(plan@) == limb_plan(*kit, voxels@, cells@, p as int),
            forall|k: int| 0 <= k < plan@.len() ==> (#[trigger] plan@[k]).0 < kit.parts@.len() && plan@[k].1 < 3,
        decreases kit.parts@.len() - p,
    {
        let ghost before = steps_view(plan@);
        if kit.parts[p].limb {
            let coords = crate::structural::part_coordinates_exec(cells, p as u32);
            if let Some((lo, hi)) = bounds_of(&coords) {
                proof {
                    assert forall|j: int| 0 <= j < coords@.len() implies half_range(#[trigger] coords@[j]) by {
                        let i = choose|i: int| 0 <= i < cells@.len() && #[trigger] coords@[j] == cells@[i].coordinate;
                        assert(half_range(cells@[i].coordinate));
                    }
                    crate::structural::lemma_bounds_half_range(coords@);
                }
                let extents = [hi[0] - lo[0] + 1, hi[1] - lo[1] + 1, hi[2] - lo[2] + 1];
                let main = main_axis_exec(extents[0], extents[1], extents[2]);
                let seam = limb_seam_exec(voxels, p as u32);
                let ghost seam_view = seam@;
                let mut a: usize = 0;
                while a < 3
                    invariant
                        p < kit.parts@.len() <= u32::MAX,
                        a <= 3,
                        kit.parts@[p as int].limb,
                        spec_bounds(part_coordinates(cells@, p as int)) == Some((lo, hi)),
                        extents[0] == extent_of(lo, hi, 0) && extents[1] == extent_of(lo, hi, 1) && extents[2] == extent_of(lo, hi, 2),
                        main == main_axis(extent_of(lo, hi, 0), extent_of(lo, hi, 1), extent_of(lo, hi, 2)),
                        minimum == kit.min_limb_thickness,
                        seam@ == limb_seam(voxels@, p as int),
                        steps_view(plan@) == before + steps_over_axes(p as int, thin_axes(lo, hi, minimum as int, a as int), seam@),
                        before == limb_plan(*kit, voxels@, cells@, p as int),
                        forall|k: int| 0 <= k < plan@.len() ==> (#[trigger] plan@[k]).0 < kit.parts@.len() && plan@[k].1 < 3,
                    decreases 3 - a,
                {
                    let ghost mid = plan@;
                    if a != main && extents[a] < minimum {
                        let mut k: usize = 0;
                        while k < seam.len()
                            invariant
                                p < kit.parts@.len(),
                                a < 3,
                                k <= seam@.len(),
                                plan@.len() == mid.len() + k,
                                forall|j: int| 0 <= j < mid.len() ==> plan@[j] == mid[j],
                                forall|j: int| 0 <= j < k ==> #[trigger] plan@[mid.len() + j] == (p, a, seam@[j]),
                                forall|j: int| 0 <= j < plan@.len() ==> (#[trigger] plan@[j]).0 < kit.parts@.len() && plan@[j].1 < 3,
                            decreases seam@.len() - k,
                        {
                            plan.push((p, a, seam[k]));
                            k = k + 1;
                        }
                        proof {
                            assert(steps_view(plan@) =~= steps_view(mid) + axis_steps(p as int, a as int, seam@)) by {
                                assert forall|j: int| 0 <= j < plan@.len() implies #[trigger] steps_view(plan@)[j] == (steps_view(mid) + axis_steps(p as int, a as int, seam@))[j] by {
                                    if j >= mid.len() {
                                        assert(plan@[mid.len() + (j - mid.len())] == (p, a, seam@[j - mid.len()]));
                                    }
                                }
                            }
                        }
                    }
                    proof {
                        let axes = thin_axes(lo, hi, minimum as int, a + 1);
                        let prev = thin_axes(lo, hi, minimum as int, a as int);
                        if a != main && extents[a as int] < minimum {
                            assert(axes =~= prev.push(a as int));
                            assert(axes.drop_last() =~= prev);
                        } else {
                            assert(axes =~= prev);
                        }
                    }
                    a = a + 1;
                }
                proof {
                    assert(part_limb_steps(*kit, voxels@, cells@, p as int) == steps_over_axes(p as int, thin_axes(lo, hi, minimum as int, 3), seam@));
                }
            } else {
                proof {
                    assert(part_limb_steps(*kit, voxels@, cells@, p as int) =~= Seq::<(int, int, [i64; 3])>::empty());
                    assert(steps_view(plan@) =~= before + part_limb_steps(*kit, voxels@, cells@, p as int));
                }
            }
        } else {
            proof {
                assert(steps_view(plan@) =~= before + part_limb_steps(*kit, voxels@, cells@, p as int));
            }
        }
        proof {
            assert(steps_view(plan@) =~= limb_plan(*kit, voxels@, cells@, p + 1));
        }
        p = p + 1;
    }
    plan
}


proof fn lemma_view_len(v: Seq<FusedVoxelCell>)
    requires
        sorted_by_loc(v),
    ensures
        cells_view(v).dom().finite(),
        cells_view(v).dom().len() == v.len(),
{
    crate::candidate::lemma_sorted_len(v);
    assert(cells_view(v).dom() =~= crate::cellmap::located_map(v).dom());
}

/// Thicken every limb part whose cross-section is below the kit minimum:
/// along each thin axis other than the part's longest, every seam cell of the
/// part gains a generated neighbour one cell further along that axis.
pub fn enforce_minimum_limb_thickness(
    kit: &FusionKit,
    voxels: &Vec<AssembledVoxelCell>,
    cells: &mut Vec<FusedVoxelCell>,
    maximum_total_cells: usize,
) -> (result: Result<(), FusionError>)
    requires
        kit.parts@.len() <= u32::MAX,
        sorted_by_loc(old(cells)@),
        forall|i: int| 0 <= i < old(cells)@.len() ==> half_range(#[trigger] old(cells)@[i].coordinate),
    ensures
        sorted_by_loc(final(cells)@),
        match run_limb_steps(
            *kit,
            cells_view(old(cells)@),
            limb_plan(*kit, voxels@, old(cells)@, kit.parts@.len() as int),
            maximum_total_cells as int,
        ) {
            Ok(m) => result is Ok && cells_view(final(cells)@) == m,
            Err(r) => result matches Err(e) && refused(e, r),
        },
{
    let plan = plan_limbs(kit, voxels, cells);
    let ghost m0 = cells_view(cells@);
    let ghost steps = steps_view(plan@);
    let mut k: usize = 0;
    proof {
        assert(steps.take(0) =~= Seq::<(int, int, [i64; 3])>::empty());
    }
    while k < plan.len()
        invariant
            k <= plan@.len(),
            steps == steps_view(plan@),
            steps == limb_plan(*kit, voxels@, old(cells)@, kit.parts@.len() as int),
            m0 == cells_view(old(cells)@),
            forall|j: int| 0 <= j < plan@.len() ==> (#[trigger] plan@[j]).0 < kit.parts@.len() && plan@[j].1 < 3,
            sorted_by_loc(cells@),
            run_limb_steps(*kit, m0, steps.take(k as int), maximum_total_cells as int) == Ok::<Map<[i64; 3], FusedCellView>, Refusal>(cells_view(cells@)),
        decreases plan@.len() - k,
    {
        let (p, a, c) = plan[k];
        let part = &kit.parts[p];
        proof {
            assert(steps.take(k + 1).drop_last() =~= steps.take(k as int));
            assert(steps.take(k + 1).last() == step_view(plan@[k as int]));
            lemma_axis_step(c, a as int);
            lemma_view_len(cells@);
        }
        let up = face_offset_exec(2 * a + 1);
        let x = match checked_add_coord(c, up) {
            Some(v) => v,
            None => {
                let mut message = String::from_str("part ");
                message.append(part.id.as_str());
                message.append(" thickness expansion overflow");
                proof {
                    lemma_run_stays_failed(*kit, m0, steps, k + 1, maximum_total_cells as int);
                }
                return Err(FusionError::new("fusion.coordinateOverflow", message));
            },
        };
        let fallback = if part.cells.len() > 0 {
            part.cells[0].material_slot
        } else {
            1
        };
        let material = match neighboring_material(cells, x) {
            Some(slot) => slot,
            None => fallback,
        };
        let ghost before = cells_view(cells@);
        match insert_generated(
            cells,
            x,
            material,
            GeneratedOperation::Cleanup { operation: CleanupOperation::EnforceMinimumLimbThickness },
            maximum_total_cells,
        ) {
            Ok(()) => {},
            Err(e) => {
                proof {
                    lemma_run_stays_failed(*kit, m0, steps, k + 1, maximum_total_cells as int);
                }
                return Err(e);
            },
        }
        proof {
            assert(run_limb_steps(*kit, m0, steps.take(k + 1), maximum_total_cells as int) == Ok::<Map<[i64; 3], FusedCellView>, Refusal>(cells_view(cells@)));
        }
        k = k + 1;
    }
    proof {
        assert(steps.take(k as int) =~= steps);
    }
    Ok(())
}

} // verus!
