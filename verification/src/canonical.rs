//! The canonical cells a rough frame contributes to fusion, checked against
//! the kit's part cells.

use vstd::prelude::*;
use vstd::string::StringExecFns;

use crate::assemble::AssembledVoxelCell;
use crate::cellmap::{contains, insert_absent, located_map, sorted_by_loc, Located};
use crate::fusion::{cells_view, FusedCellView, FusedVoxelCell, FusedVoxelOrigin, FusionError};
use crate::structural::{refused, FusionKit, Refusal};
use crate::text::{coord_string, coord_text, decimal_text, decimal_u64};

verus! {

/// The fused cell a rough cell becomes.
pub open spec fn canonical_view(v: AssembledVoxelCell) -> FusedCellView {
    FusedCellView {
        coordinate: v.coordinate,
        material_slot: v.material_slot,
        origin: FusedVoxelOrigin::Canonical { part_id: v.part_id, source_voxel_index: v.source_voxel_index },
        operations: Seq::empty(),
    }
}

pub open spec fn coordinate_before(voxels: Seq<AssembledVoxelCell>, i: int, c: [i64; 3]) -> bool {
    exists|j: int| 0 <= j < i && (#[trigger] voxels[j]).coordinate == c
}

/// What is wrong with rough cell `i`, if anything.
pub open spec fn rough_cell_refusal(kit: FusionKit, voxels: Seq<AssembledVoxelCell>, i: int) -> Option<Refusal> {
    let v = voxels[i];
    if v.part_id >= kit.parts@.len() {
        Some(("fusion.invalidProvenance", "unknown part index "@ + decimal_text(v.part_id as int)))
    } else {
        let part = kit.parts@[v.part_id as int];
        if v.source_voxel_index >= part.cells@.len() {
            Some(
                (
                    "fusion.invalidProvenance",
                    "part "@ + part.id@ + " has no source voxel "@ + decimal_text(v.source_voxel_index as int),
                ),
            )
        } else if part.cells@[v.source_voxel_index as int].material_slot != v.material_slot {
            Some(
                (
                    "fusion.invalidProvenance",
                    "part "@ + part.id@ + " voxel "@ + decimal_text(v.source_voxel_index as int) + " material "@
                        + decimal_text(part.cells@[v.source_voxel_index as int].material_slot as int)
                        + " does not match rough material "@ + decimal_text(v.material_slot as int),
                ),
            )
        } else if coordinate_before(voxels, i, v.coordinate) {
            Some(("fusion.duplicateCoordinate", "rough frame repeats coordinate "@ + coord_text(v.coordinate)))
        } else {
            None
        }
    }
}

pub open spec fn rough_refusal_from(kit: FusionKit, voxels: Seq<AssembledVoxelCell>, i: int) -> Option<Refusal>
    decreases voxels.len() - i,
{
    if i < 0 || i >= voxels.len() {
        None
    } else if rough_cell_refusal(kit, voxels, i) is Some {
        rough_cell_refusal(kit, voxels, i)
    } else {
        rough_refusal_from(kit, voxels, i + 1)
    }
}

/// The first refusal of the rough frame's cells, or of an empty frame.
pub open spec fn canonical_refusal(kit: FusionKit, voxels: Seq<AssembledVoxelCell>) -> Option<Refusal> {
    if rough_refusal_from(kit, voxels, 0) is Some {
        rough_refusal_from(kit, voxels, 0)
    } else if voxels.len() == 0 {
        Some(("fusion.missingRequiredRegion", "rough frame contains no canonical geometry"@))
    } else {
        None
    }
}

/// The canonical cells keyed by coordinate.
pub open spec fn canonical_map(voxels: Seq<AssembledVoxelCell>) -> Map<[i64; 3], FusedCellView> {
    Map::new(
        |c: [i64; 3]| exists|i: int| 0 <= i < voxels.len() && (#[trigger] voxels[i]).coordinate == c,
        |c: [i64; 3]| canonical_view(voxels[choose|i: int| 0 <= i < voxels.len() && (#[trigger] voxels[i]).coordinate == c]),
    )
}

/// No two rough cells share a coordinate.
pub open spec fn distinct_rough(voxels: Seq<AssembledVoxelCell>) -> bool {
    forall|i: int, j: int| 0 <= i < j < voxels.len() ==> (#[trigger] voxels[i]).coordinate != (#[trigger] voxels[j]).coordinate
}

/// The fused frame's starting cells: one canonical cell per rough cell,
/// after checking each against the kit part it names.
pub fn canonical_cells(kit: &FusionKit, voxels: &Vec<AssembledVoxelCell>) -> (result: Result<Vec<FusedVoxelCell>, FusionError>)
    ensures
        result is Ok <==> canonical_refusal(*kit, voxels@) is None,
        result matches Err(e) ==> canonical_refusal(*kit, voxels@) matches Some(r) && refused(e, r),
        result matches Ok(cells) ==> sorted_by_loc(cells@) && distinct_rough(voxels@) && cells_view(cells@)
            == canonical_map(voxels@),
{
    let mut cells: Vec<FusedVoxelCell> = Vec::new();
    let mut i: usize = 0;
    while i < voxels.len()
        invariant
            i <= voxels@.len(),
            sorted_by_loc(cells@),
            rough_refusal_from(*kit, voxels@, 0) == rough_refusal_from(*kit, voxels@, i as int),
            distinct_rough(voxels@.take(i as int)),
            cells_view(cells@) == canonical_map(voxels@.take(i as int)),
            cells@.len() == i,
        decreases voxels@.len() - i,
    {
        let v = &voxels[i];
        if v.part_id as usize >= kit.parts.len() {
            let mut message = String::from_str("unknown part index ");
            message.append(decimal_u64(v.part_id as u64).as_str());
            return Err(FusionError::new("fusion.invalidProvenance", message));
        }
        let part = &kit.parts[v.part_id as usize];
        if v.source_voxel_index as usize >= part.cells.len() {
            let mut message = String::from_str("part ");
            message.append(part.id.as_str());
            message.append(" has no source voxel ");
            message.append(decimal_u64(v.source_voxel_index as u64).as_str());
            return Err(FusionError::new("fusion.invalidProvenance", message));
        }
        let source_material = part.cells[v.source_voxel_index as usize].material_slot;
        if source_material != v.material_slot {
            let mut message = String::from_str("part ");
            message.append(part.id.as_str());
            message.append(" voxel ");
            message.append(decimal_u64(v.source_voxel_index as u64).as_str());
            message.append(" material ");
            message.append(decimal_u64(source_material as u64).as_str());
            message.append(" does not match rough material ");
            message.append(decimal_u64(v.material_slot as u64).as_str());
            return Err(FusionError::new("fusion.invalidProvenance", message));
        }
        let ghost prefix = voxels@.take(i as int);
        if contains(&cells, v.coordinate) {
            proof {
                assert(cells_view(cells@).contains_key(v.coordinate));
                let j = choose|j: int| 0 <= j < prefix.len() && (#[trigger] prefix[j]).coordinate == v.coordinate;
                assert(voxels@[j].coordinate == v.coordinate);
                assert(coordinate_before(voxels@, i as int, v.coordinate));
            }
            let mut message = String::from_str("rough frame repeats coordinate ");
            message.append(coord_string(v.coordinate).as_str());
            return Err(FusionError::new("fusion.duplicateCoordinate", message));
        }
        let cell = FusedVoxelCell {
            coordinate: v.coordinate,
            material_slot: v.material_slot,
            origin: FusedVoxelOrigin::Canonical { part_id: v.part_id, source_voxel_index: v.source_voxel_index },
            operations: Vec::new(),
        };
        proof {
            assert(!cells_view(cells@).contains_key(v.coordinate));
            assert(!coordinate_before(voxels@, i as int, v.coordinate)) by {
                if coordinate_before(voxels@, i as int, v.coordinate) {
                    let j = choose|j: int| 0 <= j < i && (#[trigger] voxels@[j]).coordinate == v.coordinate;
                    assert(prefix[j].coordinate == v.coordinate);
                    assert(canonical_map(prefix).contains_key(v.coordinate));
                }
            }
        }
        let ghost before = cells@;
        insert_absent(&mut cells, cell);
        proof {
            let next = voxels@.take(i + 1);
            assert(next =~= prefix.push(*v));
            assert(cell@ == canonical_view(*v));
            assert forall|a: int, b: int| 0 <= a < b < next.len() implies (#[trigger] next[a]).coordinate != (#[trigger] next[b]).coordinate by {
                if b < i {
                    assert(prefix[a] == next[a] && prefix[b] == next[b]);
                } else {
                    assert(next[a] == voxels@[a]);
                }
            }
            assert(cells_view(cells@) =~= cells_view(before).insert(v.coordinate, cell@));
            assert forall|c: [i64; 3]| #[trigger] canonical_map(next).contains_key(c) == cells_view(cells@).contains_key(c) by {
                if canonical_map(next).contains_key(c) {
                    let j = choose|j: int| 0 <= j < next.len() && (#[trigger] next[j]).coordinate == c;
                    if j < i {
                        assert(prefix[j].coordinate == c);
                    }
                }
                if cells_view(before).contains_key(c) {
                    assert(canonical_map(prefix).contains_key(c));
                    let j = choose|j: int| 0 <= j < prefix.len() && (#[trigger] prefix[j]).coordinate == c;
                    assert(next[j].coordinate == c);
                }
                if c == v.coordinate {
                    assert(next[i as int].coordinate == c);
                }
            }
            assert forall|c: [i64; 3]| #[trigger] canonical_map(next).contains_key(c) implies canonical_map(next)[c] == cells_view(cells@)[c] by {
                let j = choose|j: int| 0 <= j < next.len() && (#[trigger] next[j]).coordinate == c;
                if c == v.coordinate {
                    assert(next[i as int].coordinate == c);
                    assert(j == i);
                } else {
                    assert(j < i);
                    assert(prefix[j].coordinate == c);
                    let k = choose|k: int| 0 <= k < prefix.len() && (#[trigger] prefix[k]).coordinate == c;
                    assert(k == j);
                    assert(next[j] == prefix[j]);
                }
            }
            assert(canonical_map(next) =~= cells_view(cells@));
        }
        i = i + 1;
    }
    proof {
        assert(voxels@.take(i as int) =~= voxels@);
    }
    if cells.len() == 0 {
        return Err(FusionError::new(
            "fusion.missingRequiredRegion",
            String::from_str("rough frame contains no canonical geometry"),
        ));
    }
    Ok(cells)
}

} // verus!
