//! Structural admission of a fused frame: the hard gates every published
//! frame passes against its kit (palette, runtime bounds, protected
//! geometry, connectivity, ground contact, volume, limb thickness, fixed
//! dimensions, and the locality of generated cells).

use vstd::prelude::*;
use vstd::string::StringExecFns;

use crate::cellmap::{contains, insert_absent, sorted_by_loc, Located};
use crate::cellstore::listed;
use crate::components::{components, connected_components};
use crate::fusion::{
    cell_coordinates, CleanupOperation, FusedFrame, FusedVoxelCell, FusedVoxelOrigin, FusionError, FusionSettings,
    GeneratedOperation,
};
use crate::kit::KitCell;
use crate::text::{text_equals, coord_string, coord_text, debug_string, debug_text, decimal_i64, decimal_text, decimal_u64};
use crate::voxel::{bounds_of, chebyshev, chebyshev_distance, coordinate_admitted, spec_bounds, MAX_COORDINATE_ABS};
use crate::assemble::{AssembledVoxelCell, RoughFrame};
use crate::repair::seam_near;
use crate::region::lemma_listed_occupies;

verus! {

/// An inclusive box of part-local cells whose canonical cells must survive.
#[derive(Debug, Clone, Copy, PartialEq, Eq)]
pub struct ProtectedRegion {
    pub min: [i64; 3],
    pub max: [i64; 3],
}

/// An allowed extent range for one part along one named axis.
#[derive(Debug, Clone, PartialEq, Eq)]
pub struct FixedDimension {
    /// A part id, or `character` for the whole figure.
    pub subject: String,
    /// `width`, `height` or `depth`.
    pub axis: String,
    pub range: [i64; 2],
}

/// What fusion reads of one kit part.
#[derive(Debug, Clone, PartialEq, Eq)]
pub struct FusionPart {
    pub id: String,
    pub limb: bool,
    pub cells: Vec<KitCell>,
    pub protected_regions: Vec<ProtectedRegion>,
}

/// What fusion reads of a kit: the integer facts its passes and gates use.
#[derive(Debug, Clone, PartialEq, Eq)]
pub struct FusionKit {
    /// Every material slot of the palette.
    pub palette_slots: Vec<u16>,
    pub parts: Vec<FusionPart>,
    pub protected_parts: Vec<String>,
    pub ground_y: i64,
    pub volume_range: Option<[u64; 2]>,
    pub min_limb_thickness: u32,
    pub fixed_dimensions: Vec<FixedDimension>,
}

/// A refusal: its code and message.
pub type Refusal = (&'static str, Seq<char>);

pub open spec fn refused(e: FusionError, r: Refusal) -> bool {
    e.spec_code() == r.0 && e.spec_message() == r.1
}

pub open spec fn cleanup_name(op: CleanupOperation) -> Seq<char> {
    match op {
        CleanupOperation::FillOneVoxelCavity => "FillOneVoxelCavity"@,
        CleanupOperation::RemoveIsolatedGeneratedVoxel => "RemoveIsolatedGeneratedVoxel"@,
        CleanupOperation::BridgeOneVoxelGap => "BridgeOneVoxelGap"@,
        CleanupOperation::EnforceMinimumLimbThickness => "EnforceMinimumLimbThickness"@,
        CleanupOperation::TrimDeepInterpenetration => "TrimDeepInterpenetration"@,
        CleanupOperation::RepairSocketNeighborhood => "RepairSocketNeighborhood"@,
        CleanupOperation::RestoreGroundContact => "RestoreGroundContact"@,
        CleanupOperation::NormalizeWeaponThickness => "NormalizeWeaponThickness"@,
    }
}

/// The `Debug` text of a provenance record.
pub open spec fn origin_text(origin: FusedVoxelOrigin) -> Seq<char> {
    match origin {
        FusedVoxelOrigin::Canonical { part_id, source_voxel_index } => "Canonical { part_id: "@ + decimal_text(
            part_id as int,
        ) + ", source_voxel_index: "@ + decimal_text(source_voxel_index as int) + " }"@,
        FusedVoxelOrigin::Generated { operation } => "Generated { operation: "@ + match operation {
            GeneratedOperation::JointBridge { joint_id } => "JointBridge { joint_id: "@ + debug_text(joint_id@) + " }"@,
            GeneratedOperation::Cleanup { operation } => "Cleanup { operation: "@ + cleanup_name(operation) + " }"@,
        } + " }"@,
        FusedVoxelOrigin::AuthoredEdit { operation_index } => "AuthoredEdit { operation_index: "@ + decimal_text(
            operation_index as int,
        ) + " }"@,
    }
}

fn cleanup_string(op: CleanupOperation) -> (text: String)
    ensures
        text@ == cleanup_name(op),
{
    match op {
        CleanupOperation::FillOneVoxelCavity => String::from_str("FillOneVoxelCavity"),
        CleanupOperation::RemoveIsolatedGeneratedVoxel => String::from_str("RemoveIsolatedGeneratedVoxel"),
        CleanupOperation::BridgeOneVoxelGap => String::from_str("BridgeOneVoxelGap"),
        CleanupOperation::EnforceMinimumLimbThickness => String::from_str("EnforceMinimumLimbThickness"),
        CleanupOperation::TrimDeepInterpenetration => String::from_str("TrimDeepInterpenetration"),
        CleanupOperation::RepairSocketNeighborhood => String::from_str("RepairSocketNeighborhood"),
        CleanupOperation::RestoreGroundContact => String::from_str("RestoreGroundContact"),
        CleanupOperation::NormalizeWeaponThickness => String::from_str("NormalizeWeaponThickness"),
    }
}

/// `Debug` text of a provenance record, as `{:?}` renders it.
pub fn origin_string(origin: &FusedVoxelOrigin) -> (text: String)
    ensures
        text@ == origin_text(*origin),
{
    match origin {
        FusedVoxelOrigin::Canonical { part_id, source_voxel_index } => {
            let mut text = String::from_str("Canonical { part_id: ");
            text.append(decimal_u64(*part_id as u64).as_str());
            text.append(", source_voxel_index: ");
            text.append(decimal_u64(*source_voxel_index as u64).as_str());
            text.append(" }");
            text
        },
        FusedVoxelOrigin::Generated { operation } => {
            let mut text = String::from_str("Generated { operation: ");
            match operation {
                GeneratedOperation::JointBridge { joint_id } => {
                    text.append("JointBridge { joint_id: ");
                    text.append(debug_string(joint_id.as_str()).as_str());
                    text.append(" }");
                },
                GeneratedOperation::Cleanup { operation } => {
                    text.append("Cleanup { operation: ");
                    text.append(cleanup_string(*operation).as_str());
                    text.append(" }");
                },
            }
            text.append(" }");
            text
        },
        FusedVoxelOrigin::AuthoredEdit { operation_index } => {
            let mut text = String::from_str("AuthoredEdit { operation_index: ");
            text.append(decimal_u64(*operation_index as u64).as_str());
            text.append(" }");
            text
        },
    }
}

/// What is wrong with one cell against the palette and runtime bounds.
pub open spec fn cell_refusal(palette: Seq<u16>, cell: FusedVoxelCell) -> Option<Refusal> {
    if !palette.contains(cell.material_slot) {
        Some(
            (
                "fusion.invalidPalette",
                "cell "@ + coord_text(cell.coordinate) + " uses material slot "@ + decimal_text(cell.material_slot as int)
                    + " outside the kit palette"@,
            ),
        )
    } else if !coordinate_admitted(cell.coordinate) {
        Some(("fusion.runtimeBoundsExceeded", "cell "@ + coord_text(cell.coordinate) + " exceeds runtime coordinate bounds"@))
    } else {
        None
    }
}

pub open spec fn cells_refusal_from(palette: Seq<u16>, cells: Seq<FusedVoxelCell>, i: int) -> Option<Refusal>
    decreases cells.len() - i,
{
    if i < 0 || i >= cells.len() {
        None
    } else if cell_refusal(palette, cells[i]) is Some {
        cell_refusal(palette, cells[i])
    } else {
        cells_refusal_from(palette, cells, i + 1)
    }
}

fn slot_listed(palette: &Vec<u16>, slot: u16) -> (found: bool)
    ensures
        found == palette@.contains(slot),
{
    let mut i: usize = 0;
    while i < palette.len()
        invariant
            i <= palette@.len(),
            forall|j: int| 0 <= j < i ==> palette@[j] != slot,
        decreases palette@.len() - i,
    {
        if palette[i] == slot {
            assert(palette@[i as int] == slot);
            return true;
        }
        i = i + 1;
    }
    false
}

fn admitted(c: [i64; 3]) -> (ok: bool)
    ensures
        ok == coordinate_admitted(c),
{
    -MAX_COORDINATE_ABS <= c[0] && c[0] <= MAX_COORDINATE_ABS && -MAX_COORDINATE_ABS <= c[1] && c[1]
        <= MAX_COORDINATE_ABS && -MAX_COORDINATE_ABS <= c[2] && c[2] <= MAX_COORDINATE_ABS
}

fn check_cells(palette: &Vec<u16>, cells: &Vec<FusedVoxelCell>) -> (result: Result<(), FusionError>)
    ensures
        result is Ok <==> cells_refusal_from(palette@, cells@, 0) is None,
        result matches Err(e) ==> cells_refusal_from(palette@, cells@, 0) matches Some(r) && refused(e, r),
{
    let mut i: usize = 0;
    while i < cells.len()
        invariant
            i <= cells@.len(),
            cells_refusal_from(palette@, cells@, 0) == cells_refusal_from(palette@, cells@, i as int),
        decreases cells@.len() - i,
    {
        let cell = &cells[i];
        if !slot_listed(palette, cell.material_slot) {
            let mut message = String::from_str("cell ");
            message.append(coord_string(cell.coordinate).as_str());
            message.append(" uses material slot ");
            message.append(decimal_u64(cell.material_slot as u64).as_str());
            message.append(" outside the kit palette");
            return Err(FusionError::new("fusion.invalidPalette", message));
        }
        if !admitted(cell.coordinate) {
            let mut message = String::from_str("cell ");
            message.append(coord_string(cell.coordinate).as_str());
            message.append(" exceeds runtime coordinate bounds");
            return Err(FusionError::new("fusion.runtimeBoundsExceeded", message));
        }
        i = i + 1;
    }
    Ok(())
}


/// The cell carries canonical geometry of part `p`.
pub open spec fn carries_part(cell: FusedVoxelCell, p: int) -> bool {
    cell.origin matches FusedVoxelOrigin::Canonical { part_id, .. } && part_id == p
}

/// How many cells carry canonical geometry of part `p`.
pub open spec fn part_count(cells: Seq<FusedVoxelCell>, p: int) -> nat
    decreases cells.len(),
{
    if cells.len() == 0 {
        0
    } else {
        part_count(cells.drop_last(), p) + if carries_part(cells.last(), p) {
            1nat
        } else {
            0nat
        }
    }
}

pub open spec fn in_region(c: [i64; 3], r: ProtectedRegion) -> bool {
    &&& r.min[0] <= c[0] <= r.max[0]
    &&& r.min[1] <= c[1] <= r.max[1]
    &&& r.min[2] <= c[2] <= r.max[2]
}

/// How many source cells of a part lie inside a protected region.
pub open spec fn region_count(source: Seq<KitCell>, r: ProtectedRegion) -> nat
    decreases source.len(),
{
    if source.len() == 0 {
        0
    } else {
        region_count(source.drop_last(), r) + if in_region(source.last().coordinate, r) {
            1nat
        } else {
            0nat
        }
    }
}

/// The cell carries canonical geometry of part `p` whose source cell lies
/// inside the region.
pub open spec fn retains(cell: FusedVoxelCell, p: int, source: Seq<KitCell>, r: ProtectedRegion) -> bool {
    cell.origin matches FusedVoxelOrigin::Canonical { part_id, source_voxel_index } && part_id == p
        && source_voxel_index < source.len() && in_region(source[source_voxel_index as int].coordinate, r)
}

pub open spec fn retained_count(cells: Seq<FusedVoxelCell>, p: int, source: Seq<KitCell>, r: ProtectedRegion) -> nat
    decreases cells.len(),
{
    if cells.len() == 0 {
        0
    } else {
        retained_count(cells.drop_last(), p, source, r) + if retains(cells.last(), p, source, r) {
            1nat
        } else {
            0nat
        }
    }
}

pub open spec fn names_contain(names: Seq<String>, name: Seq<char>) -> bool {
    exists|j: int| 0 <= j < names.len() && (#[trigger] names[j])@ == name
}

/// The first protected region of part `p`, from `k` on, that lost cells.
pub open spec fn region_refusal_from(cells: Seq<FusedVoxelCell>, p: int, part: FusionPart, k: int) -> Option<Refusal>
    decreases part.protected_regions@.len() - k,
{
    if k < 0 || k >= part.protected_regions@.len() {
        None
    } else {
        let r = part.protected_regions@[k];
        let kept = retained_count(cells, p, part.cells@, r);
        let total = region_count(part.cells@, r);
        if kept < total {
            Some(
                (
                    "fusion.protectedRegionRemoved",
                    "part "@ + part.id@ + " protected region "@ + coord_text(r.min) + ".."@ + coord_text(r.max) + " retained "@
                        + decimal_text(kept as int) + " cells from "@ + decimal_text(total as int) + " canonical cells"@,
                ),
            )
        } else {
            region_refusal_from(cells, p, part, k + 1)
        }
    }
}

/// What is wrong with part `p`'s canonical geometry in the frame.
pub open spec fn part_refusal(kit: FusionKit, cells: Seq<FusedVoxelCell>, p: int) -> Option<Refusal> {
    let part = kit.parts@[p];
    let n = part_count(cells, p);
    if n == 0 {
        Some(("fusion.missingRequiredRegion", "part "@ + part.id@ + " has no canonical geometry in the frame"@))
    } else if names_contain(kit.protected_parts@, part.id@) && n < part.cells@.len() {
        Some(
            (
                "fusion.protectedRegionRemoved",
                "protected part "@ + part.id@ + " retained "@ + decimal_text(n as int) + " cells from "@ + decimal_text(
                    part.cells@.len() as int,
                ) + " canonical cells"@,
            ),
        )
    } else {
        region_refusal_from(cells, p, part, 0)
    }
}

pub open spec fn parts_refusal_from(kit: FusionKit, cells: Seq<FusedVoxelCell>, p: int) -> Option<Refusal>
    decreases kit.parts@.len() - p,
{
    if p < 0 || p >= kit.parts@.len() {
        None
    } else if part_refusal(kit, cells, p) is Some {
        part_refusal(kit, cells, p)
    } else {
        parts_refusal_from(kit, cells, p + 1)
    }
}

pub(crate) fn names_contain_exec(names: &Vec<String>, name: &String) -> (found: bool)
    ensures
        found == names_contain(names@, name@),
{
    let mut j: usize = 0;
    while j < names.len()
        invariant
            j <= names@.len(),
            forall|i: int| 0 <= i < j ==> (#[trigger] names@[i])@ != name@,
        decreases names@.len() - j,
    {
        if names[j] == *name {
            assert((names@[j as int])@ == name@);
            return true;
        }
        j = j + 1;
    }
    false
}

fn carries_part_exec(cell: &FusedVoxelCell, p: u32) -> (carries: bool)
    ensures
        carries == carries_part(*cell, p as int),
{
    match &cell.origin {
        FusedVoxelOrigin::Canonical { part_id, .. } => *part_id == p,
        _ => false,
    }
}

fn count_part(cells: &Vec<FusedVoxelCell>, p: u32) -> (n: usize)
    ensures
        n == part_count(cells@, p as int),
{
    let mut n: usize = 0;
    let mut i: usize = 0;
    while i < cells.len()
        invariant
            i <= cells@.len(),
            n == part_count(cells@.take(i as int), p as int),
            n <= i,
        decreases cells@.len() - i,
    {
        assert(cells@.take(i + 1).drop_last() =~= cells@.take(i as int));
        if carries_part_exec(&cells[i], p) {
            n = n + 1;
        }
        i = i + 1;
    }
    assert(cells@.take(i as int) =~= cells@);
    n
}

fn in_region_exec(c: [i64; 3], r: &ProtectedRegion) -> (inside: bool)
    ensures
        inside == in_region(c, *r),
{
    r.min[0] <= c[0] && c[0] <= r.max[0] && r.min[1] <= c[1] && c[1] <= r.max[1] && r.min[2] <= c[2] && c[2] <= r.max[2]
}

fn count_region(source: &Vec<KitCell>, r: &ProtectedRegion) -> (n: usize)
    ensures
        n == region_count(source@, *r),
{
    let mut n: usize = 0;
    let mut i: usize = 0;
    while i < source.len()
        invariant
            i <= source@.len(),
            n == region_count(source@.take(i as int), *r),
            n <= i,
        decreases source@.len() - i,
    {
        assert(source@.take(i + 1).drop_last() =~= source@.take(i as int));
        if in_region_exec(source[i].coordinate, r) {
            n = n + 1;
        }
        i = i + 1;
    }
    assert(source@.take(i as int) =~= source@);
    n
}

fn retains_exec(cell: &FusedVoxelCell, p: u32, source: &Vec<KitCell>, r: &ProtectedRegion) -> (kept: bool)
    ensures
        kept == retains(*cell, p as int, source@, *r),
{
    match &cell.origin {
        FusedVoxelOrigin::Canonical { part_id, source_voxel_index } => {
            *part_id == p && (*source_voxel_index as usize) < source.len() && in_region_exec(
                source[*source_voxel_index as usize].coordinate,
                r,
            )
        },
        _ => false,
    }
}

fn count_retained(cells: &Vec<FusedVoxelCell>, p: u32, source: &Vec<KitCell>, r: &ProtectedRegion) -> (n: usize)
    ensures
        n == retained_count(cells@, p as int, source@, *r),
{
    let mut n: usize = 0;
    let mut i: usize = 0;
    while i < cells.len()
        invariant
            i <= cells@.len(),
            n == retained_count(cells@.take(i as int), p as int, source@, *r),
            n <= i,
        decreases cells@.len() - i,
    {
        assert(cells@.take(i + 1).drop_last() =~= cells@.take(i as int));
        if retains_exec(&cells[i], p, source, r) {
            n = n + 1;
        }
        i = i + 1;
    }
    assert(cells@.take(i as int) =~= cells@);
    n
}

fn check_parts(kit: &FusionKit, cells: &Vec<FusedVoxelCell>) -> (result: Result<(), FusionError>)
    requires
        kit.parts@.len() <= u32::MAX,
    ensures
        result is Ok <==> parts_refusal_from(*kit, cells@, 0) is None,
        result matches Err(e) ==> parts_refusal_from(*kit, cells@, 0) matches Some(r) && refused(e, r),
{
    let mut p: usize = 0;
    while p < kit.parts.len()
        invariant
            p <= kit.parts@.len() <= u32::MAX,
            parts_refusal_from(*kit, cells@, 0) == parts_refusal_from(*kit, cells@, p as int),
        decreases kit.parts@.len() - p,
    {
        let part = &kit.parts[p];
        let n = count_part(cells, p as u32);
        if n == 0 {
            let mut message = String::from_str("part ");
            message.append(part.id.as_str());
            message.append(" has no canonical geometry in the frame");
            return Err(FusionError::new("fusion.missingRequiredRegion", message));
        }
        if names_contain_exec(&kit.protected_parts, &part.id) && n < part.cells.len() {
            let mut message = String::from_str("protected part ");
            message.append(part.id.as_str());
            message.append(" retained ");
            message.append(decimal_u64(n as u64).as_str());
            message.append(" cells from ");
            message.append(decimal_u64(part.cells.len() as u64).as_str());
            message.append(" canonical cells");
            return Err(FusionError::new("fusion.protectedRegionRemoved", message));
        }
        let mut k: usize = 0;
        while k < part.protected_regions.len()
            invariant
                p < kit.parts@.len() <= u32::MAX,
                part == &kit.parts@[p as int],
                k <= part.protected_regions@.len(),
                parts_refusal_from(*kit, cells@, 0) == parts_refusal_from(*kit, cells@, p as int),
                part_refusal(*kit, cells@, p as int) == region_refusal_from(cells@, p as int, *part, k as int),
            decreases part.protected_regions@.len() - k,
        {
            let r = &part.protected_regions[k];
            let kept = count_retained(cells, p as u32, &part.cells, r);
            let total = count_region(&part.cells, r);
            if kept < total {
                let mut message = String::from_str("part ");
                message.append(part.id.as_str());
                message.append(" protected region ");
                message.append(coord_string(r.min).as_str());
                message.append("..");
                message.append(coord_string(r.max).as_str());
                message.append(" retained ");
                message.append(decimal_u64(kept as u64).as_str());
                message.append(" cells from ");
                message.append(decimal_u64(total as u64).as_str());
                message.append(" canonical cells");
                return Err(FusionError::new("fusion.protectedRegionRemoved", message));
            }
            k = k + 1;
        }
        p = p + 1;
    }
    Ok(())
}


/// The volume refusal, when a range is declared and the volume leaves it.
pub open spec fn volume_refusal(range: Option<[u64; 2]>, volume: nat) -> Option<Refusal> {
    match range {
        Some(r) => if volume < r[0] || volume > r[1] {
            Some(
                (
                    "fusion.volumeOutOfRange",
                    "fused volume "@ + decimal_text(volume as int) + " is outside kit range ["@ + decimal_text(r[0] as int)
                        + ", "@ + decimal_text(r[1] as int) + "]"@,
                ),
            )
        } else {
            None
        },
        None => None,
    }
}

/// Refuse a frame whose cell count leaves the kit's volume range.
pub fn validate_volume(range: Option<[u64; 2]>, volume: usize) -> (result: Result<(), FusionError>)
    ensures
        result is Ok <==> volume_refusal(range, volume as nat) is None,
        result matches Err(e) ==> volume_refusal(range, volume as nat) matches Some(r) && refused(e, r),
{
    if let Some(r) = range {
        let v = volume as u64;
        if v < r[0] || v > r[1] {
            let mut message = String::from_str("fused volume ");
            message.append(decimal_u64(v).as_str());
            message.append(" is outside kit range [");
            message.append(decimal_u64(r[0]).as_str());
            message.append(", ");
            message.append(decimal_u64(r[1]).as_str());
            message.append("]");
            return Err(FusionError::new("fusion.volumeOutOfRange", message));
        }
    }
    Ok(())
}

/// The frame coordinates of part `p`'s canonical cells, in frame order.
pub open spec fn part_coordinates(cells: Seq<FusedVoxelCell>, p: int) -> Seq<[i64; 3]>
    decreases cells.len(),
{
    if cells.len() == 0 {
        seq![]
    } else {
        part_coordinates(cells.drop_last(), p) + if carries_part(cells.last(), p) {
            seq![cells.last().coordinate]
        } else {
            Seq::<[i64; 3]>::empty()
        }
    }
}

/// The two smallest of three extents, in ascending order.
pub open spec fn two_smallest(a: int, b: int, c: int) -> (int, int) {
    if a <= b && a <= c {
        if b <= c { (a, b) } else { (a, c) }
    } else if b <= a && b <= c {
        if a <= c { (b, a) } else { (b, c) }
    } else {
        if a <= b { (c, a) } else { (c, b) }
    }
}

/// What is wrong with limb part `p`'s cross-section, if anything.
pub open spec fn limb_refusal(kit: FusionKit, cells: Seq<FusedVoxelCell>, p: int) -> Option<Refusal> {
    let part = kit.parts@[p];
    if !part.limb {
        None
    } else {
        match spec_bounds(part_coordinates(cells, p)) {
            Some((lo, hi)) => {
                let e = two_smallest(hi[0] - lo[0] + 1, hi[1] - lo[1] + 1, hi[2] - lo[2] + 1);
                if e.0 < kit.min_limb_thickness || e.1 < kit.min_limb_thickness {
                    Some(
                        (
                            "fusion.minimumLimbThickness",
                            "limb "@ + part.id@ + " cross-section ["@ + decimal_text(e.0) + ", "@ + decimal_text(e.1)
                                + "] is below minimum "@ + decimal_text(kit.min_limb_thickness as int),
                        ),
                    )
                } else {
                    None
                }
            },
            None => None,
        }
    }
}

pub open spec fn limbs_refusal_from(kit: FusionKit, cells: Seq<FusedVoxelCell>, p: int) -> Option<Refusal>
    decreases kit.parts@.len() - p,
{
    if p < 0 || p >= kit.parts@.len() {
        None
    } else if limb_refusal(kit, cells, p) is Some {
        limb_refusal(kit, cells, p)
    } else {
        limbs_refusal_from(kit, cells, p + 1)
    }
}

/// Every cell lies within the runtime coordinate bounds.
pub open spec fn all_admitted(cells: Seq<FusedVoxelCell>) -> bool {
    forall|i: int| 0 <= i < cells.len() ==> coordinate_admitted(#[trigger] cells[i].coordinate)
}

pub(crate) fn part_coordinates_exec(cells: &Vec<FusedVoxelCell>, p: u32) -> (coords: Vec<[i64; 3]>)
    ensures
        coords@ == part_coordinates(cells@, p as int),
        forall|j: int| 0 <= j < coords@.len() ==> exists|i: int| 0 <= i < cells@.len() && #[trigger] coords@[j] == cells@[i].coordinate,
{
    let mut coords: Vec<[i64; 3]> = Vec::new();
    let mut i: usize = 0;
    while i < cells.len()
        invariant
            i <= cells@.len(),
            coords@ == part_coordinates(cells@.take(i as int), p as int),
            forall|j: int| 0 <= j < coords@.len() ==> exists|k: int| 0 <= k < i && #[trigger] coords@[j] == cells@[k].coordinate,
        decreases cells@.len() - i,
    {
        assert(cells@.take(i + 1).drop_last() =~= cells@.take(i as int));
        let ghost before = coords@;
        if carries_part_exec(&cells[i], p) {
            coords.push(cells[i].coordinate);
        }
        proof {
            assert(coords@ =~= part_coordinates(cells@.take(i + 1), p as int));
            assert forall|j: int| 0 <= j < coords@.len() implies exists|k: int| 0 <= k < i + 1 && #[trigger] coords@[j] == cells@[k].coordinate by {
                if j < before.len() {
                    assert(coords@[j] == before[j]);
                } else {
                    assert(coords@[j] == cells@[i as int].coordinate);
                }
            }
        }
        i = i + 1;
    }
    assert(cells@.take(i as int) =~= cells@);
    coords
}

proof fn lemma_bounds_admitted(s: Seq<[i64; 3]>)
    requires
        s.len() > 0,
        forall|j: int| 0 <= j < s.len() ==> coordinate_admitted(#[trigger] s[j]),
    ensures
        spec_bounds(s) matches Some((lo, hi)) && coordinate_admitted(lo) && coordinate_admitted(hi),
    decreases s.len(),
{
    if s.len() > 1 {
        lemma_bounds_admitted(s.drop_last());
        assert(coordinate_admitted(s.last()));
        let t = s.drop_last();
        assert(forall|j: int| 0 <= j < t.len() ==> coordinate_admitted(#[trigger] t[j])) by {
            assert forall|j: int| 0 <= j < t.len() implies coordinate_admitted(#[trigger] t[j]) by {
                assert(t[j] == s[j]);
            }
        }
    } else {
        assert(coordinate_admitted(s[0]));
    }
}

fn two_smallest_exec(a: i64, b: i64, c: i64) -> (e: (i64, i64))
    ensures
        e.0 == two_smallest(a as int, b as int, c as int).0,
        e.1 == two_smallest(a as int, b as int, c as int).1,
{
    if a <= b && a <= c {
        if b <= c { (a, b) } else { (a, c) }
    } else if b <= a && b <= c {
        if a <= c { (b, a) } else { (b, c) }
    } else {
        if a <= b { (c, a) } else { (c, b) }
    }
}

fn validate_limb_thickness(kit: &FusionKit, cells: &Vec<FusedVoxelCell>) -> (result: Result<(), FusionError>)
    requires
        kit.parts@.len() <= u32::MAX,
        all_admitted(cells@),
    ensures
        result is Ok <==> limbs_refusal_from(*kit, cells@, 0) is None,
        result matches Err(e) ==> limbs_refusal_from(*kit, cells@, 0) matches Some(r) && refused(e, r),
{
    let minimum = kit.min_limb_thickness as i64;
    let mut p: usize = 0;
    while p < kit.parts.len()
        invariant
            p <= kit.parts@.len() <= u32::MAX,
            all_admitted(cells@),
            minimum == kit.min_limb_thickness,
            limbs_refusal_from(*kit, cells@, 0) == limbs_refusal_from(*kit, cells@, p as int),
        decreases kit.parts@.len() - p,
    {
        let part = &kit.parts[p];
        if part.limb {
            let coords = part_coordinates_exec(cells, p as u32);
            if let Some((lo, hi)) = bounds_of(&coords) {
                proof {
                    assert forall|j: int| 0 <= j < coords@.len() implies coordinate_admitted(#[trigger] coords@[j]) by {
                        let i = choose|i: int| 0 <= i < cells@.len() && #[trigger] coords@[j] == cells@[i].coordinate;
                        assert(coordinate_admitted(cells@[i].coordinate));
                    }
                    lemma_bounds_admitted(coords@);
                }
                let e = two_smallest_exec(hi[0] - lo[0] + 1, hi[1] - lo[1] + 1, hi[2] - lo[2] + 1);
                if e.0 < minimum || e.1 < minimum {
                    let mut message = String::from_str("limb ");
                    message.append(part.id.as_str());
                    message.append(" cross-section [");
                    message.append(decimal_i64(e.0).as_str());
                    message.append(", ");
                    message.append(decimal_i64(e.1).as_str());
                    message.append("] is below minimum ");
                    message.append(decimal_i64(minimum).as_str());
                    return Err(FusionError::new("fusion.minimumLimbThickness", message));
                }
            }
        }
        p = p + 1;
    }
    Ok(())
}


/// The index of the first part named `id`.
pub open spec fn part_position_from(parts: Seq<FusionPart>, id: Seq<char>, k: int) -> Option<int>
    decreases parts.len() - k,
{
    if k < 0 || k >= parts.len() {
        None
    } else if parts[k].id@ == id {
        Some(k)
    } else {
        part_position_from(parts, id, k + 1)
    }
}

/// `c` is the coordinate of one of the source cells.
pub open spec fn from_source(c: [i64; 3], source: Seq<KitCell>) -> bool {
    exists|k: int| 0 <= k < source.len() && c == #[trigger] source[k].coordinate
}

/// The kit (source) coordinates of the part's canonical cells present in the
/// frame, in frame order.
pub open spec fn source_coordinates(cells: Seq<FusedVoxelCell>, p: int, source: Seq<KitCell>) -> Seq<[i64; 3]>
    decreases cells.len(),
{
    if cells.len() == 0 {
        seq![]
    } else {
        source_coordinates(cells.drop_last(), p, source) + match cells.last().origin {
            FusedVoxelOrigin::Canonical { part_id, source_voxel_index } => if part_id == p && source_voxel_index
                < source.len() {
                seq![source[source_voxel_index as int].coordinate]
            } else {
                Seq::<[i64; 3]>::empty()
            },
            _ => Seq::<[i64; 3]>::empty(),
        }
    }
}

pub open spec fn axis_index(name: Seq<char>) -> Option<int> {
    if name == "width"@ {
        Some(0)
    } else if name == "height"@ {
        Some(1)
    } else if name == "depth"@ {
        Some(2)
    } else {
        None
    }
}

/// What is wrong with one fixed dimension, if anything.
pub open spec fn dimension_refusal(kit: FusionKit, cells: Seq<FusedVoxelCell>, d: FixedDimension) -> Option<Refusal> {
    if d.subject@ == "character"@ {
        None
    } else {
        match part_position_from(kit.parts@, d.subject@, 0) {
            Some(p) => match spec_bounds(source_coordinates(cells, p, kit.parts@[p].cells@)) {
                Some((lo, hi)) => match axis_index(d.axis@) {
                    Some(a) => {
                        let extent = hi[a] - lo[a] + 1;
                        if extent < d.range[0] || extent > d.range[1] {
                            Some(
                                (
                                    "fusion.invalidWeaponDimension",
                                    d.subject@ + " "@ + d.axis@ + " extent "@ + decimal_text(extent) + " is outside ["@
                                        + decimal_text(d.range[0] as int) + ", "@ + decimal_text(d.range[1] as int) + "]"@,
                                ),
                            )
                        } else {
                            None
                        }
                    },
                    None => None,
                },
                None => None,
            },
            None => None,
        }
    }
}

pub open spec fn dimensions_refusal_from(kit: FusionKit, cells: Seq<FusedVoxelCell>, k: int) -> Option<Refusal>
    decreases kit.fixed_dimensions@.len() - k,
{
    if k < 0 || k >= kit.fixed_dimensions@.len() {
        None
    } else if dimension_refusal(kit, cells, kit.fixed_dimensions@[k]) is Some {
        dimension_refusal(kit, cells, kit.fixed_dimensions@[k])
    } else {
        dimensions_refusal_from(kit, cells, k + 1)
    }
}

/// A coordinate strictly inside half the i64 range on every axis.
pub open spec fn half_range(c: [i64; 3]) -> bool {
    &&& -0x4000_0000_0000_0000 < c[0] < 0x4000_0000_0000_0000
    &&& -0x4000_0000_0000_0000 < c[1] < 0x4000_0000_0000_0000
    &&& -0x4000_0000_0000_0000 < c[2] < 0x4000_0000_0000_0000
}

/// Every kit cell coordinate lies inside half the i64 range, so extents fit.
pub open spec fn kit_cells_in_half_range(kit: FusionKit) -> bool {
    forall|p: int, j: int| 0 <= p < kit.parts@.len() && 0 <= j < kit.parts@[p].cells@.len() ==> half_range(
        #[trigger] kit.parts@[p].cells@[j].coordinate,
    )
}

pub(crate) proof fn lemma_bounds_half_range(s: Seq<[i64; 3]>)
    requires
        s.len() > 0,
        forall|j: int| 0 <= j < s.len() ==> half_range(#[trigger] s[j]),
    ensures
        spec_bounds(s) matches Some((lo, hi)) && half_range(lo) && half_range(hi),
    decreases s.len(),
{
    if s.len() > 1 {
        let t = s.drop_last();
        assert forall|j: int| 0 <= j < t.len() implies half_range(#[trigger] t[j]) by {
            assert(t[j] == s[j]);
        }
        lemma_bounds_half_range(t);
        assert(half_range(s.last()));
    } else {
        assert(half_range(s[0]));
    }
}

fn part_position(parts: &Vec<FusionPart>, id: &String) -> (position: Option<usize>)
    ensures
        match position {
            Some(p) => part_position_from(parts@, id@, 0) == Some(p as int) && p < parts@.len(),
            None => part_position_from(parts@, id@, 0) is None,
        },
{
    let mut k: usize = 0;
    while k < parts.len()
        invariant
            k <= parts@.len(),
            part_position_from(parts@, id@, 0) == part_position_from(parts@, id@, k as int),
        decreases parts@.len() - k,
    {
        if parts[k].id == *id {
            return Some(k);
        }
        k = k + 1;
    }
    None
}

fn source_coordinates_exec(cells: &Vec<FusedVoxelCell>, p: u32, source: &Vec<KitCell>) -> (coords: Vec<[i64; 3]>)
    ensures
        coords@ == source_coordinates(cells@, p as int, source@),
        forall|j: int| 0 <= j < coords@.len() ==> #[trigger] from_source(coords@[j], source@),
{
    let mut coords: Vec<[i64; 3]> = Vec::new();
    let mut i: usize = 0;
    while i < cells.len()
        invariant
            i <= cells@.len(),
            coords@ == source_coordinates(cells@.take(i as int), p as int, source@),
            forall|j: int| 0 <= j < coords@.len() ==> #[trigger] from_source(coords@[j], source@),
        decreases cells@.len() - i,
    {
        assert(cells@.take(i + 1).drop_last() =~= cells@.take(i as int));
        let ghost before = coords@;
        match &cells[i].origin {
            FusedVoxelOrigin::Canonical { part_id, source_voxel_index } => {
                if *part_id == p && (*source_voxel_index as usize) < source.len() {
                    coords.push(source[*source_voxel_index as usize].coordinate);
                }
            },
            _ => {},
        }
        proof {
            assert(coords@ =~= source_coordinates(cells@.take(i + 1), p as int, source@));
            assert forall|j: int| 0 <= j < coords@.len() implies #[trigger] from_source(coords@[j], source@) by {
                if j < before.len() {
                    assert(coords@[j] == before[j]);
                    assert(from_source(before[j], source@));
                } else {
                    if let FusedVoxelOrigin::Canonical { part_id, source_voxel_index } = cells@[i as int].origin {
                        assert(coords@[j] == source@[source_voxel_index as int].coordinate);
                    }
                }
            }
        }
        i = i + 1;
    }
    assert(cells@.take(i as int) =~= cells@);
    coords
}

fn axis_index_exec(name: &str) -> (axis: Option<usize>)
    ensures
        match axis {
            Some(a) => axis_index(name@) == Some(a as int) && a < 3,
            None => axis_index(name@) is None,
        },
{
    if text_equals(name, "width") {
        Some(0)
    } else if text_equals(name, "height") {
        Some(1)
    } else if text_equals(name, "depth") {
        Some(2)
    } else {
        None
    }
}

fn validate_fixed_part_dimensions(kit: &FusionKit, cells: &Vec<FusedVoxelCell>) -> (result: Result<(), FusionError>)
    requires
        kit.parts@.len() <= u32::MAX,
        kit_cells_in_half_range(*kit),
    ensures
        result is Ok <==> dimensions_refusal_from(*kit, cells@, 0) is None,
        result matches Err(e) ==> dimensions_refusal_from(*kit, cells@, 0) matches Some(r) && refused(e, r),
{
    let mut k: usize = 0;
    while k < kit.fixed_dimensions.len()
        invariant
            k <= kit.fixed_dimensions@.len(),
            kit.parts@.len() <= u32::MAX,
            kit_cells_in_half_range(*kit),
            dimensions_refusal_from(*kit, cells@, 0) == dimensions_refusal_from(*kit, cells@, k as int),
        decreases kit.fixed_dimensions@.len() - k,
    {
        let d = &kit.fixed_dimensions[k];
        if !text_equals(d.subject.as_str(), "character") {
            if let Some(p) = part_position(&kit.parts, &d.subject) {
                let source = &kit.parts[p].cells;
                let coords = source_coordinates_exec(cells, p as u32, source);
                if let Some((lo, hi)) = bounds_of(&coords) {
                    if let Some(a) = axis_index_exec(d.axis.as_str()) {
                        proof {
                            assert forall|j: int| 0 <= j < coords@.len() implies half_range(#[trigger] coords@[j]) by {
                                assert(from_source(coords@[j], source@));
                                let i = choose|i: int| 0 <= i < source@.len() && coords@[j] == #[trigger] source@[i].coordinate;
                                assert(half_range(kit.parts@[p as int].cells@[i].coordinate));
                            }
                            lemma_bounds_half_range(coords@);
                        }
                        let extent = hi[a] - lo[a] + 1;
                        if extent < d.range[0] || extent > d.range[1] {
                            let mut message = String::from_str(d.subject.as_str());
                            message.append(" ");
                            message.append(d.axis.as_str());
                            message.append(" extent ");
                            message.append(decimal_i64(extent).as_str());
                            message.append(" is outside [");
                            message.append(decimal_i64(d.range[0]).as_str());
                            message.append(", ");
                            message.append(decimal_i64(d.range[1]).as_str());
                            message.append("]");
                            return Err(FusionError::new("fusion.invalidWeaponDimension", message));
                        }
                    }
                }
            }
        }
        k = k + 1;
    }
    Ok(())
}


/// The coordinates of the rough cells that still need fusion, in order.
pub open spec fn seam_of(voxels: Seq<AssembledVoxelCell>) -> Seq<[i64; 3]>
    decreases voxels.len(),
{
    if voxels.len() == 0 {
        seq![]
    } else {
        seam_of(voxels.drop_last()) + if voxels.last().needs_fusion {
            seq![voxels.last().coordinate]
        } else {
            Seq::<[i64; 3]>::empty()
        }
    }
}

/// The first generated cell, from `i` on, farther than four cells from
/// every seam cell.
pub open spec fn generated_refusal_from(seam: Seq<[i64; 3]>, cells: Seq<FusedVoxelCell>, i: int) -> Option<Refusal>
    decreases cells.len() - i,
{
    if i < 0 || i >= cells.len() {
        None
    } else if cells[i].origin is Generated && !seam_near(seam, cells[i].coordinate, 4) {
        Some(
            (
                "fusion.nonLocalCleanup",
                "generated cell "@ + coord_text(cells[i].coordinate) + " from "@ + origin_text(cells[i].origin)
                    + " is outside the four-cell joint seam envelope"@,
            ),
        )
    } else {
        generated_refusal_from(seam, cells, i + 1)
    }
}

fn seam_exec(voxels: &Vec<AssembledVoxelCell>) -> (seam: Vec<[i64; 3]>)
    ensures
        seam@ == seam_of(voxels@),
{
    let mut seam: Vec<[i64; 3]> = Vec::new();
    let mut i: usize = 0;
    while i < voxels.len()
        invariant
            i <= voxels@.len(),
            seam@ == seam_of(voxels@.take(i as int)),
        decreases voxels@.len() - i,
    {
        assert(voxels@.take(i + 1).drop_last() =~= voxels@.take(i as int));
        if voxels[i].needs_fusion {
            seam.push(voxels[i].coordinate);
        }
        assert(seam@ =~= seam_of(voxels@.take(i + 1)));
        i = i + 1;
    }
    assert(voxels@.take(i as int) =~= voxels@);
    seam
}

fn check_generated(seam: &Vec<[i64; 3]>, cells: &Vec<FusedVoxelCell>) -> (result: Result<(), FusionError>)
    ensures
        result is Ok <==> generated_refusal_from(seam@, cells@, 0) is None,
        result matches Err(e) ==> generated_refusal_from(seam@, cells@, 0) matches Some(r) && refused(e, r),
{
    let mut i: usize = 0;
    while i < cells.len()
        invariant
            i <= cells@.len(),
            generated_refusal_from(seam@, cells@, 0) == generated_refusal_from(seam@, cells@, i as int),
        decreases cells@.len() - i,
    {
        let cell = &cells[i];
        let generated = match &cell.origin {
            FusedVoxelOrigin::Generated { .. } => true,
            _ => false,
        };
        if generated && !crate::fusion::near_seam(cell.coordinate, seam, 4) {
            let mut message = String::from_str("generated cell ");
            message.append(coord_string(cell.coordinate).as_str());
            message.append(" from ");
            message.append(origin_string(&cell.origin).as_str());
            message.append(" is outside the four-cell joint seam envelope");
            return Err(FusionError::new("fusion.nonLocalCleanup", message));
        }
        i = i + 1;
    }
    Ok(())
}

/// The occupied coordinates of the cells, sorted and without repeats.
pub(crate) fn occupied_of(cells: &Vec<FusedVoxelCell>) -> (occupied: Vec<[i64; 3]>)
    ensures
        sorted_by_loc(occupied@),
        listed(occupied@) == listed(cell_coordinates(cells@)),
{
    let mut occupied: Vec<[i64; 3]> = Vec::new();
    let mut i: usize = 0;
    while i < cells.len()
        invariant
            i <= cells@.len(),
            sorted_by_loc(occupied@),
            listed(occupied@) == listed(cell_coordinates(cells@.take(i as int))),
        decreases cells@.len() - i,
    {
        let c = cells[i].coordinate;
        let ghost before = occupied@;
        if !contains(&occupied, c) {
            insert_absent(&mut occupied, c);
        }
        proof {
            assert forall|d: [i64; 3]| #[trigger] listed(occupied@).contains(d) == listed(cell_coordinates(cells@.take(i + 1))).contains(d) by {
                lemma_listed_occupies(occupied@, d);
                lemma_listed_occupies(before, d);
                let now = cell_coordinates(cells@.take(i + 1));
                let was = cell_coordinates(cells@.take(i as int));
                assert(now =~= was.push(c));
                crate::cellstore::lemma_listed_push(was, c);
            }
            assert(listed(occupied@) =~= listed(cell_coordinates(cells@.take(i + 1))));
        }
        i = i + 1;
    }
    assert(cells@.take(i as int) =~= cells@);
    occupied
}

/// The lowest occupied y, or `i64::MAX` for an empty frame.
pub open spec fn frame_min_y(cells: Seq<FusedVoxelCell>) -> i64 {
    match spec_bounds(cell_coordinates(cells)) {
        Some((lo, _)) => lo[1],
        None => i64::MAX,
    }
}

/// The first hard gate a fused frame fails, in the order they are checked;
/// `sockets` is the outcome of the required-socket neighbourhood check.
pub open spec fn structural_refusal(
    kit: FusionKit,
    rough: RoughFrame,
    frame: FusedFrame,
    settings: FusionSettings,
    sockets: Option<Refusal>,
) -> Option<Refusal> {
    let cells = frame.voxels@;
    let count = components(listed(cell_coordinates(cells))).len();
    if cells_refusal_from(kit.palette_slots@, cells, 0) is Some {
        cells_refusal_from(kit.palette_slots@, cells, 0)
    } else if parts_refusal_from(kit, cells, 0) is Some {
        parts_refusal_from(kit, cells, 0)
    } else if count != 1 {
        Some(("fusion.requiredGeometryDisconnected", "fused frame has "@ + decimal_text(count as int) + " face-connected components"@))
    } else if frame_min_y(cells) != kit.ground_y {
        Some(
            (
                "fusion.invalidGroundPlane",
                "fused frame min y "@ + decimal_text(frame_min_y(cells) as int) + " does not equal ground y "@ + decimal_text(
                    kit.ground_y as int,
                ),
            ),
        )
    } else if sockets is Some {
        sockets
    } else if volume_refusal(kit.volume_range, cells.len()) is Some {
        volume_refusal(kit.volume_range, cells.len())
    } else if settings.enforce_minimum_limb_thickness && limbs_refusal_from(kit, cells, 0) is Some {
        limbs_refusal_from(kit, cells, 0)
    } else if settings.normalize_weapon_dimensions && dimensions_refusal_from(kit, cells, 0) is Some {
        dimensions_refusal_from(kit, cells, 0)
    } else {
        generated_refusal_from(seam_of(rough.voxels@), cells, 0)
    }
}

pub open spec fn outcome_refusal(outcome: Result<(), FusionError>) -> Option<Refusal> {
    match outcome {
        Ok(()) => None,
        Err(e) => Some((e.spec_code(), e.spec_message())),
    }
}

proof fn lemma_cells_admitted(palette: Seq<u16>, cells: Seq<FusedVoxelCell>, i: int)
    requires
        0 <= i <= cells.len(),
        cells_refusal_from(palette, cells, i) is None,
    ensures
        forall|j: int| i <= j < cells.len() ==> coordinate_admitted(#[trigger] cells[j].coordinate),
    decreases cells.len() - i,
{
    if i < cells.len() {
        lemma_cells_admitted(palette, cells, i + 1);
    }
}

/// Admit a fused frame, or name the first hard gate it fails.
/// `required_sockets` is the outcome of checking that every required socket
/// has an occupied neighbourhood at its placed position.
pub fn validate_structural_frame(
    kit: &FusionKit,
    rough: &RoughFrame,
    frame: &FusedFrame,
    settings: FusionSettings,
    required_sockets: Result<(), FusionError>,
) -> (result: Result<(), FusionError>)
    requires
        kit.parts@.len() <= u32::MAX,
        kit_cells_in_half_range(*kit),
    ensures
        ({
            let refusal = structural_refusal(*kit, *rough, *frame, settings, outcome_refusal(required_sockets));
            &&& result is Ok <==> refusal is None
            &&& result matches Err(e) ==> refusal matches Some(r) && refused(e, r)
        }),
{
    let cells = &frame.voxels;
    match check_cells(&kit.palette_slots, cells) {
        Ok(()) => {},
        Err(e) => {
            return Err(e);
        },
    }
    match check_parts(kit, cells) {
        Ok(()) => {},
        Err(e) => {
            return Err(e);
        },
    }
    let occupied = occupied_of(cells);
    let count = connected_components(&occupied);
    if count != 1 {
        let mut message = String::from_str("fused frame has ");
        message.append(decimal_u64(count as u64).as_str());
        message.append(" face-connected components");
        return Err(FusionError::new("fusion.requiredGeometryDisconnected", message));
    }
    let coordinates = crate::repair::coordinates_of(cells);
    let min_y = match bounds_of(&coordinates) {
        Some((lo, _)) => lo[1],
        None => i64::MAX,
    };
    if min_y != kit.ground_y {
        let mut message = String::from_str("fused frame min y ");
        message.append(decimal_i64(min_y).as_str());
        message.append(" does not equal ground y ");
        message.append(decimal_i64(kit.ground_y).as_str());
        return Err(FusionError::new("fusion.invalidGroundPlane", message));
    }
    match required_sockets {
        Ok(()) => {},
        Err(e) => {
            return Err(e);
        },
    }
    match validate_volume(kit.volume_range, cells.len()) {
        Ok(()) => {},
        Err(e) => {
            return Err(e);
        },
    }
    proof {
        lemma_cells_admitted(kit.palette_slots@, cells@, 0);
    }
    if settings.enforce_minimum_limb_thickness {
        match validate_limb_thickness(kit, cells) {
            Ok(()) => {},
            Err(e) => {
                return Err(e);
            },
        }
    }
    if settings.normalize_weapon_dimensions {
        match validate_fixed_part_dimensions(kit, cells) {
            Ok(()) => {},
            Err(e) => {
                return Err(e);
            },
        }
    }
    let seam = seam_exec(&rough.voxels);
    check_generated(&seam, cells)
}

} // verus!
