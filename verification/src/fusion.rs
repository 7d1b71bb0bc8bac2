//! Deterministic joint-fusion vocabulary and the integer cleanup passes that
//! act on a fused frame's cells.

use vstd::prelude::*;
use vstd::string::StringExecFns;

use crate::cellmap::{
    contains, get_at, insert_absent, located_map, occupies, remove_at, sorted_by_loc, Located,
};
use crate::text::{decimal_text, decimal_u64};
use crate::voxel::{
    abs_diff, chebyshev, chebyshev_distance, manhattan, checked_add_coord, coord_lt, face_offset,
    face_offset_exec, greedy_axis, greedy_path, lemma_coord_eq, manhattan_distance, spec_add,
    spec_bounds, step_toward,
};

verus! {

/// Configurable deterministic cleanup policy.
#[derive(Debug, Clone, Copy, PartialEq, Eq, Structural)]
pub struct FusionSettings {
    pub fill_one_voxel_cavities: bool,
    pub remove_isolated_generated_voxels: bool,
    pub bridge_one_voxel_gaps: bool,
    pub enforce_minimum_limb_thickness: bool,
    pub restore_ground_contact: bool,
    pub normalize_weapon_dimensions: bool,
    /// Maximum Manhattan distance admitted for one socket bridge.
    pub max_socket_bridge_length: u32,
    /// Aggregate generated-cell quota, checked before publication.
    pub max_generated_voxels: usize,
}

impl Default for FusionSettings {
    fn default() -> (settings: Self)
        ensures
            settings == (FusionSettings {
                fill_one_voxel_cavities: true,
                remove_isolated_generated_voxels: true,
                bridge_one_voxel_gaps: true,
                enforce_minimum_limb_thickness: true,
                restore_ground_contact: true,
                normalize_weapon_dimensions: true,
                max_socket_bridge_length: 64,
                max_generated_voxels: 8192,
            }),
    {
        FusionSettings {
            fill_one_voxel_cavities: true,
            remove_isolated_generated_voxels: true,
            bridge_one_voxel_gaps: true,
            enforce_minimum_limb_thickness: true,
            restore_ground_contact: true,
            normalize_weapon_dimensions: true,
            max_socket_bridge_length: 64,
            max_generated_voxels: 8192,
        }
    }
}

/// The fixed codes a fusion or structural refusal carries.
pub open spec fn fusion_code(c: Seq<char>) -> bool {
    c == "fusion.coordinateOverflow"@
        || c == "fusion.missingAnchor"@
        || c == "fusion.poseMismatch"@
        || c == "fusion.overlapLedgerMismatch"@
        || c == "fusion.duplicateCoordinate"@
        || c == "fusion.generatedVoxelQuotaExceeded"@
        || c == "fusion.invalidGroundPlane"@
        || c == "fusion.invalidPalette"@
        || c == "fusion.invalidProvenance"@
        || c == "fusion.invalidSettings"@
        || c == "fusion.invalidWeaponDimension"@
        || c == "fusion.minimumLimbThickness"@
        || c == "fusion.missingRequiredRegion"@
        || c == "fusion.nonLocalCleanup"@
        || c == "fusion.protectedRegionRemoved"@
        || c == "fusion.requiredGeometryDisconnected"@
        || c == "fusion.runtimeBoundsExceeded"@
        || c == "fusion.volumeOutOfRange"@
}

/// Every FusionError code begins with `fusion.`.
pub proof fn law_fusion_codes_are_namespaced(c: Seq<char>)
    requires
        fusion_code(c),
    ensures
        crate::text::starts_with(c, "fusion."@),
{
    reveal_strlit("fusion.");
    reveal_strlit("fusion.coordinateOverflow");
    reveal_strlit("fusion.missingAnchor");
    assert(c == "fusion.missingAnchor"@ ==> c.subrange(0, 7) =~= "fusion."@);
    reveal_strlit("fusion.poseMismatch");
    reveal_strlit("fusion.overlapLedgerMismatch");
    assert(c == "fusion.poseMismatch"@ ==> c.subrange(0, 7) =~= "fusion."@);
    assert(c == "fusion.overlapLedgerMismatch"@ ==> c.subrange(0, 7) =~= "fusion."@);
    reveal_strlit("fusion.duplicateCoordinate");
    reveal_strlit("fusion.generatedVoxelQuotaExceeded");
    reveal_strlit("fusion.invalidGroundPlane");
    reveal_strlit("fusion.invalidPalette");
    reveal_strlit("fusion.invalidProvenance");
    reveal_strlit("fusion.invalidSettings");
    reveal_strlit("fusion.invalidWeaponDimension");
    reveal_strlit("fusion.minimumLimbThickness");
    reveal_strlit("fusion.missingRequiredRegion");
    reveal_strlit("fusion.nonLocalCleanup");
    reveal_strlit("fusion.protectedRegionRemoved");
    reveal_strlit("fusion.requiredGeometryDisconnected");
    reveal_strlit("fusion.runtimeBoundsExceeded");
    reveal_strlit("fusion.volumeOutOfRange");
    assert(c == "fusion.coordinateOverflow"@ ==> c.subrange(0, 7) =~= "fusion."@);
    assert(c == "fusion.duplicateCoordinate"@ ==> c.subrange(0, 7) =~= "fusion."@);
    assert(c == "fusion.generatedVoxelQuotaExceeded"@ ==> c.subrange(0, 7) =~= "fusion."@);
    assert(c == "fusion.invalidGroundPlane"@ ==> c.subrange(0, 7) =~= "fusion."@);
    assert(c == "fusion.invalidPalette"@ ==> c.subrange(0, 7) =~= "fusion."@);
    assert(c == "fusion.invalidProvenance"@ ==> c.subrange(0, 7) =~= "fusion."@);
    assert(c == "fusion.invalidSettings"@ ==> c.subrange(0, 7) =~= "fusion."@);
    assert(c == "fusion.invalidWeaponDimension"@ ==> c.subrange(0, 7) =~= "fusion."@);
    assert(c == "fusion.minimumLimbThickness"@ ==> c.subrange(0, 7) =~= "fusion."@);
    assert(c == "fusion.missingRequiredRegion"@ ==> c.subrange(0, 7) =~= "fusion."@);
    assert(c == "fusion.nonLocalCleanup"@ ==> c.subrange(0, 7) =~= "fusion."@);
    assert(c == "fusion.protectedRegionRemoved"@ ==> c.subrange(0, 7) =~= "fusion."@);
    assert(c == "fusion.requiredGeometryDisconnected"@ ==> c.subrange(0, 7) =~= "fusion."@);
    assert(c == "fusion.runtimeBoundsExceeded"@ ==> c.subrange(0, 7) =~= "fusion."@);
    assert(c == "fusion.volumeOutOfRange"@ ==> c.subrange(0, 7) =~= "fusion."@);
}

/// Typed, machine-readable fusion or structural-admission failure.
#[derive(Debug, PartialEq, Eq)]
pub struct FusionError {
    code: &'static str,
    message: String,
}

impl FusionError {
    #[verifier::type_invariant]
    spec fn well_coded(self) -> bool {
        fusion_code(self.code@)
    }

    pub closed spec fn spec_code(&self) -> &'static str {
        self.code
    }

    pub closed spec fn spec_message(&self) -> Seq<char> {
        self.message@
    }

    pub(crate) fn new(code: &'static str, message: String) -> (error: Self)
        requires
            fusion_code(code@),
        ensures
            error.spec_code() == code,
            error.spec_message() == message@,
    {
        FusionError { code, message }
    }

    pub fn code(&self) -> (code: &'static str)
        ensures
            code == self.spec_code(),
            fusion_code(code@),
    {
        proof {
            use_type_invariant(self);
        }
        self.code
    }

    /// Human-readable `code: message` text.
    pub fn to_text(&self) -> (text: String)
        ensures
            text@ == self.spec_code()@ + ": "@ + self.spec_message(),
    {
        let mut text = String::from_str(self.code);
        text.append(": ");
        text.append(self.message.as_str());
        text
    }
}

impl FusionSettings {
    /// The settings admitted by `validate`.
    pub open spec fn valid(self) -> bool {
        1 <= self.max_socket_bridge_length <= 256 && 1 <= self.max_generated_voxels <= 1_000_000
    }

    pub fn validate(self) -> (result: Result<(), FusionError>)
        ensures
            result is Ok <==> self.valid(),
            result matches Err(e) ==> e.spec_code() == "fusion.invalidSettings",
            result matches Err(e) ==> !(1 <= self.max_socket_bridge_length <= 256) ==> e.spec_message()
                == "maxSocketBridgeLength must be within 1..=256, got "@ + decimal_text(
                self.max_socket_bridge_length as int,
            ),
            result matches Err(e) ==> (1 <= self.max_socket_bridge_length <= 256) ==> e.spec_message()
                == "maxGeneratedVoxels must be within 1..=1000000, got "@ + decimal_text(
                self.max_generated_voxels as int,
            ),
    {
        if self.max_socket_bridge_length == 0 || self.max_socket_bridge_length > 256 {
            let mut message = String::from_str("maxSocketBridgeLength must be within 1..=256, got ");
            message.append(decimal_u64(self.max_socket_bridge_length as u64).as_str());
            return Err(FusionError::new("fusion.invalidSettings", message));
        }
        if self.max_generated_voxels == 0 || self.max_generated_voxels > 1_000_000 {
            let mut message = String::from_str("maxGeneratedVoxels must be within 1..=1000000, got ");
            message.append(decimal_u64(self.max_generated_voxels as u64).as_str());
            return Err(FusionError::new("fusion.invalidSettings", message));
        }
        Ok(())
    }
}

/// Named cleanup operations suitable for diagnostics and later edit bundles.
#[derive(Debug, Clone, Copy, PartialEq, Eq, PartialOrd, Ord, Structural)]
pub enum CleanupOperation {
    FillOneVoxelCavity,
    RemoveIsolatedGeneratedVoxel,
    BridgeOneVoxelGap,
    EnforceMinimumLimbThickness,
    TrimDeepInterpenetration,
    RepairSocketNeighborhood,
    RestoreGroundContact,
    NormalizeWeaponThickness,
}

/// Provenance for a synthetic cell.
#[derive(Debug, Clone, PartialEq, Eq)]
pub enum GeneratedOperation {
    JointBridge { joint_id: String },
    Cleanup { operation: CleanupOperation },
}

/// Closed provenance for every fused cell.
#[derive(Debug, Clone, PartialEq, Eq)]
pub enum FusedVoxelOrigin {
    Canonical { part_id: u32, source_voxel_index: u32 },
    Generated { operation: GeneratedOperation },
    AuthoredEdit { operation_index: u32 },
}

/// One occupied cell of a fused frame.
#[derive(Debug, Clone, PartialEq, Eq)]
pub struct FusedVoxelCell {
    pub coordinate: [i64; 3],
    pub material_slot: u16,
    pub origin: FusedVoxelOrigin,
    /// Cleanup operations that modified this occupied cell after its origin
    /// was established.
    pub operations: Vec<CleanupOperation>,
}

/// The mathematical content of a fused cell.
pub struct FusedCellView {
    pub coordinate: [i64; 3],
    pub material_slot: u16,
    pub origin: FusedVoxelOrigin,
    pub operations: Seq<CleanupOperation>,
}

impl View for FusedVoxelCell {
    type V = FusedCellView;

    open spec fn view(&self) -> FusedCellView {
        FusedCellView {
            coordinate: self.coordinate,
            material_slot: self.material_slot,
            origin: self.origin,
            operations: self.operations@,
        }
    }
}

impl Located for FusedVoxelCell {
    open spec fn loc(&self) -> [i64; 3] {
        self.coordinate
    }

    fn location(&self) -> (c: [i64; 3]) {
        self.coordinate
    }
}

impl Located for [i64; 3] {
    open spec fn loc(&self) -> [i64; 3] {
        *self
    }

    fn location(&self) -> (c: [i64; 3]) {
        *self
    }
}

/// An exact copy of a list of cleanup operations.
pub fn copy_operations(operations: &Vec<CleanupOperation>) -> (copy: Vec<CleanupOperation>)
    ensures
        copy@ == operations@,
{
    let mut copy: Vec<CleanupOperation> = Vec::new();
    let mut i: usize = 0;
    while i < operations.len()
        invariant
            i <= operations@.len(),
            copy@ == operations@.take(i as int),
        decreases operations@.len() - i,
    {
        copy.push(operations[i]);
        proof {
            assert(operations@.take(i + 1) =~= operations@.take(i as int).push(operations@[i as int]));
        }
        i = i + 1;
    }
    assert(operations@.take(operations@.len() as int) =~= operations@);
    copy
}

/// An exact copy of a provenance record.
pub fn copy_origin(origin: &FusedVoxelOrigin) -> (copy: FusedVoxelOrigin)
    ensures
        copy == *origin,
{
    match origin {
        FusedVoxelOrigin::Canonical { part_id, source_voxel_index } => FusedVoxelOrigin::Canonical {
            part_id: *part_id,
            source_voxel_index: *source_voxel_index,
        },
        FusedVoxelOrigin::Generated { operation } => match operation {
            GeneratedOperation::JointBridge { joint_id } => FusedVoxelOrigin::Generated {
                operation: GeneratedOperation::JointBridge { joint_id: joint_id.clone() },
            },
            GeneratedOperation::Cleanup { operation } => FusedVoxelOrigin::Generated {
                operation: GeneratedOperation::Cleanup { operation: *operation },
            },
        },
        FusedVoxelOrigin::AuthoredEdit { operation_index } => FusedVoxelOrigin::AuthoredEdit {
            operation_index: *operation_index,
        },
    }
}

/// An exact copy of a fused cell.
pub fn copy_cell(cell: &FusedVoxelCell) -> (copy: FusedVoxelCell)
    ensures
        copy@ == cell@,
{
    FusedVoxelCell {
        coordinate: cell.coordinate,
        material_slot: cell.material_slot,
        origin: copy_origin(&cell.origin),
        operations: copy_operations(&cell.operations),
    }
}

/// One canonical voxel that lost an overlap to an earlier part.
#[derive(Debug, Clone, Copy, PartialEq, Eq)]
pub struct DiscardedVoxelOrigin {
    pub coordinate: [i64; 3],
    pub part_id: u32,
    pub source_voxel_index: u32,
    pub material_slot: u16,
    pub winner_part_id: u32,
    pub winner_source_voxel_index: u32,
}

/// Structurally valid first-pass frame.
#[derive(Debug, Clone, PartialEq, Eq)]
pub struct FusedFrame {
    pub time_microseconds: u64,
    pub duration_microseconds: u64,
    pub voxels: Vec<FusedVoxelCell>,
    pub discarded_origins: Vec<DiscardedVoxelOrigin>,
    pub generated_voxels: usize,
    /// Ordered pass ledger, including no-op validation/enforcement passes.
    pub applied_operations: Vec<CleanupOperation>,
}

/// The coordinates of a list of cells, in order.
pub open spec fn cell_coordinates(cells: Seq<FusedVoxelCell>) -> Seq<[i64; 3]> {
    Seq::new(cells.len(), |i: int| cells[i].coordinate)
}

pub open spec fn is_generated(cell: FusedVoxelCell) -> bool {
    cell.origin is Generated
}

impl FusedFrame {
    /// Inclusive bounds of the occupied coordinates.
    pub fn bounds(&self) -> (b: Option<([i64; 3], [i64; 3])>)
        ensures
            b == spec_bounds(cell_coordinates(self.voxels@)),
    {
        let mut coordinates: Vec<[i64; 3]> = Vec::new();
        let mut i: usize = 0;
        while i < self.voxels.len()
            invariant
                i <= self.voxels@.len(),
                coordinates@ == cell_coordinates(self.voxels@.take(i as int)),
            decreases self.voxels@.len() - i,
        {
            coordinates.push(self.voxels[i].coordinate);
            proof {
                assert(cell_coordinates(self.voxels@.take(i + 1)) =~= cell_coordinates(self.voxels@.take(i as int)).push(self.voxels@[i as int].coordinate));
            }
            i = i + 1;
        }
        assert(self.voxels@.take(self.voxels@.len() as int) =~= self.voxels@);
        crate::voxel::bounds_of(&coordinates)
    }

    /// The set of coordinates holding generated cells, in ascending order.
    pub fn generated_coordinates(&self) -> (set: Vec<[i64; 3]>)
        ensures
            sorted_by_loc(set@),
            forall|c: [i64; 3]| #[trigger] occupies(set@, c) <==> exists|i: int|
                0 <= i < self.voxels@.len() && #[trigger] self.voxels@[i].coordinate == c
                    && is_generated(self.voxels@[i]),
    {
        let mut set: Vec<[i64; 3]> = Vec::new();
        let mut i: usize = 0;
        while i < self.voxels.len()
            invariant
                i <= self.voxels@.len(),
                sorted_by_loc(set@),
                forall|c: [i64; 3]| #[trigger] occupies(set@, c) <==> exists|j: int|
                    0 <= j < i && #[trigger] self.voxels@[j].coordinate == c && is_generated(self.voxels@[j]),
            decreases self.voxels@.len() - i,
        {
            let cell = &self.voxels[i];
            let generated = match &cell.origin {
                FusedVoxelOrigin::Generated { .. } => true,
                _ => false,
            };
            let ghost before = set@;
            if generated && !contains(&set, cell.coordinate) {
                insert_absent(&mut set, cell.coordinate);
                proof {
                    assert forall|c: [i64; 3]| #[trigger] occupies(set@, c) == (occupies(before, c) || c == cell.coordinate) by {
                        assert(located_map(set@).contains_key(c) == occupies(set@, c));
                        assert(located_map(before).contains_key(c) == occupies(before, c));
                    }
                }
            }
            proof {
                assert forall|c: [i64; 3]| #[trigger] occupies(set@, c) <==> exists|j: int|
                    0 <= j < i + 1 && #[trigger] self.voxels@[j].coordinate == c && is_generated(self.voxels@[j]) by {
                    if occupies(set@, c) && !occupies(before, c) {
                        assert(self.voxels@[i as int].coordinate == c);
                    }
                    if exists|j: int| 0 <= j < i + 1 && #[trigger] self.voxels@[j].coordinate == c && is_generated(self.voxels@[j]) {
                        let j = choose|j: int| 0 <= j < i + 1 && #[trigger] self.voxels@[j].coordinate == c && is_generated(self.voxels@[j]);
                        if j == i {
                            if !occupies(before, c) {
                                assert(occupies(set@, c));
                            }
                        }
                    }
                }
            }
            i = i + 1;
        }
        set
    }
}

/// The pass ledger recorded for a fusion run.
pub open spec fn spec_applied_operations(settings: FusionSettings, resolved_interpenetration: bool) -> Seq<CleanupOperation> {
    let s0 = seq![CleanupOperation::RepairSocketNeighborhood];
    let s1 = if resolved_interpenetration { s0.push(CleanupOperation::TrimDeepInterpenetration) } else { s0 };
    let s2 = if settings.bridge_one_voxel_gaps { s1.push(CleanupOperation::BridgeOneVoxelGap) } else { s1 };
    let s3 = if settings.fill_one_voxel_cavities { s2.push(CleanupOperation::FillOneVoxelCavity) } else { s2 };
    let s4 = if settings.enforce_minimum_limb_thickness { s3.push(CleanupOperation::EnforceMinimumLimbThickness) } else { s3 };
    let s5 = if settings.restore_ground_contact { s4.push(CleanupOperation::RestoreGroundContact) } else { s4 };
    let s6 = if settings.remove_isolated_generated_voxels { s5.push(CleanupOperation::RemoveIsolatedGeneratedVoxel) } else { s5 };
    if settings.normalize_weapon_dimensions { s6.push(CleanupOperation::NormalizeWeaponThickness) } else { s6 }
}

/// The ordered ledger of passes that a fusion run with these settings applies.
pub fn applied_operations(settings: FusionSettings, resolved_interpenetration: bool) -> (operations: Vec<CleanupOperation>)
    ensures
        operations@ == spec_applied_operations(settings, resolved_interpenetration),
{
    let mut operations = vec![CleanupOperation::RepairSocketNeighborhood];
    if resolved_interpenetration {
        operations.push(CleanupOperation::TrimDeepInterpenetration);
    }
    if settings.bridge_one_voxel_gaps {
        operations.push(CleanupOperation::BridgeOneVoxelGap);
    }
    if settings.fill_one_voxel_cavities {
        operations.push(CleanupOperation::FillOneVoxelCavity);
    }
    if settings.enforce_minimum_limb_thickness {
        operations.push(CleanupOperation::EnforceMinimumLimbThickness);
    }
    if settings.restore_ground_contact {
        operations.push(CleanupOperation::RestoreGroundContact);
    }
    if settings.remove_isolated_generated_voxels {
        operations.push(CleanupOperation::RemoveIsolatedGeneratedVoxel);
    }
    if settings.normalize_weapon_dimensions {
        operations.push(CleanupOperation::NormalizeWeaponThickness);
    }
    proof {
        assert(operations@ =~= spec_applied_operations(settings, resolved_interpenetration));
    }
    operations
}


/// The cells keyed by coordinate.
pub open spec fn cells_view(cells: Seq<FusedVoxelCell>) -> Map<[i64; 3], FusedCellView> {
    located_map(cells).map_values(|cell: FusedVoxelCell| cell@)
}

/// The cleanup operations recorded on a newly generated cell.
pub open spec fn generated_ledger(operation: GeneratedOperation) -> Seq<CleanupOperation> {
    match operation {
        GeneratedOperation::JointBridge { .. } => seq![CleanupOperation::RepairSocketNeighborhood],
        GeneratedOperation::Cleanup { operation } => seq![operation],
    }
}

/// A generated cell as inserted by a cleanup or bridge pass.
pub open spec fn generated_cell(coordinate: [i64; 3], material_slot: u16, operation: GeneratedOperation) -> FusedCellView {
    FusedCellView {
        coordinate,
        material_slot,
        origin: FusedVoxelOrigin::Generated { operation },
        operations: generated_ledger(operation),
    }
}

/// Insert a generated cell unless the coordinate is occupied; fails when the
/// frame already holds `maximum_total_cells` cells.
pub fn insert_generated(
    cells: &mut Vec<FusedVoxelCell>,
    coordinate: [i64; 3],
    material_slot: u16,
    operation: GeneratedOperation,
    maximum_total_cells: usize,
) -> (result: Result<(), FusionError>)
    requires
        sorted_by_loc(old(cells)@),
    ensures
        sorted_by_loc(final(cells)@),
        cells_view(old(cells)@).contains_key(coordinate) ==> result is Ok && final(cells)@ == old(cells)@,
        !cells_view(old(cells)@).contains_key(coordinate) && old(cells)@.len() >= maximum_total_cells
            ==> result is Err && final(cells)@ == old(cells)@ && result->Err_0.spec_code()
            == "fusion.generatedVoxelQuotaExceeded" && result->Err_0.spec_message()
            == "candidate cell cap "@ + decimal_text(maximum_total_cells as int) + " would be exceeded"@,
        !cells_view(old(cells)@).contains_key(coordinate) && old(cells)@.len() < maximum_total_cells
            ==> result is Ok && cells_view(final(cells)@) == cells_view(old(cells)@).insert(
            coordinate,
            generated_cell(coordinate, material_slot, operation),
        ) && final(cells)@.len() == old(cells)@.len() + 1,
{
    if contains(cells, coordinate) {
        return Ok(());
    }
    if cells.len() >= maximum_total_cells {
        let mut message = String::from_str("candidate cell cap ");
        message.append(decimal_u64(maximum_total_cells as u64).as_str());
        message.append(" would be exceeded");
        return Err(FusionError::new("fusion.generatedVoxelQuotaExceeded", message));
    }
    let operations = match &operation {
        GeneratedOperation::JointBridge { .. } => {
            let v = vec![CleanupOperation::RepairSocketNeighborhood];
            assert(v@ =~= generated_ledger(operation));
            v
        },
        GeneratedOperation::Cleanup { operation: op } => {
            let v = vec![*op];
            assert(v@ =~= generated_ledger(operation));
            v
        },
    };
    let cell = FusedVoxelCell {
        coordinate,
        material_slot,
        origin: FusedVoxelOrigin::Generated { operation },
        operations,
    };
    assert(cell@ == generated_cell(coordinate, material_slot, operation));
    insert_absent(cells, cell);
    proof {
        assert(cells_view(cells@) =~= cells_view(old(cells)@).insert(coordinate, cell@));
    }
    Ok(())
}

/// Order in which face neighbors are compared for the lowest coordinate:
/// -x, -y, -z, +z, +y, +x.
pub open spec fn neighbor_rank(r: int) -> int {
    if r == 0 { 0 } else if r == 1 { 2 } else if r == 2 { 4 } else if r == 3 { 5 } else if r == 4 { 3 } else { 1 }
}

pub open spec fn neighbor_present(m: Map<[i64; 3], FusedCellView>, c: [i64; 3], k: int) -> bool {
    spec_add(c, face_offset(k)) matches Some(n) && m.contains_key(n)
}

/// Material of the occupied face neighbor with the lowest coordinate, if any.
pub open spec fn neighboring_material_from(m: Map<[i64; 3], FusedCellView>, c: [i64; 3], r: int) -> Option<u16>
    decreases 6 - r,
{
    if r >= 6 || r < 0 {
        None
    } else if neighbor_present(m, c, neighbor_rank(r)) {
        Some(m[spec_add(c, face_offset(neighbor_rank(r))).unwrap()].material_slot)
    } else {
        neighboring_material_from(m, c, r + 1)
    }
}

pub open spec fn spec_neighboring_material(m: Map<[i64; 3], FusedCellView>, c: [i64; 3]) -> Option<u16> {
    neighboring_material_from(m, c, 0)
}

fn neighbor_rank_exec(r: usize) -> (k: usize)
    requires
        r < 6,
    ensures
        k == neighbor_rank(r as int),
        k < 6,
{
    if r == 0 { 0 } else if r == 1 { 2 } else if r == 2 { 4 } else if r == 3 { 5 } else if r == 4 { 3 } else { 1 }
}

/// Material of the face neighbor with the lowest coordinate.
pub fn neighboring_material(cells: &Vec<FusedVoxelCell>, coordinate: [i64; 3]) -> (material: Option<u16>)
    requires
        sorted_by_loc(cells@),
    ensures
        material == spec_neighboring_material(cells_view(cells@), coordinate),
{
    let ghost m = cells_view(cells@);
    let mut r: usize = 0;
    while r < 6
        invariant
            r <= 6,
            sorted_by_loc(cells@),
            m == cells_view(cells@),
            spec_neighboring_material(m, coordinate) == neighboring_material_from(m, coordinate, r as int),
        decreases 6 - r,
    {
        let k = neighbor_rank_exec(r);
        if let Some(neighbor) = checked_add_coord(coordinate, face_offset_exec(k)) {
            if let Some(cell) = get_at(cells, neighbor) {
                return Some(cell.material_slot);
            }
        }
        r = r + 1;
    }
    None
}

/// A generated cell none of whose face neighbors is occupied.
pub open spec fn isolated_generated(m: Map<[i64; 3], FusedCellView>, c: [i64; 3]) -> bool {
    m[c].origin is Generated && forall|k: int| 0 <= k < 6 ==> !#[trigger] neighbor_present(m, c, k)
}

fn isolated_check(cells: &Vec<FusedVoxelCell>, c: [i64; 3]) -> (isolated: bool)
    requires
        sorted_by_loc(cells@),
    ensures
        isolated == forall|k: int| 0 <= k < 6 ==> !#[trigger] neighbor_present(cells_view(cells@), c, k),
{
    let mut k: usize = 0;
    while k < 6
        invariant
            k <= 6,
            sorted_by_loc(cells@),
            forall|j: int| 0 <= j < k ==> !#[trigger] neighbor_present(cells_view(cells@), c, j),
        decreases 6 - k,
    {
        if let Some(neighbor) = checked_add_coord(c, face_offset_exec(k)) {
            if contains(cells, neighbor) {
                assert(neighbor_present(cells_view(cells@), c, k as int));
                return false;
            }
        }
        k = k + 1;
    }
    true
}

/// Drop every generated cell that has no occupied face neighbor.
pub fn remove_isolated_generated_voxels(cells: &mut Vec<FusedVoxelCell>)
    requires
        sorted_by_loc(old(cells)@),
    ensures
        sorted_by_loc(final(cells)@),
        cells_view(final(cells)@) == cells_view(old(cells)@).remove_keys(
            Set::new(|c: [i64; 3]| cells_view(old(cells)@).contains_key(c) && isolated_generated(cells_view(old(cells)@), c)),
        ),
{
    let ghost m = cells_view(cells@);
    let mut removals: Vec<[i64; 3]> = Vec::new();
    let mut i: usize = 0;
    while i < cells.len()
        invariant
            i <= cells@.len(),
            sorted_by_loc(cells@),
            m == cells_view(cells@),
            forall|j: int| 0 <= j < removals@.len() ==> m.contains_key(#[trigger] removals@[j]) && isolated_generated(m, removals@[j]),
            forall|c: [i64; 3]| #![trigger removals@.contains(c)] m.contains_key(c) && isolated_generated(m, c) && (exists|j: int| 0 <= j < i && #[trigger] cells@[j].coordinate == c) ==> removals@.contains(c),
        decreases cells@.len() - i,
    {
        let generated = match &cells[i].origin {
            FusedVoxelOrigin::Generated { .. } => true,
            _ => false,
        };
        let c = cells[i].coordinate;
        proof {
            crate::cellmap::lemma_map_at(cells@, i as int);
        }
        let ghost removals_before = removals@;
        if generated && isolated_check(cells, c) {
            removals.push(c);
        }
        proof {
            assert forall|d: [i64; 3]| m.contains_key(d) && isolated_generated(m, d) && (exists|j: int| 0 <= j < i + 1 && #[trigger] cells@[j].coordinate == d) implies removals@.contains(d) by {
                let j = choose|j: int| 0 <= j < i + 1 && #[trigger] cells@[j].coordinate == d;
                if j == i {
                    assert(cells_view(cells@)[d].origin == cells@[j].origin);
                    assert(removals@[removals@.len() - 1] == d);
                } else {
                    assert(removals_before.contains(d));
                    let r = choose|r: int| 0 <= r < removals_before.len() && removals_before[r] == d;
                    assert(removals@[r] == d);
                }
            }
        }
        i = i + 1;
    }
    let ghost gone = Set::new(|c: [i64; 3]| m.contains_key(c) && isolated_generated(m, c));
    let ghost mut removed: Set<[i64; 3]> = Set::empty();
    let mut k: usize = 0;
    while k < removals.len()
        invariant
            k <= removals@.len(),
            sorted_by_loc(cells@),
            cells_view(cells@) == m.remove_keys(removed),
            forall|c: [i64; 3]| #[trigger] removed.contains(c) <==> exists|j: int| 0 <= j < k && #[trigger] removals@[j] == c,
            forall|j: int| 0 <= j < removals@.len() ==> m.contains_key(#[trigger] removals@[j]) && isolated_generated(m, removals@[j]),
        decreases removals@.len() - k,
    {
        let c = removals[k];
        let ghost before = cells@;
        remove_at(cells, c);
        proof {
            let old_removed = removed;
            removed = removed.insert(c);
            assert(cells_view(cells@) =~= cells_view(before).remove(c));
            assert(cells_view(cells@) =~= m.remove_keys(removed));
            assert forall|d: [i64; 3]| #[trigger] removed.contains(d) <==> exists|j: int| 0 <= j < k + 1 && #[trigger] removals@[j] == d by {
                if removed.contains(d) && d != c {
                    assert(old_removed.contains(d));
                }
                if exists|j: int| 0 <= j < k + 1 && #[trigger] removals@[j] == d {
                    let j = choose|j: int| 0 <= j < k + 1 && #[trigger] removals@[j] == d;
                    if j < k {
                        assert(old_removed.contains(d));
                    }
                }
            }
        }
        k = k + 1;
    }
    proof {
        assert forall|c: [i64; 3]| #[trigger] removed.contains(c) == gone.contains(c) by {
            if removed.contains(c) {
                let j = choose|j: int| 0 <= j < removals@.len() && #[trigger] removals@[j] == c;
            }
            if gone.contains(c) {
                let j = crate::cellmap::index_at(old(cells)@, c);
                crate::cellmap::lemma_map_at(old(cells)@, j);
                assert(removals@.contains(c));
                let r = choose|r: int| 0 <= r < removals@.len() && removals@[r] == c;
                assert(removals@[r] == c);
            }
        }
        assert(removed =~= gone);
    }
}

/// One greedy step toward `target` along the axis with the largest gap.
fn greedy_step(current: [i64; 3], target: [i64; 3]) -> (next: [i64; 3])
    requires
        manhattan_distance(current, target) > 0,
    ensures
        next == step_toward(current, target, greedy_axis(current, target)),
        manhattan_distance(next, target) == manhattan_distance(current, target) - 1,
{
    let d0 = if current[0] >= target[0] { (current[0] as i128) - (target[0] as i128) } else { (target[0] as i128) - (current[0] as i128) };
    let d1 = if current[1] >= target[1] { (current[1] as i128) - (target[1] as i128) } else { (target[1] as i128) - (current[1] as i128) };
    let d2 = if current[2] >= target[2] { (current[2] as i128) - (target[2] as i128) } else { (target[2] as i128) - (current[2] as i128) };
    let axis: usize = if d2 >= d0 && d2 >= d1 { 2 } else if d1 >= d0 { 1 } else { 0 };
    let moved = if current[axis] < target[axis] {
        current[axis] + 1
    } else if current[axis] > target[axis] {
        current[axis] - 1
    } else {
        current[axis]
    };
    if axis == 0 {
        [moved, current[1], current[2]]
    } else if axis == 1 {
        [current[0], moved, current[2]]
    } else {
        [current[0], current[1], moved]
    }
}

/// Face-connected greedy path from `current` to `target`, both included.
pub fn manhattan_path(current: [i64; 3], target: [i64; 3]) -> (path: Vec<[i64; 3]>)
    requires
        manhattan_distance(current, target) < usize::MAX,
    ensures
        path@ == greedy_path(current, target),
{
    let mut here = current;
    let mut path: Vec<[i64; 3]> = Vec::new();
    let mut remaining = manhattan(current, target);
    while remaining > 0
        invariant
            remaining == manhattan_distance(here, target),
            path@ + greedy_path(here, target) == greedy_path(current, target),
        decreases remaining,
    {
        let ghost before = path@;
        path.push(here);
        let next = greedy_step(here, target);
        proof {
            assert(greedy_path(here, target) == seq![here] + greedy_path(next, target));
            assert(before + greedy_path(here, target) =~= path@ + greedy_path(next, target));
        }
        here = next;
        remaining = remaining - 1;
    }
    proof {
        lemma_coord_eq(here, target);
        assert(greedy_path(here, target) == seq![here]);
    }
    path.push(here);
    path
}

/// The message naming the first axis on which `left + right` overflows.
pub open spec fn overflow_text(left: [i64; 3], right: [i64; 3]) -> Seq<char> {
    if !(i64::MIN <= left[0] + right[0] <= i64::MAX) {
        "X coordinate overflow"@
    } else if !(i64::MIN <= left[1] + right[1] <= i64::MAX) {
        "Y coordinate overflow"@
    } else {
        "Z coordinate overflow"@
    }
}

/// Component-wise checked sum, failing with a per-axis overflow error.
pub fn add(left: [i64; 3], right: [i64; 3]) -> (sum: Result<[i64; 3], FusionError>)
    ensures
        sum matches Ok(c) ==> spec_add(left, right) == Some(c),
        sum is Err ==> spec_add(left, right) is None && sum->Err_0.spec_code() == "fusion.coordinateOverflow"
            && sum->Err_0.spec_message() == overflow_text(left, right),
{
    match checked_add_coord(left, right) {
        Some(c) => Ok(c),
        None => {
            if left[0].checked_add(right[0]).is_none() {
                Err(FusionError::new("fusion.coordinateOverflow", String::from_str("X coordinate overflow")))
            } else if left[1].checked_add(right[1]).is_none() {
                Err(FusionError::new("fusion.coordinateOverflow", String::from_str("Y coordinate overflow")))
            } else {
                Err(FusionError::new("fusion.coordinateOverflow", String::from_str("Z coordinate overflow")))
            }
        },
    }
}

/// Some seam cell lies within Chebyshev `radius` of `coordinate`.
pub fn near_seam(coordinate: [i64; 3], seam_coordinates: &Vec<[i64; 3]>, radius: u64) -> (near: bool)
    ensures
        near == exists|i: int| 0 <= i < seam_coordinates@.len() && chebyshev_distance(#[trigger] seam_coordinates@[i], coordinate) <= radius,
{
    let mut i: usize = 0;
    while i < seam_coordinates.len()
        invariant
            i <= seam_coordinates@.len(),
            forall|j: int| 0 <= j < i ==> chebyshev_distance(#[trigger] seam_coordinates@[j], coordinate) > radius,
        decreases seam_coordinates@.len() - i,
    {
        if chebyshev(seam_coordinates[i], coordinate) <= radius {
            return true;
        }
        i = i + 1;
    }
    false
}

} // verus!

verus! {

fn same_discarded(a: &crate::assemble::DiscardedCanonicalVoxel, b: &crate::assemble::DiscardedCanonicalVoxel) -> (same: bool)
    ensures
        same == (*a == *b),
{
    proof {
        lemma_coord_eq(a.coordinate, b.coordinate);
    }
    a.coordinate[0] == b.coordinate[0] && a.coordinate[1] == b.coordinate[1] && a.coordinate[2] == b.coordinate[2]
        && a.part_id == b.part_id && a.source_voxel_index == b.source_voxel_index && a.material_slot == b.material_slot
        && a.winner_part_id == b.winner_part_id && a.winner_source_voxel_index == b.winner_source_voxel_index
}

/// Checks a rough frame against the pose it claims to show: its time and
/// duration must be the selected pose's, and its discarded-overlap ledger
/// must equal the one an authoritative rasterization of that pose gives.
pub fn check_rough_frame(
    rough: &crate::assemble::RoughFrame,
    time_microseconds: u64,
    duration_microseconds: u64,
    expected_discarded: &Vec<crate::assemble::DiscardedCanonicalVoxel>,
) -> (result: Result<(), FusionError>)
    ensures
        result is Ok <==> rough.time_microseconds == time_microseconds && rough.duration_microseconds
            == duration_microseconds && rough.discarded_overlaps@ == expected_discarded@,
        result matches Err(e) ==> if rough.time_microseconds != time_microseconds || rough.duration_microseconds
            != duration_microseconds {
            e.spec_code()@ == "fusion.poseMismatch"@ && e.spec_message()
                == "rough frame time/duration does not match the selected pose"@
        } else {
            e.spec_code()@ == "fusion.overlapLedgerMismatch"@ && e.spec_message()
                == "discarded-overlap diagnostics do not match authoritative rasterization"@
        },
{
    if rough.time_microseconds != time_microseconds || rough.duration_microseconds != duration_microseconds {
        return Err(FusionError::new(
            "fusion.poseMismatch",
            String::from_str("rough frame time/duration does not match the selected pose"),
        ));
    }
    let mut same = rough.discarded_overlaps.len() == expected_discarded.len();
    let mut i: usize = 0;
    while same && i < expected_discarded.len()
        invariant
            same ==> rough.discarded_overlaps@.len() == expected_discarded@.len(),
            i <= expected_discarded@.len(),
            same ==> forall|j: int| 0 <= j < i ==> rough.discarded_overlaps@[j] == expected_discarded@[j],
            !same ==> rough.discarded_overlaps@ != expected_discarded@,
        decreases expected_discarded@.len() - i,
    {
        if !same_discarded(&rough.discarded_overlaps[i], &expected_discarded[i]) {
            same = false;
        }
        i = i + 1;
    }
    if !same {
        return Err(FusionError::new(
            "fusion.overlapLedgerMismatch",
            String::from_str("discarded-overlap diagnostics do not match authoritative rasterization"),
        ));
    }
    assert(rough.discarded_overlaps@ =~= expected_discarded@);
    Ok(())
}

} // verus!
