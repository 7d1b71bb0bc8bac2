//! Replaying ordered edit diffs against an immutable fused base frame.

use vstd::prelude::*;
use vstd::string::StringExecFns;

use crate::apply::{apply_operation, spec_apply};
use crate::candidate::{spec_validate, validate_candidate};
use crate::cellmap::{lemma_map_at, sorted_by_loc, Located};
use crate::cellstore::{distinct_coordinates, edit_index, frame_view, sorted_cells};
use crate::cleanup::{
    diff_passes, fault, pass_budget_fault, spec_affected_bounds, validate_pass_budget, CleanupPass, EditBounds,
    EditError, Fault, FrameEditDiff, FrameEditOperation, EDIT_DIFF_SCHEMA_VERSION,
};
use crate::fusion::{
    cells_view, copy_cell, copy_operations, CleanupOperation, DiscardedVoxelOrigin, FusedCellView, FusedFrame,
    FusedVoxelCell, FusedVoxelOrigin,
};
use crate::project::{sha256, sha256_text};
use crate::replay::{anchor_map, anchors_unique, neighbor_view, EditPolicy};
use crate::text::{coord_string, coord_text, decimal_text, decimal_u64};

verus! {

/// A frame regenerated from a base plus the diffs that were replayed on it.
#[derive(Debug, Clone, PartialEq, Eq)]
pub struct EditedFrame {
    pub frame: FusedFrame,
    /// Named positions, one entry per identity.
    pub anchors: Vec<(String, [i64; 3])>,
    pub diffs: Vec<FrameEditDiff>,
}

impl FrameEditDiff {
    /// A diff of the current schema against the base whose canonical
    /// encoding is `base_encoding`.
    pub fn new(base_encoding: &[u8], pass: CleanupPass, operations: Vec<FrameEditOperation>) -> (diff: Self)
        ensures
            diff.schema_version == EDIT_DIFF_SCHEMA_VERSION,
            diff.base_frame_sha256@ == sha256_text(base_encoding@),
            diff.pass == pass,
            diff.operations == operations,
            crate::model::sha256_form(vstd::utf8::encode_utf8(diff.base_frame_sha256@)),
    {
        let hash = sha256(base_encoding);
        proof {
            crate::model::law_sha256_text_is_valid(base_encoding@);
        }
        FrameEditDiff { schema_version: EDIT_DIFF_SCHEMA_VERSION, base_frame_sha256: hash, pass, operations }
    }
}

// ---------------------------------------------------------------------------
// Exact copies.

pub fn copy_operation(operation: &FrameEditOperation) -> (copy: FrameEditOperation)
    ensures
        copy == *operation,
{
    match operation {
        FrameEditOperation::AddVoxel { at, material_slot } => FrameEditOperation::AddVoxel { at: *at, material_slot: *material_slot },
        FrameEditOperation::RemoveVoxel { at } => FrameEditOperation::RemoveVoxel { at: *at },
        FrameEditOperation::MoveVoxel { from, to } => FrameEditOperation::MoveVoxel { from: *from, to: *to },
        FrameEditOperation::FillBox { region, material_slot } => FrameEditOperation::FillBox { region: *region, material_slot: *material_slot },
        FrameEditOperation::ClearBox { region } => FrameEditOperation::ClearBox { region: *region },
        FrameEditOperation::ReplaceMaterial { region, from_material_slot, to_material_slot } => FrameEditOperation::ReplaceMaterial {
            region: *region,
            from_material_slot: *from_material_slot,
            to_material_slot: *to_material_slot,
        },
        FrameEditOperation::BridgeRegions { from, to, material_slot } => FrameEditOperation::BridgeRegions {
            from: *from,
            to: *to,
            material_slot: *material_slot,
        },
        FrameEditOperation::ThickenRegion { region, material_slot, layers } => FrameEditOperation::ThickenRegion {
            region: *region,
            material_slot: *material_slot,
            layers: *layers,
        },
        FrameEditOperation::ThinRegion { region, layers } => FrameEditOperation::ThinRegion { region: *region, layers: *layers },
        FrameEditOperation::CopyCanonicalRegion { source, offset } => FrameEditOperation::CopyCanonicalRegion { source: *source, offset: *offset },
        FrameEditOperation::RestoreFromPreviousFrame { region } => FrameEditOperation::RestoreFromPreviousFrame { region: *region },
        FrameEditOperation::RestoreFromNextFrame { region } => FrameEditOperation::RestoreFromNextFrame { region: *region },
        FrameEditOperation::SmoothLocalSurface { region, material_slot } => FrameEditOperation::SmoothLocalSurface {
            region: *region,
            material_slot: *material_slot,
        },
        FrameEditOperation::CarveLocalSurface { region, maximum_face_neighbors } => FrameEditOperation::CarveLocalSurface {
            region: *region,
            maximum_face_neighbors: *maximum_face_neighbors,
        },
        FrameEditOperation::EnforceConnectivity { region, material_slot, maximum_bridge_length } => FrameEditOperation::EnforceConnectivity {
            region: *region,
            material_slot: *material_slot,
            maximum_bridge_length: *maximum_bridge_length,
        },
        FrameEditOperation::ShiftComponent { region, offset } => FrameEditOperation::ShiftComponent { region: *region, offset: *offset },
        FrameEditOperation::SetAnchor { id, position } => FrameEditOperation::SetAnchor { id: id.clone(), position: *position },
    }
}

/// Two diffs hold the same schema, hash, pass and operations.
pub open spec fn same_diff(a: FrameEditDiff, b: FrameEditDiff) -> bool {
    &&& a.schema_version == b.schema_version
    &&& a.base_frame_sha256 == b.base_frame_sha256
    &&& a.pass == b.pass
    &&& a.operations@ == b.operations@
}

pub fn copy_diff(diff: &FrameEditDiff) -> (copy: FrameEditDiff)
    ensures
        same_diff(copy, *diff),
{
    let mut operations: Vec<FrameEditOperation> = Vec::new();
    let mut i: usize = 0;
    while i < diff.operations.len()
        invariant
            i <= diff.operations@.len(),
            operations@ == diff.operations@.take(i as int),
        decreases diff.operations@.len() - i,
    {
        operations.push(copy_operation(&diff.operations[i]));
        proof {
            assert(diff.operations@.take(i + 1) =~= diff.operations@.take(i as int).push(diff.operations@[i as int]));
        }
        i = i + 1;
    }
    proof {
        assert(diff.operations@.take(diff.operations@.len() as int) =~= diff.operations@);
    }
    FrameEditDiff {
        schema_version: diff.schema_version,
        base_frame_sha256: diff.base_frame_sha256.clone(),
        pass: diff.pass,
        operations,
    }
}

fn copy_anchors(anchors: &Vec<(String, [i64; 3])>) -> (copy: Vec<(String, [i64; 3])>)
    ensures
        copy@ == anchors@,
{
    let mut copy: Vec<(String, [i64; 3])> = Vec::new();
    let mut i: usize = 0;
    while i < anchors.len()
        invariant
            i <= anchors@.len(),
            copy@ == anchors@.take(i as int),
        decreases anchors@.len() - i,
    {
        let entry = (anchors[i].0.clone(), anchors[i].1);
        copy.push(entry);
        proof {
            assert(anchors@.take(i + 1) =~= anchors@.take(i as int).push(anchors@[i as int]));
        }
        i = i + 1;
    }
    proof {
        assert(anchors@.take(anchors@.len() as int) =~= anchors@);
    }
    copy
}

/// Everything but the cells is the same.
pub open spec fn same_frame_meta(a: FusedFrame, b: FusedFrame) -> bool {
    &&& a.time_microseconds == b.time_microseconds
    &&& a.duration_microseconds == b.duration_microseconds
    &&& a.discarded_origins@ == b.discarded_origins@
    &&& a.applied_operations@ == b.applied_operations@
}

/// The cells hold the same content, in the same order.
pub open spec fn same_cells(a: Seq<FusedVoxelCell>, b: Seq<FusedVoxelCell>) -> bool {
    a.len() == b.len() && forall|i: int| 0 <= i < a.len() ==> (#[trigger] a[i])@ == b[i]@
}

fn copy_discarded(v: &Vec<DiscardedVoxelOrigin>) -> (copy: Vec<DiscardedVoxelOrigin>)
    ensures
        copy@ == v@,
{
    let mut copy: Vec<DiscardedVoxelOrigin> = Vec::new();
    let mut i: usize = 0;
    while i < v.len()
        invariant
            i <= v@.len(),
            copy@ == v@.take(i as int),
        decreases v@.len() - i,
    {
        copy.push(v[i]);
        proof {
            assert(v@.take(i + 1) =~= v@.take(i as int).push(v@[i as int]));
        }
        i = i + 1;
    }
    proof {
        assert(v@.take(v@.len() as int) =~= v@);
    }
    copy
}

pub fn copy_frame(frame: &FusedFrame) -> (copy: FusedFrame)
    ensures
        same_frame_meta(copy, *frame),
        same_cells(copy.voxels@, frame.voxels@),
        copy.generated_voxels == frame.generated_voxels,
{
    let mut voxels: Vec<FusedVoxelCell> = Vec::new();
    let mut i: usize = 0;
    while i < frame.voxels.len()
        invariant
            i <= frame.voxels@.len(),
            voxels@.len() == i,
            forall|j: int| 0 <= j < i ==> (#[trigger] voxels@[j])@ == frame.voxels@[j]@,
        decreases frame.voxels@.len() - i,
    {
        voxels.push(copy_cell(&frame.voxels[i]));
        i = i + 1;
    }
    FusedFrame {
        time_microseconds: frame.time_microseconds,
        duration_microseconds: frame.duration_microseconds,
        voxels,
        discarded_origins: copy_discarded(&frame.discarded_origins),
        generated_voxels: frame.generated_voxels,
        applied_operations: copy_operations(&frame.applied_operations),
    }
}

// ---------------------------------------------------------------------------
// Applying one diff.

/// Some declared region holds both corners of `b`.
pub open spec fn declared(policy: EditPolicy, b: EditBounds) -> bool {
    exists|i: int|
        0 <= i < policy.declared_regions@.len() && (#[trigger] policy.declared_regions@[i]).spec_contains(b.min)
            && policy.declared_regions@[i].spec_contains(b.max)
}

pub open spec fn undeclared_fault(b: EditBounds) -> Fault {
    fault(
        "edit.undeclaredRegion",
        "affectedBounds"@,
        "operation affects "@ + coord_text(b.min) + ".."@ + coord_text(b.max) + ", outside every declared region"@,
    )
}

/// The checks on one operation at position `k`, then its effect.
pub open spec fn operation_step(
    m: Map<[i64; 3], FusedCellView>,
    a: Map<Seq<char>, [i64; 3]>,
    previous: Option<&FusedFrame>,
    next: Option<&FusedFrame>,
    policy: EditPolicy,
    op: FrameEditOperation,
    k: usize,
) -> Result<(Map<[i64; 3], FusedCellView>, Map<Seq<char>, [i64; 3]>), Fault> {
    match spec_affected_bounds(op) {
        Err(f) => Err(f),
        Ok(b) => if !declared(policy, b) {
            Err(undeclared_fault(b))
        } else if !b.volume_ok() {
            Err(fault("edit.regionQuotaExceeded", "bounds"@, "edit-region volume overflowed"@))
        } else if b.extent(0) * b.extent(1) * b.extent(2) > policy.max_operation_cells {
            Err(fault("edit.regionQuotaExceeded", "affectedBounds"@, "operation region exceeds maxOperationCells"@))
        } else {
            match spec_apply(m, a, neighbor_view(previous), neighbor_view(next), policy, op, edit_index(k)) {
                Err(f) => Err(f),
                Ok((m2, a2)) => if m2.len() > policy.max_voxel_count {
                    Err(fault(
                        "edit.voxelQuotaExceeded",
                        "operation"@,
                        decimal_text(m2.len() as int) + " cells exceed maxVoxelCount "@ + decimal_text(policy.max_voxel_count as int),
                    ))
                } else {
                    Ok((m2, a2))
                },
            }
        },
    }
}

/// The checks and effect of operations `k..` of a diff, with the failing
/// operation's position.
pub open spec fn run_operations(
    m: Map<[i64; 3], FusedCellView>,
    a: Map<Seq<char>, [i64; 3]>,
    previous: Option<&FusedFrame>,
    next: Option<&FusedFrame>,
    policy: EditPolicy,
    ops: Seq<FrameEditOperation>,
    k: int,
) -> Result<(Map<[i64; 3], FusedCellView>, Map<Seq<char>, [i64; 3]>), (Fault, usize)>
    decreases ops.len() - k,
{
    if k >= ops.len() || k < 0 {
        Ok((m, a))
    } else {
        match operation_step(m, a, previous, next, policy, ops[k], k as usize) {
            Err(f) => Err((f, k as usize)),
            Ok((m2, a2)) => run_operations(m2, a2, previous, next, policy, ops, k + 1),
        }
    }
}

/// The outcome of one diff on a cell map (`None`: the starting cells repeat
/// a coordinate).
pub open spec fn spec_apply_diff(
    start: Option<Map<[i64; 3], FusedCellView>>,
    a: Map<Seq<char>, [i64; 3]>,
    base: &FusedFrame,
    previous: Option<&FusedFrame>,
    next: Option<&FusedFrame>,
    policy: EditPolicy,
    diff: FrameEditDiff,
) -> Result<(Map<[i64; 3], FusedCellView>, Map<Seq<char>, [i64; 3]>), (Fault, Option<usize>)> {
    if diff.operations@.len() > policy.max_operations_per_diff {
        Err((
            fault(
                "edit.operationQuotaExceeded",
                "operations"@,
                decimal_text(diff.operations@.len() as int) + " operations exceed the "@ + decimal_text(
                    policy.max_operations_per_diff as int,
                ) + " operation quota"@,
            ),
            None,
        ))
    } else {
        match start {
            None => Err((fault("edit.invalidBase", "voxels"@, "base frame contains duplicate coordinates"@), None)),
            Some(m) => match run_operations(m, a, previous, next, policy, diff.operations@, 0) {
                Err((f, k)) => Err((f, Some(k))),
                Ok((m2, a2)) => match spec_validate(base, previous, next, m2, a2, policy) {
                    Some(f) => Err((f, None)),
                    None => Ok((m2, a2)),
                },
            },
        }
    }
}

/// Cells whose origin is not canonical.
pub open spec fn noncanonical_count(s: Seq<FusedVoxelCell>) -> nat
    decreases s.len(),
{
    if s.len() == 0 {
        0
    } else {
        noncanonical_count(s.drop_last()) + if s.last().origin is Canonical { 0nat } else { 1nat }
    }
}

pub(crate) fn count_noncanonical(cells: &Vec<FusedVoxelCell>) -> (count: usize)
    ensures
        count == noncanonical_count(cells@),
{
    let mut count: usize = 0;
    let mut i: usize = 0;
    while i < cells.len()
        invariant
            i <= cells@.len(),
            count == noncanonical_count(cells@.take(i as int)),
            count <= i,
        decreases cells@.len() - i,
    {
        proof {
            assert(cells@.take(i + 1).drop_last() =~= cells@.take(i as int));
        }
        let canonical = match &cells[i].origin {
            FusedVoxelOrigin::Canonical { .. } => true,
            _ => false,
        };
        if !canonical {
            count = count + 1;
        }
        i = i + 1;
    }
    proof {
        assert(cells@.take(cells@.len() as int) =~= cells@);
    }
    count
}

fn is_declared(policy: &EditPolicy, b: EditBounds) -> (inside: bool)
    ensures
        inside == declared(*policy, b),
{
    let mut i: usize = 0;
    while i < policy.declared_regions.len()
        invariant
            i <= policy.declared_regions@.len(),
            forall|j: int| 0 <= j < i ==> !((#[trigger] policy.declared_regions@[j]).spec_contains(b.min) && policy.declared_regions@[j].spec_contains(b.max)),
        decreases policy.declared_regions@.len() - i,
    {
        if policy.declared_regions[i].contains_bounds(b) {
            return true;
        }
        i = i + 1;
    }
    false
}

pub proof fn lemma_sorted_frame(s: Seq<FusedVoxelCell>)
    requires
        sorted_by_loc(s),
    ensures
        distinct_coordinates(s),
        frame_view(s) == cells_view(s),
        cells_view(s).len() == s.len(),
    decreases s.len(),
{
    assert forall|i: int, j: int| 0 <= i < j < s.len() implies s[i].coordinate != s[j].coordinate by {
        assert(crate::voxel::coord_lt(s[i].loc(), s[j].loc()));
        crate::voxel::lemma_coord_lt_total(s[i].coordinate, s[j].coordinate);
    }
    crate::candidate::lemma_sorted_len(s);
    assert(cells_view(s).dom() =~= located_map(s).dom());
    if s.len() > 0 {
        let t = s.drop_last();
        assert(sorted_by_loc(t)) by {
            assert forall|i: int, j: int| 0 <= i < j < t.len() implies crate::voxel::coord_lt(#[trigger] t[i].loc(), #[trigger] t[j].loc()) by {
                assert(t[i] == s[i] && t[j] == s[j]);
            }
        }
        lemma_sorted_frame(t);
        let n = s.len() - 1;
        assert(s.take(n) =~= t);
        crate::cellmap::lemma_take_map(s, n);
        assert(s.take(n + 1) =~= s);
        crate::cellstore::lemma_view_insert(t, s, s[n]);
    } else {
        assert(cells_view(s) =~= Map::<[i64; 3], FusedCellView>::empty());
    }
}

use crate::cellmap::located_map;

/// One operation's checks and effect on the cell store and anchors.
fn operation_checked(
    cells: &mut Vec<FusedVoxelCell>,
    anchors: &mut Vec<(String, [i64; 3])>,
    previous: Option<&FusedFrame>,
    next: Option<&FusedFrame>,
    policy: &EditPolicy,
    operation: &FrameEditOperation,
    index: usize,
) -> (r: Result<(), EditError>)
    requires
        sorted_by_loc(old(cells)@),
        anchors_unique(old(anchors)@),
    ensures
        sorted_by_loc(final(cells)@),
        anchors_unique(final(anchors)@),
        match operation_step(cells_view(old(cells)@), anchor_map(old(anchors)@), previous, next, *policy, *operation, index) {
            Ok((m, a)) => r is Ok && cells_view(final(cells)@) == m && anchor_map(final(anchors)@) == a,
            Err(f) => r matches Err(e) && e.is_fault(f) && e.spec_operation_index() is None,
        },
{
    let affected = match operation.affected_bounds() {
        Ok(bounds) => bounds,
        Err(e) => {
            return Err(e);
        },
    };
    if !is_declared(policy, affected) {
        let mut message = String::from_str("operation affects ");
        message.append(coord_string(affected.min).as_str());
        message.append("..");
        message.append(coord_string(affected.max).as_str());
        message.append(", outside every declared region");
        return Err(EditError::new("edit.undeclaredRegion", "affectedBounds", message));
    }
    let volume = affected.volume()?;
    if volume > policy.max_operation_cells {
        return Err(EditError::new(
            "edit.regionQuotaExceeded",
            "affectedBounds",
            String::from_str("operation region exceeds maxOperationCells"),
        ));
    }
    apply_operation(cells, anchors, previous, next, policy, operation, index)?;
    proof {
        lemma_sorted_frame(cells@);
    }
    if cells.len() > policy.max_voxel_count {
        let mut message = decimal_u64(cells.len() as u64);
        message.append(" cells exceed maxVoxelCount ");
        message.append(decimal_u64(policy.max_voxel_count as u64).as_str());
        return Err(EditError::new("edit.voxelQuotaExceeded", "operation", message));
    }
    Ok(())
}

/// Apply one diff to the edited frame: every operation in order, then the
/// admission checks on the result.
fn apply_diff(
    result: &mut EditedFrame,
    base: &FusedFrame,
    previous: Option<&FusedFrame>,
    next: Option<&FusedFrame>,
    policy: &EditPolicy,
    diff: &FrameEditDiff,
) -> (r: Result<(), EditError>)
    requires
        anchors_unique(old(result).anchors@),
    ensures
        match spec_apply_diff(
            if distinct_coordinates(old(result).frame.voxels@) {
                Some(frame_view(old(result).frame.voxels@))
            } else {
                None
            },
            anchor_map(old(result).anchors@),
            base,
            previous,
            next,
            *policy,
            *diff,
        ) {
            Ok((m, a)) => {
                &&& r is Ok
                &&& sorted_by_loc(final(result).frame.voxels@)
                &&& cells_view(final(result).frame.voxels@) == m
                &&& anchors_unique(final(result).anchors@)
                &&& anchor_map(final(result).anchors@) == a
                &&& final(result).frame.generated_voxels == noncanonical_count(final(result).frame.voxels@)
                &&& same_frame_meta(final(result).frame, old(result).frame)
                &&& final(result).diffs@ == old(result).diffs@
            },
            Err((f, k)) => r matches Err(e) && e.is_fault(f) && e.spec_operation_index() == k,
        },
{
    if diff.operations.len() > policy.max_operations_per_diff {
        let mut message = decimal_u64(diff.operations.len() as u64);
        message.append(" operations exceed the ");
        message.append(decimal_u64(policy.max_operations_per_diff as u64).as_str());
        message.append(" operation quota");
        return Err(EditError::new("edit.operationQuotaExceeded", "operations", message));
    }
    let mut cells = match sorted_cells(&result.frame.voxels) {
        Some(cells) => cells,
        None => {
            return Err(EditError::new("edit.invalidBase", "voxels", String::from_str("base frame contains duplicate coordinates")));
        },
    };
    let mut anchors = copy_anchors(&result.anchors);
    let ghost m0 = cells_view(cells@);
    let ghost a0 = anchor_map(anchors@);
    let mut index: usize = 0;
    while index < diff.operations.len()
        invariant
            index <= diff.operations@.len(),
            diff.operations@.len() <= policy.max_operations_per_diff,
            distinct_coordinates(old(result).frame.voxels@),
            m0 == frame_view(old(result).frame.voxels@),
            a0 == anchor_map(old(result).anchors@),
            sorted_by_loc(cells@),
            anchors_unique(anchors@),
            run_operations(m0, a0, previous, next, *policy, diff.operations@, 0) == run_operations(
                cells_view(cells@),
                anchor_map(anchors@),
                previous,
                next,
                *policy,
                diff.operations@,
                index as int,
            ),
        decreases diff.operations@.len() - index,
    {
        match operation_checked(&mut cells, &mut anchors, previous, next, policy, &diff.operations[index], index) {
            Ok(()) => {},
            Err(e) => {
                return Err(e.at_operation(index));
            },
        }
        index = index + 1;
    }
    validate_candidate(base, previous, next, &cells, &anchors, policy)?;
    let generated = count_noncanonical(&cells);
    result.frame.voxels = cells;
    result.frame.generated_voxels = generated;
    result.anchors = anchors;
    Ok(())
}

// ---------------------------------------------------------------------------
// Replaying a diff list.

/// The keyed cells of a frame, or `None` when two cells share a coordinate.
pub open spec fn start_cells(voxels: Seq<FusedVoxelCell>) -> Option<Map<[i64; 3], FusedCellView>> {
    if distinct_coordinates(voxels) {
        Some(frame_view(voxels))
    } else {
        None
    }
}

pub open spec fn schema_fault(version: u32) -> Fault {
    fault("edit.unsupportedSchema", "schemaVersion"@, "unsupported edit schema "@ + decimal_text(version as int))
}

pub open spec fn hash_fault() -> Fault {
    fault("edit.baseHashMismatch", "baseFrameSha256"@, "edit diff does not target the supplied deterministic base"@)
}

/// Diffs `k..` replayed on a cell state, checking each diff's schema and
/// base hash first.
pub open spec fn replay_from(
    state: Option<Map<[i64; 3], FusedCellView>>,
    a: Map<Seq<char>, [i64; 3]>,
    base: &FusedFrame,
    expected: Seq<char>,
    previous: Option<&FusedFrame>,
    next: Option<&FusedFrame>,
    policy: EditPolicy,
    diffs: Seq<FrameEditDiff>,
    k: int,
) -> Result<(Option<Map<[i64; 3], FusedCellView>>, Map<Seq<char>, [i64; 3]>), (Fault, Option<usize>)>
    decreases diffs.len() - k,
{
    if k >= diffs.len() || k < 0 {
        Ok((state, a))
    } else {
        match diff_step(state, a, base, expected, previous, next, policy, diffs[k]) {
            Err(e) => Err(e),
            Ok((m, a2)) => replay_from(Some(m), a2, base, expected, previous, next, policy, diffs, k + 1),
        }
    }
}

/// One diff: its schema, its base hash, then its operations.
pub open spec fn diff_step(
    state: Option<Map<[i64; 3], FusedCellView>>,
    a: Map<Seq<char>, [i64; 3]>,
    base: &FusedFrame,
    expected: Seq<char>,
    previous: Option<&FusedFrame>,
    next: Option<&FusedFrame>,
    policy: EditPolicy,
    d: FrameEditDiff,
) -> Result<(Map<[i64; 3], FusedCellView>, Map<Seq<char>, [i64; 3]>), (Fault, Option<usize>)> {
    if d.schema_version != EDIT_DIFF_SCHEMA_VERSION {
        Err((schema_fault(d.schema_version), None))
    } else if d.base_frame_sha256@ != expected {
        Err((hash_fault(), None))
    } else {
        spec_apply_diff(state, a, base, previous, next, policy, d)
    }
}

fn replay_one(
    result: &mut EditedFrame,
    base: &FusedFrame,
    expected: &String,
    previous: Option<&FusedFrame>,
    next: Option<&FusedFrame>,
    policy: &EditPolicy,
    diff: &FrameEditDiff,
) -> (r: Result<(), EditError>)
    requires
        anchors_unique(old(result).anchors@),
    ensures
        match diff_step(
            start_cells(old(result).frame.voxels@),
            anchor_map(old(result).anchors@),
            base,
            expected@,
            previous,
            next,
            *policy,
            *diff,
        ) {
            Ok((m, a)) => {
                &&& r is Ok
                &&& sorted_by_loc(final(result).frame.voxels@)
                &&& cells_view(final(result).frame.voxels@) == m
                &&& anchors_unique(final(result).anchors@)
                &&& anchor_map(final(result).anchors@) == a
                &&& final(result).frame.generated_voxels == noncanonical_count(final(result).frame.voxels@)
                &&& same_frame_meta(final(result).frame, old(result).frame)
                &&& final(result).diffs@.len() == old(result).diffs@.len() + 1
                &&& forall|j: int| 0 <= j < old(result).diffs@.len() ==> #[trigger] final(result).diffs@[j] == old(result).diffs@[j]
                &&& same_diff(final(result).diffs@.last(), *diff)
            },
            Err((f, k)) => r matches Err(e) && e.is_fault(f) && e.spec_operation_index() == k,
        },
{
    if diff.schema_version != EDIT_DIFF_SCHEMA_VERSION {
        let mut message = String::from_str("unsupported edit schema ");
        message.append(decimal_u64(diff.schema_version as u64).as_str());
        return Err(EditError::new("edit.unsupportedSchema", "schemaVersion", message));
    }
    if !(diff.base_frame_sha256 == *expected) {
        return Err(EditError::new(
            "edit.baseHashMismatch",
            "baseFrameSha256",
            String::from_str("edit diff does not target the supplied deterministic base"),
        ));
    }
    apply_diff(result, base, previous, next, policy, diff)?;
    result.diffs.push(copy_diff(diff));
    Ok(())
}

/// The whole replay: the pass budget, then every diff in order. `Ok` holds
/// the final cell map (`None` when no diff was replayed) and anchors.
pub open spec fn spec_replay(
    base: &FusedFrame,
    base_encoding: Seq<u8>,
    previous: Option<&FusedFrame>,
    next: Option<&FusedFrame>,
    initial: Map<Seq<char>, [i64; 3]>,
    policy: EditPolicy,
    diffs: Seq<FrameEditDiff>,
) -> Result<(Option<Map<[i64; 3], FusedCellView>>, Map<Seq<char>, [i64; 3]>), (Fault, Option<usize>)> {
    match pass_budget_fault(diff_passes(diffs)) {
        Some(message) => Err((fault("edit.passBudgetExceeded", "pass"@, message), None)),
        None => replay_from(
            if diffs.len() == 0 { None } else { start_cells(base.voxels@) },
            initial,
            base,
            sha256_text(base_encoding),
            previous,
            next,
            policy,
            diffs,
            0,
        ),
    }
}

proof fn lemma_same_cells_view(a: Seq<FusedVoxelCell>, b: Seq<FusedVoxelCell>)
    requires
        same_cells(a, b),
    ensures
        distinct_coordinates(a) == distinct_coordinates(b),
        frame_view(a) == frame_view(b),
    decreases a.len(),
{
    assert forall|i: int| 0 <= i < a.len() implies (#[trigger] a[i]).coordinate == b[i].coordinate by {
        assert(a[i]@ == b[i]@);
    }
    if distinct_coordinates(a) {
        assert forall|i: int, j: int| 0 <= i < j < b.len() implies b[i].coordinate != b[j].coordinate by {
            assert(a[i].coordinate == b[i].coordinate && a[j].coordinate == b[j].coordinate);
        }
    }
    if distinct_coordinates(b) {
        assert forall|i: int, j: int| 0 <= i < j < a.len() implies a[i].coordinate != a[j].coordinate by {
            assert(a[i].coordinate == b[i].coordinate && a[j].coordinate == b[j].coordinate);
        }
    }
    if a.len() > 0 {
        assert(same_cells(a.drop_last(), b.drop_last())) by {
            assert forall|i: int| 0 <= i < a.drop_last().len() implies (#[trigger] a.drop_last()[i])@ == b.drop_last()[i]@ by {
                assert(a.drop_last()[i] == a[i] && b.drop_last()[i] == b[i]);
            }
        }
        lemma_same_cells_view(a.drop_last(), b.drop_last());
        assert(a.last()@ == b.last()@);
    }
}

/// Regenerate an edited frame from the base, the encoding the base hash is
/// taken over, the neighbor frames, the initial anchors, the policy and the
/// ordered diffs.
#[verifier::rlimit(40)]
pub fn replay_frame_edits(
    base: &FusedFrame,
    base_encoding: &[u8],
    previous: Option<&FusedFrame>,
    next: Option<&FusedFrame>,
    initial_anchors: &Vec<(String, [i64; 3])>,
    policy: &EditPolicy,
    diffs: &Vec<FrameEditDiff>,
) -> (result: Result<EditedFrame, EditError>)
    requires
        anchors_unique(initial_anchors@),
    ensures
        match spec_replay(base, base_encoding@, previous, next, anchor_map(initial_anchors@), *policy, diffs@) {
            Ok((state, a)) => result matches Ok(r) && {
                &&& anchors_unique(r.anchors@)
                &&& anchor_map(r.anchors@) == a
                &&& same_frame_meta(r.frame, *base)
                &&& r.diffs@.len() == diffs@.len()
                &&& forall|i: int| 0 <= i < diffs@.len() ==> same_diff(#[trigger] r.diffs@[i], diffs@[i])
                &&& diffs@.len() == 0 ==> same_cells(r.frame.voxels@, base.voxels@) && r.frame.generated_voxels
                    == base.generated_voxels
                &&& diffs@.len() > 0 ==> sorted_by_loc(r.frame.voxels@) && state == Some(cells_view(r.frame.voxels@))
                    && r.frame.generated_voxels == noncanonical_count(r.frame.voxels@)
            },
            Err((f, k)) => result matches Err(e) && e.is_fault(f) && e.spec_operation_index() == k,
        },
{
    match validate_pass_budget(diffs.as_slice()) {
        Ok(()) => {},
        Err(e) => {
            return Err(e);
        },
    }
    let expected = sha256(base_encoding);
    let mut result = EditedFrame { frame: copy_frame(base), anchors: copy_anchors(initial_anchors), diffs: Vec::new() };
    let ghost initial = anchor_map(initial_anchors@);
    let ghost start = if diffs@.len() == 0 { None } else { start_cells(base.voxels@) };
    proof {
        lemma_same_cells_view(result.frame.voxels@, base.voxels@);
    }
    let mut i: usize = 0;
    while i < diffs.len()
        invariant
            i <= diffs@.len(),
            expected@ == sha256_text(base_encoding@),
            pass_budget_fault(diff_passes(diffs@)) is None,
            start == (if diffs@.len() == 0 { None } else { start_cells(base.voxels@) }),
            initial == anchor_map(initial_anchors@),
            anchors_unique(result.anchors@),
            same_frame_meta(result.frame, *base),
            result.diffs@.len() == i,
            forall|j: int| 0 <= j < i ==> same_diff(#[trigger] result.diffs@[j], diffs@[j]),
            i == 0 ==> same_cells(result.frame.voxels@, base.voxels@) && result.frame.generated_voxels == base.generated_voxels,
            i > 0 ==> sorted_by_loc(result.frame.voxels@) && result.frame.generated_voxels == noncanonical_count(result.frame.voxels@),
            replay_from(start, initial, base, sha256_text(base_encoding@), previous, next, *policy, diffs@, 0) == replay_from(
                if i == 0 { start } else { Some(cells_view(result.frame.voxels@)) },
                anchor_map(result.anchors@),
                base,
                sha256_text(base_encoding@),
                previous,
                next,
                *policy,
                diffs@,
                i as int,
            ),
        decreases diffs@.len() - i,
    {
        proof {
            if i == 0 {
                lemma_same_cells_view(result.frame.voxels@, base.voxels@);
            } else {
                lemma_sorted_frame(result.frame.voxels@);
            }
        }
        let ghost before = result.diffs@;
        replay_one(&mut result, base, &expected, previous, next, policy, &diffs[i])?;
        proof {
            assert forall|j: int| 0 <= j < i + 1 implies same_diff(#[trigger] result.diffs@[j], diffs@[j]) by {
                if j < i {
                    assert(result.diffs@[j] == before[j]);
                }
            }
        }
        i = i + 1;
    }
    Ok(result)
}

} // verus!

verus! {

/// Replaying no diffs keeps the base frame and the initial anchors.
pub proof fn law_replay_without_diffs(
    base: &FusedFrame,
    base_encoding: Seq<u8>,
    previous: Option<&FusedFrame>,
    next: Option<&FusedFrame>,
    initial: Map<Seq<char>, [i64; 3]>,
    policy: EditPolicy,
)
    ensures
        spec_replay(base, base_encoding, previous, next, initial, policy, Seq::empty()) == Ok::<
            (Option<Map<[i64; 3], FusedCellView>>, Map<Seq<char>, [i64; 3]>),
            (Fault, Option<usize>),
        >((None, initial)),
{
    let passes = diff_passes(Seq::<FrameEditDiff>::empty());
    assert(passes.len() == 0);
    assert(crate::cleanup::geometry_fault(passes, Set::empty()) is None);
    assert(crate::cleanup::temporal_count(passes) == 0);
}

proof fn lemma_replay_fold(
    state: Option<Map<[i64; 3], FusedCellView>>,
    a: Map<Seq<char>, [i64; 3]>,
    base: &FusedFrame,
    expected: Seq<char>,
    previous: Option<&FusedFrame>,
    next: Option<&FusedFrame>,
    policy: EditPolicy,
    diffs: Seq<FrameEditDiff>,
    d: FrameEditDiff,
    k: int,
)
    requires
        0 <= k <= diffs.len(),
    ensures
        replay_from(state, a, base, expected, previous, next, policy, diffs.push(d), k) == match replay_from(
            state,
            a,
            base,
            expected,
            previous,
            next,
            policy,
            diffs,
            k,
        ) {
            Err(e) => Err(e),
            Ok((s2, a2)) => match diff_step(s2, a2, base, expected, previous, next, policy, d) {
                Err(e) => Err(e),
                Ok((m, a3)) => Ok((Some(m), a3)),
            },
        },
    decreases diffs.len() - k,
{
    let longer = diffs.push(d);
    if k == diffs.len() {
        assert(longer[k] == d);
        match diff_step(state, a, base, expected, previous, next, policy, d) {
            Err(e) => {},
            Ok((m, a3)) => {
                assert(replay_from(Some(m), a3, base, expected, previous, next, policy, longer, k + 1) == Ok::<
                    (Option<Map<[i64; 3], FusedCellView>>, Map<Seq<char>, [i64; 3]>),
                    (Fault, Option<usize>),
                >((Some(m), a3)));
            },
        }
    } else {
        assert(longer[k] == diffs[k]);
        match diff_step(state, a, base, expected, previous, next, policy, diffs[k]) {
            Err(e) => {},
            Ok((m, a2)) => {
                lemma_replay_fold(Some(m), a2, base, expected, previous, next, policy, diffs, d, k + 1);
            },
        }
    }
}

/// Replay is a left fold: replaying one more diff continues from the result
/// of replaying the shorter list (whose pass budget is already in force).
pub proof fn law_replay_is_a_fold(
    state: Option<Map<[i64; 3], FusedCellView>>,
    a: Map<Seq<char>, [i64; 3]>,
    base: &FusedFrame,
    expected: Seq<char>,
    previous: Option<&FusedFrame>,
    next: Option<&FusedFrame>,
    policy: EditPolicy,
    diffs: Seq<FrameEditDiff>,
    d: FrameEditDiff,
)
    ensures
        replay_from(state, a, base, expected, previous, next, policy, diffs.push(d), 0) == match replay_from(
            state,
            a,
            base,
            expected,
            previous,
            next,
            policy,
            diffs,
            0,
        ) {
            Err(e) => Err(e),
            Ok((s2, a2)) => match diff_step(s2, a2, base, expected, previous, next, policy, d) {
                Err(e) => Err(e),
                Ok((m, a3)) => Ok((Some(m), a3)),
            },
        },
{
    lemma_replay_fold(state, a, base, expected, previous, next, policy, diffs, d, 0);
}

/// A diff made by `FrameEditDiff::new` for a base's encoding passes the
/// schema and hash checks of a replay of that base: replaying it alone is
/// applying it to the base cells.
pub proof fn law_fresh_diff_targets_its_base(
    base: &FusedFrame,
    base_encoding: Seq<u8>,
    previous: Option<&FusedFrame>,
    next: Option<&FusedFrame>,
    initial: Map<Seq<char>, [i64; 3]>,
    policy: EditPolicy,
    d: FrameEditDiff,
)
    requires
        d.schema_version == EDIT_DIFF_SCHEMA_VERSION,
        d.base_frame_sha256@ == sha256_text(base_encoding),
        pass_budget_fault(diff_passes(seq![d])) is None,
    ensures
        spec_replay(base, base_encoding, previous, next, initial, policy, seq![d]) == match spec_apply_diff(
            start_cells(base.voxels@),
            initial,
            base,
            previous,
            next,
            policy,
            d,
        ) {
            Err(e) => Err(e),
            Ok((m, a)) => Ok((Some(m), a)),
        },
{
    let s = seq![d];
    assert(s[0] == d);
    match spec_apply_diff(start_cells(base.voxels@), initial, base, previous, next, policy, d) {
        Err(e) => {},
        Ok((m, a)) => {
            assert(replay_from(Some(m), a, base, sha256_text(base_encoding), previous, next, policy, s, 1) == Ok::<
                (Option<Map<[i64; 3], FusedCellView>>, Map<Seq<char>, [i64; 3]>),
                (Fault, Option<usize>),
            >((Some(m), a)));
        },
    }
}

} // verus!

verus! {

proof fn lemma_geometry_prefix(passes: Seq<CleanupPass>, seen: Set<u8>, k: int)
    requires
        0 <= k <= passes.len(),
        crate::cleanup::geometry_fault(passes.take(k), seen) is Some,
    ensures
        crate::cleanup::geometry_fault(passes, seen) is Some,
    decreases passes.len(),
{
    let p = passes.take(k);
    assert(p.len() > 0);
    assert(p[0] == passes[0]);
    assert(p.skip(1) =~= passes.skip(1).take(k - 1));
    match passes[0] {
        CleanupPass::AgentGeometry { pass } => {
            if 1 <= pass <= 3 && !seen.contains(pass) {
                lemma_geometry_prefix(passes.skip(1), seen.insert(pass), k - 1);
            }
        },
        _ => {
            lemma_geometry_prefix(passes.skip(1), seen, k - 1);
        },
    }
}

proof fn lemma_temporal_prefix(passes: Seq<CleanupPass>, k: int)
    requires
        0 <= k <= passes.len(),
    ensures
        crate::cleanup::temporal_count(passes.take(k)) <= crate::cleanup::temporal_count(passes),
    decreases passes.len(),
{
    if k == passes.len() {
        assert(passes.take(k) =~= passes);
    } else {
        assert(passes.take(k) =~= passes.drop_last().take(k));
        lemma_temporal_prefix(passes.drop_last(), k);
    }
}

proof fn lemma_replay_prefix(
    state: Option<Map<[i64; 3], FusedCellView>>,
    a: Map<Seq<char>, [i64; 3]>,
    base: &FusedFrame,
    expected: Seq<char>,
    previous: Option<&FusedFrame>,
    next: Option<&FusedFrame>,
    policy: EditPolicy,
    diffs: Seq<FrameEditDiff>,
    k: int,
    j: int,
)
    requires
        0 <= j <= k <= diffs.len(),
        replay_from(state, a, base, expected, previous, next, policy, diffs.take(k), j) is Err,
    ensures
        replay_from(state, a, base, expected, previous, next, policy, diffs, j) is Err,
    decreases k - j,
{
    if j < k {
        assert(diffs.take(k)[j] == diffs[j]);
        match diff_step(state, a, base, expected, previous, next, policy, diffs[j]) {
            Err(e) => {},
            Ok((m, a2)) => {
                lemma_replay_prefix(Some(m), a2, base, expected, previous, next, policy, diffs, k, j + 1);
            },
        }
    }
}

/// Replay fails on a diff list whenever it fails on some prefix of it: a
/// diff that is refused is never made good by the diffs after it.
pub proof fn law_failing_prefix_fails_replay(
    base: &FusedFrame,
    base_encoding: Seq<u8>,
    previous: Option<&FusedFrame>,
    next: Option<&FusedFrame>,
    initial: Map<Seq<char>, [i64; 3]>,
    policy: EditPolicy,
    diffs: Seq<FrameEditDiff>,
    k: int,
)
    requires
        0 <= k <= diffs.len(),
        spec_replay(base, base_encoding, previous, next, initial, policy, diffs.take(k)) is Err,
    ensures
        spec_replay(base, base_encoding, previous, next, initial, policy, diffs) is Err,
{
    let prefix = diffs.take(k);
    assert(diff_passes(prefix) =~= diff_passes(diffs).take(k));
    if pass_budget_fault(diff_passes(prefix)) is Some {
        if crate::cleanup::geometry_fault(diff_passes(prefix), Set::empty()) is Some {
            lemma_geometry_prefix(diff_passes(diffs), Set::empty(), k);
        } else {
            lemma_temporal_prefix(diff_passes(diffs), k);
        }
    } else if pass_budget_fault(diff_passes(diffs)) is None {
        if k == 0 {
            assert(prefix.len() == 0);
        }
        lemma_replay_prefix(
            start_cells(base.voxels@),
            initial,
            base,
            sha256_text(base_encoding),
            previous,
            next,
            policy,
            diffs,
            k,
            0,
        );
    }
}

} // verus!
