//! Deriving the edit policy of a kit: the regions an author may edit, the
//! palette, and the canonical geometry the kit protects.

use vstd::prelude::*;
use vstd::string::StringExecFns;

use crate::bundle::kit_error_text;
use crate::cleanup::{bounds_fault, fault, EditBounds, EditError, Fault};
use crate::kit::KitError;
use crate::replay::EditPolicy;
use crate::structural::{in_region, names_contain, FusionKit, FusionPart, ProtectedRegion};

verus! {

/// The source cell lies in one of the part's protected regions.
pub open spec fn protected_cell(part: FusionPart, j: int) -> bool {
    exists|r: int| 0 <= r < part.protected_regions@.len() && in_region(
        part.cells@[j].coordinate,
        #[trigger] part.protected_regions@[r],
    )
}

/// The protected `(part, source voxel)` identities of part `p` among its
/// first `upto` cells, in cell order.
pub open spec fn part_protected(part: FusionPart, p: int, upto: int) -> Seq<(u32, u32)>
    decreases upto,
{
    if upto <= 0 {
        seq![]
    } else {
        part_protected(part, p, upto - 1) + if protected_cell(part, upto - 1) {
            seq![(p as u32, (upto - 1) as u32)]
        } else {
            Seq::<(u32, u32)>::empty()
        }
    }
}

/// The protected identities of the first `upto` parts, part by part.
pub open spec fn kit_protected(kit: FusionKit, upto: int) -> Seq<(u32, u32)>
    decreases upto,
{
    if upto <= 0 {
        seq![]
    } else {
        kit_protected(kit, upto - 1) + part_protected(kit.parts@[upto - 1], upto - 1, kit.parts@[upto - 1].cells@.len() as int)
    }
}

/// The indices of the first `upto` parts named as protected, ascending.
pub open spec fn protected_part_indices(kit: FusionKit, upto: int) -> Seq<u32>
    decreases upto,
{
    if upto <= 0 {
        seq![]
    } else {
        protected_part_indices(kit, upto - 1) + if names_contain(kit.protected_parts@, kit.parts@[upto - 1].id@) {
            seq![(upto - 1) as u32]
        } else {
            Seq::<u32>::empty()
        }
    }
}

/// Some part index, or some protected cell index, does not fit `u32`.
pub open spec fn index_fault_from(kit: FusionKit, p: int) -> Option<Fault>
    decreases kit.parts@.len() - p,
{
    if p < 0 || p >= kit.parts@.len() {
        None
    } else if p > u32::MAX {
        Some(fault("edit.invalidKit", "kit.parts"@, "part index exceeds u32"@))
    } else if exists|j: int| u32::MAX < j < kit.parts@[p].cells@.len() && #[trigger] protected_cell(kit.parts@[p], j) {
        Some(fault("edit.invalidKit", "kit.parts.cells"@, "voxel index exceeds u32"@))
    } else {
        index_fault_from(kit, p + 1)
    }
}

pub open spec fn first_invalid_region(regions: Seq<EditBounds>, k: int) -> Option<EditBounds>
    decreases regions.len() - k,
{
    if k < 0 || k >= regions.len() {
        None
    } else if !regions[k].valid() {
        Some(regions[k])
    } else {
        first_invalid_region(regions, k + 1)
    }
}

/// The first reason the kit and arguments cannot form a policy.
pub open spec fn policy_fault(
    kit: FusionKit,
    kit_check: Result<(), KitError>,
    regions: Seq<EditBounds>,
    max_voxel_count: usize,
) -> Option<Fault> {
    match kit_check {
        Err(e) => Some(fault("edit.invalidKit", "kit"@, kit_error_text(e))),
        Ok(()) => if regions.len() == 0 {
            Some(fault("edit.noDeclaredRegions", "declaredRegions"@, "at least one editable region is required"@))
        } else {
            match first_invalid_region(regions, 0) {
                Some(b) => Some(bounds_fault(b)),
                None => if max_voxel_count == 0 || max_voxel_count > 1_000_000 {
                    Some(fault("edit.invalidQuota", "maxVoxelCount"@, "maxVoxelCount must be within 1..=1000000"@))
                } else {
                    index_fault_from(kit, 0)
                },
            }
        },
    }
}

/// Strictly ascending.
pub open spec fn ascending(v: Seq<u16>) -> bool {
    forall|i: int, j: int| 0 <= i < j < v.len() ==> v[i] < v[j]
}

fn sorted_unique_slots(slots: &Vec<u16>) -> (sorted: Vec<u16>)
    ensures
        ascending(sorted@),
        forall|x: u16| sorted@.contains(x) <==> slots@.contains(x),
{
    let mut sorted: Vec<u16> = Vec::new();
    let mut i: usize = 0;
    while i < slots.len()
        invariant
            i <= slots@.len(),
            ascending(sorted@),
            forall|x: u16| sorted@.contains(x) <==> slots@.take(i as int).contains(x),
        decreases slots@.len() - i,
    {
        let x = slots[i];
        let ghost before = sorted@;
        let mut pos: usize = 0;
        while pos < sorted.len() && sorted[pos] < x
            invariant
                pos <= sorted@.len(),
                sorted@ == before,
                ascending(sorted@),
                forall|k: int| 0 <= k < pos ==> sorted@[k] < x,
            decreases sorted@.len() - pos,
        {
            pos = pos + 1;
        }
        if pos == sorted.len() || sorted[pos] != x {
            sorted.insert(pos, x);
            proof {
                assert(sorted@ =~= before.subrange(0, pos as int).push(x) + before.subrange(pos as int, before.len() as int));
                assert forall|a: int, b: int| 0 <= a < b < sorted@.len() implies sorted@[a] < sorted@[b] by {
                    if b < pos {
                    } else if a < pos && b == pos {
                    } else if a < pos {
                        assert(sorted@[b] == before[b - 1]);
                        assert(before[pos as int] >= x);
                    } else if a == pos {
                        assert(sorted@[b] == before[b - 1]);
                        assert(before[pos as int] >= x);
                        if b - 1 > pos {
                            assert(before[pos as int] < before[b - 1]);
                        }
                    } else {
                        assert(sorted@[a] == before[a - 1] && sorted@[b] == before[b - 1]);
                    }
                }
                assert forall|y: u16| sorted@.contains(y) <==> (before.contains(y) || y == x) by {
                    if sorted@.contains(y) {
                        let k = choose|k: int| 0 <= k < sorted@.len() && sorted@[k] == y;
                        if k < pos {
                            assert(before[k] == y);
                        } else if k > pos {
                            assert(before[k - 1] == y);
                        }
                    }
                    if before.contains(y) {
                        let k = choose|k: int| 0 <= k < before.len() && before[k] == y;
                        if k < pos {
                            assert(sorted@[k] == y);
                        } else {
                            assert(sorted@[k + 1] == y);
                        }
                    }
                    if y == x {
                        assert(sorted@[pos as int] == x);
                    }
                }
            }
        } else {
            proof {
                assert(before[pos as int] == x);
            }
        }
        proof {
            assert(slots@.take(i + 1) =~= slots@.take(i as int).push(x));
            let next = slots@.take(i + 1);
            let prev = slots@.take(i as int);
            assert forall|y: u16| sorted@.contains(y) <==> next.contains(y) by {
                assert(before.contains(y) <==> prev.contains(y));
                if next.contains(y) {
                    let k = choose|k: int| 0 <= k < next.len() && next[k] == y;
                    if k < i {
                        assert(prev[k] == y);
                    }
                }
                if prev.contains(y) {
                    let k = choose|k: int| 0 <= k < prev.len() && prev[k] == y;
                    assert(next[k] == y);
                }
                if y == x {
                    assert(next[i as int] == y);
                }
            }
        }
        i = i + 1;
    }
    proof {
        assert(slots@.take(i as int) =~= slots@);
    }
    sorted
}

fn in_any_region(c: [i64; 3], regions: &Vec<ProtectedRegion>) -> (inside: bool)
    ensures
        inside == exists|r: int| 0 <= r < regions@.len() && in_region(c, #[trigger] regions@[r]),
{
    let mut r: usize = 0;
    while r < regions.len()
        invariant
            r <= regions@.len(),
            forall|q: int| 0 <= q < r ==> !in_region(c, #[trigger] regions@[q]),
        decreases regions@.len() - r,
    {
        let region = &regions[r];
        if region.min[0] <= c[0] && c[0] <= region.max[0] && region.min[1] <= c[1] && c[1] <= region.max[1]
            && region.min[2] <= c[2] && c[2] <= region.max[2] {
            assert(in_region(c, regions@[r as int]));
            return true;
        }
        r = r + 1;
    }
    false
}

impl EditPolicy {
    /// The default edit policy for a kit: the declared regions and voxel
    /// budget, the kit palette, and the canonical cells and parts the kit
    /// protects. `kit_check` is the outcome of validating the kit.
    pub fn for_kit(
        kit: &FusionKit,
        kit_check: Result<(), KitError>,
        declared_regions: Vec<EditBounds>,
        max_voxel_count: usize,
    ) -> (result: Result<EditPolicy, EditError>)
        ensures
            policy_fault(*kit, kit_check, declared_regions@, max_voxel_count) matches Some(f) ==> (result matches Err(
                e,
            ) && e.is_fault(f) && e.spec_operation_index() is None),
            policy_fault(*kit, kit_check, declared_regions@, max_voxel_count) is None ==> (result matches Ok(policy) && {
                &&& policy.declared_regions@ == declared_regions@
                &&& ascending(policy.material_slots@)
                &&& forall|x: u16| policy.material_slots@.contains(x) <==> kit.palette_slots@.contains(x)
                &&& policy.max_voxel_count == max_voxel_count
                &&& policy.max_operation_cells == 262_144
                &&& policy.max_operations_per_diff == 256
                &&& policy.required_anchors@.len() == 0
                &&& policy.protected_origins@ == kit_protected(*kit, kit.parts@.len() as int)
                &&& policy.protected_parts@ == protected_part_indices(*kit, kit.parts@.len() as int)
                &&& policy.protected_dimension_tolerance == [0i64, 0, 0]
                &&& policy.connected_parts@.len() == 0
            }),
    {
        match kit_check {
            Ok(()) => {},
            Err(e) => {
                return Err(EditError::new("edit.invalidKit", "kit", e.to_text()));
            },
        }
        if declared_regions.len() == 0 {
            return Err(
                EditError::new(
                    "edit.noDeclaredRegions",
                    "declaredRegions",
                    String::from_str("at least one editable region is required"),
                ),
            );
        }
        let mut k: usize = 0;
        while k < declared_regions.len()
            invariant
                k <= declared_regions@.len(),
                kit_check is Ok,
                declared_regions@.len() > 0,
                first_invalid_region(declared_regions@, 0) == first_invalid_region(declared_regions@, k as int),
            decreases declared_regions@.len() - k,
        {
            match declared_regions[k].validate() {
                Ok(()) => {},
                Err(e) => {
                    return Err(e);
                },
            }
            k = k + 1;
        }
        if max_voxel_count == 0 || max_voxel_count > 1_000_000 {
            return Err(
                EditError::new(
                    "edit.invalidQuota",
                    "maxVoxelCount",
                    String::from_str("maxVoxelCount must be within 1..=1000000"),
                ),
            );
        }
        let mut protected_origins: Vec<(u32, u32)> = Vec::new();
        let mut protected_parts: Vec<u32> = Vec::new();
        let mut p: usize = 0;
        while p < kit.parts.len()
            invariant
                p <= kit.parts@.len(),
                policy_fault(*kit, kit_check, declared_regions@, max_voxel_count) == index_fault_from(*kit, 0),
                index_fault_from(*kit, 0) == index_fault_from(*kit, p as int),
                protected_origins@ == kit_protected(*kit, p as int),
                protected_parts@ == protected_part_indices(*kit, p as int),
            decreases kit.parts@.len() - p,
        {
            if p > u32::MAX as usize {
                return Err(EditError::new("edit.invalidKit", "kit.parts", String::from_str("part index exceeds u32")));
            }
            let part = &kit.parts[p];
            if crate::structural::names_contain_exec(&kit.protected_parts, &part.id) {
                protected_parts.push(p as u32);
            }
            let ghost start = protected_origins@;
            let mut j: usize = 0;
            while j < part.cells.len()
                invariant
                    p < kit.parts@.len(),
                    p <= u32::MAX,
                    part == &kit.parts@[p as int],
                    j <= part.cells@.len(),
                    policy_fault(*kit, kit_check, declared_regions@, max_voxel_count) == index_fault_from(*kit, 0),
                    index_fault_from(*kit, 0) == index_fault_from(*kit, p as int),
                    forall|i: int| u32::MAX < i < j ==> !#[trigger] protected_cell(*part, i),
                    protected_origins@ == start + part_protected(*part, p as int, j as int),
                decreases part.cells@.len() - j,
            {
                if in_any_region(part.cells[j].coordinate, &part.protected_regions) {
                    if j > u32::MAX as usize {
                        assert(protected_cell(*part, j as int));
                        return Err(
                            EditError::new("edit.invalidKit", "kit.parts.cells", String::from_str("voxel index exceeds u32")),
                        );
                    }
                    protected_origins.push((p as u32, j as u32));
                }
                proof {
                    assert(protected_origins@ =~= start + part_protected(*part, p as int, j + 1));
                }
                j = j + 1;
            }
            proof {
                assert(protected_origins@ =~= kit_protected(*kit, p + 1));
                assert(protected_parts@ =~= protected_part_indices(*kit, p + 1));
            }
            p = p + 1;
        }
        Ok(EditPolicy {
            declared_regions,
            material_slots: sorted_unique_slots(&kit.palette_slots),
            max_voxel_count,
            max_operation_cells: 262_144,
            max_operations_per_diff: 256,
            required_anchors: Vec::new(),
            protected_origins,
            protected_parts,
            protected_dimension_tolerance: [0, 0, 0],
            connected_parts: Vec::new(),
        })
    }
}

} // verus!
