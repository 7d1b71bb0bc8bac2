//! Bounded, replayable cleanup edits for deterministic fused frames.
//!
//! Every result regenerates from an immutable fused base plus an ordered list
//! of edit diffs.

use vstd::prelude::*;
use vstd::string::StringExecFns;

use crate::text::{coord_string, coord_text, decimal_text, decimal_u64};
use crate::voxel::{abs_diff, axis_order_path, coordinate_admitted, lemma_coord_eq, step_toward, MAX_COORDINATE_ABS};

verus! {

pub const EDIT_DIFF_SCHEMA_VERSION: u32 = 1;

/// The fixed codes an edit refusal carries.
pub open spec fn edit_code(c: Seq<char>) -> bool {
    c == "edit.baseHashMismatch"@
        || c == "edit.connectivityBridgeTooLong"@
        || c == "edit.coordinateEmpty"@
        || c == "edit.coordinateOccupied"@
        || c == "edit.coordinateOverflow"@
        || c == "edit.duplicateCanonicalIdentity"@
        || c == "edit.invalidAnchor"@
        || c == "edit.invalidBase"@
        || c == "edit.invalidBounds"@
        || c == "edit.invalidBridgeLength"@
        || c == "edit.invalidKit"@
        || c == "edit.invalidLayers"@
        || c == "edit.invalidMaterial"@
        || c == "edit.invalidQuota"@
        || c == "edit.invalidSurfaceThreshold"@
        || c == "edit.metricOverflow"@
        || c == "edit.noDeclaredRegions"@
        || c == "edit.operationQuotaExceeded"@
        || c == "edit.passBudgetExceeded"@
        || c == "edit.protectedDimensionChanged"@
        || c == "edit.protectedPartChanged"@
        || c == "edit.protectedRegionChanged"@
        || c == "edit.regionQuotaExceeded"@
        || c == "edit.requiredAnchorMissing"@
        || c == "edit.requiredComponentDisconnected"@
        || c == "edit.temporalFrameMissing"@
        || c == "edit.undeclaredRegion"@
        || c == "edit.unsupportedSchema"@
        || c == "edit.voxelQuotaExceeded"@
}

/// Every EditError code begins with `edit.`.
pub proof fn law_edit_codes_are_namespaced(c: Seq<char>)
    requires
        edit_code(c),
    ensures
        crate::text::starts_with(c, "edit."@),
{
    reveal_strlit("edit.");
    reveal_strlit("edit.baseHashMismatch");
    reveal_strlit("edit.connectivityBridgeTooLong");
    reveal_strlit("edit.coordinateEmpty");
    reveal_strlit("edit.coordinateOccupied");
    reveal_strlit("edit.coordinateOverflow");
    reveal_strlit("edit.duplicateCanonicalIdentity");
    reveal_strlit("edit.invalidAnchor");
    reveal_strlit("edit.invalidBase");
    reveal_strlit("edit.invalidBounds");
    reveal_strlit("edit.invalidBridgeLength");
    reveal_strlit("edit.invalidKit");
    reveal_strlit("edit.invalidLayers");
    reveal_strlit("edit.invalidMaterial");
    reveal_strlit("edit.invalidQuota");
    reveal_strlit("edit.invalidSurfaceThreshold");
    reveal_strlit("edit.metricOverflow");
    reveal_strlit("edit.noDeclaredRegions");
    reveal_strlit("edit.operationQuotaExceeded");
    reveal_strlit("edit.passBudgetExceeded");
    reveal_strlit("edit.protectedDimensionChanged");
    reveal_strlit("edit.protectedPartChanged");
    reveal_strlit("edit.protectedRegionChanged");
    reveal_strlit("edit.regionQuotaExceeded");
    reveal_strlit("edit.requiredAnchorMissing");
    reveal_strlit("edit.requiredComponentDisconnected");
    reveal_strlit("edit.temporalFrameMissing");
    reveal_strlit("edit.undeclaredRegion");
    reveal_strlit("edit.unsupportedSchema");
    reveal_strlit("edit.voxelQuotaExceeded");
    assert(c == "edit.baseHashMismatch"@ ==> c.subrange(0, 5) =~= "edit."@);
    assert(c == "edit.connectivityBridgeTooLong"@ ==> c.subrange(0, 5) =~= "edit."@);
    assert(c == "edit.coordinateEmpty"@ ==> c.subrange(0, 5) =~= "edit."@);
    assert(c == "edit.coordinateOccupied"@ ==> c.subrange(0, 5) =~= "edit."@);
    assert(c == "edit.coordinateOverflow"@ ==> c.subrange(0, 5) =~= "edit."@);
    assert(c == "edit.duplicateCanonicalIdentity"@ ==> c.subrange(0, 5) =~= "edit."@);
    assert(c == "edit.invalidAnchor"@ ==> c.subrange(0, 5) =~= "edit."@);
    assert(c == "edit.invalidBase"@ ==> c.subrange(0, 5) =~= "edit."@);
    assert(c == "edit.invalidBounds"@ ==> c.subrange(0, 5) =~= "edit."@);
    assert(c == "edit.invalidBridgeLength"@ ==> c.subrange(0, 5) =~= "edit."@);
    assert(c == "edit.invalidKit"@ ==> c.subrange(0, 5) =~= "edit."@);
    assert(c == "edit.invalidLayers"@ ==> c.subrange(0, 5) =~= "edit."@);
    assert(c == "edit.invalidMaterial"@ ==> c.subrange(0, 5) =~= "edit."@);
    assert(c == "edit.invalidQuota"@ ==> c.subrange(0, 5) =~= "edit."@);
    assert(c == "edit.invalidSurfaceThreshold"@ ==> c.subrange(0, 5) =~= "edit."@);
    assert(c == "edit.metricOverflow"@ ==> c.subrange(0, 5) =~= "edit."@);
    assert(c == "edit.noDeclaredRegions"@ ==> c.subrange(0, 5) =~= "edit."@);
    assert(c == "edit.operationQuotaExceeded"@ ==> c.subrange(0, 5) =~= "edit."@);
    assert(c == "edit.passBudgetExceeded"@ ==> c.subrange(0, 5) =~= "edit."@);
    assert(c == "edit.protectedDimensionChanged"@ ==> c.subrange(0, 5) =~= "edit."@);
    assert(c == "edit.protectedPartChanged"@ ==> c.subrange(0, 5) =~= "edit."@);
    assert(c == "edit.protectedRegionChanged"@ ==> c.subrange(0, 5) =~= "edit."@);
    assert(c == "edit.regionQuotaExceeded"@ ==> c.subrange(0, 5) =~= "edit."@);
    assert(c == "edit.requiredAnchorMissing"@ ==> c.subrange(0, 5) =~= "edit."@);
    assert(c == "edit.requiredComponentDisconnected"@ ==> c.subrange(0, 5) =~= "edit."@);
    assert(c == "edit.temporalFrameMissing"@ ==> c.subrange(0, 5) =~= "edit."@);
    assert(c == "edit.undeclaredRegion"@ ==> c.subrange(0, 5) =~= "edit."@);
    assert(c == "edit.unsupportedSchema"@ ==> c.subrange(0, 5) =~= "edit."@);
    assert(c == "edit.voxelQuotaExceeded"@ ==> c.subrange(0, 5) =~= "edit."@);
}

/// Typed edit rejection: a stable code, the offending field path, a message,
/// and the index of the operation that failed, when one did.
#[derive(Debug, PartialEq, Eq)]
pub struct EditError {
    code: &'static str,
    path: String,
    message: String,
    operation_index: Option<usize>,
}

impl EditError {
    #[verifier::type_invariant]
    spec fn well_coded(self) -> bool {
        edit_code(self.code@)
    }

    pub closed spec fn spec_code(&self) -> &'static str {
        self.code
    }

    pub closed spec fn spec_path(&self) -> Seq<char> {
        self.path@
    }

    pub closed spec fn spec_message(&self) -> Seq<char> {
        self.message@
    }

    pub closed spec fn spec_operation_index(&self) -> Option<usize> {
        self.operation_index
    }

    pub(crate) fn new(code: &'static str, path: &str, message: String) -> (error: Self)
        requires
            edit_code(code@),
        ensures
            error.spec_code() == code,
            error.spec_path() == path@,
            error.spec_message() == message@,
            error.spec_operation_index() is None,
    {
        EditError { code, path: String::from_str(path), message, operation_index: None }
    }

    pub(crate) fn at_operation(self, index: usize) -> (error: Self)
        ensures
            error.spec_code() == self.spec_code(),
            error.spec_path() == self.spec_path(),
            error.spec_message() == self.spec_message(),
            error.spec_operation_index() == Some(index),
    {
        proof {
            use_type_invariant(&self);
        }
        EditError { operation_index: Some(index), ..self }
    }

    pub fn code(&self) -> (code: &'static str)
        ensures
            code == self.spec_code(),
            edit_code(code@),
    {
        proof {
            use_type_invariant(self);
        }
        self.code
    }

    pub fn path(&self) -> (path: &str)
        ensures
            path@ == self.spec_path(),
    {
        self.path.as_str()
    }

    pub fn operation_index(&self) -> (index: Option<usize>)
        ensures
            index == self.spec_operation_index(),
    {
        self.operation_index
    }

    /// `code at operations[i].path: message`, or `code at path: message`.
    pub fn to_text(&self) -> (text: String)
        ensures
            self.spec_operation_index() matches Some(i) ==> text@ == self.spec_code()@ + " at operations["@
                + decimal_text(i as int) + "]."@ + self.spec_path() + ": "@ + self.spec_message(),
            self.spec_operation_index() is None ==> text@ == self.spec_code()@ + " at "@ + self.spec_path()
                + ": "@ + self.spec_message(),
    {
        let mut text = String::from_str(self.code);
        match self.operation_index {
            Some(index) => {
                text.append(" at operations[");
                text.append(decimal_u64(index as u64).as_str());
                text.append("].");
            },
            None => {
                text.append(" at ");
            },
        }
        text.append(self.path.as_str());
        text.append(": ");
        text.append(self.message.as_str());
        text
    }
}

/// The content of an edit rejection, as the contracts state it.
pub struct Fault {
    pub code: &'static str,
    pub path: Seq<char>,
    pub message: Seq<char>,
}

pub open spec fn fault(code: &'static str, path: Seq<char>, message: Seq<char>) -> Fault {
    Fault { code, path, message }
}

impl EditError {
    /// This error carries exactly the given code, path and message.
    pub open spec fn is_fault(&self, f: Fault) -> bool {
        &&& self.spec_code() == f.code
        &&& self.spec_path() == f.path
        &&& self.spec_message() == f.message
    }
}

/// The rejection of a region that is out of order or out of range.
pub open spec fn bounds_fault(b: EditBounds) -> Fault {
    fault("edit.invalidBounds", "bounds"@, "invalid bounded region "@ + coord_text(b.min) + ".."@ + coord_text(b.max))
}

/// An inclusive axis-aligned region of voxel coordinates.
#[derive(Debug, Clone, Copy, PartialEq, Eq)]
pub struct EditBounds {
    pub min: [i64; 3],
    pub max: [i64; 3],
}

impl EditBounds {
    pub open spec fn spec_contains(self, c: [i64; 3]) -> bool {
        &&& self.min[0] <= c[0] <= self.max[0]
        &&& self.min[1] <= c[1] <= self.max[1]
        &&& self.min[2] <= c[2] <= self.max[2]
    }

    /// Ordered and inside the admitted coordinate range.
    pub open spec fn valid(self) -> bool {
        &&& self.min[0] <= self.max[0] && self.min[1] <= self.max[1] && self.min[2] <= self.max[2]
        &&& coordinate_admitted(self.min)
        &&& coordinate_admitted(self.max)
    }

    pub open spec fn spec_union(self, other: Self) -> Self {
        EditBounds {
            min: [
                if self.min[0] <= other.min[0] { self.min[0] } else { other.min[0] },
                if self.min[1] <= other.min[1] { self.min[1] } else { other.min[1] },
                if self.min[2] <= other.min[2] { self.min[2] } else { other.min[2] },
            ],
            max: [
                if self.max[0] >= other.max[0] { self.max[0] } else { other.max[0] },
                if self.max[1] >= other.max[1] { self.max[1] } else { other.max[1] },
                if self.max[2] >= other.max[2] { self.max[2] } else { other.max[2] },
            ],
        }
    }

    /// The region holding exactly one coordinate.
    pub fn point(point: [i64; 3]) -> (bounds: Self)
        ensures
            bounds.min == point,
            bounds.max == point,
    {
        EditBounds { min: point, max: point }
    }

    /// Whether `coordinate` lies inside the region.
    pub fn contains(self, coordinate: [i64; 3]) -> (inside: bool)
        ensures
            inside == self.spec_contains(coordinate),
    {
        self.min[0] <= coordinate[0] && coordinate[0] <= self.max[0] && self.min[1] <= coordinate[1]
            && coordinate[1] <= self.max[1] && self.min[2] <= coordinate[2] && coordinate[2]
            <= self.max[2]
    }

    pub(crate) fn validate(self) -> (result: Result<(), EditError>)
        ensures
            result is Ok <==> self.valid(),
            result matches Err(e) ==> e.is_fault(bounds_fault(self)) && e.spec_operation_index() is None,
    {
        let mut axis: usize = 0;
        while axis < 3
            invariant
                axis <= 3,
                forall|a: int| 0 <= a < axis ==> self.min[a] <= self.max[a] && -MAX_COORDINATE_ABS <= #[trigger] self.min[a] <= MAX_COORDINATE_ABS && -MAX_COORDINATE_ABS <= self.max[a] <= MAX_COORDINATE_ABS,
            decreases 3 - axis,
        {
            if self.min[axis] > self.max[axis] || self.min[axis] < -MAX_COORDINATE_ABS
                || self.min[axis] > MAX_COORDINATE_ABS || self.max[axis] < -MAX_COORDINATE_ABS
                || self.max[axis] > MAX_COORDINATE_ABS {
                let mut message = String::from_str("invalid bounded region ");
                message.append(coord_string(self.min).as_str());
                message.append("..");
                message.append(coord_string(self.max).as_str());
                return Err(EditError::new("edit.invalidBounds", "bounds", message));
            }
            axis = axis + 1;
        }
        assert(self.min[0] <= self.max[0] && -MAX_COORDINATE_ABS <= self.min[0] <= MAX_COORDINATE_ABS);
        assert(self.min[1] <= self.max[1] && -MAX_COORDINATE_ABS <= self.min[1] <= MAX_COORDINATE_ABS);
        assert(self.min[2] <= self.max[2] && -MAX_COORDINATE_ABS <= self.min[2] <= MAX_COORDINATE_ABS);
        Ok(())
    }

    pub(crate) fn contains_bounds(self, other: Self) -> (inside: bool)
        ensures
            inside == (self.spec_contains(other.min) && self.spec_contains(other.max)),
    {
        self.contains(other.min) && self.contains(other.max)
    }

    fn union(self, other: Self) -> (joined: Self)
        ensures
            joined == self.spec_union(other),
    {
        let joined = EditBounds {
            min: [
                if self.min[0] <= other.min[0] { self.min[0] } else { other.min[0] },
                if self.min[1] <= other.min[1] { self.min[1] } else { other.min[1] },
                if self.min[2] <= other.min[2] { self.min[2] } else { other.min[2] },
            ],
            max: [
                if self.max[0] >= other.max[0] { self.max[0] } else { other.max[0] },
                if self.max[1] >= other.max[1] { self.max[1] } else { other.max[1] },
                if self.max[2] >= other.max[2] { self.max[2] } else { other.max[2] },
            ],
        };
        proof {
            let s = self.spec_union(other);
            lemma_coord_eq(joined.min, s.min);
            lemma_coord_eq(joined.max, s.max);
        }
        joined
    }

    /// Number of cells per axis, as an exact integer.
    pub open spec fn extent(self, axis: int) -> int {
        self.max[axis] - self.min[axis] + 1
    }

    /// The extent is computable without i64 overflow and fits in usize.
    pub open spec fn extent_ok(self, axis: int) -> bool {
        &&& i64::MIN <= self.max[axis] - self.min[axis] <= i64::MAX
        &&& self.max[axis] - self.min[axis] + 1 <= i64::MAX
        &&& 0 <= self.extent(axis) <= usize::MAX
    }

    /// The cell count is computable in usize, multiplying axis by axis.
    pub open spec fn volume_ok(self) -> bool {
        &&& self.extent_ok(0)
        &&& self.extent_ok(1)
        &&& self.extent(0) * self.extent(1) <= usize::MAX
        &&& self.extent_ok(2)
        &&& self.extent(0) * self.extent(1) * self.extent(2) <= usize::MAX
    }

    fn axis_extent(self, axis: usize) -> (extent: Option<usize>)
        requires
            axis < 3,
        ensures
            extent is Some <==> self.extent_ok(axis as int),
            extent matches Some(e) ==> e == self.extent(axis as int),
    {
        match self.max[axis].checked_sub(self.min[axis]) {
            None => None,
            Some(d) => match d.checked_add(1) {
                None => None,
                Some(e) => {
                    if e < 0 || e as i128 > usize::MAX as i128 {
                        None
                    } else {
                        Some(e as usize)
                    }
                },
            },
        }
    }

    pub(crate) fn volume(self) -> (volume: Result<usize, EditError>)
        ensures
            volume is Ok <==> self.volume_ok(),
            volume matches Ok(v) ==> v == self.extent(0) * self.extent(1) * self.extent(2),
            volume matches Err(e) ==> e.is_fault(fault("edit.regionQuotaExceeded", "bounds"@, "edit-region volume overflowed"@))
                && e.spec_operation_index() is None,
    {
        let e0 = match self.axis_extent(0) {
            Some(e) => e,
            None => {
                return Err(EditError::new("edit.regionQuotaExceeded", "bounds", String::from_str("edit-region volume overflowed")));
            },
        };
        let e1 = match self.axis_extent(1) {
            Some(e) => e,
            None => {
                return Err(EditError::new("edit.regionQuotaExceeded", "bounds", String::from_str("edit-region volume overflowed")));
            },
        };
        let p01 = match e0.checked_mul(e1) {
            Some(p) => p,
            None => {
                return Err(EditError::new("edit.regionQuotaExceeded", "bounds", String::from_str("edit-region volume overflowed")));
            },
        };
        let e2 = match self.axis_extent(2) {
            Some(e) => e,
            None => {
                return Err(EditError::new("edit.regionQuotaExceeded", "bounds", String::from_str("edit-region volume overflowed")));
            },
        };
        match p01.checked_mul(e2) {
            Some(v) => Ok(v),
            None => Err(EditError::new("edit.regionQuotaExceeded", "bounds", String::from_str("edit-region volume overflowed"))),
        }
    }
}

/// Outcome of translating a coordinate: the coordinate, or the fault.
pub open spec fn spec_translate(c: [i64; 3], offset: [i64; 3]) -> Result<[i64; 3], Fault> {
    if !(i64::MIN <= c[0] + offset[0] <= i64::MAX && i64::MIN <= c[1] + offset[1] <= i64::MAX
        && i64::MIN <= c[2] + offset[2] <= i64::MAX) {
        Err(fault("edit.coordinateOverflow", "offset"@, "edit translation overflowed"@))
    } else {
        let t = [(c[0] + offset[0]) as i64, (c[1] + offset[1]) as i64, (c[2] + offset[2]) as i64];
        if coordinate_admitted(t) {
            Ok(t)
        } else {
            Err(bounds_fault(spec_point(t)))
        }
    }
}

/// Translate a coordinate, rejecting overflow and inadmissible results.
fn translate(coordinate: [i64; 3], offset: [i64; 3]) -> (translated: Result<[i64; 3], EditError>)
    ensures
        translated matches Ok(t) ==> spec_translate(coordinate, offset) == Ok::<[i64; 3], Fault>(t),
        translated matches Err(e) ==> spec_translate(coordinate, offset) matches Err(f) && e.is_fault(f)
            && e.spec_operation_index() is None,
{
    let x = coordinate[0].checked_add(offset[0]);
    let y = coordinate[1].checked_add(offset[1]);
    let z = coordinate[2].checked_add(offset[2]);
    match (x, y, z) {
        (Some(x), Some(y), Some(z)) => {
            let t = [x, y, z];
            proof {
                lemma_coord_eq(t, [(coordinate[0] + offset[0]) as i64, (coordinate[1] + offset[1]) as i64, (coordinate[2] + offset[2]) as i64]);
            }
            match EditBounds::point(t).validate() {
                Ok(()) => Ok(t),
                Err(e) => Err(e),
            }
        },
        _ => Err(EditError::new("edit.coordinateOverflow", "offset", String::from_str("edit translation overflowed"))),
    }
}

impl EditBounds {
    /// Outcome of translating a region by an offset.
    pub open spec fn spec_translated(self, offset: [i64; 3]) -> Result<EditBounds, Fault> {
        match spec_translate(self.min, offset) {
            Err(f) => Err(f),
            Ok(lo) => match spec_translate(self.max, offset) {
                Err(f) => Err(f),
                Ok(hi) => {
                    let r = EditBounds { min: lo, max: hi };
                    if r.valid() {
                        Ok(r)
                    } else {
                        Err(bounds_fault(r))
                    }
                },
            },
        }
    }

    fn translated(self, offset: [i64; 3]) -> (moved: Result<Self, EditError>)
        ensures
            moved matches Ok(r) ==> self.spec_translated(offset) == Ok::<EditBounds, Fault>(r),
            moved matches Err(e) ==> self.spec_translated(offset) matches Err(f) && e.is_fault(f)
                && e.spec_operation_index() is None,
    {
        let lo = match translate(self.min, offset) {
            Ok(t) => t,
            Err(e) => {
                return Err(e);
            },
        };
        let hi = match translate(self.max, offset) {
            Ok(t) => t,
            Err(e) => {
                return Err(e);
            },
        };
        let r = EditBounds { min: lo, max: hi };
        match r.validate() {
            Ok(()) => Ok(r),
            Err(e) => Err(e),
        }
    }
}


/// One bounded authoring edit.
#[derive(Debug, Clone, PartialEq, Eq)]
pub enum FrameEditOperation {
    AddVoxel { at: [i64; 3], material_slot: u16 },
    RemoveVoxel { at: [i64; 3] },
    MoveVoxel { from: [i64; 3], to: [i64; 3] },
    FillBox { region: EditBounds, material_slot: u16 },
    ClearBox { region: EditBounds },
    ReplaceMaterial { region: EditBounds, from_material_slot: u16, to_material_slot: u16 },
    BridgeRegions { from: [i64; 3], to: [i64; 3], material_slot: u16 },
    ThickenRegion { region: EditBounds, material_slot: u16, layers: u8 },
    ThinRegion { region: EditBounds, layers: u8 },
    CopyCanonicalRegion { source: EditBounds, offset: [i64; 3] },
    RestoreFromPreviousFrame { region: EditBounds },
    RestoreFromNextFrame { region: EditBounds },
    SmoothLocalSurface { region: EditBounds, material_slot: u16 },
    CarveLocalSurface { region: EditBounds, maximum_face_neighbors: u8 },
    EnforceConnectivity { region: EditBounds, material_slot: u16, maximum_bridge_length: u32 },
    ShiftComponent { region: EditBounds, offset: [i64; 3] },
    SetAnchor { id: String, position: [i64; 3] },
}

pub open spec fn spec_point(p: [i64; 3]) -> EditBounds {
    EditBounds { min: p, max: p }
}

/// The region an operation reads or writes, before validation.
pub open spec fn raw_affected_bounds(operation: FrameEditOperation) -> Result<EditBounds, Fault> {
    match operation {
        FrameEditOperation::AddVoxel { at, .. } => Ok(spec_point(at)),
        FrameEditOperation::RemoveVoxel { at } => Ok(spec_point(at)),
        FrameEditOperation::MoveVoxel { from, to } => Ok(spec_point(from).spec_union(spec_point(to))),
        FrameEditOperation::BridgeRegions { from, to, .. } => Ok(spec_point(from).spec_union(spec_point(to))),
        FrameEditOperation::FillBox { region, .. } => Ok(region),
        FrameEditOperation::ClearBox { region } => Ok(region),
        FrameEditOperation::ReplaceMaterial { region, .. } => Ok(region),
        FrameEditOperation::ThickenRegion { region, .. } => Ok(region),
        FrameEditOperation::ThinRegion { region, .. } => Ok(region),
        FrameEditOperation::RestoreFromPreviousFrame { region } => Ok(region),
        FrameEditOperation::RestoreFromNextFrame { region } => Ok(region),
        FrameEditOperation::SmoothLocalSurface { region, .. } => Ok(region),
        FrameEditOperation::CarveLocalSurface { region, .. } => Ok(region),
        FrameEditOperation::EnforceConnectivity { region, .. } => Ok(region),
        FrameEditOperation::CopyCanonicalRegion { source, offset } => match source.spec_translated(offset) {
            Ok(t) => Ok(source.spec_union(t)),
            Err(f) => Err(f),
        },
        FrameEditOperation::ShiftComponent { region, offset } => match region.spec_translated(offset) {
            Ok(t) => Ok(region.spec_union(t)),
            Err(f) => Err(f),
        },
        FrameEditOperation::SetAnchor { position, .. } => Ok(spec_point(position)),
    }
}

/// The validated region an operation affects, or the fault it reports.
pub open spec fn spec_affected_bounds(operation: FrameEditOperation) -> Result<EditBounds, Fault> {
    match raw_affected_bounds(operation) {
        Err(f) => Err(f),
        Ok(b) => if b.valid() {
            Ok(b)
        } else {
            Err(bounds_fault(b))
        },
    }
}

impl FrameEditOperation {
    /// The validated region this operation affects.
    pub fn affected_bounds(&self) -> (bounds: Result<EditBounds, EditError>)
        ensures
            bounds matches Ok(b) ==> spec_affected_bounds(*self) == Ok::<EditBounds, Fault>(b),
            bounds matches Err(e) ==> spec_affected_bounds(*self) matches Err(f) && e.is_fault(f)
                && e.spec_operation_index() is None,
    {
        let bounds = match self {
            FrameEditOperation::AddVoxel { at, .. } => EditBounds::point(*at),
            FrameEditOperation::RemoveVoxel { at } => EditBounds::point(*at),
            FrameEditOperation::MoveVoxel { from, to } => EditBounds::point(*from).union(EditBounds::point(*to)),
            FrameEditOperation::BridgeRegions { from, to, .. } => EditBounds::point(*from).union(EditBounds::point(*to)),
            FrameEditOperation::FillBox { region, .. } => *region,
            FrameEditOperation::ClearBox { region } => *region,
            FrameEditOperation::ReplaceMaterial { region, .. } => *region,
            FrameEditOperation::ThickenRegion { region, .. } => *region,
            FrameEditOperation::ThinRegion { region, .. } => *region,
            FrameEditOperation::RestoreFromPreviousFrame { region } => *region,
            FrameEditOperation::RestoreFromNextFrame { region } => *region,
            FrameEditOperation::SmoothLocalSurface { region, .. } => *region,
            FrameEditOperation::CarveLocalSurface { region, .. } => *region,
            FrameEditOperation::EnforceConnectivity { region, .. } => *region,
            FrameEditOperation::CopyCanonicalRegion { source, offset } => match source.translated(*offset) {
                Ok(t) => source.union(t),
                Err(e) => {
                    return Err(e);
                },
            },
            FrameEditOperation::ShiftComponent { region, offset } => match region.translated(*offset) {
                Ok(t) => region.union(t),
                Err(e) => {
                    return Err(e);
                },
            },
            FrameEditOperation::SetAnchor { position, .. } => EditBounds::point(*position),
        };
        match bounds.validate() {
            Ok(()) => Ok(bounds),
            Err(e) => Err(e),
        }
    }
}

/// Which cleanup pass produced a diff.
#[derive(Debug, Clone, Copy, PartialEq, Eq, Structural)]
pub enum CleanupPass {
    AgentGeometry { pass: u8 },
    Temporal,
    Human,
}

/// An ordered list of edits against one deterministic base frame.
#[derive(Debug, Clone, PartialEq, Eq)]
pub struct FrameEditDiff {
    pub schema_version: u32,
    pub base_frame_sha256: String,
    pub pass: CleanupPass,
    pub operations: Vec<FrameEditOperation>,
}

pub open spec fn duplicate_pass_message(pass: u8) -> Seq<char> {
    "agent geometry pass "@ + decimal_text(pass as int) + " is duplicated"@
}

pub open spec fn outside_pass_message(pass: u8) -> Seq<char> {
    "agent geometry pass "@ + decimal_text(pass as int) + " is outside 1..=3"@
}

/// First geometry-pass fault when scanning `passes` with `seen` already used.
pub open spec fn geometry_fault(passes: Seq<CleanupPass>, seen: Set<u8>) -> Option<Seq<char>>
    decreases passes.len(),
{
    if passes.len() == 0 {
        None
    } else {
        match passes[0] {
            CleanupPass::AgentGeometry { pass } => if 1 <= pass <= 3 {
                if seen.contains(pass) {
                    Some(duplicate_pass_message(pass))
                } else {
                    geometry_fault(passes.skip(1), seen.insert(pass))
                }
            } else {
                Some(outside_pass_message(pass))
            },
            _ => geometry_fault(passes.skip(1), seen),
        }
    }
}

pub open spec fn temporal_count(passes: Seq<CleanupPass>) -> nat
    decreases passes.len(),
{
    if passes.len() == 0 {
        0
    } else {
        (if passes.last() is Temporal { 1nat } else { 0nat }) + temporal_count(passes.drop_last())
    }
}

/// The budget fault of a diff list: at most one geometry pass of each number
/// 1..=3 and at most one temporal pass.
pub open spec fn pass_budget_fault(passes: Seq<CleanupPass>) -> Option<Seq<char>> {
    match geometry_fault(passes, Set::empty()) {
        Some(message) => Some(message),
        None => if temporal_count(passes) > 1 {
            Some("at most one temporal pass is allowed"@)
        } else {
            None
        },
    }
}

pub open spec fn diff_passes(diffs: Seq<FrameEditDiff>) -> Seq<CleanupPass> {
    Seq::new(diffs.len(), |i: int| diffs[i].pass)
}

pub(crate) fn validate_pass_budget(diffs: &[FrameEditDiff]) -> (result: Result<(), EditError>)
    ensures
        result is Ok <==> pass_budget_fault(diff_passes(diffs@)) is None,
        result matches Err(e) ==> e.spec_code() == "edit.passBudgetExceeded" && e.spec_path() == "pass"@
            && Some(e.spec_message()) == pass_budget_fault(diff_passes(diffs@)) && e.spec_operation_index() is None,
{
    let ghost passes = diff_passes(diffs@);
    let mut seen1 = false;
    let mut seen2 = false;
    let mut seen3 = false;
    let mut temporal: usize = 0;
    let mut i: usize = 0;
    proof {
        assert(passes.skip(0) =~= passes);
        assert(Set::<u8>::empty() =~= Set::new(|p: u8| (p == 1 && seen1) || (p == 2 && seen2) || (p == 3 && seen3)));
    }
    while i < diffs.len()
        invariant
            i <= diffs@.len(),
            passes == diff_passes(diffs@),
            temporal == temporal_count(passes.take(i as int)),
            temporal <= i,
            geometry_fault(passes, Set::empty()) == geometry_fault(
                passes.skip(i as int),
                Set::new(|p: u8| (p == 1 && seen1) || (p == 2 && seen2) || (p == 3 && seen3)),
            ),
        decreases diffs@.len() - i,
    {
        let ghost seen = Set::new(|p: u8| (p == 1 && seen1) || (p == 2 && seen2) || (p == 3 && seen3));
        let ghost rest = passes.skip(i as int);
        proof {
            assert(rest[0] == diffs@[i as int].pass);
            assert(rest.skip(1) =~= passes.skip(i + 1));
            assert(passes.take(i + 1).drop_last() =~= passes.take(i as int));
            assert(passes.take(i + 1).last() == diffs@[i as int].pass);
        }
        match diffs[i].pass {
            CleanupPass::AgentGeometry { pass } => {
                if 1 <= pass && pass <= 3 {
                    let duplicate = if pass == 1 { seen1 } else if pass == 2 { seen2 } else { seen3 };
                    if duplicate {
                        let mut message = String::from_str("agent geometry pass ");
                        message.append(decimal_u64(pass as u64).as_str());
                        message.append(" is duplicated");
                        return Err(EditError::new("edit.passBudgetExceeded", "pass", message));
                    }
                    if pass == 1 {
                        seen1 = true;
                    } else if pass == 2 {
                        seen2 = true;
                    } else {
                        seen3 = true;
                    }
                    proof {
                        assert(seen.insert(pass) =~= Set::new(|p: u8| (p == 1 && seen1) || (p == 2 && seen2) || (p == 3 && seen3)));
                    }
                } else {
                    let mut message = String::from_str("agent geometry pass ");
                    message.append(decimal_u64(pass as u64).as_str());
                    message.append(" is outside 1..=3");
                    return Err(EditError::new("edit.passBudgetExceeded", "pass", message));
                }
            },
            CleanupPass::Temporal => {
                temporal = temporal + 1;
            },
            CleanupPass::Human => {},
        }
        i = i + 1;
    }
    proof {
        assert(passes.take(diffs@.len() as int) =~= passes);
        assert(passes.skip(diffs@.len() as int).len() == 0);
    }
    if temporal > 1 {
        return Err(EditError::new("edit.passBudgetExceeded", "pass", String::from_str("at most one temporal pass is allowed")));
    }
    Ok(())
}

pub open spec fn layers_valid(layers: u8) -> bool {
    1 <= layers <= 8
}

pub(crate) fn validate_layers(layers: u8) -> (result: Result<(), EditError>)
    ensures
        result is Ok <==> layers_valid(layers),
        result matches Err(e) ==> e.spec_code() == "edit.invalidLayers" && e.spec_path() == "layers"@
            && e.spec_message() == "layers must be within 1..=8"@ && e.spec_operation_index() is None,
{
    if layers < 1 || layers > 8 {
        return Err(EditError::new("edit.invalidLayers", "layers", String::from_str("layers must be within 1..=8")));
    }
    Ok(())
}

/// `after - before` as a signed count; fails when either exceeds i64.
pub(crate) fn signed_delta(after: usize, before: usize) -> (delta: Result<i64, EditError>)
    ensures
        delta is Ok <==> after <= i64::MAX && before <= i64::MAX,
        delta matches Ok(d) ==> d == after - before,
        delta matches Err(e) ==> e.spec_code() == "edit.metricOverflow" && e.spec_path() == "metrics"@,
{
    if after as u128 > i64::MAX as u128 {
        return Err(EditError::new("edit.metricOverflow", "metrics", String::from_str("after metric does not fit i64")));
    }
    if before as u128 > i64::MAX as u128 {
        return Err(EditError::new("edit.metricOverflow", "metrics", String::from_str("before metric does not fit i64")));
    }
    Ok(after as i64 - before as i64)
}

/// `a + d` clamped to the i64 range.
pub open spec fn saturating(a: i64, d: int) -> i64 {
    if a + d > i64::MAX {
        i64::MAX
    } else if a + d < i64::MIN {
        i64::MIN
    } else {
        (a + d) as i64
    }
}

/// Face neighbor `k` with saturating arithmetic.
pub open spec fn spec_neighbor(c: [i64; 3], k: int) -> [i64; 3] {
    let off = crate::voxel::face_offset(k);
    [saturating(c[0], off[0] as int), saturating(c[1], off[1] as int), saturating(c[2], off[2] as int)]
}

fn saturating_exec(a: i64, d: i64) -> (r: i64)
    requires
        -1 <= d <= 1,
    ensures
        r == saturating(a, d as int),
{
    if d > 0 && a == i64::MAX {
        a
    } else if d < 0 && a == i64::MIN {
        a
    } else {
        a + d
    }
}

/// The six face neighbors of a coordinate, clamped to the i64 range.
pub(crate) fn neighbor(c: [i64; 3], k: usize) -> (n: [i64; 3])
    requires
        k < 6,
    ensures
        n == spec_neighbor(c, k as int),
{
    let off = crate::voxel::face_offset_exec(k);
    let n = [saturating_exec(c[0], off[0]), saturating_exec(c[1], off[1]), saturating_exec(c[2], off[2])];
    proof {
        lemma_coord_eq(n, spec_neighbor(c, k as int));
    }
    n
}

/// Path from `from` to `to` that walks x, then y, then z, one cell per step.
pub open spec fn spec_edit_path(from: [i64; 3], to: [i64; 3]) -> Seq<[i64; 3]> {
    seq![from] + axis_order_path(from, to, 0)
}

pub(crate) fn manhattan_path(from: [i64; 3], to: [i64; 3]) -> (path: Vec<[i64; 3]>)
    requires
        crate::voxel::manhattan_distance(from, to) < usize::MAX,
    ensures
        path@ == spec_edit_path(from, to),
{
    let mut current = from;
    let mut path: Vec<[i64; 3]> = vec![from];
    let mut axis: usize = 0;
    while axis < 3
        invariant
            axis <= 3,
            path@ + axis_order_path(current, to, axis as int) == spec_edit_path(from, to),
            forall|a: int| axis <= a < 3 ==> current[a] == from[a],
            forall|a: int| 0 <= a < axis ==> current[a] == to[a],
        decreases 3 - axis,
    {
        while current[axis] != to[axis]
            invariant
                axis < 3,
                path@ + axis_order_path(current, to, axis as int) == spec_edit_path(from, to),
                forall|a: int| axis < a < 3 ==> current[a] == from[a],
                forall|a: int| 0 <= a < axis ==> current[a] == to[a],
            decreases abs_diff(current[axis as int], to[axis as int]),
        {
            let moved = if current[axis] < to[axis] { current[axis] + 1 } else { current[axis] - 1 };
            let next = if axis == 0 {
                [moved, current[1], current[2]]
            } else if axis == 1 {
                [current[0], moved, current[2]]
            } else {
                [current[0], current[1], moved]
            };
            proof {
                lemma_coord_eq(next, step_toward(current, to, axis as int));
                assert(axis_order_path(current, to, axis as int) == seq![next] + axis_order_path(next, to, axis as int));
                assert(path@.push(next) + axis_order_path(next, to, axis as int) =~= path@ + axis_order_path(current, to, axis as int));
            }
            path.push(next);
            current = next;
        }
        axis = axis + 1;
    }
    assert(path@ + axis_order_path(current, to, 3) =~= path@);
    path
}

/// Manhattan distance over the axes `axis..3` only.
pub open spec fn remaining_distance(c: [i64; 3], t: [i64; 3], axis: int) -> int {
    (if axis <= 0 { abs_diff(c[0], t[0]) } else { 0 }) + (if axis <= 1 { abs_diff(c[1], t[1]) } else { 0 }) + (if axis
        <= 2 {
        abs_diff(c[2], t[2])
    } else {
        0
    })
}

proof fn lemma_axis_path(cur: [i64; 3], to: [i64; 3], axis: int)
    requires
        0 <= axis <= 3,
        forall|a: int| 0 <= a < axis ==> cur[a] == to[a],
    ensures
        axis_order_path(cur, to, axis).len() == remaining_distance(cur, to, axis),
        axis_order_path(cur, to, axis).len() == 0 ==> cur == to,
        axis_order_path(cur, to, axis).len() > 0 ==> crate::voxel::manhattan_distance(cur, axis_order_path(cur, to, axis)[0]) == 1
            && axis_order_path(cur, to, axis).last() == to,
        forall|i: int| 0 <= i < axis_order_path(cur, to, axis).len() - 1 ==> crate::voxel::manhattan_distance(
            #[trigger] axis_order_path(cur, to, axis)[i],
            axis_order_path(cur, to, axis)[i + 1],
        ) == 1,
    decreases 3 - axis, abs_diff(cur[axis], to[axis]),
{
    broadcast use vstd::array::group_array_axioms;

    if axis >= 3 {
        lemma_coord_eq(cur, to);
    } else if cur[axis] == to[axis] {
        lemma_axis_path(cur, to, axis + 1);
    } else {
        let next = step_toward(cur, to, axis);
        lemma_axis_path(next, to, axis);
        let rest = axis_order_path(next, to, axis);
        let p = axis_order_path(cur, to, axis);
        assert(p == seq![next] + rest);
        if rest.len() == 0 {
            assert(next == to);
        }
        assert forall|i: int| 0 <= i < p.len() - 1 implies crate::voxel::manhattan_distance(#[trigger] p[i], p[i + 1]) == 1 by {
            if i == 0 {
                assert(p[0] == next && p[1] == rest[0]);
            } else {
                assert(p[i] == rest[i - 1] && p[i + 1] == rest[i]);
            }
        }
    }
}

/// The cleanup bridge path starts at `from`, ends at `to`, has one cell per
/// unit of Manhattan distance plus one, and each step crosses one face.
pub proof fn law_edit_path_face_connected(from: [i64; 3], to: [i64; 3])
    ensures
        spec_edit_path(from, to).len() == crate::voxel::manhattan_distance(from, to) + 1,
        spec_edit_path(from, to)[0] == from,
        spec_edit_path(from, to).last() == to,
        forall|i: int| 0 <= i < spec_edit_path(from, to).len() - 1 ==> crate::voxel::manhattan_distance(
            #[trigger] spec_edit_path(from, to)[i],
            spec_edit_path(from, to)[i + 1],
        ) == 1,
{
    lemma_axis_path(from, to, 0);
    let rest = axis_order_path(from, to, 0);
    assert(spec_edit_path(from, to) == seq![from] + rest);
    let p = spec_edit_path(from, to);
    assert(remaining_distance(from, to, 0) == crate::voxel::manhattan_distance(from, to));
    assert forall|i: int| 0 <= i < p.len() - 1 implies crate::voxel::manhattan_distance(#[trigger] p[i], p[i + 1]) == 1 by {
        if i == 0 {
            assert(p[0] == from && p[1] == rest[0]);
        } else {
            assert(p[i] == rest[i - 1] && p[i + 1] == rest[i]);
        }
    }
}

} // verus!
