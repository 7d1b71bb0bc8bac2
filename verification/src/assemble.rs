//! Rough assembled frames: the union of the posed parts before joint fusion,
//! and the schedule entries that select poses.

use vstd::prelude::*;

use crate::voxel::spec_bounds;

verus! {

/// Why a pose was selected.
#[derive(Debug, Clone, Copy, PartialEq, Eq, Structural)]
pub enum SelectionReason {
    First,
    Last,
    Event,
    ErrorBudget,
}

/// One selected pose with its independent hold duration.
#[derive(Debug, Clone, PartialEq, Structural)]
pub struct SelectedPose {
    /// Source timestamp in microseconds.
    pub time_microseconds: u64,
    /// How long this pose is held before the next selected pose.
    pub duration_microseconds: u64,
    pub reason: SelectionReason,
}

/// One voxel in a rough assembled frame, with its provenance.
#[derive(Debug, Clone, Copy, PartialEq, Eq)]
pub struct AssembledVoxelCell {
    pub coordinate: [i64; 3],
    pub material_slot: u16,
    /// The canonical part this voxel came from.
    pub part_id: u32,
    /// The source voxel index within that part.
    pub source_voxel_index: u32,
    /// The voxel lies in a joint region that still needs fusion.
    pub needs_fusion: bool,
}

/// A canonical voxel that lost an overlap to an earlier part.
#[derive(Debug, Clone, Copy, PartialEq, Eq)]
pub struct DiscardedCanonicalVoxel {
    pub coordinate: [i64; 3],
    pub part_id: u32,
    pub source_voxel_index: u32,
    pub material_slot: u16,
    pub winner_part_id: u32,
    pub winner_source_voxel_index: u32,
}

/// A rough assembled frame: the union of all bound parts at one pose.
#[derive(Debug, Clone, PartialEq, Eq)]
pub struct RoughFrame {
    pub time_microseconds: u64,
    pub duration_microseconds: u64,
    pub voxels: Vec<AssembledVoxelCell>,
    /// Overlap losers, kept for diagnostics.
    pub discarded_overlaps: Vec<DiscardedCanonicalVoxel>,
}

/// The coordinates of rough-frame voxels, in order.
pub open spec fn rough_coordinates(s: Seq<AssembledVoxelCell>) -> Seq<[i64; 3]> {
    Seq::new(s.len(), |i: int| s[i].coordinate)
}

/// Number of voxels flagged as needing fusion.
pub open spec fn fusion_count(s: Seq<AssembledVoxelCell>) -> nat
    decreases s.len(),
{
    if s.len() == 0 {
        0
    } else {
        fusion_count(s.drop_last()) + if s.last().needs_fusion { 1nat } else { 0nat }
    }
}

impl RoughFrame {
    pub fn len(&self) -> (n: usize)
        ensures
            n == self.voxels@.len(),
    {
        self.voxels.len()
    }

    pub fn is_empty(&self) -> (empty: bool)
        ensures
            empty == (self.voxels@.len() == 0),
    {
        self.voxels.len() == 0
    }

    /// Inclusive bounds of the voxel coordinates.
    pub fn bounds(&self) -> (b: Option<([i64; 3], [i64; 3])>)
        ensures
            b == spec_bounds(rough_coordinates(self.voxels@)),
    {
        let mut coordinates: Vec<[i64; 3]> = Vec::new();
        let mut i: usize = 0;
        while i < self.voxels.len()
            invariant
                i <= self.voxels@.len(),
                coordinates@ == rough_coordinates(self.voxels@.take(i as int)),
            decreases self.voxels@.len() - i,
        {
            coordinates.push(self.voxels[i].coordinate);
            proof {
                assert(rough_coordinates(self.voxels@.take(i + 1)) =~= rough_coordinates(self.voxels@.take(i as int)).push(
                    self.voxels@[i as int].coordinate,
                ));
            }
            i = i + 1;
        }
        assert(self.voxels@.take(self.voxels@.len() as int) =~= self.voxels@);
        crate::voxel::bounds_of(&coordinates)
    }

    /// Voxels flagged as needing joint fusion.
    pub fn fusion_candidates(&self) -> (count: usize)
        ensures
            count == fusion_count(self.voxels@),
    {
        let mut count: usize = 0;
        let mut i: usize = 0;
        while i < self.voxels.len()
            invariant
                i <= self.voxels@.len(),
                count <= i,
                count == fusion_count(self.voxels@.take(i as int)),
            decreases self.voxels@.len() - i,
        {
            proof {
                assert(self.voxels@.take(i + 1).drop_last() =~= self.voxels@.take(i as int));
            }
            if self.voxels[i].needs_fusion {
                count = count + 1;
            }
            i = i + 1;
        }
        assert(self.voxels@.take(self.voxels@.len() as int) =~= self.voxels@);
        count
    }
}

} // verus!
