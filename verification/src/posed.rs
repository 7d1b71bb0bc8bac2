//! Authored pose-spec documents: flipbook frames made of per-part pivot
//! rotations and single-level attachment chains over a canonical kit.

use vstd::prelude::*;
use vstd::string::StringExecFns;

use crate::model::{identity_fault, require_identity};
use crate::kit::VoxelKit;
use crate::text::{decimal_text, decimal_u64, starts_with, text_starts_with};

verus! {

pub const POSE_SPEC_SCHEMA_VERSION: u32 = 1;

/// The codec admits at most this many frames per clip.
pub const MAX_POSE_SPEC_FRAMES: usize = 4096;

/// Per-frame duration ceiling (one minute).
pub const MAX_FRAME_DURATION_MICROSECONDS: u64 = 60_000_000;

/// One part's pivot rotation, its euler angles represented by whether all
/// three are finite.
#[derive(Debug, Clone, PartialEq, Eq)]
pub struct PartDelta {
    pub part: String,
    pub angles_finite: bool,
}

/// `child` inherits `parent`'s own rotation about the parent's pivot.
#[derive(Debug, Clone, PartialEq, Eq)]
pub struct PartChain {
    pub child: String,
    pub parent: String,
}

#[derive(Debug, Clone, PartialEq, Eq)]
pub struct PoseSpecFrame {
    pub name: String,
    pub duration_microseconds: u64,
    pub deltas: Vec<PartDelta>,
    pub chains: Vec<PartChain>,
}

#[derive(Debug, Clone, PartialEq, Eq)]
pub struct PoseSpecDocument {
    pub schema_version: u32,
    pub id: String,
    /// Project-relative path of the canonical kit.
    pub kit: String,
    /// Cell downsample applied to every assembled frame: 1, 2, 4 or 8.
    pub cell_downsample: u32,
    pub clip_id: String,
    pub clip_name: String,
    pub frames: Vec<PoseSpecFrame>,
}

/// Some kit part is named `id`.
pub open spec fn kit_has_part(kit: VoxelKit, id: Seq<char>) -> bool {
    exists|p: int| 0 <= p < kit.parts@.len() && (#[trigger] kit.parts@[p]).id@ == id
}

pub open spec fn delta_part_before(deltas: Seq<PartDelta>, k: int, part: Seq<char>) -> bool {
    exists|j: int| 0 <= j < k && (#[trigger] deltas[j]).part@ == part
}

pub open spec fn deltas_fault_from(kit: VoxelKit, frame: Seq<char>, deltas: Seq<PartDelta>, k: int) -> Option<Seq<char>>
    decreases deltas.len() - k,
{
    if k < 0 || k >= deltas.len() {
        None
    } else {
        let d = deltas[k];
        if !kit_has_part(kit, d.part@) {
            Some("frame "@ + frame + " delta names unknown part "@ + d.part@)
        } else if delta_part_before(deltas, k, d.part@) {
            Some("frame "@ + frame + " deltas part "@ + d.part@ + " more than once"@)
        } else if !d.angles_finite {
            Some("frame "@ + frame + " delta for part "@ + d.part@ + " must be finite degrees"@)
        } else {
            deltas_fault_from(kit, frame, deltas, k + 1)
        }
    }
}

pub open spec fn chain_child_in(chains: Seq<PartChain>, k: int, part: Seq<char>) -> bool {
    exists|j: int| 0 <= j < k && (#[trigger] chains[j]).child@ == part
}

pub open spec fn chains_fault_from(kit: VoxelKit, frame: Seq<char>, chains: Seq<PartChain>, k: int) -> Option<Seq<char>>
    decreases chains.len() - k,
{
    if k < 0 || k >= chains.len() {
        None
    } else {
        let c = chains[k];
        if !kit_has_part(kit, c.child@) {
            Some("frame "@ + frame + " chain names unknown child part "@ + c.child@)
        } else if !kit_has_part(kit, c.parent@) {
            Some("frame "@ + frame + " chain names unknown parent part "@ + c.parent@)
        } else if c.child@ == c.parent@ {
            Some("frame "@ + frame + " chains part "@ + c.child@ + " to itself"@)
        } else if chain_child_in(chains, k, c.child@) {
            Some("frame "@ + frame + " chains part "@ + c.child@ + " more than once"@)
        } else if chain_child_in(chains, chains.len() as int, c.parent@) {
            Some("frame "@ + frame + " chain parent "@ + c.parent@ + " is itself chained; chains are single-level"@)
        } else {
            chains_fault_from(kit, frame, chains, k + 1)
        }
    }
}

pub open spec fn frame_name_before(frames: Seq<PoseSpecFrame>, k: int, name: Seq<char>) -> bool {
    exists|j: int| 0 <= j < k && (#[trigger] frames[j]).name@ == name
}

pub open spec fn frame_fault(kit: VoxelKit, frames: Seq<PoseSpecFrame>, k: int) -> Option<Seq<char>> {
    let f = frames[k];
    if identity_fault(f.name@, "frames.name"@) is Some {
        identity_fault(f.name@, "frames.name"@)
    } else if frame_name_before(frames, k, f.name@) {
        Some("frame "@ + f.name@ + " is named more than once"@)
    } else if f.duration_microseconds == 0 || f.duration_microseconds > MAX_FRAME_DURATION_MICROSECONDS {
        Some("frame "@ + f.name@ + " duration must be within 1..=60000000 microseconds"@)
    } else if deltas_fault_from(kit, f.name@, f.deltas@, 0) is Some {
        deltas_fault_from(kit, f.name@, f.deltas@, 0)
    } else {
        chains_fault_from(kit, f.name@, f.chains@, 0)
    }
}

pub open spec fn frames_fault_from(kit: VoxelKit, frames: Seq<PoseSpecFrame>, k: int) -> Option<Seq<char>>
    decreases frames.len() - k,
{
    if k < 0 || k >= frames.len() {
        None
    } else if frame_fault(kit, frames, k) is Some {
        frame_fault(kit, frames, k)
    } else {
        frames_fault_from(kit, frames, k + 1)
    }
}

impl PoseSpecDocument {
    /// The message of the first rule the document breaks against the kit.
    pub open spec fn fault(&self, kit: VoxelKit) -> Option<Seq<char>> {
        if self.schema_version != POSE_SPEC_SCHEMA_VERSION {
            Some("pose spec schema "@ + decimal_text(self.schema_version as int) + " is unsupported; expected 1"@)
        } else if identity_fault(self.id@, "id"@) is Some {
            identity_fault(self.id@, "id"@)
        } else if identity_fault(self.kit@, "kit"@) is Some {
            identity_fault(self.kit@, "kit"@)
        } else if !(self.cell_downsample == 1 || self.cell_downsample == 2 || self.cell_downsample == 4
            || self.cell_downsample == 8) {
            Some("cellDownsample must be one of 1, 2, 4, 8, got "@ + decimal_text(self.cell_downsample as int))
        } else if !starts_with(self.clip_id@, "clip/"@) {
            Some("clip id "@ + self.clip_id@ + " must be a clip/... identity"@)
        } else if identity_fault(self.clip_name@, "clipName"@) is Some {
            identity_fault(self.clip_name@, "clipName"@)
        } else if self.frames@.len() == 0 || self.frames@.len() > MAX_POSE_SPEC_FRAMES {
            Some("pose spec must contain 1..=4096 frames"@)
        } else {
            frames_fault_from(kit, self.frames@, 0)
        }
    }
}

fn kit_has_part_exec(kit: &VoxelKit, id: &String) -> (found: bool)
    ensures
        found == kit_has_part(*kit, id@),
{
    let mut p: usize = 0;
    while p < kit.parts.len()
        invariant
            p <= kit.parts@.len(),
            forall|q: int| 0 <= q < p ==> (#[trigger] kit.parts@[q]).id@ != id@,
        decreases kit.parts@.len() - p,
    {
        if kit.parts[p].id == *id {
            assert(kit.parts@[p as int].id@ == id@);
            return true;
        }
        p = p + 1;
    }
    false
}

fn frame_prefix(name: &String) -> (text: String)
    ensures
        text@ == "frame "@ + name@,
{
    let mut text = String::from_str("frame ");
    text.append(name.as_str());
    text
}

fn check_deltas(kit: &VoxelKit, frame: &String, deltas: &Vec<PartDelta>) -> (result: Result<(), String>)
    ensures
        result is Ok <==> deltas_fault_from(*kit, frame@, deltas@, 0) is None,
        result matches Err(m) ==> Some(m@) == deltas_fault_from(*kit, frame@, deltas@, 0),
{
    let mut k: usize = 0;
    while k < deltas.len()
        invariant
            k <= deltas@.len(),
            deltas_fault_from(*kit, frame@, deltas@, 0) == deltas_fault_from(*kit, frame@, deltas@, k as int),
        decreases deltas@.len() - k,
    {
        let d = &deltas[k];
        if !kit_has_part_exec(kit, &d.part) {
            let mut message = frame_prefix(frame);
            message.append(" delta names unknown part ");
            message.append(d.part.as_str());
            return Err(message);
        }
        let mut j: usize = 0;
        while j < k
            invariant
                j <= k < deltas@.len(),
                *d == deltas@[k as int],
                kit_has_part(*kit, d.part@),
                deltas_fault_from(*kit, frame@, deltas@, 0) == deltas_fault_from(*kit, frame@, deltas@, k as int),
                forall|i: int| 0 <= i < j ==> (#[trigger] deltas@[i]).part@ != d.part@,
            decreases k - j,
        {
            if deltas[j].part == d.part {
                assert(deltas@[j as int].part@ == d.part@);
                assert(delta_part_before(deltas@, k as int, d.part@));
                let mut message = frame_prefix(frame);
                message.append(" deltas part ");
                message.append(d.part.as_str());
                message.append(" more than once");
                return Err(message);
            }
            j = j + 1;
        }
        if !d.angles_finite {
            let mut message = frame_prefix(frame);
            message.append(" delta for part ");
            message.append(d.part.as_str());
            message.append(" must be finite degrees");
            return Err(message);
        }
        k = k + 1;
    }
    Ok(())
}

fn chain_child_in_exec(chains: &Vec<PartChain>, k: usize, part: &String) -> (found: bool)
    requires
        k <= chains@.len(),
    ensures
        found == chain_child_in(chains@, k as int, part@),
{
    let mut j: usize = 0;
    while j < k
        invariant
            j <= k <= chains@.len(),
            forall|i: int| 0 <= i < j ==> (#[trigger] chains@[i]).child@ != part@,
        decreases k - j,
    {
        if chains[j].child == *part {
            assert(chains@[j as int].child@ == part@);
            return true;
        }
        j = j + 1;
    }
    false
}

fn check_chains(kit: &VoxelKit, frame: &String, chains: &Vec<PartChain>) -> (result: Result<(), String>)
    ensures
        result is Ok <==> chains_fault_from(*kit, frame@, chains@, 0) is None,
        result matches Err(m) ==> Some(m@) == chains_fault_from(*kit, frame@, chains@, 0),
{
    let mut k: usize = 0;
    while k < chains.len()
        invariant
            k <= chains@.len(),
            chains_fault_from(*kit, frame@, chains@, 0) == chains_fault_from(*kit, frame@, chains@, k as int),
        decreases chains@.len() - k,
    {
        let c = &chains[k];
        if !kit_has_part_exec(kit, &c.child) {
            let mut message = frame_prefix(frame);
            message.append(" chain names unknown child part ");
            message.append(c.child.as_str());
            return Err(message);
        }
        if !kit_has_part_exec(kit, &c.parent) {
            let mut message = frame_prefix(frame);
            message.append(" chain names unknown parent part ");
            message.append(c.parent.as_str());
            return Err(message);
        }
        if c.child == c.parent {
            let mut message = frame_prefix(frame);
            message.append(" chains part ");
            message.append(c.child.as_str());
            message.append(" to itself");
            return Err(message);
        }
        if chain_child_in_exec(chains, k, &c.child) {
            let mut message = frame_prefix(frame);
            message.append(" chains part ");
            message.append(c.child.as_str());
            message.append(" more than once");
            return Err(message);
        }
        if chain_child_in_exec(chains, chains.len(), &c.parent) {
            let mut message = frame_prefix(frame);
            message.append(" chain parent ");
            message.append(c.parent.as_str());
            message.append(" is itself chained; chains are single-level");
            return Err(message);
        }
        k = k + 1;
    }
    Ok(())
}

fn frame_name_before_exec(frames: &Vec<PoseSpecFrame>, k: usize, name: &String) -> (found: bool)
    requires
        k <= frames@.len(),
    ensures
        found == frame_name_before(frames@, k as int, name@),
{
    let mut j: usize = 0;
    while j < k
        invariant
            j <= k <= frames@.len(),
            forall|i: int| 0 <= i < j ==> (#[trigger] frames@[i]).name@ != name@,
        decreases k - j,
    {
        if frames[j].name == *name {
            assert(frames@[j as int].name@ == name@);
            return true;
        }
        j = j + 1;
    }
    false
}

impl PoseSpecDocument {
    /// Checks the document against the kit it poses and names the first
    /// rule it breaks, with the offending frame and part.
    pub fn validate(&self, kit: &VoxelKit) -> (result: Result<(), String>)
        ensures
            result is Ok <==> self.fault(*kit) is None,
            result matches Err(m) ==> Some(m@) == self.fault(*kit),
    {
        if self.schema_version != POSE_SPEC_SCHEMA_VERSION {
            let mut message = String::from_str("pose spec schema ");
            message.append(decimal_u64(self.schema_version as u64).as_str());
            message.append(" is unsupported; expected 1");
            return Err(message);
        }
        match require_identity(self.id.as_str(), "id") {
            Ok(()) => {},
            Err(m) => {
                return Err(m);
            },
        }
        match require_identity(self.kit.as_str(), "kit") {
            Ok(()) => {},
            Err(m) => {
                return Err(m);
            },
        }
        let d = self.cell_downsample;
        if !(d == 1 || d == 2 || d == 4 || d == 8) {
            let mut message = String::from_str("cellDownsample must be one of 1, 2, 4, 8, got ");
            message.append(decimal_u64(d as u64).as_str());
            return Err(message);
        }
        if !text_starts_with(self.clip_id.as_str(), "clip/") {
            let mut message = String::from_str("clip id ");
            message.append(self.clip_id.as_str());
            message.append(" must be a clip/... identity");
            return Err(message);
        }
        match require_identity(self.clip_name.as_str(), "clipName") {
            Ok(()) => {},
            Err(m) => {
                return Err(m);
            },
        }
        if self.frames.len() == 0 || self.frames.len() > MAX_POSE_SPEC_FRAMES {
            return Err(String::from_str("pose spec must contain 1..=4096 frames"));
        }
        let mut k: usize = 0;
        while k < self.frames.len()
            invariant
                k <= self.frames@.len(),
                self.fault(*kit) == frames_fault_from(*kit, self.frames@, 0),
                frames_fault_from(*kit, self.frames@, 0) == frames_fault_from(*kit, self.frames@, k as int),
            decreases self.frames@.len() - k,
        {
            let frame = &self.frames[k];
            match require_identity(frame.name.as_str(), "frames.name") {
                Ok(()) => {},
                Err(m) => {
                    return Err(m);
                },
            }
            if frame_name_before_exec(&self.frames, k, &frame.name) {
                let mut message = frame_prefix(&frame.name);
                message.append(" is named more than once");
                return Err(message);
            }
            if frame.duration_microseconds == 0 || frame.duration_microseconds > MAX_FRAME_DURATION_MICROSECONDS {
                let mut message = frame_prefix(&frame.name);
                message.append(" duration must be within 1..=60000000 microseconds");
                return Err(message);
            }
            match check_deltas(kit, &frame.name, &frame.deltas) {
                Ok(()) => {},
                Err(m) => {
                    return Err(m);
                },
            }
            match check_chains(kit, &frame.name, &frame.chains) {
                Ok(()) => {},
                Err(m) => {
                    return Err(m);
                },
            }
            k = k + 1;
        }
        Ok(())
    }
}

} // verus!
