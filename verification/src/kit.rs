//! Canonical voxel kit vocabulary: voxel identities and provenance, the
//! assembled neutral frame, and the identity rules a kit declares.

use vstd::prelude::*;
use vstd::string::StrSliceExecFns;
use vstd::string::StringExecFns;

use crate::cellmap::{sorted_by_loc, Located};
use crate::text::{
    canonical_text, coord_string, coord_text, debug_string, debug_text, decimal_text, decimal_u64, is_canonical_text,
    text_equals,
};
use crate::voxel::{coord_less, coord_lt, lemma_coord_lt_total, lemma_bounds_contain, lemma_coord_eq, seq_min_axis, spec_bounds};
use crate::cellmap::{contains, index_at, insert_absent, lemma_map_at, lemma_sorted_unique, located_map, occupies};

verus! {

/// Current canonical kit schema version.
pub const KIT_SCHEMA_VERSION: u32 = 1;

/// Stable identity of one voxel within a part: the part's index and the
/// cell's index in the part's sorted cell list.
#[derive(Debug, Clone, Copy, PartialEq, Eq, PartialOrd, Ord, Hash, Structural)]
pub struct CanonicalVoxelId {
    pub part_index: u32,
    pub voxel_index: u32,
}

/// Where an assembled voxel came from.
#[derive(Debug, Clone, Copy, PartialEq, Eq, Hash, Structural)]
pub enum VoxelOrigin {
    Canonical(CanonicalVoxelId),
}

/// One occupied cell in a part, with its material slot.
#[derive(Debug, Clone, Copy, PartialEq, Eq, PartialOrd, Ord)]
pub struct KitCell {
    pub coordinate: [i64; 3],
    pub material_slot: u16,
}

/// One voxel of the assembled neutral frame, with its provenance.
#[derive(Debug, Clone, Copy, PartialEq, Eq)]
pub struct AssembledVoxel {
    pub coordinate: [i64; 3],
    pub material_slot: u16,
    pub origin: VoxelOrigin,
}

impl Located for AssembledVoxel {
    open spec fn loc(&self) -> [i64; 3] {
        self.coordinate
    }

    fn location(&self) -> (c: [i64; 3]) {
        self.coordinate
    }
}

/// The assembled neutral character: voxels keyed by coordinate, listed in
/// ascending coordinate order.
#[derive(Debug, Clone, PartialEq, Eq)]
pub struct AssembledFrame {
    pub voxels: Vec<AssembledVoxel>,
}

/// The coordinates of the voxels, in order.
pub open spec fn voxel_coordinates(s: Seq<AssembledVoxel>) -> Seq<[i64; 3]> {
    Seq::new(s.len(), |i: int| s[i].coordinate)
}

pub open spec fn fnv_prime() -> u64 {
    0x0000_0100_0000_01b3
}

pub open spec fn fnv_offset() -> u64 {
    0xcbf2_9ce4_8422_2325
}

/// One FNV-1a step: xor the value in, multiply by the prime modulo 2^64.
pub open spec fn fnv_step(hash: u64, value: u64) -> u64 {
    vstd::wrapping::u64_specs::wrapping_mul(hash ^ value, fnv_prime())
}

/// The hash after absorbing one voxel: its three coordinates (as two's
/// complement u64), then its material slot.
pub open spec fn voxel_step(hash: u64, v: AssembledVoxel) -> u64 {
    fnv_step(
        fnv_step(fnv_step(fnv_step(hash, v.coordinate[0] as u64), v.coordinate[1] as u64), v.coordinate[2] as u64),
        v.material_slot as u64,
    )
}

/// The content fingerprint of voxels absorbed in order.
pub open spec fn spec_fingerprint(s: Seq<AssembledVoxel>) -> u64
    decreases s.len(),
{
    if s.len() == 0 {
        fnv_offset()
    } else {
        voxel_step(spec_fingerprint(s.drop_last()), s.last())
    }
}

fn fnv_exec(hash: u64, value: u64) -> (h: u64)
    ensures
        h == fnv_step(hash, value),
{
    (hash ^ value).wrapping_mul(0x0000_0100_0000_01b3)
}

impl AssembledFrame {
    /// Voxels are strictly ascending by coordinate (one per coordinate).
    pub open spec fn wf(&self) -> bool {
        sorted_by_loc(self.voxels@)
    }

    pub fn len(&self) -> (n: usize)
        ensures
            n == self.voxels@.len(),
    {
        self.voxels.len()
    }

    pub fn is_empty(&self) -> (empty: bool)
        ensures
            empty == (self.voxels@.len() == 0),
    {
        self.voxels.len() == 0
    }

    /// Inclusive bounds of the occupied coordinates.
    pub fn bounds(&self) -> (b: Option<([i64; 3], [i64; 3])>)
        ensures
            b == spec_bounds(voxel_coordinates(self.voxels@)),
    {
        let mut coordinates: Vec<[i64; 3]> = Vec::new();
        let mut i: usize = 0;
        while i < self.voxels.len()
            invariant
                i <= self.voxels@.len(),
                coordinates@ == voxel_coordinates(self.voxels@.take(i as int)),
            decreases self.voxels@.len() - i,
        {
            coordinates.push(self.voxels[i].coordinate);
            proof {
                assert(voxel_coordinates(self.voxels@.take(i + 1)) =~= voxel_coordinates(self.voxels@.take(i as int)).push(
                    self.voxels@[i as int].coordinate,
                ));
            }
            i = i + 1;
        }
        assert(self.voxels@.take(self.voxels@.len() as int) =~= self.voxels@);
        crate::voxel::bounds_of(&coordinates)
    }

    /// Deterministic content fingerprint (FNV-1a over coordinates and
    /// materials, in coordinate order).
    pub fn fingerprint(&self) -> (hash: u64)
        ensures
            hash == spec_fingerprint(self.voxels@),
    {
        let mut hash: u64 = 0xcbf2_9ce4_8422_2325;
        let mut i: usize = 0;
        while i < self.voxels.len()
            invariant
                i <= self.voxels@.len(),
                hash == spec_fingerprint(self.voxels@.take(i as int)),
            decreases self.voxels@.len() - i,
        {
            let v = self.voxels[i];
            hash = fnv_exec(hash, v.coordinate[0] as u64);
            hash = fnv_exec(hash, v.coordinate[1] as u64);
            hash = fnv_exec(hash, v.coordinate[2] as u64);
            hash = fnv_exec(hash, v.material_slot as u64);
            proof {
                assert(self.voxels@.take(i + 1).drop_last() =~= self.voxels@.take(i as int));
            }
            i = i + 1;
        }
        assert(self.voxels@.take(self.voxels@.len() as int) =~= self.voxels@);
        hash
    }
}

/// Kit validation or assembly failure, with an actionable message.
#[derive(Debug)]
pub enum KitError {
    Validation(String),
    Assembly(String),
}

impl KitError {
    pub fn validation(message: String) -> (error: KitError)
        ensures
            error matches KitError::Validation(m) && m@ == message@,
    {
        KitError::Validation(message)
    }

    /// `kit validation: message` or `kit assembly: message`.
    pub fn to_text(&self) -> (text: String)
        ensures
            self matches KitError::Validation(m) ==> text@ == "kit validation: "@ + m@,
            self matches KitError::Assembly(m) ==> text@ == "kit assembly: "@ + m@,
    {
        match self {
            KitError::Validation(m) => {
                let mut text = String::from_str("kit validation: ");
                text.append(m.as_str());
                text
            },
            KitError::Assembly(m) => {
                let mut text = String::from_str("kit assembly: ");
                text.append(m.as_str());
                text
            },
        }
    }
}

/// `Err` unless the value is non-empty canonical text (no surrounding white
/// space).
pub fn require_identity(value: &str, path: &str) -> (result: Result<(), String>)
    ensures
        result is Ok <==> canonical_text(value@),
        result matches Err(m) ==> m@ == path@ + " must be non-empty canonical text"@,
{
    if !is_canonical_text(value) {
        let mut message = String::from_str(path);
        message.append(" must be non-empty canonical text");
        return Err(message);
    }
    Ok(())
}

/// The position of the first `.` at or after `k`.
pub open spec fn first_dot_from(m: Seq<char>, k: int) -> Option<int>
    decreases m.len() - k,
{
    if k >= m.len() || k < 0 {
        None
    } else if m[k] == '.' {
        Some(k)
    } else {
        first_dot_from(m, k + 1)
    }
}

/// A `<partId>.<socketId>` reference: both halves non-empty, one dot.
pub open spec fn mate_split(m: Seq<char>) -> Option<int> {
    match first_dot_from(m, 0) {
        Some(i) => if i > 0 && i + 1 < m.len() && first_dot_from(m, i + 1) is None {
            Some(i)
        } else {
            None
        },
        None => None,
    }
}

pub open spec fn mate_message(m: Seq<char>) -> Seq<char> {
    "mate "@ + debug_text(m) + " must be <partId>.<socketId>"@
}

pub(crate) fn first_dot(m: &str, start: usize) -> (found: Option<usize>)
    requires
        start <= m@.len(),
    ensures
        found matches Some(i) ==> first_dot_from(m@, start as int) == Some(i as int) && i < m@.len(),
        found is None ==> first_dot_from(m@, start as int) is None,
{
    let n = m.unicode_len();
    let mut k = start;
    while k < n
        invariant
            start <= k <= n,
            n == m@.len(),
            first_dot_from(m@, start as int) == first_dot_from(m@, k as int),
        decreases n - k,
    {
        if m.get_char(k) == '.' {
            return Some(k);
        }
        k = k + 1;
    }
    None
}

/// Split a `<partId>.<socketId>` reference.
pub fn parse_mate(mate: &str) -> (result: Result<(&str, &str), String>)
    ensures
        result is Ok <==> mate_split(mate@) is Some,
        result matches Ok((part, socket)) ==> part@ == mate@.subrange(0, mate_split(mate@).unwrap())
            && socket@ == mate@.subrange(mate_split(mate@).unwrap() + 1, mate@.len() as int),
        result matches Err(m) ==> m@ == mate_message(mate@),
{
    let n = mate.unicode_len();
    let fail = |mate: &str| -> (m: String)
        ensures
            m@ == mate_message(mate@),
        {
            let mut m = String::from_str("mate ");
            m.append(debug_string(mate).as_str());
            m.append(" must be <partId>.<socketId>");
            m
        };
    match first_dot(mate, 0) {
        None => Err(fail(mate)),
        Some(i) => {
            if i == 0 || i + 1 >= n {
                return Err(fail(mate));
            }
            if first_dot(mate, i + 1).is_some() {
                return Err(fail(mate));
            }
            Ok((mate.substring_char(0, i), mate.substring_char(i + 1, n)))
        },
    }
}

/// Identity rules every downstream frame must respect.
#[derive(Debug, Clone, PartialEq)]
pub struct IdentityInvariants {
    /// Minimum thickness (in cells) any limb part must retain anywhere.
    pub min_limb_thickness: u32,
    /// Parts that may not be removed or have their protected regions carved.
    pub protected_parts: Vec<String>,
    /// Allowed volume range (in cells) for the whole character.
    pub volume_range: Option<[u64; 2]>,
    /// Sockets (as `<partId>.<socketId>`) that must remain present.
    pub required_sockets: Vec<String>,
}

/// The first required socket that is not a well-formed mate reference.
pub open spec fn bad_socket_from(sockets: Seq<String>, k: int) -> Option<Seq<char>>
    decreases sockets.len() - k,
{
    if k >= sockets.len() || k < 0 {
        None
    } else if mate_split(sockets[k]@) is None {
        Some(sockets[k]@)
    } else {
        bad_socket_from(sockets, k + 1)
    }
}

impl IdentityInvariants {
    /// The message of the first failed rule, if any.
    pub open spec fn fault(&self) -> Option<Seq<char>> {
        if self.min_limb_thickness == 0 {
            Some("invariants.minLimbThickness must be >= 1"@)
        } else if self.volume_range matches Some(r) && r[0] > r[1] {
            Some("invariants.volumeRange must be [min, max]"@)
        } else {
            match bad_socket_from(self.required_sockets@, 0) {
                Some(s) => Some(mate_message(s)),
                None => None,
            }
        }
    }

    pub fn validate(&self) -> (result: Result<(), KitError>)
        ensures
            result is Ok <==> self.fault() is None,
            result matches Err(e) ==> e matches KitError::Validation(m) && Some(m@) == self.fault(),
    {
        if self.min_limb_thickness == 0 {
            return Err(KitError::validation(String::from_str("invariants.minLimbThickness must be >= 1")));
        }
        if let Some(range) = self.volume_range {
            if range[0] > range[1] {
                return Err(KitError::validation(String::from_str("invariants.volumeRange must be [min, max]")));
            }
        }
        let mut k: usize = 0;
        while k < self.required_sockets.len()
            invariant
                k <= self.required_sockets@.len(),
                self.min_limb_thickness != 0,
                !(self.volume_range matches Some(r) && r[0] > r[1]),
                bad_socket_from(self.required_sockets@, 0) == bad_socket_from(self.required_sockets@, k as int),
            decreases self.required_sockets@.len() - k,
        {
            match parse_mate(self.required_sockets[k].as_str()) {
                Ok(_) => {},
                Err(message) => {
                    return Err(KitError::validation(message));
                },
            }
            k = k + 1;
        }
        Ok(())
    }
}

} // verus!

verus! {

/// A named attachment point on a part. Its floating-point geometry is held
/// as the facts the kit rules read of it.
#[derive(Debug, Clone, PartialEq)]
pub struct Socket {
    pub id: String,
    /// All three position coordinates are finite.
    pub position_finite: bool,
    /// All three forward components are finite.
    pub forward_finite: bool,
    /// The forward vector is at least 1e-6 long.
    pub forward_nonzero: bool,
    /// The joint radius is finite and positive.
    pub radius_positive: bool,
    /// Optional explicit mate: `<partId>.<socketId>`.
    pub mate: Option<String>,
}

/// One rigid voxel part: a sorted integer cell set plus a pivot and sockets.
#[derive(Debug, Clone, PartialEq)]
pub struct KitPart {
    pub id: String,
    pub version: u32,
    pub pivot: [i64; 3],
    /// Occupied cells in part-local coordinates, strictly ascending.
    pub cells: Vec<KitCell>,
    pub sockets: Vec<Socket>,
    /// Palette group names this part draws from.
    pub palette_groups: Vec<String>,
    pub symmetry_partner: Option<String>,
}

/// One material slot; its RGBA color is held as whether every channel is a
/// finite value within `0.0..=1.0`.
#[derive(Debug, Clone, PartialEq)]
pub struct PaletteSlot {
    pub slot: u16,
    pub display_name: String,
    pub color_in_range: bool,
}

#[derive(Debug, Clone, PartialEq)]
pub struct PaletteGroup {
    pub name: String,
    pub slots: Vec<PaletteSlot>,
}

/// Coordinate and scale declaration; the voxel size is held as whether it
/// is finite and positive.
#[derive(Debug, Clone, PartialEq)]
pub struct CoordinateConvention {
    pub coordinate_system: String,
    pub forward_axis: String,
    pub voxel_size_positive: bool,
    pub ground_y: i64,
    pub neutral_facing: [i64; 3],
}

/// A canonical exploded character kit: the identity source of truth.
#[derive(Debug, Clone, PartialEq)]
pub struct VoxelKit {
    pub schema_version: u32,
    pub id: String,
    pub version: u32,
    pub convention: CoordinateConvention,
    pub palette: Vec<PaletteGroup>,
    pub parts: Vec<KitPart>,
    pub invariants: IdentityInvariants,
}

pub open spec fn identity_message(path: Seq<char>) -> Seq<char> {
    path + " must be non-empty canonical text"@
}

impl CoordinateConvention {
    pub open spec fn fault(&self) -> Option<Seq<char>> {
        if self.coordinate_system@ != "right_handed_y_up"@ {
            Some("coordinateSystem must be right_handed_y_up, got "@ + self.coordinate_system@)
        } else if self.forward_axis@ != "-Z"@ {
            Some("forwardAxis must be -Z, got "@ + self.forward_axis@)
        } else if !self.voxel_size_positive {
            Some("voxelSizeMeters must be positive"@)
        } else {
            None
        }
    }
}

/// The index of the first socket named `id`, from `k` on.
pub open spec fn first_socket_from(sockets: Seq<Socket>, id: Seq<char>, k: int) -> Option<int>
    decreases sockets.len() - k,
{
    if k < 0 || k >= sockets.len() {
        None
    } else if sockets[k].id@ == id {
        Some(k)
    } else {
        first_socket_from(sockets, id, k + 1)
    }
}

/// The index of the first part named `id`, from `k` on.
pub open spec fn first_part_from(parts: Seq<KitPart>, id: Seq<char>, k: int) -> Option<int>
    decreases parts.len() - k,
{
    if k < 0 || k >= parts.len() {
        None
    } else if parts[k].id@ == id {
        Some(k)
    } else {
        first_part_from(parts, id, k + 1)
    }
}

/// Some palette group is named `name`.
pub open spec fn group_named(palette: Seq<PaletteGroup>, name: Seq<char>) -> bool {
    exists|g: int| 0 <= g < palette.len() && (#[trigger] palette[g]).name@ == name
}

/// Some palette slot anywhere has id `slot`.
pub open spec fn slot_known(palette: Seq<PaletteGroup>, slot: u16) -> bool {
    exists|g: int, t: int| 0 <= g < palette.len() && 0 <= t < palette[g].slots@.len()
        && (#[trigger] palette[g].slots@[t]).slot == slot
}

/// A slot with id `slot` comes before slot `s` of group `g`.
pub open spec fn slot_seen_before(palette: Seq<PaletteGroup>, g: int, s: int, slot: u16) -> bool {
    (exists|h: int, t: int| 0 <= h < g && 0 <= t < palette[h].slots@.len()
        && (#[trigger] palette[h].slots@[t]).slot == slot)
    || (exists|t: int| 0 <= t < s && (#[trigger] palette[g].slots@[t]).slot == slot)
}

pub open spec fn socket_head(part_id: Seq<char>, socket_id: Seq<char>) -> Seq<char> {
    "part "@ + part_id + " socket "@ + socket_id + ": "@
}

/// The first rule a socket of part `part_id` breaks.
pub open spec fn socket_fault(part_id: Seq<char>, s: Socket) -> Option<Seq<char>> {
    if !canonical_text(s.id@) {
        Some("part "@ + part_id + ": "@ + identity_message("socket.id"@))
    } else if !s.position_finite {
        Some(socket_head(part_id, s.id@) + "position must be finite"@)
    } else if !s.forward_finite {
        Some(socket_head(part_id, s.id@) + "forward must be finite"@)
    } else if !s.forward_nonzero {
        Some(socket_head(part_id, s.id@) + "forward must be a non-zero direction"@)
    } else if !s.radius_positive {
        Some(socket_head(part_id, s.id@) + "radius must be positive"@)
    } else if s.mate matches Some(m) && mate_split(m@) is None {
        Some(socket_head(part_id, s.id@) + mate_message(s.mate.unwrap()@))
    } else {
        None
    }
}

pub open spec fn sockets_fault_from(part_id: Seq<char>, sockets: Seq<Socket>, k: int) -> Option<Seq<char>>
    decreases sockets.len() - k,
{
    if k < 0 || k >= sockets.len() {
        None
    } else if socket_fault(part_id, sockets[k]) is Some {
        socket_fault(part_id, sockets[k])
    } else if first_socket_from(sockets, sockets[k].id@, 0) != Some(k) {
        Some("part "@ + part_id + ": "@ + "duplicate socket id "@ + sockets[k].id@)
    } else {
        sockets_fault_from(part_id, sockets, k + 1)
    }
}

/// The index of the first cell, from `k` on, that does not sort strictly
/// after its predecessor.
pub open spec fn first_unsorted_from(cells: Seq<KitCell>, k: int) -> Option<int>
    decreases cells.len() - k,
{
    if k < 1 || k >= cells.len() {
        None
    } else if !coord_lt(cells[k - 1].coordinate, cells[k].coordinate) {
        Some(k)
    } else {
        first_unsorted_from(cells, k + 1)
    }
}

/// The index of the first cell, from `k` on, that uses the reserved slot 0.
pub open spec fn first_zero_slot_from(cells: Seq<KitCell>, k: int) -> Option<int>
    decreases cells.len() - k,
{
    if k < 0 || k >= cells.len() {
        None
    } else if cells[k].material_slot == 0 {
        Some(k)
    } else {
        first_zero_slot_from(cells, k + 1)
    }
}

/// The index of the first cell, from `k` on, whose slot no palette group
/// declares.
pub open spec fn first_unknown_slot_from(palette: Seq<PaletteGroup>, cells: Seq<KitCell>, k: int) -> Option<int>
    decreases cells.len() - k,
{
    if k < 0 || k >= cells.len() {
        None
    } else if !slot_known(palette, cells[k].material_slot) {
        Some(k)
    } else {
        first_unknown_slot_from(palette, cells, k + 1)
    }
}

pub open spec fn first_unknown_group_from(palette: Seq<PaletteGroup>, names: Seq<String>, k: int) -> Option<int>
    decreases names.len() - k,
{
    if k < 0 || k >= names.len() {
        None
    } else if !group_named(palette, names[k]@) {
        Some(k)
    } else {
        first_unknown_group_from(palette, names, k + 1)
    }
}

/// The first rule a part breaks on its own, against the palette's groups.
pub open spec fn part_fault(palette: Seq<PaletteGroup>, p: KitPart) -> Option<Seq<char>> {
    let head = "part "@ + p.id@ + ": "@;
    if !canonical_text(p.id@) {
        Some(identity_message("part.id"@))
    } else if p.version == 0 {
        Some(head + "version must be >= 1"@)
    } else if p.cells@.len() == 0 {
        Some(head + "must occupy at least one cell"@)
    } else if first_unsorted_from(p.cells@, 1) is Some {
        Some(head + "cells must be sorted and deduplicated (out of order at "@
            + coord_text(p.cells@[first_unsorted_from(p.cells@, 1).unwrap()].coordinate) + ")"@)
    } else if first_zero_slot_from(p.cells@, 0) is Some {
        Some(head + "cell "@ + coord_text(p.cells@[first_zero_slot_from(p.cells@, 0).unwrap()].coordinate)
            + " uses reserved material slot 0"@)
    } else if sockets_fault_from(p.id@, p.sockets@, 0) is Some {
        sockets_fault_from(p.id@, p.sockets@, 0)
    } else if first_unknown_group_from(palette, p.palette_groups@, 0) is Some {
        Some(head + "references unknown palette group "@
            + p.palette_groups@[first_unknown_group_from(palette, p.palette_groups@, 0).unwrap()]@)
    } else if p.symmetry_partner matches Some(s) && !canonical_text(s@) {
        Some(identity_message("part.symmetryPartner"@))
    } else {
        None
    }
}

pub open spec fn slots_fault_from(palette: Seq<PaletteGroup>, g: int, s: int) -> Option<Seq<char>>
    decreases palette[g].slots@.len() - s,
{
    if s < 0 || s >= palette[g].slots@.len() {
        None
    } else {
        let slot = palette[g].slots@[s];
        if slot.slot == 0 {
            Some("palette group "@ + palette[g].name@ + " uses reserved slot 0"@)
        } else if slot_seen_before(palette, g, s, slot.slot) {
            Some("duplicate material slot "@ + decimal_text(slot.slot as int) + " across palette"@)
        } else if !slot.color_in_range {
            Some("palette slot "@ + decimal_text(slot.slot as int) + " color out of range"@)
        } else {
            slots_fault_from(palette, g, s + 1)
        }
    }
}

pub open spec fn palette_fault_from(palette: Seq<PaletteGroup>, g: int) -> Option<Seq<char>>
    decreases palette.len() - g,
{
    if g < 0 || g >= palette.len() {
        None
    } else if !canonical_text(palette[g].name@) {
        Some(identity_message("palette.name"@))
    } else if exists|j: int| 0 <= j < g && (#[trigger] palette[j]).name@ == palette[g].name@ {
        Some("duplicate palette group "@ + palette[g].name@)
    } else if slots_fault_from(palette, g, 0) is Some {
        slots_fault_from(palette, g, 0)
    } else {
        palette_fault_from(palette, g + 1)
    }
}

pub open spec fn parts_fault_from(palette: Seq<PaletteGroup>, parts: Seq<KitPart>, k: int) -> Option<Seq<char>>
    decreases parts.len() - k,
{
    if k < 0 || k >= parts.len() {
        None
    } else if part_fault(palette, parts[k]) is Some {
        part_fault(palette, parts[k])
    } else if first_part_from(parts, parts[k].id@, 0) != Some(k) {
        Some("duplicate part id "@ + parts[k].id@)
    } else {
        parts_fault_from(palette, parts, k + 1)
    }
}

/// The first mate of part `p`'s sockets, from socket `s` on, that does not
/// resolve to a socket of a kit part.
pub open spec fn mates_fault_from(parts: Seq<KitPart>, p: KitPart, s: int) -> Option<Seq<char>>
    decreases p.sockets@.len() - s,
{
    if s < 0 || s >= p.sockets@.len() {
        None
    } else {
        let socket = p.sockets@[s];
        match socket.mate {
            None => mates_fault_from(parts, p, s + 1),
            Some(m) => match mate_split(m@) {
                None => Some(mate_message(m@)),
                Some(i) => {
                    let mate_part = m@.subrange(0, i);
                    let mate_socket = m@.subrange(i + 1, m@.len() as int);
                    let head = "part "@ + p.id@ + " socket "@ + socket.id@ + ": "@;
                    match first_part_from(parts, mate_part, 0) {
                        None => Some(head + "mate part "@ + mate_part + " is not a part"@),
                        Some(t) => if first_socket_from(parts[t].sockets@, mate_socket, 0) is None {
                            Some(head + "mate socket "@ + mate_socket + " missing on "@ + mate_part)
                        } else {
                            mates_fault_from(parts, p, s + 1)
                        },
                    }
                },
            },
        }
    }
}

/// The first cross-reference among the parts, from part `k` on, that does
/// not resolve: symmetry partners, cell material slots, socket mates.
pub open spec fn cross_fault_from(palette: Seq<PaletteGroup>, parts: Seq<KitPart>, k: int) -> Option<Seq<char>>
    decreases parts.len() - k,
{
    if k < 0 || k >= parts.len() {
        None
    } else {
        let p = parts[k];
        if p.symmetry_partner matches Some(s) && first_part_from(parts, s@, 0) is None {
            Some("part "@ + p.id@ + ": "@ + "symmetry partner "@ + p.symmetry_partner.unwrap()@ + " is not a part"@)
        } else if first_unknown_slot_from(palette, p.cells@, 0) is Some {
            let c = p.cells@[first_unknown_slot_from(palette, p.cells@, 0).unwrap()];
            Some("part "@ + p.id@ + ": "@ + "cell "@ + coord_text(c.coordinate) + " uses unknown material slot "@
                + decimal_text(c.material_slot as int))
        } else if mates_fault_from(parts, p, 0) is Some {
            mates_fault_from(parts, p, 0)
        } else {
            cross_fault_from(palette, parts, k + 1)
        }
    }
}

/// The first required socket, from `k` on, that names no socket of a part.
pub open spec fn required_fault_from(parts: Seq<KitPart>, required: Seq<String>, k: int) -> Option<Seq<char>>
    decreases required.len() - k,
{
    if k < 0 || k >= required.len() {
        None
    } else {
        let r = required[k]@;
        match mate_split(r) {
            None => Some(mate_message(r)),
            Some(i) => {
                let part_id = r.subrange(0, i);
                let socket_id = r.subrange(i + 1, r.len() as int);
                match first_part_from(parts, part_id, 0) {
                    None => Some("required socket "@ + r + ": part "@ + part_id + " is not a part"@),
                    Some(t) => if first_socket_from(parts[t].sockets@, socket_id, 0) is None {
                        Some("required socket "@ + r + ": socket "@ + socket_id + " missing on "@ + part_id)
                    } else {
                        required_fault_from(parts, required, k + 1)
                    },
                }
            },
        }
    }
}

impl VoxelKit {
    /// The message of the first rule the kit breaks, in the order the kit is
    /// checked: header, convention, invariants, palette, parts, then the
    /// cross-references and required sockets.
    pub open spec fn fault(&self) -> Option<Seq<char>> {
        if self.schema_version != KIT_SCHEMA_VERSION {
            Some("kit schema "@ + decimal_text(self.schema_version as int) + " is unsupported; expected 1"@)
        } else if !canonical_text(self.id@) {
            Some(identity_message("kit.id"@))
        } else if self.version == 0 {
            Some("kit.version must be >= 1"@)
        } else if self.convention.fault() is Some {
            self.convention.fault()
        } else if self.invariants.fault() is Some {
            self.invariants.fault()
        } else if palette_fault_from(self.palette@, 0) is Some {
            palette_fault_from(self.palette@, 0)
        } else if parts_fault_from(self.palette@, self.parts@, 0) is Some {
            parts_fault_from(self.palette@, self.parts@, 0)
        } else if self.parts@.len() == 0 {
            Some("kit must contain at least one part"@)
        } else if cross_fault_from(self.palette@, self.parts@, 0) is Some {
            cross_fault_from(self.palette@, self.parts@, 0)
        } else {
            required_fault_from(self.parts@, self.invariants.required_sockets@, 0)
        }
    }
}

} // verus!

verus! {

pub(crate) fn find_socket(sockets: &Vec<Socket>, id: &str) -> (found: Option<usize>)
    ensures
        found matches Some(i) ==> first_socket_from(sockets@, id@, 0) == Some(i as int) && i < sockets@.len(),
        found is None ==> first_socket_from(sockets@, id@, 0) is None,
{
    let mut k: usize = 0;
    while k < sockets.len()
        invariant
            k <= sockets@.len(),
            first_socket_from(sockets@, id@, 0) == first_socket_from(sockets@, id@, k as int),
        decreases sockets@.len() - k,
    {
        if text_equals(sockets[k].id.as_str(), id) {
            return Some(k);
        }
        k = k + 1;
    }
    None
}

pub(crate) fn find_part(parts: &Vec<KitPart>, id: &str) -> (found: Option<usize>)
    ensures
        found matches Some(i) ==> first_part_from(parts@, id@, 0) == Some(i as int) && i < parts@.len(),
        found is None ==> first_part_from(parts@, id@, 0) is None,
{
    let mut k: usize = 0;
    while k < parts.len()
        invariant
            k <= parts@.len(),
            first_part_from(parts@, id@, 0) == first_part_from(parts@, id@, k as int),
        decreases parts@.len() - k,
    {
        if text_equals(parts[k].id.as_str(), id) {
            return Some(k);
        }
        k = k + 1;
    }
    None
}

impl KitPart {
    /// The first socket named `id`.
    pub fn socket(&self, id: &str) -> (found: Option<&Socket>)
        ensures
            found matches Some(s) ==> first_socket_from(self.sockets@, id@, 0) matches Some(i) && *s
                == self.sockets@[i],
            found is None ==> first_socket_from(self.sockets@, id@, 0) is None,
    {
        match find_socket(&self.sockets, id) {
            Some(i) => Some(&self.sockets[i]),
            None => None,
        }
    }
}

/// Total cells over the parts.
pub open spec fn cells_total(parts: Seq<KitPart>) -> int
    decreases parts.len(),
{
    if parts.len() == 0 {
        0
    } else {
        cells_total(parts.drop_last()) + parts.last().cells@.len()
    }
}

impl VoxelKit {
    /// The first part named `id`.
    pub fn part(&self, id: &str) -> (found: Option<&KitPart>)
        ensures
            found matches Some(p) ==> first_part_from(self.parts@, id@, 0) matches Some(i) && *p == self.parts@[i],
            found is None ==> first_part_from(self.parts@, id@, 0) is None,
    {
        match find_part(&self.parts, id) {
            Some(i) => Some(&self.parts[i]),
            None => None,
        }
    }

    /// Total occupied canonical cells across all parts.
    pub fn total_cells(&self) -> (total: usize)
        requires
            cells_total(self.parts@) <= usize::MAX,
        ensures
            total == cells_total(self.parts@),
    {
        let mut total: usize = 0;
        let mut k: usize = 0;
        while k < self.parts.len()
            invariant
                k <= self.parts@.len(),
                cells_total(self.parts@) <= usize::MAX,
                total == cells_total(self.parts@.take(k as int)),
            decreases self.parts@.len() - k,
        {
            proof {
                assert(self.parts@.take(k + 1).drop_last() =~= self.parts@.take(k as int));
                lemma_cells_total_prefix(self.parts@, k + 1);
            }
            total = total + self.parts[k].cells.len();
            k = k + 1;
        }
        assert(self.parts@.take(self.parts@.len() as int) =~= self.parts@);
        total
    }
}

proof fn lemma_cells_total_prefix(parts: Seq<KitPart>, n: int)
    requires
        0 <= n <= parts.len(),
    ensures
        cells_total(parts.take(n)) <= cells_total(parts),
    decreases parts.len(),
{
    if n < parts.len() {
        assert(parts.drop_last().take(n) =~= parts.take(n));
        lemma_cells_total_prefix(parts.drop_last(), n);
    } else {
        assert(parts.take(n) =~= parts);
    }
}

} // verus!

verus! {

fn socket_head_string(part_id: &str, socket_id: &str) -> (text: String)
    ensures
        text@ == socket_head(part_id@, socket_id@),
{
    let mut text = String::from_str("part ");
    text.append(part_id);
    text.append(" socket ");
    text.append(socket_id);
    text.append(": ");
    text
}

fn part_head_string(part_id: &str) -> (text: String)
    ensures
        text@ == "part "@ + part_id@ + ": "@,
{
    let mut text = String::from_str("part ");
    text.append(part_id);
    text.append(": ");
    text
}

fn check_socket(part_id: &str, s: &Socket) -> (result: Result<(), String>)
    ensures
        result is Ok <==> socket_fault(part_id@, *s) is None,
        result matches Err(m) ==> Some(m@) == socket_fault(part_id@, *s),
{
    if let Err(m) = require_identity(s.id.as_str(), "socket.id") {
        let mut message = part_head_string(part_id);
        message.append(m.as_str());
        return Err(message);
    }
    let mut message = socket_head_string(part_id, s.id.as_str());
    if !s.position_finite {
        message.append("position must be finite");
        return Err(message);
    }
    if !s.forward_finite {
        message.append("forward must be finite");
        return Err(message);
    }
    if !s.forward_nonzero {
        message.append("forward must be a non-zero direction");
        return Err(message);
    }
    if !s.radius_positive {
        message.append("radius must be positive");
        return Err(message);
    }
    if let Some(mate) = &s.mate {
        if let Err(m) = parse_mate(mate.as_str()) {
            message.append(m.as_str());
            return Err(message);
        }
    }
    Ok(())
}

fn check_sockets(part_id: &str, sockets: &Vec<Socket>) -> (result: Result<(), String>)
    ensures
        result is Ok <==> sockets_fault_from(part_id@, sockets@, 0) is None,
        result matches Err(m) ==> Some(m@) == sockets_fault_from(part_id@, sockets@, 0),
{
    let mut k: usize = 0;
    while k < sockets.len()
        invariant
            k <= sockets@.len(),
            sockets_fault_from(part_id@, sockets@, 0) == sockets_fault_from(part_id@, sockets@, k as int),
        decreases sockets@.len() - k,
    {
        check_socket(part_id, &sockets[k])?;
        let first = find_socket(sockets, sockets[k].id.as_str());
        if !(first matches Some(f) && f == k) {
            let mut message = part_head_string(part_id);
            message.append("duplicate socket id ");
            message.append(sockets[k].id.as_str());
            return Err(message);
        }
        k = k + 1;
    }
    Ok(())
}

pub(crate) fn group_named_exec(palette: &Vec<PaletteGroup>, name: &str) -> (found: bool)
    ensures
        found == group_named(palette@, name@),
{
    let mut g: usize = 0;
    while g < palette.len()
        invariant
            g <= palette@.len(),
            forall|h: int| 0 <= h < g ==> (#[trigger] palette@[h]).name@ != name@,
        decreases palette@.len() - g,
    {
        if text_equals(palette[g].name.as_str(), name) {
            return true;
        }
        g = g + 1;
    }
    false
}

fn check_part(palette: &Vec<PaletteGroup>, p: &KitPart) -> (result: Result<(), String>)
    ensures
        result is Ok <==> part_fault(palette@, *p) is None,
        result matches Err(m) ==> Some(m@) == part_fault(palette@, *p),
{
    require_identity(p.id.as_str(), "part.id")?;
    if p.version == 0 {
        let mut message = part_head_string(p.id.as_str());
        message.append("version must be >= 1");
        return Err(message);
    }
    if p.cells.len() == 0 {
        let mut message = part_head_string(p.id.as_str());
        message.append("must occupy at least one cell");
        return Err(message);
    }
    let mut i: usize = 1;
    while i < p.cells.len()
        invariant
            1 <= i <= p.cells@.len(),
            canonical_text(p.id@),
            p.version != 0,
            first_unsorted_from(p.cells@, 1) == first_unsorted_from(p.cells@, i as int),
        decreases p.cells@.len() - i,
    {
        if !coord_less(p.cells[i - 1].coordinate, p.cells[i].coordinate) {
            assert(first_unsorted_from(p.cells@, i as int) == Some(i as int));
            let mut message = part_head_string(p.id.as_str());
            message.append("cells must be sorted and deduplicated (out of order at ");
            message.append(coord_string(p.cells[i].coordinate).as_str());
            message.append(")");
            return Err(message);
        }
        i = i + 1;
    }
    let mut i: usize = 0;
    while i < p.cells.len()
        invariant
            i <= p.cells@.len(),
            canonical_text(p.id@),
            p.version != 0,
            p.cells@.len() > 0,
            first_unsorted_from(p.cells@, 1) is None,
            first_zero_slot_from(p.cells@, 0) == first_zero_slot_from(p.cells@, i as int),
        decreases p.cells@.len() - i,
    {
        if p.cells[i].material_slot == 0 {
            assert(first_zero_slot_from(p.cells@, i as int) == Some(i as int));
            let mut message = part_head_string(p.id.as_str());
            message.append("cell ");
            message.append(coord_string(p.cells[i].coordinate).as_str());
            message.append(" uses reserved material slot 0");
            return Err(message);
        }
        i = i + 1;
    }
    check_sockets(p.id.as_str(), &p.sockets)?;
    let mut i: usize = 0;
    while i < p.palette_groups.len()
        invariant
            i <= p.palette_groups@.len(),
            canonical_text(p.id@),
            p.version != 0,
            p.cells@.len() > 0,
            first_unsorted_from(p.cells@, 1) is None,
            first_zero_slot_from(p.cells@, 0) is None,
            sockets_fault_from(p.id@, p.sockets@, 0) is None,
            first_unknown_group_from(palette@, p.palette_groups@, 0) == first_unknown_group_from(
                palette@,
                p.palette_groups@,
                i as int,
            ),
        decreases p.palette_groups@.len() - i,
    {
        if !group_named_exec(palette, p.palette_groups[i].as_str()) {
            assert(first_unknown_group_from(palette@, p.palette_groups@, i as int) == Some(i as int));
            let mut message = part_head_string(p.id.as_str());
            message.append("references unknown palette group ");
            message.append(p.palette_groups[i].as_str());
            return Err(message);
        }
        i = i + 1;
    }
    if let Some(partner) = &p.symmetry_partner {
        require_identity(partner.as_str(), "part.symmetryPartner")?;
    }
    Ok(())
}

} // verus!

verus! {

fn slot_seen_exec(palette: &Vec<PaletteGroup>, g: usize, s: usize, slot: u16) -> (seen: bool)
    requires
        g < palette@.len(),
        s <= palette@[g as int].slots@.len(),
    ensures
        seen == slot_seen_before(palette@, g as int, s as int, slot),
{
    let mut h: usize = 0;
    while h < g
        invariant
            h <= g < palette@.len(),
            forall|h2: int, t: int| 0 <= h2 < h && 0 <= t < palette@[h2].slots@.len()
                ==> (#[trigger] palette@[h2].slots@[t]).slot != slot,
        decreases g - h,
    {
        let mut t: usize = 0;
        while t < palette[h].slots.len()
            invariant
                h < g < palette@.len(),
                t <= palette@[h as int].slots@.len(),
                forall|h2: int, t2: int| 0 <= h2 < h && 0 <= t2 < palette@[h2].slots@.len()
                    ==> (#[trigger] palette@[h2].slots@[t2]).slot != slot,
                forall|t2: int| 0 <= t2 < t ==> (#[trigger] palette@[h as int].slots@[t2]).slot != slot,
            decreases palette@[h as int].slots@.len() - t,
        {
            if palette[h].slots[t].slot == slot {
                assert(palette@[h as int].slots@[t as int].slot == slot);
                return true;
            }
            t = t + 1;
        }
        h = h + 1;
    }
    let mut t: usize = 0;
    while t < s
        invariant
            g < palette@.len(),
            t <= s <= palette@[g as int].slots@.len(),
            forall|h2: int, t2: int| 0 <= h2 < g && 0 <= t2 < palette@[h2].slots@.len()
                ==> (#[trigger] palette@[h2].slots@[t2]).slot != slot,
            forall|t2: int| 0 <= t2 < t ==> (#[trigger] palette@[g as int].slots@[t2]).slot != slot,
        decreases s - t,
    {
        if palette[g].slots[t].slot == slot {
            assert(palette@[g as int].slots@[t as int].slot == slot);
            return true;
        }
        t = t + 1;
    }
    false
}

pub(crate) fn slot_known_exec(palette: &Vec<PaletteGroup>, slot: u16) -> (known: bool)
    ensures
        known == slot_known(palette@, slot),
{
    let mut h: usize = 0;
    while h < palette.len()
        invariant
            h <= palette@.len(),
            forall|h2: int, t: int| 0 <= h2 < h && 0 <= t < palette@[h2].slots@.len()
                ==> (#[trigger] palette@[h2].slots@[t]).slot != slot,
        decreases palette@.len() - h,
    {
        let mut t: usize = 0;
        while t < palette[h].slots.len()
            invariant
                h < palette@.len(),
                t <= palette@[h as int].slots@.len(),
                forall|h2: int, t2: int| 0 <= h2 < h && 0 <= t2 < palette@[h2].slots@.len()
                    ==> (#[trigger] palette@[h2].slots@[t2]).slot != slot,
                forall|t2: int| 0 <= t2 < t ==> (#[trigger] palette@[h as int].slots@[t2]).slot != slot,
            decreases palette@[h as int].slots@.len() - t,
        {
            if palette[h].slots[t].slot == slot {
                assert(palette@[h as int].slots@[t as int].slot == slot);
                return true;
            }
            t = t + 1;
        }
        h = h + 1;
    }
    false
}

fn check_group_slots(palette: &Vec<PaletteGroup>, g: usize) -> (result: Result<(), String>)
    requires
        g < palette@.len(),
    ensures
        result is Ok <==> slots_fault_from(palette@, g as int, 0) is None,
        result matches Err(m) ==> Some(m@) == slots_fault_from(palette@, g as int, 0),
{
    let group = &palette[g];
    let mut s: usize = 0;
    while s < group.slots.len()
        invariant
            g < palette@.len(),
            *group == palette@[g as int],
            s <= group.slots@.len(),
            slots_fault_from(palette@, g as int, 0) == slots_fault_from(palette@, g as int, s as int),
        decreases group.slots@.len() - s,
    {
        let slot = group.slots[s].slot;
        if slot == 0 {
            let mut message = String::from_str("palette group ");
            message.append(group.name.as_str());
            message.append(" uses reserved slot 0");
            return Err(message);
        }
        if slot_seen_exec(palette, g, s, slot) {
            let mut message = String::from_str("duplicate material slot ");
            message.append(decimal_u64(slot as u64).as_str());
            message.append(" across palette");
            return Err(message);
        }
        if !group.slots[s].color_in_range {
            let mut message = String::from_str("palette slot ");
            message.append(decimal_u64(slot as u64).as_str());
            message.append(" color out of range");
            return Err(message);
        }
        s = s + 1;
    }
    Ok(())
}

fn check_palette(palette: &Vec<PaletteGroup>) -> (result: Result<(), String>)
    ensures
        result is Ok <==> palette_fault_from(palette@, 0) is None,
        result matches Err(m) ==> Some(m@) == palette_fault_from(palette@, 0),
{
    let mut g: usize = 0;
    while g < palette.len()
        invariant
            g <= palette@.len(),
            palette_fault_from(palette@, 0) == palette_fault_from(palette@, g as int),
        decreases palette@.len() - g,
    {
        require_identity(palette[g].name.as_str(), "palette.name")?;
        let mut j: usize = 0;
        while j < g
            invariant
                j <= g < palette@.len(),
                canonical_text(palette@[g as int].name@),
                palette_fault_from(palette@, 0) == palette_fault_from(palette@, g as int),
                forall|h: int| 0 <= h < j ==> (#[trigger] palette@[h]).name@ != palette@[g as int].name@,
            decreases g - j,
        {
            if text_equals(palette[j].name.as_str(), palette[g].name.as_str()) {
                assert(palette@[j as int].name@ == palette@[g as int].name@);
                let mut message = String::from_str("duplicate palette group ");
                message.append(palette[g].name.as_str());
                return Err(message);
            }
            j = j + 1;
        }
        check_group_slots(palette, g)?;
        g = g + 1;
    }
    Ok(())
}

} // verus!

verus! {

fn check_parts(palette: &Vec<PaletteGroup>, parts: &Vec<KitPart>) -> (result: Result<(), String>)
    ensures
        result is Ok <==> parts_fault_from(palette@, parts@, 0) is None,
        result matches Err(m) ==> Some(m@) == parts_fault_from(palette@, parts@, 0),
{
    let mut k: usize = 0;
    while k < parts.len()
        invariant
            k <= parts@.len(),
            parts_fault_from(palette@, parts@, 0) == parts_fault_from(palette@, parts@, k as int),
        decreases parts@.len() - k,
    {
        check_part(palette, &parts[k])?;
        let first = find_part(parts, parts[k].id.as_str());
        if !(first matches Some(f) && f == k) {
            let mut message = String::from_str("duplicate part id ");
            message.append(parts[k].id.as_str());
            return Err(message);
        }
        k = k + 1;
    }
    Ok(())
}

fn check_mates(parts: &Vec<KitPart>, p: &KitPart) -> (result: Result<(), String>)
    ensures
        result is Ok <==> mates_fault_from(parts@, *p, 0) is None,
        result matches Err(m) ==> Some(m@) == mates_fault_from(parts@, *p, 0),
{
    let mut s: usize = 0;
    while s < p.sockets.len()
        invariant
            s <= p.sockets@.len(),
            mates_fault_from(parts@, *p, 0) == mates_fault_from(parts@, *p, s as int),
        decreases p.sockets@.len() - s,
    {
        let socket = &p.sockets[s];
        if let Some(mate) = &socket.mate {
            let (mate_part, mate_socket) = parse_mate(mate.as_str())?;
            match find_part(parts, mate_part) {
                None => {
                    let mut message = socket_head_string(p.id.as_str(), socket.id.as_str());
                    message.append("mate part ");
                    message.append(mate_part);
                    message.append(" is not a part");
                    return Err(message);
                },
                Some(t) => {
                    if find_socket(&parts[t].sockets, mate_socket).is_none() {
                        let mut message = socket_head_string(p.id.as_str(), socket.id.as_str());
                        message.append("mate socket ");
                        message.append(mate_socket);
                        message.append(" missing on ");
                        message.append(mate_part);
                        return Err(message);
                    }
                },
            }
        }
        s = s + 1;
    }
    Ok(())
}

fn check_cross(palette: &Vec<PaletteGroup>, parts: &Vec<KitPart>) -> (result: Result<(), String>)
    ensures
        result is Ok <==> cross_fault_from(palette@, parts@, 0) is None,
        result matches Err(m) ==> Some(m@) == cross_fault_from(palette@, parts@, 0),
{
    let mut k: usize = 0;
    while k < parts.len()
        invariant
            k <= parts@.len(),
            cross_fault_from(palette@, parts@, 0) == cross_fault_from(palette@, parts@, k as int),
        decreases parts@.len() - k,
    {
        let p = &parts[k];
        if let Some(partner) = &p.symmetry_partner {
            if find_part(parts, partner.as_str()).is_none() {
                let mut message = part_head_string(p.id.as_str());
                message.append("symmetry partner ");
                message.append(partner.as_str());
                message.append(" is not a part");
                return Err(message);
            }
        }
        let mut i: usize = 0;
        while i < p.cells.len()
            invariant
                k < parts@.len(),
                *p == parts@[k as int],
                i <= p.cells@.len(),
                cross_fault_from(palette@, parts@, 0) == cross_fault_from(palette@, parts@, k as int),
                !(p.symmetry_partner matches Some(s) && first_part_from(parts@, s@, 0) is None),
                first_unknown_slot_from(palette@, p.cells@, 0) == first_unknown_slot_from(palette@, p.cells@, i as int),
            decreases p.cells@.len() - i,
        {
            let cell = p.cells[i];
            if !slot_known_exec(palette, cell.material_slot) {
                assert(first_unknown_slot_from(palette@, p.cells@, i as int) == Some(i as int));
                let mut message = part_head_string(p.id.as_str());
                message.append("cell ");
                message.append(coord_string(cell.coordinate).as_str());
                message.append(" uses unknown material slot ");
                message.append(decimal_u64(cell.material_slot as u64).as_str());
                return Err(message);
            }
            i = i + 1;
        }
        check_mates(parts, p)?;
        k = k + 1;
    }
    Ok(())
}

fn check_required(parts: &Vec<KitPart>, required: &Vec<String>) -> (result: Result<(), String>)
    ensures
        result is Ok <==> required_fault_from(parts@, required@, 0) is None,
        result matches Err(m) ==> Some(m@) == required_fault_from(parts@, required@, 0),
{
    let mut k: usize = 0;
    while k < required.len()
        invariant
            k <= required@.len(),
            required_fault_from(parts@, required@, 0) == required_fault_from(parts@, required@, k as int),
        decreases required@.len() - k,
    {
        let r = required[k].as_str();
        let (part_id, socket_id) = parse_mate(r)?;
        match find_part(parts, part_id) {
            None => {
                let mut message = String::from_str("required socket ");
                message.append(r);
                message.append(": part ");
                message.append(part_id);
                message.append(" is not a part");
                return Err(message);
            },
            Some(t) => {
                if find_socket(&parts[t].sockets, socket_id).is_none() {
                    let mut message = String::from_str("required socket ");
                    message.append(r);
                    message.append(": socket ");
                    message.append(socket_id);
                    message.append(" missing on ");
                    message.append(part_id);
                    return Err(message);
                }
            },
        }
        k = k + 1;
    }
    Ok(())
}

impl VoxelKit {
    /// Checks the kit's rules in order and names the first one it breaks.
    pub fn validate(&self) -> (result: Result<(), KitError>)
        ensures
            result is Ok <==> self.fault() is None,
            result matches Err(e) ==> e matches KitError::Validation(m) && Some(m@) == self.fault(),
    {
        if self.schema_version != KIT_SCHEMA_VERSION {
            let mut message = String::from_str("kit schema ");
            message.append(decimal_u64(self.schema_version as u64).as_str());
            message.append(" is unsupported; expected 1");
            return Err(KitError::validation(message));
        }
        if let Err(m) = require_identity(self.id.as_str(), "kit.id") {
            return Err(KitError::validation(m));
        }
        if self.version == 0 {
            return Err(KitError::validation(String::from_str("kit.version must be >= 1")));
        }
        let convention = &self.convention;
        if !text_equals(convention.coordinate_system.as_str(), "right_handed_y_up") {
            let mut message = String::from_str("coordinateSystem must be right_handed_y_up, got ");
            message.append(convention.coordinate_system.as_str());
            return Err(KitError::validation(message));
        }
        if !text_equals(convention.forward_axis.as_str(), "-Z") {
            let mut message = String::from_str("forwardAxis must be -Z, got ");
            message.append(convention.forward_axis.as_str());
            return Err(KitError::validation(message));
        }
        if !convention.voxel_size_positive {
            return Err(KitError::validation(String::from_str("voxelSizeMeters must be positive")));
        }
        self.invariants.validate()?;
        if let Err(m) = check_palette(&self.palette) {
            return Err(KitError::validation(m));
        }
        if let Err(m) = check_parts(&self.palette, &self.parts) {
            return Err(KitError::validation(m));
        }
        if self.parts.len() == 0 {
            return Err(KitError::validation(String::from_str("kit must contain at least one part")));
        }
        if let Err(m) = check_cross(&self.palette, &self.parts) {
            return Err(KitError::validation(m));
        }
        if let Err(m) = check_required(&self.parts, &self.invariants.required_sockets) {
            return Err(KitError::validation(m));
        }
        Ok(())
    }
}

} // verus!

verus! {

/// A root part declares no mate on any socket.
pub open spec fn is_root(p: KitPart) -> bool {
    forall|s: int| 0 <= s < p.sockets@.len() ==> (#[trigger] p.sockets@[s]).mate is None
}

/// The root parts among the first `k`, in declaration order.
pub open spec fn roots_upto(parts: Seq<KitPart>, k: int) -> Seq<usize>
    decreases k,
{
    if k <= 0 {
        Seq::empty()
    } else if is_root(parts[k - 1]) {
        roots_upto(parts, k - 1).push((k - 1) as usize)
    } else {
        roots_upto(parts, k - 1)
    }
}

/// The index an id lookup over the parts gives: the last part with that id.
pub open spec fn lookup_upto(parts: Seq<KitPart>, id: Seq<char>, k: int) -> Option<int>
    decreases k,
{
    if k <= 0 {
        None
    } else if parts[k - 1].id@ == id {
        Some(k - 1)
    } else {
        lookup_upto(parts, id, k - 1)
    }
}

pub open spec fn part_lookup(parts: Seq<KitPart>, id: Seq<char>) -> Option<int> {
    lookup_upto(parts, id, parts.len() as int)
}

/// The part id of a well-formed mate reference.
pub open spec fn mate_part_id(m: Seq<char>) -> Seq<char> {
    m.subrange(0, mate_split(m).unwrap())
}

/// Every mate of part `i` is a well-formed reference.
pub open spec fn mates_parse(parts: Seq<KitPart>, i: int) -> bool {
    forall|s: int| 0 <= s < parts[i].sockets@.len() && (#[trigger] parts[i].sockets@[s]).mate is Some
        ==> mate_split(parts[i].sockets@[s].mate.unwrap()@) is Some
}

/// The mate of socket `s` of part `i` names a part that `done` holds.
pub open spec fn mate_done(parts: Seq<KitPart>, i: int, s: int, done: spec_fn(int) -> bool) -> bool {
    match parts[i].sockets@[s].mate {
        None => true,
        Some(m) => part_lookup(parts, mate_part_id(m@)) matches Some(t) && done(t),
    }
}

/// Part `i` can be placed once the parts `done` holds are: every mate names
/// one of them.
pub open spec fn ready_after(parts: Seq<KitPart>, i: int, done: spec_fn(int) -> bool) -> bool {
    forall|s: int| 0 <= s < parts[i].sockets@.len() ==> #[trigger] mate_done(parts, i, s, done)
}

/// A non-empty set of parts none of which can ever be placed: each has a
/// mate naming no part or a part of the set.
pub open spec fn stuck(parts: Seq<KitPart>, u: Set<int>) -> bool {
    &&& exists|i: int| u.contains(i)
    &&& forall|i: int| #[trigger] u.contains(i) ==> 0 <= i < parts.len() && mates_parse(parts, i)
        && !ready_after(parts, i, |t: int| !u.contains(t))
}

/// Every part of `order` comes after the parts its mates name.
pub open spec fn mates_placed_first(parts: Seq<KitPart>, order: Seq<usize>) -> bool {
    forall|j: int| 0 <= j < order.len() ==> mates_parse(parts, #[trigger] order[j] as int)
        && ready_after(parts, order[j] as int, |t: int| exists|j2: int| 0 <= j2 < j && order[j2] == t)
}

/// Some socket of some part declares a malformed mate with this message.
pub open spec fn malformed_mate(parts: Seq<KitPart>, message: Seq<char>) -> bool {
    exists|i: int, s: int| 0 <= i < parts.len() && 0 <= s < parts[i].sockets@.len()
        && ((#[trigger] parts[i].sockets@[s]).mate matches Some(m) && mate_split(m@) is None
        && message == mate_message(m@))
}

pub open spec fn no_root_message() -> Seq<char> {
    "kit has no root part (every part declares a mate)"@
}

pub open spec fn cycle_message() -> Seq<char> {
    "mate relationships form a cycle; cannot order parts"@
}

} // verus!

verus! {

proof fn lemma_lookup_in_range(parts: Seq<KitPart>, id: Seq<char>, k: int)
    requires
        0 <= k <= parts.len(),
    ensures
        lookup_upto(parts, id, k) matches Some(t) ==> 0 <= t < k && parts[t].id@ == id,
    decreases k,
{
    if k > 0 {
        lemma_lookup_in_range(parts, id, k - 1);
    }
}

proof fn lemma_ready_weaken(parts: Seq<KitPart>, i: int, d1: spec_fn(int) -> bool, d2: spec_fn(int) -> bool)
    requires
        0 <= i < parts.len(),
        ready_after(parts, i, d1),
        forall|t: int| 0 <= t < parts.len() && #[trigger] d1(t) ==> d2(t),
    ensures
        ready_after(parts, i, d2),
{
    assert forall|s: int| 0 <= s < parts[i].sockets@.len() implies #[trigger] mate_done(parts, i, s, d2) by {
        assert(mate_done(parts, i, s, d1));
        if let Some(m) = parts[i].sockets@[s].mate {
            lemma_lookup_in_range(parts, mate_part_id(m@), parts.len() as int);
        }
    }
}

proof fn lemma_distinct_below(order: Seq<usize>, n: int)
    requires
        0 <= n <= usize::MAX,
        order.no_duplicates(),
        forall|j: int| 0 <= j < order.len() ==> order[j] < n,
    ensures
        order.len() <= n,
        (forall|i: usize| (i as int) < n ==> #[trigger] order.contains(i)) ==> order.len() == n,
{
    let s = order.map_values(|x: usize| x as int);
    assert(s.no_duplicates());
    s.unique_seq_to_set();
    vstd::set_lib::lemma_int_range(0, n);
    let range = vstd::set_lib::set_int_range(0, n);
    assert(s.to_set().subset_of(range));
    vstd::set_lib::lemma_len_subset(s.to_set(), range);
    if forall|i: usize| (i as int) < n ==> #[trigger] order.contains(i) {
        assert forall|i: int| range.contains(i) implies s.to_set().contains(i) by {
            assert(order.contains(i as usize));
            let j = choose|j: int| 0 <= j < order.len() && order[j] == i as usize;
            assert(s[j] == i);
        }
        vstd::seq_lib::seq_to_set_is_finite(s);
        vstd::set_lib::lemma_len_subset(range, s.to_set());
    }
}

fn is_root_exec(p: &KitPart) -> (root: bool)
    ensures
        root == is_root(*p),
{
    let mut s: usize = 0;
    while s < p.sockets.len()
        invariant
            s <= p.sockets@.len(),
            forall|t: int| 0 <= t < s ==> (#[trigger] p.sockets@[t]).mate is None,
        decreases p.sockets@.len() - s,
    {
        if p.sockets[s].mate.is_some() {
            return false;
        }
        s = s + 1;
    }
    true
}

fn lookup_exec(parts: &Vec<KitPart>, id: &str) -> (found: Option<usize>)
    ensures
        found matches Some(t) ==> part_lookup(parts@, id@) == Some(t as int),
        found is None ==> part_lookup(parts@, id@) is None,
{
    let mut found: Option<usize> = None;
    let mut k: usize = 0;
    while k < parts.len()
        invariant
            k <= parts@.len(),
            found matches Some(t) ==> lookup_upto(parts@, id@, k as int) == Some(t as int),
            found is None ==> lookup_upto(parts@, id@, k as int) is None,
        decreases parts@.len() - k,
    {
        if text_equals(parts[k].id.as_str(), id) {
            found = Some(k);
        }
        k = k + 1;
    }
    found
}

/// Whether part `i` can be placed now: every mate parses and names a placed
/// part. A malformed mate is an error.
fn mates_ready(parts: &Vec<KitPart>, i: usize, placed: &Vec<bool>) -> (result: Result<bool, String>)
    requires
        i < parts@.len(),
        placed@.len() == parts@.len(),
    ensures
        result matches Ok(b) ==> mates_parse(parts@, i as int) && b == ready_after(
            parts@,
            i as int,
            |t: int| 0 <= t < placed@.len() && placed@[t],
        ),
        result matches Err(m) ==> malformed_mate(parts@, m@),
{
    let p = &parts[i];
    let mut s: usize = 0;
    while s < p.sockets.len()
        invariant
            i < parts@.len(),
            *p == parts@[i as int],
            s <= p.sockets@.len(),
            forall|t: int| 0 <= t < s && (#[trigger] p.sockets@[t]).mate is Some ==> mate_split(
                p.sockets@[t].mate.unwrap()@,
            ) is Some,
        decreases p.sockets@.len() - s,
    {
        if let Some(mate) = &p.sockets[s].mate {
            if let Err(m) = parse_mate(mate.as_str()) {
                assert(parts@[i as int].sockets@[s as int].mate matches Some(mm) && mate_split(mm@) is None);
                return Err(m);
            }
        }
        s = s + 1;
    }
    let ghost done = |t: int| 0 <= t < placed@.len() && placed@[t];
    let mut s: usize = 0;
    while s < p.sockets.len()
        invariant
            i < parts@.len(),
            *p == parts@[i as int],
            placed@.len() == parts@.len(),
            done == (|t: int| 0 <= t < placed@.len() && placed@[t]),
            mates_parse(parts@, i as int),
            s <= p.sockets@.len(),
            forall|t: int| 0 <= t < s ==> #[trigger] mate_done(parts@, i as int, t, done),
        decreases p.sockets@.len() - s,
    {
        if let Some(mate) = &p.sockets[s].mate {
            let (mate_part, _) = parse_mate(mate.as_str())?;
            match lookup_exec(parts, mate_part) {
                None => {
                    assert(!mate_done(parts@, i as int, s as int, done));
                    return Ok(false);
                },
                Some(t) => {
                    proof {
                        lemma_lookup_in_range(parts@, mate_part@, parts@.len() as int);
                    }
                    if !placed[t] {
                        assert(!mate_done(parts@, i as int, s as int, done));
                        return Ok(false);
                    }
                },
            }
        }
        assert(mate_done(parts@, i as int, s as int, done));
        s = s + 1;
    }
    Ok(true)
}

} // verus!

verus! {

proof fn lemma_push_keeps_order(parts: Seq<KitPart>, order: Seq<usize>, placed: Seq<bool>, i: usize)
    requires
        parts.len() <= usize::MAX,
        placed.len() <= parts.len(),
        0 <= i < parts.len(),
        forall|j: int| 0 <= j < order.len() ==> order[j] < parts.len(),
        mates_placed_first(parts, order),
        mates_parse(parts, i as int),
        ready_after(parts, i as int, |t: int| 0 <= t < placed.len() && placed[t]),
        forall|t: int| 0 <= t < placed.len() ==> (placed[t] <==> order.contains(t as usize)),
    ensures
        mates_placed_first(parts, order.push(i)),
{
    let next = order.push(i);
    let n = order.len() as int;
    assert forall|t: int| 0 <= t < parts.len() && 0 <= t < placed.len() && placed[t] implies exists|j2: int|
        0 <= j2 < n && next[j2] == t by {
        assert(order.contains(t as usize));
        let j2 = choose|j2: int| 0 <= j2 < order.len() && order[j2] == t as usize;
        assert(next[j2] == t);
    }
    lemma_ready_weaken(
        parts,
        i as int,
        |t: int| 0 <= t < placed.len() && placed[t],
        |t: int| exists|j2: int| 0 <= j2 < n && next[j2] == t,
    );
    assert forall|j: int| 0 <= j < next.len() implies mates_parse(parts, #[trigger] next[j] as int) && ready_after(
        parts,
        next[j] as int,
        |t: int| exists|j2: int| 0 <= j2 < j && next[j2] == t,
    ) by {
        if j < n {
            assert(next[j] == order[j]);
            let d1 = |t: int| exists|j2: int| 0 <= j2 < j && order[j2] == t;
            let d2 = |t: int| exists|j2: int| 0 <= j2 < j && next[j2] == t;
            assert forall|t: int| #[trigger] d1(t) == d2(t) by {
                if d1(t) {
                    let j2 = choose|j2: int| 0 <= j2 < j && order[j2] == t;
                    assert(next[j2] == t);
                }
                if d2(t) {
                    let j2 = choose|j2: int| 0 <= j2 < j && next[j2] == t;
                    assert(order[j2] == t);
                }
            }
            assert(d1 =~= d2);
        }
    }
}

/// An order of the kit's parts in which every part follows the parts its
/// mates name: the root parts first, in declaration order, then parts as
/// their mates' parts are placed, in rounds over the declaration order.
pub fn placement_order(kit: &VoxelKit) -> (result: Result<Vec<usize>, KitError>)
    ensures
        result matches Ok(order) ==> {
            &&& order@.len() == kit.parts@.len()
            &&& order@.no_duplicates()
            &&& forall|j: int| 0 <= j < order@.len() ==> order@[j] < kit.parts@.len()
            &&& order@.take(roots_upto(kit.parts@, kit.parts@.len() as int).len() as int) == roots_upto(
                kit.parts@,
                kit.parts@.len() as int,
            )
            &&& mates_placed_first(kit.parts@, order@)
        },
        roots_upto(kit.parts@, kit.parts@.len() as int).len() == 0 <==> (result matches Err(e) && e matches KitError::Assembly(m)
            && m@ == no_root_message()),
        result matches Err(e) ==> (e matches KitError::Assembly(m) ==> (m@ == no_root_message() || m@
            == cycle_message())),
        result matches Err(e) ==> (e matches KitError::Assembly(m) ==> (m@ == cycle_message() ==> exists|u: Set<int>|
            stuck(kit.parts@, u))),
        result matches Err(e) ==> (e matches KitError::Validation(m) ==> malformed_mate(kit.parts@, m@)),
{
    let parts = &kit.parts;
    let n = parts.len();
    let mut placed: Vec<bool> = Vec::new();
    let mut order: Vec<usize> = Vec::new();
    let mut i: usize = 0;
    while i < n
        invariant
            parts@ == kit.parts@,
            n == parts@.len(),
            i <= n,
            placed@.len() == i,
            order@ == roots_upto(parts@, i as int),
            forall|j: int| 0 <= j < order@.len() ==> order@[j] < i,
            order@.no_duplicates(),
            forall|t: int| 0 <= t < i ==> (placed@[t] <==> order@.contains(t as usize)),
            mates_placed_first(parts@, order@),
        decreases n - i,
    {
        let ghost old_order = order@;
        if is_root_exec(&parts[i]) {
            proof {
                let pending = placed@.push(false);
                let done = |t: int| 0 <= t < pending.len() && pending[t];
                assert forall|s: int| 0 <= s < parts@[i as int].sockets@.len() implies #[trigger] mate_done(
                    parts@,
                    i as int,
                    s,
                    done,
                ) by {}
                lemma_push_keeps_order(parts@, order@, pending, i);
                assert(!order@.contains(i));
            }
            placed.push(true);
            order.push(i);
            proof {
                assert(order@[order@.len() - 1] == i);
                assert forall|t: int| 0 <= t < i + 1 implies (placed@[t] <==> order@.contains(t as usize)) by {
                    if t < i {
                        if order@.contains(t as usize) {
                            let j = choose|j: int| 0 <= j < order@.len() && order@[j] == t as usize;
                            assert(j < order@.len() - 1);
                            assert(order@.drop_last()[j] == t as usize);
                        }
                        if old_order.contains(t as usize) {
                            let j = choose|j: int| 0 <= j < old_order.len() && old_order[j] == t as usize;
                            assert(order@[j] == t as usize);
                        }
                    }
                }
            }
        } else {
            placed.push(false);
            proof {
                assert(!order@.contains(i));
            }
        }
        i = i + 1;
    }
    let ghost roots = roots_upto(parts@, n as int);
    proof {
        reveal_strlit("kit has no root part (every part declares a mate)");
        reveal_strlit("mate relationships form a cycle; cannot order parts");
        assert(no_root_message()[0] != cycle_message()[0]);
    }
    if order.len() == 0 {
        return Err(KitError::Assembly(String::from_str("kit has no root part (every part declares a mate)")));
    }
    let mut progressed = true;
    while order.len() < n && progressed
        invariant
            parts@ == kit.parts@,
            roots == roots_upto(parts@, n as int),
            n == parts@.len(),
            placed@.len() == n,
            order@.len() >= roots.len() > 0,
            order@.take(roots.len() as int) == roots,
            forall|j: int| 0 <= j < order@.len() ==> order@[j] < n,
            order@.no_duplicates(),
            forall|t: int| 0 <= t < n ==> (placed@[t] <==> order@.contains(t as usize)),
            mates_placed_first(parts@, order@),
            !progressed ==> forall|t: int| 0 <= t < n ==> placed@[t] || (mates_parse(parts@, t) && !ready_after(
                parts@,
                t,
                |x: int| 0 <= x < placed@.len() && placed@[x],
            )),
        decreases n - order@.len(), if progressed { 1int } else { 0int },
    {
        progressed = false;
        let ghost start_len = order@.len();
        let mut i: usize = 0;
        while i < n
            invariant
                parts@ == kit.parts@,
                roots == roots_upto(parts@, n as int),
                roots.len() > 0,
                n == parts@.len(),
                i <= n,
                placed@.len() == n,
                start_len <= order@.len(),
                progressed ==> start_len < order@.len(),
                order@.take(roots.len() as int) == roots,
                roots.len() <= start_len,
                forall|j: int| 0 <= j < order@.len() ==> order@[j] < n,
                order@.no_duplicates(),
                forall|t: int| 0 <= t < n ==> (placed@[t] <==> order@.contains(t as usize)),
                mates_placed_first(parts@, order@),
                !progressed ==> forall|t: int| 0 <= t < i ==> placed@[t] || (mates_parse(parts@, t) && !ready_after(
                    parts@,
                    t,
                    |x: int| 0 <= x < placed@.len() && placed@[x],
                )),
            decreases n - i,
        {
            if !placed[i] {
                let ready = match mates_ready(parts, i, &placed) {
                    Ok(b) => b,
                    Err(m) => {
                        return Err(KitError::validation(m));
                    },
                };
                if ready {
                    proof {
                        lemma_push_keeps_order(parts@, order@, placed@, i);
                        assert(order@.push(i).take(roots.len() as int) =~= order@.take(roots.len() as int));
                        lemma_distinct_below(order@, n as int);
                    }
                    let ghost old_order = order@;
                    let ghost old_placed = placed@;
                    placed.set(i, true);
                    order.push(i);
                    progressed = true;
                    proof {
                        assert(order@[order@.len() - 1] == i);
                        assert forall|t: int| 0 <= t < n implies (placed@[t] <==> order@.contains(t as usize)) by {
                            if t != i {
                                assert(placed@[t] == old_placed[t]);
                                if order@.contains(t as usize) {
                                    let j = choose|j: int| 0 <= j < order@.len() && order@[j] == t as usize;
                                    assert(j < order@.len() - 1);
                                    assert(old_order[j] == t as usize);
                                }
                                if old_order.contains(t as usize) {
                                    let j = choose|j: int| 0 <= j < old_order.len() && old_order[j] == t as usize;
                                    assert(order@[j] == t as usize);
                                }
                            }
                        }
                    }
                }
            }
            i = i + 1;
        }
        proof {
            lemma_distinct_below(order@, n as int);
        }
    }
    proof {
        lemma_distinct_below(order@, n as int);
    }
    if order.len() != n {
        proof {
            let u = Set::new(|t: int| 0 <= t < n && !placed@[t]);
            if forall|t: usize| (t as int) < n ==> #[trigger] order@.contains(t) {
                assert(false);
            }
            let w = choose|t: usize| (t as int) < n && !order@.contains(t);
            assert(u.contains(w as int));
            assert forall|t: int| #[trigger] u.contains(t) implies 0 <= t < parts@.len() && mates_parse(parts@, t)
                && !ready_after(parts@, t, |x: int| !u.contains(x)) by {
                if ready_after(parts@, t, |x: int| !u.contains(x)) {
                    lemma_ready_weaken(
                        parts@,
                        t,
                        |x: int| !u.contains(x),
                        |x: int| 0 <= x < placed@.len() && placed@[x],
                    );
                }
            }
            assert(stuck(parts@, u));
        }
        return Err(KitError::Assembly(String::from_str("mate relationships form a cycle; cannot order parts")));
    }
    Ok(order)
}

} // verus!

verus! {

/// Within a quarter of the i64 range on every axis.
pub open spec fn quarter_range(c: [i64; 3]) -> bool {
    &&& -0x1000_0000_0000_0000 < c[0] < 0x1000_0000_0000_0000
    &&& -0x1000_0000_0000_0000 < c[1] < 0x1000_0000_0000_0000
    &&& -0x1000_0000_0000_0000 < c[2] < 0x1000_0000_0000_0000
}

pub open spec fn translate(c: [i64; 3], t: [i64; 3]) -> [i64; 3] {
    [(c[0] + t[0]) as i64, (c[1] + t[1]) as i64, (c[2] + t[2]) as i64]
}

/// Cell `k` of part `p` placed with translation `t`, with its provenance.
pub open spec fn placed_voxel(parts: Seq<KitPart>, p: int, k: int, t: [i64; 3]) -> AssembledVoxel {
    AssembledVoxel {
        coordinate: translate(parts[p].cells@[k].coordinate, t),
        material_slot: parts[p].cells@[k].material_slot,
        origin: VoxelOrigin::Canonical(CanonicalVoxelId { part_index: p as u32, voxel_index: k as u32 }),
    }
}

/// `m` after placing the first `k` cells of part `p`: a cell lands only
/// where nothing sits yet (earlier placements win).
pub open spec fn place_cells(m: Map<[i64; 3], AssembledVoxel>, parts: Seq<KitPart>, p: int, t: [i64; 3], k: int) -> Map<
    [i64; 3],
    AssembledVoxel,
>
    decreases k,
{
    if k <= 0 {
        m
    } else {
        let before = place_cells(m, parts, p, t, k - 1);
        let v = placed_voxel(parts, p, k - 1, t);
        if before.contains_key(v.coordinate) {
            before
        } else {
            before.insert(v.coordinate, v)
        }
    }
}

/// The voxels of the first `j` parts of `order`, each part placed with its
/// translation.
pub open spec fn place_parts(parts: Seq<KitPart>, order: Seq<usize>, translations: Seq<[i64; 3]>, j: int) -> Map<
    [i64; 3],
    AssembledVoxel,
>
    decreases j,
{
    if j <= 0 {
        Map::empty()
    } else {
        let p = order[j - 1] as int;
        place_cells(place_parts(parts, order, translations, j - 1), parts, p, translations[p], parts[p].cells@.len() as int)
    }
}

/// Some voxel of `m` sits at height `y` and none lower.
pub open spec fn is_lowest(m: Map<[i64; 3], AssembledVoxel>, y: int) -> bool {
    (exists|c: [i64; 3]| #[trigger] m.contains_key(c) && c[1] == y) && (forall|c: [i64; 3]| #[trigger] m.contains_key(c)
        ==> y <= c[1])
}

/// The lowest y any voxel of `m` sits at.
pub open spec fn lowest_y(m: Map<[i64; 3], AssembledVoxel>) -> int {
    choose|y: int| #[trigger] is_lowest(m, y)
}

pub open spec fn raise(c: [i64; 3], dy: int) -> [i64; 3] {
    [c[0], (c[1] + dy) as i64, c[2]]
}

pub open spec fn raised_voxel(v: AssembledVoxel, dy: int) -> AssembledVoxel {
    AssembledVoxel { coordinate: raise(v.coordinate, dy), ..v }
}

/// Every voxel of `m` moved up by `dy`.
pub open spec fn raised_map(m: Map<[i64; 3], AssembledVoxel>, dy: int) -> Map<[i64; 3], AssembledVoxel> {
    Map::new(
        |c: [i64; 3]| exists|k: [i64; 3]| #[trigger] m.contains_key(k) && raise(k, dy) == c,
        |c: [i64; 3]| raised_voxel(m[choose|k: [i64; 3]| #[trigger] m.contains_key(k) && raise(k, dy) == c], dy),
    )
}

/// The assembled voxels moved vertically so the lowest rests on `ground_y`.
pub open spec fn grounded(m: Map<[i64; 3], AssembledVoxel>, ground_y: i64) -> Map<[i64; 3], AssembledVoxel> {
    raised_map(m, ground_y - lowest_y(m))
}

} // verus!

verus! {

/// Within an eighth of the i64 range on every axis.
pub open spec fn eighth_range(c: [i64; 3]) -> bool {
    &&& -0x2000_0000_0000_0000 < c[0] < 0x2000_0000_0000_0000
    &&& -0x2000_0000_0000_0000 < c[1] < 0x2000_0000_0000_0000
    &&& -0x2000_0000_0000_0000 < c[2] < 0x2000_0000_0000_0000
}

proof fn lemma_raise_seq(s: Seq<AssembledVoxel>, out: Seq<AssembledVoxel>, dy: int)
    requires
        sorted_by_loc(s),
        out.len() == s.len(),
        forall|i: int| 0 <= i < s.len() ==> out[i] == raised_voxel(#[trigger] s[i], dy),
        forall|i: int| 0 <= i < s.len() ==> i64::MIN <= (#[trigger] s[i]).coordinate[1] + dy <= i64::MAX,
    ensures
        sorted_by_loc(out),
        located_map(out) == raised_map(located_map(s), dy),
{
    broadcast use vstd::array::group_array_axioms;

    let m = located_map(s);
    assert forall|i: int, j: int| 0 <= i < j < out.len() implies coord_lt(#[trigger] out[i].loc(), #[trigger] out[j].loc()) by {
        assert(coord_lt(s[i].loc(), s[j].loc()));
        assert(out[i] == raised_voxel(s[i], dy));
        assert(out[j] == raised_voxel(s[j], dy));
    }
    let r = raised_map(m, dy);
    let lm = located_map(out);
    assert forall|c: [i64; 3]| #[trigger] lm.contains_key(c) <==> r.contains_key(c) by {
        if occupies(out, c) {
            let i = choose|i: int| 0 <= i < out.len() && #[trigger] out[i].loc() == c;
            assert(out[i] == raised_voxel(s[i], dy));
            lemma_map_at(s, i);
            assert(m.contains_key(s[i].loc()) && raise(s[i].loc(), dy) == c);
        }
        if r.contains_key(c) {
            let k = choose|k: [i64; 3]| #[trigger] m.contains_key(k) && raise(k, dy) == c;
            assert(occupies(s, k));
            let i = choose|i: int| 0 <= i < s.len() && #[trigger] s[i].loc() == k;
            assert(out[i] == raised_voxel(s[i], dy));
            assert(out[i].loc() == c);
        }
    }
    assert forall|c: [i64; 3]| #[trigger] lm.contains_key(c) implies lm[c] == r[c] by {
        let i = index_at(out, c);
        lemma_map_at(out, i);
        assert(out[i] == raised_voxel(s[i], dy));
        lemma_map_at(s, i);
        let k = choose|k: [i64; 3]| #[trigger] m.contains_key(k) && raise(k, dy) == c;
        assert(occupies(s, k));
        let i2 = choose|i2: int| 0 <= i2 < s.len() && #[trigger] s[i2].loc() == k;
        assert(raise(s[i2].loc(), dy) == raise(s[i].loc(), dy));
        assert(s[i2].loc()[1] == s[i].loc()[1]);
        lemma_coord_eq(s[i2].loc(), s[i].loc());
        lemma_sorted_unique(s, i, i2);
    }
    assert(lm =~= r);
}

proof fn lemma_min_y_shift(s: Seq<AssembledVoxel>, out: Seq<AssembledVoxel>, dy: int)
    requires
        s.len() > 0,
        out.len() == s.len(),
        forall|i: int| 0 <= i < s.len() ==> out[i] == raised_voxel(#[trigger] s[i], dy),
        forall|i: int| 0 <= i < s.len() ==> i64::MIN <= (#[trigger] s[i]).coordinate[1] + dy <= i64::MAX,
    ensures
        seq_min_axis(voxel_coordinates(out), 1) == seq_min_axis(voxel_coordinates(s), 1) + dy,
    decreases s.len(),
{
    broadcast use vstd::array::group_array_axioms;

    let cs = voxel_coordinates(s);
    let co = voxel_coordinates(out);
    assert(out[out.len() - 1] == raised_voxel(s[s.len() - 1], dy));
    if s.len() > 1 {
        assert(voxel_coordinates(s.drop_last()) =~= cs.drop_last());
        assert(voxel_coordinates(out.drop_last()) =~= co.drop_last());
        assert forall|i: int| 0 <= i < s.drop_last().len() implies out.drop_last()[i] == raised_voxel(
            #[trigger] s.drop_last()[i],
            dy,
        ) by {
            assert(out[i] == raised_voxel(s[i], dy));
        }
        lemma_min_y_shift(s.drop_last(), out.drop_last(), dy);
    } else {
        assert(co[0] == out[0].coordinate);
        assert(cs[0] == s[0].coordinate);
    }
}

proof fn lemma_lowest_is_bound(s: Seq<AssembledVoxel>)
    requires
        sorted_by_loc(s),
        s.len() > 0,
    ensures
        lowest_y(located_map(s)) == seq_min_axis(voxel_coordinates(s), 1),
{
    let m = located_map(s);
    let coords = voxel_coordinates(s);
    let lo = seq_min_axis(coords, 1);
    lemma_bounds_contain(coords, 1);
    let w = choose|i: int| 0 <= i < coords.len() && coords[i][1] == lo;
    lemma_map_at(s, w);
    assert(m.contains_key(s[w].loc()) && s[w].loc()[1] == lo);
    assert forall|c: [i64; 3]| #[trigger] m.contains_key(c) implies lo <= c[1] by {
        let i = choose|i: int| 0 <= i < s.len() && #[trigger] s[i].loc() == c;
        assert(coords[i] == c);
    }
    assert(is_lowest(m, lo as int));
    let y = lowest_y(m);
    assert(is_lowest(m, y));
    let cy = choose|c: [i64; 3]| #[trigger] m.contains_key(c) && c[1] == y;
    assert(lo <= cy[1]);
    assert(y <= s[w].loc()[1]);
}

} // verus!

verus! {

/// Places the parts of `order` with their translations, earlier placements
/// winning where voxels overlap, then moves the frame vertically so its
/// lowest voxel rests on the kit's ground plane.
pub fn emit_neutral_frame(kit: &VoxelKit, order: &Vec<usize>, translations: &Vec<[i64; 3]>) -> (frame: AssembledFrame)
    requires
        translations@.len() == kit.parts@.len(),
        forall|j: int| 0 <= j < order@.len() ==> order@[j] < kit.parts@.len(),
        forall|p: int, k: int| 0 <= p < kit.parts@.len() && 0 <= k < kit.parts@[p].cells@.len() ==> quarter_range(
            #[trigger] kit.parts@[p].cells@[k].coordinate,
        ),
        forall|p: int| 0 <= p < translations@.len() ==> quarter_range(#[trigger] translations@[p]),
        -0x1000_0000_0000_0000 < kit.convention.ground_y < 0x1000_0000_0000_0000,
    ensures
        frame.wf(),
        frame.voxels@.len() > 0 ==> (spec_bounds(voxel_coordinates(frame.voxels@)) matches Some(b) && b.0[1]
            == kit.convention.ground_y),
        located_map(frame.voxels@) == grounded(
            place_parts(kit.parts@, order@, translations@, order@.len() as int),
            kit.convention.ground_y,
        ),
{
    let parts = &kit.parts;
    let mut voxels: Vec<AssembledVoxel> = Vec::new();
    let mut j: usize = 0;
    while j < order.len()
        invariant
            parts@ == kit.parts@,
            translations@.len() == parts@.len(),
            j <= order@.len(),
            forall|j2: int| 0 <= j2 < order@.len() ==> order@[j2] < parts@.len(),
            forall|p: int, k: int| 0 <= p < parts@.len() && 0 <= k < parts@[p].cells@.len() ==> quarter_range(
                #[trigger] parts@[p].cells@[k].coordinate,
            ),
            forall|p: int| 0 <= p < translations@.len() ==> quarter_range(#[trigger] translations@[p]),
            sorted_by_loc(voxels@),
            located_map(voxels@) == place_parts(parts@, order@, translations@, j as int),
            forall|c: [i64; 3]| #[trigger] located_map(voxels@).contains_key(c) ==> eighth_range(c),
        decreases order@.len() - j,
    {
        let p = order[j];
        let t = translations[p];
        let part = &parts[p];
        let ghost base = place_parts(parts@, order@, translations@, j as int);
        let mut k: usize = 0;
        while k < part.cells.len()
            invariant
                parts@ == kit.parts@,
                p < parts@.len(),
                *part == parts@[p as int],
                t == translations@[p as int],
                quarter_range(t),
                forall|k2: int| 0 <= k2 < part.cells@.len() ==> quarter_range(#[trigger] part.cells@[k2].coordinate),
                k <= part.cells@.len(),
                sorted_by_loc(voxels@),
                located_map(voxels@) == place_cells(base, parts@, p as int, t, k as int),
                forall|c: [i64; 3]| #[trigger] located_map(voxels@).contains_key(c) ==> eighth_range(c),
            decreases part.cells@.len() - k,
        {
            let cell = part.cells[k];
            assert(quarter_range(part.cells@[k as int].coordinate));
            let c: [i64; 3] = [
                cell.coordinate[0] + t[0],
                cell.coordinate[1] + t[1],
                cell.coordinate[2] + t[2],
            ];
            let v = AssembledVoxel {
                coordinate: c,
                material_slot: cell.material_slot,
                origin: VoxelOrigin::Canonical(CanonicalVoxelId { part_index: p as u32, voxel_index: k as u32 }),
            };
            proof {
                broadcast use vstd::array::group_array_axioms;

                assert(c =~= translate(cell.coordinate, t));
                assert(v == placed_voxel(parts@, p as int, k as int, t));
            }
            if !contains(&voxels, c) {
                insert_absent(&mut voxels, v);
                proof {
                    assert forall|c2: [i64; 3]| #[trigger] located_map(voxels@).contains_key(c2) implies eighth_range(c2) by {
                        if c2 != c {
                            assert(place_cells(base, parts@, p as int, t, k as int).contains_key(c2));
                        }
                    }
                }
            }
            k = k + 1;
        }
        j = j + 1;
    }
    let ghost placed_map = located_map(voxels@);
    let frame = AssembledFrame { voxels };
    let bounds = frame.bounds();
    let voxels = frame.voxels;
    match bounds {
        None => {
            proof {
                assert(voxels@.len() == 0);
                let r = grounded(placed_map, kit.convention.ground_y);
                assert forall|c: [i64; 3]| !#[trigger] r.contains_key(c) by {
                    if r.contains_key(c) {
                        let dy = kit.convention.ground_y - lowest_y(placed_map);
                        let k = choose|k: [i64; 3]| #[trigger] placed_map.contains_key(k) && raise(k, dy) == c;
                        assert(occupies(voxels@, k));
                    }
                }
                assert(located_map(voxels@) =~= r);
            }
            AssembledFrame { voxels }
        },
        Some((lo, _)) => {
            proof {
                lemma_lowest_is_bound(voxels@);
                lemma_map_at(voxels@, 0);
                assert(eighth_range(voxels@[0].loc()));
                lemma_bounds_contain(voxel_coordinates(voxels@), 1);
                let w = choose|i: int| 0 <= i < voxel_coordinates(voxels@).len() && voxel_coordinates(voxels@)[i][1] == lo[1];
                lemma_map_at(voxels@, w);
                assert(eighth_range(voxels@[w].loc()));
            }
            let shift = kit.convention.ground_y - lo[1];
            let mut raised: Vec<AssembledVoxel> = Vec::new();
            let mut i: usize = 0;
            while i < voxels.len()
                invariant
                    i <= voxels@.len(),
                    raised@.len() == i,
                    sorted_by_loc(voxels@),
                    -0x3000_0000_0000_0000 < shift < 0x3000_0000_0000_0000,
                    forall|c: [i64; 3]| #[trigger] located_map(voxels@).contains_key(c) ==> eighth_range(c),
                    forall|i2: int| 0 <= i2 < i ==> raised@[i2] == raised_voxel(#[trigger] voxels@[i2], shift as int),
                decreases voxels@.len() - i,
            {
                let v = voxels[i];
                proof {
                    lemma_map_at(voxels@, i as int);
                    assert(eighth_range(v.coordinate));
                }
                let moved = AssembledVoxel {
                    coordinate: [v.coordinate[0], v.coordinate[1] + shift, v.coordinate[2]],
                    material_slot: v.material_slot,
                    origin: v.origin,
                };
                proof {
                    broadcast use vstd::array::group_array_axioms;

                    assert(moved.coordinate =~= raise(v.coordinate, shift as int));
                }
                raised.push(moved);
                i = i + 1;
            }
            proof {
                assert forall|i2: int| 0 <= i2 < voxels@.len() implies i64::MIN <= (#[trigger] voxels@[i2]).coordinate[1]
                    + shift <= i64::MAX by {
                    lemma_map_at(voxels@, i2);
                }
                lemma_raise_seq(voxels@, raised@, shift as int);
                lemma_min_y_shift(voxels@, raised@, shift as int);
            }
            AssembledFrame { voxels: raised }
        },
    }
}

} // verus!

verus! {

/// Where a root part is placed: its pivot at the kit origin in x and z and
/// on the ground plane in y.
pub fn root_translation(kit: &VoxelKit, part_index: usize) -> (t: [i64; 3])
    requires
        part_index < kit.parts@.len(),
        kit.parts@[part_index as int].pivot[0] > i64::MIN,
        kit.parts@[part_index as int].pivot[2] > i64::MIN,
        i64::MIN <= kit.convention.ground_y - kit.parts@[part_index as int].pivot[1] <= i64::MAX,
    ensures
        t[0] == -kit.parts@[part_index as int].pivot[0],
        t[1] == kit.convention.ground_y - kit.parts@[part_index as int].pivot[1],
        t[2] == -kit.parts@[part_index as int].pivot[2],
{
    let pivot = kit.parts[part_index].pivot;
    [-pivot[0], kit.convention.ground_y - pivot[1], -pivot[2]]
}

} // verus!

verus! {

proof fn lemma_first_in_set(order: Seq<usize>, u: Set<int>, j0: int) -> (j: int)
    requires
        0 <= j0 < order.len(),
        u.contains(order[j0] as int),
    ensures
        0 <= j <= j0,
        u.contains(order[j] as int),
        forall|j2: int| 0 <= j2 < j ==> !u.contains(#[trigger] order[j2] as int),
    decreases j0,
{
    if exists|j2: int| 0 <= j2 < j0 && u.contains(#[trigger] order[j2] as int) {
        let j2 = choose|j2: int| 0 <= j2 < j0 && u.contains(#[trigger] order[j2] as int);
        lemma_first_in_set(order, u, j2)
    } else {
        j0
    }
}

/// When some order of all the parts places every part after its mates'
/// parts, no set of parts is stuck; so the cycle refusal of
/// `placement_order` refuses only kits that no order could assemble.
pub proof fn law_ordered_parts_are_never_stuck(parts: Seq<KitPart>, order: Seq<usize>, u: Set<int>)
    requires
        parts.len() <= usize::MAX,
        mates_placed_first(parts, order),
        forall|i: int| 0 <= i < parts.len() ==> #[trigger] order.contains(i as usize),
    ensures
        !stuck(parts, u),
{
    if stuck(parts, u) {
        let i = choose|i: int| u.contains(i);
        assert(0 <= i < parts.len());
        assert(order.contains(i as usize));
        let j0 = choose|j0: int| 0 <= j0 < order.len() && order[j0] == i as usize;
        let j = lemma_first_in_set(order, u, j0);
        let p = order[j] as int;
        assert(mates_parse(parts, p));
        lemma_ready_weaken(
            parts,
            p,
            |t: int| exists|j2: int| 0 <= j2 < j && order[j2] == t,
            |t: int| !u.contains(t),
        );
    }
}

proof fn lemma_parts_fault_none(palette: Seq<PaletteGroup>, parts: Seq<KitPart>, k: int, k2: int)
    requires
        0 <= k <= k2 < parts.len(),
        parts_fault_from(palette, parts, k) is None,
    ensures
        part_fault(palette, parts[k2]) is None,
    decreases k2 - k,
{
    if k < k2 {
        lemma_parts_fault_none(palette, parts, k + 1, k2);
    }
}

proof fn lemma_sockets_fault_none(part_id: Seq<char>, sockets: Seq<Socket>, k: int, s: int)
    requires
        0 <= k <= s < sockets.len(),
        sockets_fault_from(part_id, sockets, k) is None,
    ensures
        socket_fault(part_id, sockets[s]) is None,
    decreases s - k,
{
    if k < s {
        lemma_sockets_fault_none(part_id, sockets, k + 1, s);
    }
}

/// Every mate of a kit that passes validation is a well-formed
/// `<partId>.<socketId>` reference, so ordering a valid kit's parts never
/// fails on a malformed mate.
pub proof fn law_valid_kit_mates_parse(kit: VoxelKit)
    requires
        kit.fault() is None,
    ensures
        forall|i: int| 0 <= i < kit.parts@.len() ==> mates_parse(kit.parts@, i),
        forall|m: Seq<char>| !malformed_mate(kit.parts@, m),
{
    assert forall|i: int, s: int| 0 <= i < kit.parts@.len() && 0 <= s < kit.parts@[i].sockets@.len()
        && (#[trigger] kit.parts@[i].sockets@[s]).mate is Some implies mate_split(
        kit.parts@[i].sockets@[s].mate.unwrap()@,
    ) is Some by {
        lemma_parts_fault_none(kit.palette@, kit.parts@, 0, i);
        let p = kit.parts@[i];
        lemma_sockets_fault_none(p.id@, p.sockets@, 0, s);
    }
}

} // verus!

verus! {

proof fn lemma_same_keys_same_order(a: Seq<AssembledVoxel>, b: Seq<AssembledVoxel>)
    requires
        sorted_by_loc(a),
        sorted_by_loc(b),
        forall|c: [i64; 3]| occupies(a, c) <==> occupies(b, c),
    ensures
        a.len() == b.len(),
        forall|i: int| 0 <= i < a.len() ==> a[i].coordinate == b[i].coordinate,
    decreases a.len() + b.len(),
{
    if a.len() == 0 {
        if b.len() > 0 {
            assert(occupies(b, b[0].loc()));
        }
    } else if b.len() == 0 {
        assert(occupies(a, a[0].loc()));
    } else {
        let na = a.len() - 1;
        let nb = b.len() - 1;
        let la = a[na].loc();
        let lb = b[nb].loc();
        assert(occupies(a, la));
        assert(occupies(b, lb));
        let j = choose|j: int| 0 <= j < b.len() && #[trigger] b[j].loc() == la;
        let i = choose|i: int| 0 <= i < a.len() && #[trigger] a[i].loc() == lb;
        lemma_coord_lt_total(la, lb);
        if la != lb {
            if j < nb {
                assert(coord_lt(la, lb));
                if i < na {
                    assert(coord_lt(lb, la));
                }
            } else {
                assert(i < na);
                assert(coord_lt(lb, la));
            }
            assert(false);
        }
        let da = a.drop_last();
        let db = b.drop_last();
        assert forall|c: [i64; 3]| occupies(da, c) <==> occupies(db, c) by {
            if occupies(da, c) {
                let k = choose|k: int| 0 <= k < da.len() && #[trigger] da[k].loc() == c;
                assert(a[k].loc() == c);
                assert(occupies(a, c));
                assert(coord_lt(a[k].loc(), la));
                let m = choose|m: int| 0 <= m < b.len() && #[trigger] b[m].loc() == c;
                if m == nb {
                    lemma_coord_lt_total(c, la);
                }
                assert(db[m].loc() == c);
            }
            if occupies(db, c) {
                let k = choose|k: int| 0 <= k < db.len() && #[trigger] db[k].loc() == c;
                assert(b[k].loc() == c);
                assert(occupies(b, c));
                assert(coord_lt(b[k].loc(), lb));
                let m = choose|m: int| 0 <= m < a.len() && #[trigger] a[m].loc() == c;
                if m == na {
                    lemma_coord_lt_total(c, lb);
                }
                assert(da[m].loc() == c);
            }
        }
        lemma_same_keys_same_order(da, db);
        assert forall|k: int| 0 <= k < a.len() implies a[k].coordinate == b[k].coordinate by {
            if k < na {
                assert(a[k] == da[k] && b[k] == db[k]);
            }
        }
    }
}

proof fn lemma_fingerprint_pointwise(a: Seq<AssembledVoxel>, b: Seq<AssembledVoxel>)
    requires
        a.len() == b.len(),
        forall|i: int| 0 <= i < a.len() ==> a[i].coordinate == b[i].coordinate && a[i].material_slot == b[i].material_slot,
    ensures
        spec_fingerprint(a) == spec_fingerprint(b),
    decreases a.len(),
{
    if a.len() > 0 {
        lemma_fingerprint_pointwise(a.drop_last(), b.drop_last());
    }
}

/// Two well-formed assemblies that occupy the same coordinates with the
/// same material slots have the same fingerprint, whatever their voxels'
/// origins.
pub proof fn law_fingerprint_depends_on_content(a: AssembledFrame, b: AssembledFrame)
    requires
        a.wf(),
        b.wf(),
        forall|c: [i64; 3]| occupies(a.voxels@, c) <==> occupies(b.voxels@, c),
        forall|i: int, j: int|
            0 <= i < a.voxels@.len() && 0 <= j < b.voxels@.len() && a.voxels@[i].coordinate == b.voxels@[j].coordinate
                ==> a.voxels@[i].material_slot == b.voxels@[j].material_slot,
    ensures
        spec_fingerprint(a.voxels@) == spec_fingerprint(b.voxels@),
{
    lemma_same_keys_same_order(a.voxels@, b.voxels@);
    lemma_fingerprint_pointwise(a.voxels@, b.voxels@);
}

} // verus!

verus! {

proof fn lemma_parts_pass(palette: Seq<PaletteGroup>, parts: Seq<KitPart>, k: int, k2: int)
    requires
        0 <= k <= k2 < parts.len(),
        parts_fault_from(palette, parts, k) is None,
    ensures
        part_fault(palette, parts[k2]) is None,
        first_part_from(parts, parts[k2].id@, 0) == Some(k2),
    decreases k2 - k,
{
    if k < k2 {
        lemma_parts_pass(palette, parts, k + 1, k2);
    }
}

proof fn lemma_first_part_earlier(parts: Seq<KitPart>, id: Seq<char>, a: int, k: int, j: int)
    requires
        0 <= a <= j < k,
        first_part_from(parts, id, a) == Some(k),
    ensures
        parts[j].id@ != id,
    decreases j - a,
{
    if a < j {
        lemma_first_part_earlier(parts, id, a + 1, k, j);
    }
}

proof fn lemma_cells_sorted(cells: Seq<KitCell>, k: int)
    requires
        1 <= k,
        first_unsorted_from(cells, k) is None,
    ensures
        forall|i: int| k <= i < cells.len() ==> coord_lt(#[trigger] cells[i - 1].coordinate, cells[i].coordinate),
    decreases cells.len() - k,
{
    if k < cells.len() {
        lemma_cells_sorted(cells, k + 1);
    }
}

proof fn lemma_cells_ascending(cells: Seq<KitCell>, i: int, j: int)
    requires
        0 <= i < j < cells.len(),
        forall|q: int| 1 <= q < cells.len() ==> coord_lt(#[trigger] cells[q - 1].coordinate, cells[q].coordinate),
    ensures
        coord_lt(cells[i].coordinate, cells[j].coordinate),
    decreases j - i,
{
    if i + 1 < j {
        lemma_cells_ascending(cells, i, j - 1);
        assert(coord_lt(cells[j - 1].coordinate, cells[j].coordinate));
        crate::voxel::lemma_coord_lt_trans(cells[i].coordinate, cells[j - 1].coordinate, cells[j].coordinate);
    } else {
        assert(coord_lt(cells[j - 1].coordinate, cells[j].coordinate));
    }
}

proof fn lemma_no_zero_slot(cells: Seq<KitCell>, k: int, i: int)
    requires
        0 <= k <= i < cells.len(),
        first_zero_slot_from(cells, k) is None,
    ensures
        cells[i].material_slot != 0,
    decreases i - k,
{
    if k < i {
        lemma_no_zero_slot(cells, k + 1, i);
    }
}

proof fn lemma_known_slots(palette: Seq<PaletteGroup>, cells: Seq<KitCell>, k: int, i: int)
    requires
        0 <= k <= i < cells.len(),
        first_unknown_slot_from(palette, cells, k) is None,
    ensures
        slot_known(palette, cells[i].material_slot),
    decreases i - k,
{
    if k < i {
        lemma_known_slots(palette, cells, k + 1, i);
    }
}

proof fn lemma_cross_pass(palette: Seq<PaletteGroup>, parts: Seq<KitPart>, k: int, k2: int)
    requires
        0 <= k <= k2 < parts.len(),
        cross_fault_from(palette, parts, k) is None,
    ensures
        first_unknown_slot_from(palette, parts[k2].cells@, 0) is None,
    decreases k2 - k,
{
    if k < k2 {
        lemma_cross_pass(palette, parts, k + 1, k2);
    }
}

/// What a kit that passes validation guarantees of its parts: the kit has
/// at least one part, part ids are distinct, each part has a version of at
/// least 1 and at least one cell, its cells ascend strictly by coordinate,
/// and every cell uses a non-zero material slot that the palette declares.
pub proof fn law_valid_kit_parts_are_well_formed(kit: VoxelKit)
    requires
        kit.fault() is None,
    ensures
        kit.parts@.len() > 0,
        forall|i: int, j: int| 0 <= i < j < kit.parts@.len() ==> kit.parts@[i].id@ != kit.parts@[j].id@,
        forall|i: int| #![trigger kit.parts@[i]] 0 <= i < kit.parts@.len() ==> kit.parts@[i].version >= 1
            && kit.parts@[i].cells@.len() > 0,
        forall|i: int, a: int, b: int|
            0 <= i < kit.parts@.len() && 0 <= a < b < kit.parts@[i].cells@.len() ==> coord_lt(
                #[trigger] kit.parts@[i].cells@[a].coordinate,
                #[trigger] kit.parts@[i].cells@[b].coordinate,
            ),
        forall|i: int, a: int|
            0 <= i < kit.parts@.len() && 0 <= a < kit.parts@[i].cells@.len() ==> (#[trigger] kit.parts@[i].cells@[a]).material_slot
                != 0 && slot_known(kit.palette@, kit.parts@[i].cells@[a].material_slot),
{
    let parts = kit.parts@;
    let palette = kit.palette@;
    assert forall|i: int, j: int| 0 <= i < j < parts.len() implies parts[i].id@ != parts[j].id@ by {
        lemma_parts_pass(palette, parts, 0, j);
        lemma_first_part_earlier(parts, parts[j].id@, 0, j, i);
    }
    assert forall|i: int| #![trigger parts[i]] 0 <= i < parts.len() implies parts[i].version >= 1 && parts[i].cells@.len() > 0 by {
        lemma_parts_pass(palette, parts, 0, i);
    }
    assert forall|i: int, a: int, b: int| 0 <= i < parts.len() && 0 <= a < b < parts[i].cells@.len() implies coord_lt(
        #[trigger] parts[i].cells@[a].coordinate,
        #[trigger] parts[i].cells@[b].coordinate,
    ) by {
        lemma_parts_pass(palette, parts, 0, i);
        lemma_cells_sorted(parts[i].cells@, 1);
        lemma_cells_ascending(parts[i].cells@, a, b);
    }
    assert forall|i: int, a: int| 0 <= i < parts.len() && 0 <= a < parts[i].cells@.len() implies (
    #[trigger] parts[i].cells@[a]).material_slot != 0 && slot_known(palette, parts[i].cells@[a].material_slot) by {
        lemma_parts_pass(palette, parts, 0, i);
        lemma_no_zero_slot(parts[i].cells@, 0, a);
        lemma_cross_pass(palette, parts, 0, i);
        lemma_known_slots(palette, parts[i].cells@, 0, a);
    }
}

} // verus!
