//! The bake spec that turns one static source mesh into a canonical kit:
//! its shape and the rules it must meet before any baking starts.

use vstd::prelude::*;
use vstd::string::StrSliceExecFns;
use vstd::string::StringExecFns;

use crate::kit::{
    first_unknown_group_from, group_named_exec, slot_known, slot_known_exec, PaletteGroup,
};
use crate::model::{is_normal_relative_path, normal_relative_path};
use crate::text::{debug_string, debug_text, decimal_text, decimal_u64, starts_with, text_equals, text_starts_with};

verus! {

/// Where the source mesh comes from and what it must hash to.
#[derive(Debug, Clone, PartialEq)]
pub struct KitBakeSource {
    pub asset_id: String,
    pub path: String,
    pub expected_source_sha256: String,
    pub license_path: String,
}

/// An optional box that narrows a slice to part of its node. Each axis is
/// held as whether its two bounds, where both are given, are ordered
/// (lower strictly below upper).
#[derive(Debug, Clone, Copy, PartialEq)]
pub struct KitBakeRegion {
    pub x_ordered: bool,
    pub y_ordered: bool,
    pub z_ordered: bool,
}

/// One node of the source mesh that feeds a part, with an optional region
/// and an optional material slot that overrides the node's own.
#[derive(Debug, Clone, PartialEq)]
pub struct KitBakeSlice {
    pub node: String,
    pub region: Option<KitBakeRegion>,
    pub kit_slot: Option<u16>,
}

/// A part to bake; its pivot is held as whether all three coordinates are
/// finite.
#[derive(Debug, Clone, PartialEq)]
pub struct KitBakePart {
    pub id: String,
    pub palette_groups: Vec<String>,
    pub limb: bool,
    pub symmetry_partner: Option<String>,
    pub pivot_finite: bool,
    pub slices: Vec<KitBakeSlice>,
}

/// A socket joining two parts; its geometry is held as whether position
/// and forward are finite and the radius is finite and positive.
#[derive(Debug, Clone, PartialEq)]
pub struct KitBakeSocket {
    pub id: String,
    pub parts: [String; 2],
    pub geometry_valid: bool,
}

/// A bake spec. The scale is held as whether the character height and the
/// target rate are finite and positive and the ground height is finite;
/// `material_slots` lists the source-to-kit slot map in ascending
/// source-slot order.
#[derive(Debug, Clone, PartialEq)]
pub struct KitBakeSpec {
    pub schema_version: u32,
    pub kit_id: String,
    pub source: KitBakeSource,
    pub scale_valid: bool,
    pub palette: Vec<PaletteGroup>,
    pub material_slots: Vec<(u32, u16)>,
    pub parts: Vec<KitBakePart>,
    pub sockets: Vec<KitBakeSocket>,
    pub min_limb_thickness: u32,
    pub protected_parts: Vec<String>,
}

/// An ASCII letter or digit.
pub open spec fn ascii_alnum(c: char) -> bool {
    let v = c as u32;
    (48 <= v <= 57) || (65 <= v <= 90) || (97 <= v <= 122)
}

/// An ASCII hexadecimal digit, in either case.
pub open spec fn ascii_hex(c: char) -> bool {
    let v = c as u32;
    (48 <= v <= 57) || (65 <= v <= 70) || (97 <= v <= 102)
}

/// A character allowed in an identity: an ASCII letter or digit, and `-`
/// or `_` where the identity allows them.
pub open spec fn id_char(c: char, dash: bool, underscore: bool) -> bool {
    ascii_alnum(c) || (dash && c == '-') || (underscore && c == '_')
}

/// A non-empty identity made of allowed characters only.
pub open spec fn identity_text(v: Seq<char>, dash: bool, underscore: bool) -> bool {
    v.len() > 0 && forall|i: int| 0 <= i < v.len() ==> id_char(#[trigger] v[i], dash, underscore)
}

/// `sha256:` followed by exactly 64 hexadecimal digits.
pub open spec fn canonical_sha256(v: Seq<char>) -> bool {
    &&& v.len() == 71
    &&& v.subrange(0, 7) == "sha256:"@
    &&& forall|i: int| 7 <= i < 71 ==> ascii_hex(#[trigger] v[i])
}

pub fn is_ascii_alnum(c: char) -> (ok: bool)
    ensures
        ok == ascii_alnum(c),
{
    let v = c as u32;
    (48 <= v && v <= 57) || (65 <= v && v <= 90) || (97 <= v && v <= 122)
}

pub fn is_identity_text(value: &str, dash: bool, underscore: bool) -> (ok: bool)
    ensures
        ok == identity_text(value@, dash, underscore),
{
    let n = value.unicode_len();
    if n == 0 {
        return false;
    }
    let mut i: usize = 0;
    while i < n
        invariant
            n == value@.len(),
            i <= n,
            forall|j: int| 0 <= j < i ==> id_char(#[trigger] value@[j], dash, underscore),
        decreases n - i,
    {
        let c = value.get_char(i);
        if !(is_ascii_alnum(c) || (dash && c == '-') || (underscore && c == '_')) {
            assert(!id_char(value@[i as int], dash, underscore));
            return false;
        }
        i = i + 1;
    }
    true
}

pub fn is_canonical_sha256(value: &str) -> (ok: bool)
    ensures
        ok == canonical_sha256(value@),
{
    proof {
        reveal_strlit("sha256:");
    }
    if value.unicode_len() != 71 || !text_starts_with(value, "sha256:") {
        return false;
    }
    let mut i: usize = 7;
    while i < 71
        invariant
            value@.len() == 71,
            7 <= i <= 71,
            value@.subrange(0, 7) == "sha256:"@,
            forall|j: int| 7 <= j < i ==> ascii_hex(#[trigger] value@[j]),
        decreases 71 - i,
    {
        let v = value.get_char(i) as u32;
        if !((48 <= v && v <= 57) || (65 <= v && v <= 70) || (97 <= v && v <= 102)) {
            assert(!ascii_hex(value@[i as int]));
            return false;
        }
        i = i + 1;
    }
    true
}

} // verus!

verus! {

/// Some part of the spec has id `id`.
pub open spec fn part_declared(parts: Seq<KitBakePart>, id: Seq<char>) -> bool {
    exists|j: int| 0 <= j < parts.len() && (#[trigger] parts[j]).id@ == id
}

/// The first entry of the slot map, from `k` on, whose kit slot the
/// palette does not declare.
pub open spec fn material_fault_from(palette: Seq<PaletteGroup>, slots: Seq<(u32, u16)>, k: int) -> Option<Seq<char>>
    decreases slots.len() - k,
{
    if k < 0 || k >= slots.len() {
        None
    } else if !slot_known(palette, slots[k].1) {
        Some("source material slot "@ + decimal_text(slots[k].0 as int) + " maps to unknown kit slot "@
            + decimal_text(slots[k].1 as int))
    } else {
        material_fault_from(palette, slots, k + 1)
    }
}

/// The first rule a slice of part `part_id` breaks.
pub open spec fn slice_fault(palette: Seq<PaletteGroup>, part_id: Seq<char>, s: KitBakeSlice) -> Option<Seq<char>> {
    if s.node@.len() == 0 {
        Some("part "@ + part_id + " has an empty slice node"@)
    } else if s.kit_slot matches Some(slot) && !slot_known(palette, slot) {
        Some("part "@ + part_id + " slice "@ + s.node@ + ": kitSlot "@ + decimal_text(s.kit_slot.unwrap() as int)
            + " is not in the palette"@)
    } else if s.region matches Some(r) && !(r.x_ordered && r.y_ordered && r.z_ordered) {
        Some("part "@ + part_id + " slice "@ + s.node@ + ": region lower bound must be < upper bound"@)
    } else {
        None
    }
}

pub open spec fn slices_fault_from(palette: Seq<PaletteGroup>, part_id: Seq<char>, slices: Seq<KitBakeSlice>, k: int) -> Option<Seq<char>>
    decreases slices.len() - k,
{
    if k < 0 || k >= slices.len() {
        None
    } else if slice_fault(palette, part_id, slices[k]) is Some {
        slice_fault(palette, part_id, slices[k])
    } else {
        slices_fault_from(palette, part_id, slices, k + 1)
    }
}

/// The first rule part `k` breaks, given that the parts before it passed.
pub open spec fn bake_part_fault(palette: Seq<PaletteGroup>, parts: Seq<KitBakePart>, k: int) -> Option<Seq<char>> {
    let p = parts[k];
    if !identity_text(p.id@, true, true) {
        Some("part id "@ + debug_text(p.id@) + " is not an identity"@)
    } else if exists|j: int| 0 <= j < k && (#[trigger] parts[j]).id@ == p.id@ {
        Some("duplicate part id "@ + p.id@)
    } else if p.slices@.len() == 0 {
        Some("part "@ + p.id@ + " has no slices"@)
    } else if first_unknown_group_from(palette, p.palette_groups@, 0) is Some {
        Some("part "@ + p.id@ + " references unknown palette group "@
            + p.palette_groups@[first_unknown_group_from(palette, p.palette_groups@, 0).unwrap()]@)
    } else if !p.pivot_finite {
        Some("part "@ + p.id@ + ": pivotWorld must be finite"@)
    } else {
        slices_fault_from(palette, p.id@, p.slices@, 0)
    }
}

pub open spec fn bake_parts_fault_from(palette: Seq<PaletteGroup>, parts: Seq<KitBakePart>, k: int) -> Option<Seq<char>>
    decreases parts.len() - k,
{
    if k < 0 || k >= parts.len() {
        None
    } else if bake_part_fault(palette, parts, k) is Some {
        bake_part_fault(palette, parts, k)
    } else {
        bake_parts_fault_from(palette, parts, k + 1)
    }
}

/// The first rule a socket breaks against the spec's parts.
pub open spec fn bake_socket_fault(parts: Seq<KitBakePart>, s: KitBakeSocket) -> Option<Seq<char>> {
    let a = s.parts@[0]@;
    let b = s.parts@[1]@;
    if !identity_text(s.id@, false, true) {
        Some("socket id "@ + debug_text(s.id@) + " is not an identity"@)
    } else if !part_declared(parts, a) {
        Some("socket "@ + s.id@ + " references unknown part "@ + a)
    } else if !part_declared(parts, b) {
        Some("socket "@ + s.id@ + " references unknown part "@ + b)
    } else if a == b {
        Some("socket "@ + s.id@ + " mates a part to itself"@)
    } else if !s.geometry_valid {
        Some("socket "@ + s.id@ + " has invalid geometry"@)
    } else {
        None
    }
}

pub open spec fn bake_sockets_fault_from(parts: Seq<KitBakePart>, sockets: Seq<KitBakeSocket>, k: int) -> Option<Seq<char>>
    decreases sockets.len() - k,
{
    if k < 0 || k >= sockets.len() {
        None
    } else if bake_socket_fault(parts, sockets[k]) is Some {
        bake_socket_fault(parts, sockets[k])
    } else {
        bake_sockets_fault_from(parts, sockets, k + 1)
    }
}

/// The first protected part name, from `k` on, that names no part.
pub open spec fn protected_fault_from(parts: Seq<KitBakePart>, names: Seq<String>, k: int) -> Option<Seq<char>>
    decreases names.len() - k,
{
    if k < 0 || k >= names.len() {
        None
    } else if !part_declared(parts, names[k]@) {
        Some("protectedParts references unknown part "@ + names[k]@)
    } else {
        protected_fault_from(parts, names, k + 1)
    }
}

impl KitBakeSpec {
    /// The first rule the spec breaks, in the order the rules are checked;
    /// `None` when it meets them all.
    pub open spec fn fault(&self) -> Option<Seq<char>> {
        if self.schema_version != 1 {
            Some("kit bake spec schema "@ + decimal_text(self.schema_version as int) + " is unsupported; expected 1"@)
        } else if !identity_text(self.kit_id@, true, false) {
            Some("kitId must be a non-empty identity"@)
        } else if !starts_with(self.source.asset_id@, "mesh/"@) {
            Some("source.assetId must be a mesh/... static mesh identity"@)
        } else if !normal_relative_path(self.source.path@) {
            Some("source.path"@ + " must be a safe relative path"@)
        } else if !normal_relative_path(self.source.license_path@) {
            Some("source.licensePath"@ + " must be a safe relative path"@)
        } else if !canonical_sha256(self.source.expected_source_sha256@) {
            Some("source.expectedSourceSha256 is not a canonical SHA-256"@)
        } else if !self.scale_valid {
            Some("character height, ground, and target rate must be positive finite"@)
        } else if self.palette@.len() == 0 {
            Some("palette must not be empty"@)
        } else if material_fault_from(self.palette@, self.material_slots@, 0) is Some {
            material_fault_from(self.palette@, self.material_slots@, 0)
        } else if self.parts@.len() == 0 {
            Some("parts must not be empty"@)
        } else if bake_parts_fault_from(self.palette@, self.parts@, 0) is Some {
            bake_parts_fault_from(self.palette@, self.parts@, 0)
        } else if bake_sockets_fault_from(self.parts@, self.sockets@, 0) is Some {
            bake_sockets_fault_from(self.parts@, self.sockets@, 0)
        } else if self.min_limb_thickness == 0 {
            Some("minLimbThickness must be >= 1"@)
        } else {
            protected_fault_from(self.parts@, self.protected_parts@, 0)
        }
    }
}

} // verus!

verus! {

fn check_material_slots(palette: &Vec<PaletteGroup>, slots: &Vec<(u32, u16)>) -> (result: Result<(), String>)
    ensures
        result is Ok <==> material_fault_from(palette@, slots@, 0) is None,
        result matches Err(m) ==> Some(m@) == material_fault_from(palette@, slots@, 0),
{
    let mut k: usize = 0;
    while k < slots.len()
        invariant
            k <= slots@.len(),
            material_fault_from(palette@, slots@, 0) == material_fault_from(palette@, slots@, k as int),
        decreases slots@.len() - k,
    {
        let (source_slot, kit_slot) = slots[k];
        if !slot_known_exec(palette, kit_slot) {
            let mut message = String::from_str("source material slot ");
            message.append(decimal_u64(source_slot as u64).as_str());
            message.append(" maps to unknown kit slot ");
            message.append(decimal_u64(kit_slot as u64).as_str());
            return Err(message);
        }
        k = k + 1;
    }
    Ok(())
}

fn slice_head(part_id: &str, node: &str) -> (text: String)
    ensures
        text@ == "part "@ + part_id@ + " slice "@ + node@,
{
    let mut text = String::from_str("part ");
    text.append(part_id);
    text.append(" slice ");
    text.append(node);
    text
}

fn check_slice(palette: &Vec<PaletteGroup>, part_id: &str, s: &KitBakeSlice) -> (result: Result<(), String>)
    ensures
        result is Ok <==> slice_fault(palette@, part_id@, *s) is None,
        result matches Err(m) ==> Some(m@) == slice_fault(palette@, part_id@, *s),
{
    if s.node.unicode_len() == 0 {
        let mut message = String::from_str("part ");
        message.append(part_id);
        message.append(" has an empty slice node");
        return Err(message);
    }
    if let Some(slot) = s.kit_slot {
        if !slot_known_exec(palette, slot) {
            let mut message = slice_head(part_id, s.node.as_str());
            message.append(": kitSlot ");
            message.append(decimal_u64(slot as u64).as_str());
            message.append(" is not in the palette");
            return Err(message);
        }
    }
    if let Some(r) = s.region {
        if !(r.x_ordered && r.y_ordered && r.z_ordered) {
            let mut message = slice_head(part_id, s.node.as_str());
            message.append(": region lower bound must be < upper bound");
            return Err(message);
        }
    }
    Ok(())
}

fn check_slices(palette: &Vec<PaletteGroup>, part_id: &str, slices: &Vec<KitBakeSlice>) -> (result: Result<(), String>)
    ensures
        result is Ok <==> slices_fault_from(palette@, part_id@, slices@, 0) is None,
        result matches Err(m) ==> Some(m@) == slices_fault_from(palette@, part_id@, slices@, 0),
{
    let mut k: usize = 0;
    while k < slices.len()
        invariant
            k <= slices@.len(),
            slices_fault_from(palette@, part_id@, slices@, 0) == slices_fault_from(
                palette@,
                part_id@,
                slices@,
                k as int,
            ),
        decreases slices@.len() - k,
    {
        check_slice(palette, part_id, &slices[k])?;
        k = k + 1;
    }
    Ok(())
}

fn check_bake_part(palette: &Vec<PaletteGroup>, parts: &Vec<KitBakePart>, k: usize) -> (result: Result<(), String>)
    requires
        k < parts@.len(),
    ensures
        result is Ok <==> bake_part_fault(palette@, parts@, k as int) is None,
        result matches Err(m) ==> Some(m@) == bake_part_fault(palette@, parts@, k as int),
{
    let p = &parts[k];
    if !is_identity_text(p.id.as_str(), true, true) {
        let mut message = String::from_str("part id ");
        message.append(debug_string(p.id.as_str()).as_str());
        message.append(" is not an identity");
        return Err(message);
    }
    let mut j: usize = 0;
    while j < k
        invariant
            j <= k < parts@.len(),
            *p == parts@[k as int],
            identity_text(p.id@, true, true),
            forall|h: int| 0 <= h < j ==> (#[trigger] parts@[h]).id@ != p.id@,
        decreases k - j,
    {
        if text_equals(parts[j].id.as_str(), p.id.as_str()) {
            assert(parts@[j as int].id@ == p.id@);
            assert(exists|h: int| 0 <= h < k && (#[trigger] parts@[h]).id@ == parts@[k as int].id@);
            let mut message = String::from_str("duplicate part id ");
            message.append(p.id.as_str());
            return Err(message);
        }
        j = j + 1;
    }
    if p.slices.len() == 0 {
        let mut message = String::from_str("part ");
        message.append(p.id.as_str());
        message.append(" has no slices");
        return Err(message);
    }
    let mut i: usize = 0;
    while i < p.palette_groups.len()
        invariant
            i <= p.palette_groups@.len(),
            k < parts@.len(),
            *p == parts@[k as int],
            identity_text(p.id@, true, true),
            p.slices@.len() > 0,
            forall|h: int| 0 <= h < k ==> (#[trigger] parts@[h]).id@ != p.id@,
            first_unknown_group_from(palette@, p.palette_groups@, 0) == first_unknown_group_from(
                palette@,
                p.palette_groups@,
                i as int,
            ),
        decreases p.palette_groups@.len() - i,
    {
        if !group_named_exec(palette, p.palette_groups[i].as_str()) {
            assert(first_unknown_group_from(palette@, p.palette_groups@, i as int) == Some(i as int));
            let mut message = String::from_str("part ");
            message.append(p.id.as_str());
            message.append(" references unknown palette group ");
            message.append(p.palette_groups[i].as_str());
            return Err(message);
        }
        i = i + 1;
    }
    if !p.pivot_finite {
        let mut message = String::from_str("part ");
        message.append(p.id.as_str());
        message.append(": pivotWorld must be finite");
        return Err(message);
    }
    check_slices(palette, p.id.as_str(), &p.slices)
}

fn check_bake_parts(palette: &Vec<PaletteGroup>, parts: &Vec<KitBakePart>) -> (result: Result<(), String>)
    ensures
        result is Ok <==> bake_parts_fault_from(palette@, parts@, 0) is None,
        result matches Err(m) ==> Some(m@) == bake_parts_fault_from(palette@, parts@, 0),
{
    let mut k: usize = 0;
    while k < parts.len()
        invariant
            k <= parts@.len(),
            bake_parts_fault_from(palette@, parts@, 0) == bake_parts_fault_from(palette@, parts@, k as int),
        decreases parts@.len() - k,
    {
        check_bake_part(palette, parts, k)?;
        k = k + 1;
    }
    Ok(())
}

fn part_declared_exec(parts: &Vec<KitBakePart>, id: &str) -> (found: bool)
    ensures
        found == part_declared(parts@, id@),
{
    let mut j: usize = 0;
    while j < parts.len()
        invariant
            j <= parts@.len(),
            forall|h: int| 0 <= h < j ==> (#[trigger] parts@[h]).id@ != id@,
        decreases parts@.len() - j,
    {
        if text_equals(parts[j].id.as_str(), id) {
            return true;
        }
        j = j + 1;
    }
    false
}

fn check_bake_socket(parts: &Vec<KitBakePart>, s: &KitBakeSocket) -> (result: Result<(), String>)
    ensures
        result is Ok <==> bake_socket_fault(parts@, *s) is None,
        result matches Err(m) ==> Some(m@) == bake_socket_fault(parts@, *s),
{
    if !is_identity_text(s.id.as_str(), false, true) {
        let mut message = String::from_str("socket id ");
        message.append(debug_string(s.id.as_str()).as_str());
        message.append(" is not an identity");
        return Err(message);
    }
    let first: &String = &s.parts[0];
    let second: &String = &s.parts[1];
    assert(*first == s.parts@[0] && *second == s.parts@[1]);
    if !part_declared_exec(parts, first.as_str()) {
        let mut message = String::from_str("socket ");
        message.append(s.id.as_str());
        message.append(" references unknown part ");
        message.append(first.as_str());
        return Err(message);
    }
    if !part_declared_exec(parts, second.as_str()) {
        let mut message = String::from_str("socket ");
        message.append(s.id.as_str());
        message.append(" references unknown part ");
        message.append(second.as_str());
        return Err(message);
    }
    if text_equals(first.as_str(), second.as_str()) {
        let mut message = String::from_str("socket ");
        message.append(s.id.as_str());
        message.append(" mates a part to itself");
        return Err(message);
    }
    if !s.geometry_valid {
        let mut message = String::from_str("socket ");
        message.append(s.id.as_str());
        message.append(" has invalid geometry");
        return Err(message);
    }
    Ok(())
}

fn check_bake_sockets(parts: &Vec<KitBakePart>, sockets: &Vec<KitBakeSocket>) -> (result: Result<(), String>)
    ensures
        result is Ok <==> bake_sockets_fault_from(parts@, sockets@, 0) is None,
        result matches Err(m) ==> Some(m@) == bake_sockets_fault_from(parts@, sockets@, 0),
{
    let mut k: usize = 0;
    while k < sockets.len()
        invariant
            k <= sockets@.len(),
            bake_sockets_fault_from(parts@, sockets@, 0) == bake_sockets_fault_from(parts@, sockets@, k as int),
        decreases sockets@.len() - k,
    {
        check_bake_socket(parts, &sockets[k])?;
        k = k + 1;
    }
    Ok(())
}

fn check_protected(parts: &Vec<KitBakePart>, names: &Vec<String>) -> (result: Result<(), String>)
    ensures
        result is Ok <==> protected_fault_from(parts@, names@, 0) is None,
        result matches Err(m) ==> Some(m@) == protected_fault_from(parts@, names@, 0),
{
    let mut k: usize = 0;
    while k < names.len()
        invariant
            k <= names@.len(),
            protected_fault_from(parts@, names@, 0) == protected_fault_from(parts@, names@, k as int),
        decreases names@.len() - k,
    {
        if !part_declared_exec(parts, names[k].as_str()) {
            let mut message = String::from_str("protectedParts references unknown part ");
            message.append(names[k].as_str());
            return Err(message);
        }
        k = k + 1;
    }
    Ok(())
}

} // verus!

verus! {

impl KitBakeSpec {
    /// Checks the spec against every rule, in order, and reports the first
    /// one it breaks.
    pub fn validate(&self) -> (result: Result<(), String>)
        ensures
            result is Ok <==> self.fault() is None,
            result matches Err(m) ==> Some(m@) == self.fault(),
    {
        proof {
            reveal_strlit("mesh/");
        }
        if self.schema_version != 1 {
            let mut message = String::from_str("kit bake spec schema ");
            message.append(decimal_u64(self.schema_version as u64).as_str());
            message.append(" is unsupported; expected 1");
            return Err(message);
        }
        if !is_identity_text(self.kit_id.as_str(), true, false) {
            return Err(String::from_str("kitId must be a non-empty identity"));
        }
        if !text_starts_with(self.source.asset_id.as_str(), "mesh/") {
            return Err(String::from_str("source.assetId must be a mesh/... static mesh identity"));
        }
        if !is_normal_relative_path(self.source.path.as_str()) {
            let mut message = String::from_str("source.path");
            message.append(" must be a safe relative path");
            return Err(message);
        }
        if !is_normal_relative_path(self.source.license_path.as_str()) {
            let mut message = String::from_str("source.licensePath");
            message.append(" must be a safe relative path");
            return Err(message);
        }
        if !is_canonical_sha256(self.source.expected_source_sha256.as_str()) {
            return Err(String::from_str("source.expectedSourceSha256 is not a canonical SHA-256"));
        }
        if !self.scale_valid {
            return Err(String::from_str("character height, ground, and target rate must be positive finite"));
        }
        if self.palette.len() == 0 {
            return Err(String::from_str("palette must not be empty"));
        }
        check_material_slots(&self.palette, &self.material_slots)?;
        if self.parts.len() == 0 {
            return Err(String::from_str("parts must not be empty"));
        }
        check_bake_parts(&self.palette, &self.parts)?;
        check_bake_sockets(&self.parts, &self.sockets)?;
        if self.min_limb_thickness == 0 {
            return Err(String::from_str("minLimbThickness must be >= 1"));
        }
        check_protected(&self.parts, &self.protected_parts)
    }
}

} // verus!

verus! {

proof fn lemma_sockets_pass(parts: Seq<KitBakePart>, sockets: Seq<KitBakeSocket>, k: int, i: int)
    requires
        0 <= k <= i < sockets.len(),
        bake_sockets_fault_from(parts, sockets, k) is None,
    ensures
        bake_socket_fault(parts, sockets[i]) is None,
    decreases i - k,
{
    if k < i {
        lemma_sockets_pass(parts, sockets, k + 1, i);
    }
}

proof fn lemma_parts_pass(palette: Seq<PaletteGroup>, parts: Seq<KitBakePart>, k: int, i: int)
    requires
        0 <= k <= i < parts.len(),
        bake_parts_fault_from(palette, parts, k) is None,
    ensures
        bake_part_fault(palette, parts, i) is None,
    decreases i - k,
{
    if k < i {
        lemma_parts_pass(palette, parts, k + 1, i);
    }
}

/// A spec that passes validation names every part once, and each of its
/// sockets joins two different parts that the spec declares.
pub proof fn law_valid_bake_spec_is_well_joined(spec: KitBakeSpec)
    requires
        spec.fault() is None,
    ensures
        forall|i: int, j: int| 0 <= i < j < spec.parts@.len() ==> spec.parts@[i].id@ != spec.parts@[j].id@,
        forall|s: int| 0 <= s < spec.sockets@.len() ==> {
            let a = (#[trigger] spec.sockets@[s]).parts@[0]@;
            let b = spec.sockets@[s].parts@[1]@;
            part_declared(spec.parts@, a) && part_declared(spec.parts@, b) && a != b
        },
{
    assert forall|i: int, j: int| 0 <= i < j < spec.parts@.len() implies spec.parts@[i].id@ != spec.parts@[j].id@ by {
        lemma_parts_pass(spec.palette@, spec.parts@, 0, j);
    }
    assert forall|s: int| 0 <= s < spec.sockets@.len() implies {
        let a = (#[trigger] spec.sockets@[s]).parts@[0]@;
        let b = spec.sockets@[s].parts@[1]@;
        part_declared(spec.parts@, a) && part_declared(spec.parts@, b) && a != b
    } by {
        lemma_sockets_pass(spec.parts@, spec.sockets@, 0, s);
    }
}

} // verus!
