//! Project document vocabulary and its text rules: content hashes,
//! canonical identities and project-relative paths.

use vstd::prelude::*;
use vstd::string::StrSliceExecFns;
use vstd::string::StringExecFns;
use vstd::string::StringSliceAdditionalSpecFns;

use crate::project::sha256_text;
use crate::text::{
    ascii_chars, canonical_text, decimal_text, decimal_u64, hex_bytes, is_canonical_text, starts_with, text_starts_with,
};

verus! {

/// A compiled voxel object the project references, with its expected hash.
#[derive(Debug, Clone, PartialEq, Eq)]
pub struct ProjectVoxelObject {
    pub asset_id: String,
    pub path: String,
    pub expected_content_hash: String,
}

/// Which frame of a voxel object an instance shows.
#[derive(Debug, Clone, PartialEq, Eq)]
pub enum ProjectFrameSelection {
    Default,
    Clip { clip_id: String, frame_index: u32 },
}

/// How an instance collides.
#[derive(Debug, Clone, PartialEq, Eq)]
pub enum ProjectCollisionPolicy {
    /// No collision (`none` in project documents).
    Disabled,
    StableFrame { frame: ProjectFrameSelection },
}

/// The bytes of `sha256:`.
pub open spec fn sha256_prefix() -> Seq<u8> {
    seq![115u8, 104u8, 97u8, 50u8, 53u8, 54u8, 58u8]
}

/// An ASCII digit or a lower-case letter `a`..`f`.
pub open spec fn lower_hex_byte(b: u8) -> bool {
    (48 <= b <= 57) || (97 <= b <= 102)
}

/// `sha256:` followed by 64 lower-case hex digits, as bytes.
pub open spec fn sha256_form(bytes: Seq<u8>) -> bool {
    &&& bytes.len() == 71
    &&& bytes.subrange(0, 7) == sha256_prefix()
    &&& forall|i: int| 7 <= i < 71 ==> lower_hex_byte(#[trigger] bytes[i])
}

/// Whether `value` is a content hash in `sha256:<hex>` form.
pub fn valid_sha256(value: &str) -> (valid: bool)
    ensures
        valid == sha256_form(value.spec_bytes()),
{
    let bytes = value.as_bytes();
    if bytes.len() != 71 {
        return false;
    }
    let prefix: [u8; 7] = [115, 104, 97, 50, 53, 54, 58];
    let mut i: usize = 0;
    while i < 7
        invariant
            i <= 7,
            bytes@.len() == 71,
            bytes@ == value.spec_bytes(),
            prefix@ == sha256_prefix(),
            forall|j: int| 0 <= j < i ==> bytes@[j] == sha256_prefix()[j],
        decreases 7 - i,
    {
        if bytes[i] != prefix[i] {
            proof {
                assert(bytes@.subrange(0, 7)[i as int] != sha256_prefix()[i as int]);
            }
            return false;
        }
        i = i + 1;
    }
    proof {
        assert(bytes@.subrange(0, 7) =~= sha256_prefix());
    }
    let mut k: usize = 7;
    while k < 71
        invariant
            7 <= k <= 71,
            bytes@.len() == 71,
            bytes@ == value.spec_bytes(),
            bytes@.subrange(0, 7) == sha256_prefix(),
            forall|j: int| 7 <= j < k ==> lower_hex_byte(#[trigger] bytes@[j]),
        decreases 71 - k,
    {
        let b = bytes[k];
        if !((48 <= b && b <= 57) || (97 <= b && b <= 102)) {
            return false;
        }
        k = k + 1;
    }
    true
}

proof fn lemma_hex_digits(bytes: Seq<u8>)
    ensures
        hex_bytes(bytes).len() == 2 * bytes.len(),
        forall|i: int| 0 <= i < hex_bytes(bytes).len() ==> lower_hex_byte(#[trigger] hex_bytes(bytes)[i]),
    decreases bytes.len(),
{
    if bytes.len() > 0 {
        lemma_hex_digits(bytes.skip(1));
        let head = crate::text::hex_byte(bytes[0]);
        assert(hex_bytes(bytes) == head + hex_bytes(bytes.skip(1)));
        assert forall|i: int| 0 <= i < hex_bytes(bytes).len() implies lower_hex_byte(#[trigger] hex_bytes(bytes)[i]) by {
            if i >= 2 {
                assert(hex_bytes(bytes)[i] == hex_bytes(bytes.skip(1))[i - 2]);
            }
        }
    }
}

/// Every content hash this library computes passes `valid_sha256`.
pub proof fn law_sha256_text_is_valid(bytes: Seq<u8>)
    requires
        crate::project::spec_sha256(bytes).len() == 32,
    ensures
        sha256_form(vstd::utf8::encode_utf8(sha256_text(bytes))),
{
    let hex = hex_bytes(crate::project::spec_sha256(bytes));
    lemma_hex_digits(crate::project::spec_sha256(bytes));
    let chars = sha256_text(bytes);
    reveal_strlit("sha256:");
    assert(vstd::utf8::is_ascii_chars(chars)) by {
        assert forall|i: int| 0 <= i < chars.len() implies '\0' <= #[trigger] chars[i] <= '\u{7f}' by {
            if i >= 7 {
                assert(chars[i] == ascii_chars(hex)[i - 7]);
                assert(hex[i - 7] < 128);
            }
        }
    }
    vstd::utf8::is_ascii_chars_encode_utf8(chars);
    let enc = vstd::utf8::encode_utf8(chars);
    assert(enc.subrange(0, 7) =~= sha256_prefix());
    assert forall|i: int| 7 <= i < 71 implies lower_hex_byte(#[trigger] enc[i]) by {
        assert(chars[i] == ascii_chars(hex)[i - 7]);
    }
}

/// `Err` unless the value is non-empty canonical text.
pub fn require_identity(value: &str, path: &str) -> (result: Result<(), String>)
    ensures
        result is Ok <==> canonical_text(value@),
        result matches Err(m) ==> m@ == path@ + " must be non-empty canonical text"@,
{
    if !is_canonical_text(value) {
        let mut message = String::from_str(path);
        message.append(" must be non-empty canonical text");
        return Err(message);
    }
    Ok(())
}

/// The segment between slashes that starts at `i` is exactly `..`.
pub open spec fn parent_segment_at(v: Seq<char>, i: int) -> bool {
    &&& 0 <= i
    &&& i + 1 < v.len()
    &&& v[i] == '.'
    &&& v[i + 1] == '.'
    &&& (i == 0 || v[i - 1] == '/')
    &&& (i + 2 == v.len() || v[i + 2] == '/')
}

/// A relative path whose components are all plain names: not empty, not
/// rooted, not starting with a `.` component, with no `..` component
/// (empty and interior `.` components are normalized away).
pub open spec fn normal_relative_path(v: Seq<char>) -> bool {
    &&& v.len() > 0
    &&& v[0] != '/'
    &&& !(v[0] == '.' && (v.len() == 1 || v[1] == '/'))
    &&& forall|i: int| !#[trigger] parent_segment_at(v, i)
}

pub fn is_normal_relative_path(value: &str) -> (ok: bool)
    ensures
        ok == normal_relative_path(value@),
{
    let n = value.unicode_len();
    if n == 0 {
        return false;
    }
    let first = value.get_char(0);
    if first == '/' {
        return false;
    }
    if first == '.' && (n == 1 || value.get_char(1) == '/') {
        return false;
    }
    let mut i: usize = 0;
    while i + 1 < n
        invariant
            n == value@.len(),
            i < n,
            forall|j: int| 0 <= j < i ==> !#[trigger] parent_segment_at(value@, j),
        decreases n - i,
    {
        if value.get_char(i) == '.' && value.get_char(i + 1) == '.' && (i == 0 || value.get_char(i - 1) == '/') && (i + 2
            == n || value.get_char(i + 2) == '/') {
            assert(parent_segment_at(value@, i as int));
            return false;
        }
        i = i + 1;
    }
    true
}

/// `Err` unless `value` is a normalized project-relative path.
pub fn require_relative_path(value: &str, field: &str) -> (result: Result<(), String>)
    ensures
        result is Ok <==> normal_relative_path(value@),
        result matches Err(m) ==> m@ == field@ + " must be a normalized project-relative path"@,
{
    if !is_normal_relative_path(value) {
        let mut message = String::from_str(field);
        message.append(" must be a normalized project-relative path");
        return Err(message);
    }
    Ok(())
}

/// The first value (in order) that repeats an earlier one.
pub open spec fn first_repeat_from(values: Seq<String>, k: int) -> Option<Seq<char>>
    decreases values.len() - k,
{
    if k >= values.len() || k < 0 {
        None
    } else if exists|j: int| 0 <= j < k && (#[trigger] values[j])@ == values[k]@ {
        Some(values[k]@)
    } else {
        first_repeat_from(values, k + 1)
    }
}

/// `Err` naming the first repeated identity of the given kind.
pub fn unique(values: &Vec<String>, kind: &str) -> (result: Result<(), String>)
    ensures
        result is Ok <==> first_repeat_from(values@, 0) is None,
        result matches Err(m) ==> first_repeat_from(values@, 0) matches Some(v) && m@ == "duplicate "@ + kind@
            + " identity "@ + v,
{
    let mut k: usize = 0;
    while k < values.len()
        invariant
            k <= values@.len(),
            first_repeat_from(values@, 0) == first_repeat_from(values@, k as int),
        decreases values@.len() - k,
    {
        let mut j: usize = 0;
        while j < k
            invariant
                j <= k < values@.len(),
                first_repeat_from(values@, 0) == first_repeat_from(values@, k as int),
                forall|i: int| 0 <= i < j ==> (#[trigger] values@[i])@ != values@[k as int]@,
            decreases k - j,
        {
            if values[j] == values[k] {
                proof {
                    assert((values@[j as int])@ == values@[k as int]@);
                }
                let mut message = String::from_str("duplicate ");
                message.append(kind);
                message.append(" identity ");
                message.append(values[k].as_str());
                return Err(message);
            }
            j = j + 1;
        }
        k = k + 1;
    }
    Ok(())
}


pub const PROJECT_SCHEMA_VERSION: u32 = 2;

/// One clip the conversion experiment exports.
#[derive(Debug, Clone, PartialEq, Eq)]
pub struct ExperimentClip {
    pub source_clip_name: String,
    pub output_clip_id: String,
    pub output_name: String,
    pub sample_rate_hz: u32,
    pub start_microseconds: u64,
    pub end_microseconds: Option<u64>,
}

/// The conversion experiment of a project, with each floating-point setting
/// represented by whether it is admissible.
#[derive(Debug, Clone, PartialEq, Eq)]
pub struct ConversionExperiment {
    pub source_asset_id: String,
    pub source_path: String,
    pub expected_source_sha256: String,
    pub license_path: String,
    pub target_asset_id: String,
    pub object_directory: String,
    pub resolution: [u32; 3],
    /// The cell size is finite and positive.
    pub cell_size_valid: bool,
    pub chunk_size: u32,
    /// Every pivot component is finite.
    pub pivot_finite: bool,
    pub clips: Vec<ExperimentClip>,
    pub default_clip: String,
}

/// A project material, with its appearance represented by whether every
/// colour component and the roughness are finite and within `[0, 1]`.
#[derive(Debug, Clone, PartialEq, Eq)]
pub struct ProjectMaterial {
    pub asset_id: String,
    pub display_name: String,
    pub appearance_valid: bool,
}

/// A placed voxel object, with its transform represented by whether the
/// translation and rotation are finite and the scale finite and non-zero.
#[derive(Debug, Clone, PartialEq, Eq)]
pub struct ProjectVoxelObjectInstance {
    pub entity_id: u64,
    pub instance_id: String,
    pub voxel_object_asset_id: String,
    pub frame: ProjectFrameSelection,
    pub transform_valid: bool,
    pub collision_policy: ProjectCollisionPolicy,
}

/// A voxel lab project document.
#[derive(Debug, Clone, PartialEq, Eq)]
pub struct VoxelLabProject {
    pub schema_version: u32,
    pub project_id: String,
    pub name: String,
    pub entry_scene: String,
    pub revision: u64,
    pub conversion: ConversionExperiment,
    pub materials: Vec<ProjectMaterial>,
    pub voxel_objects: Vec<ProjectVoxelObject>,
    pub instances: Vec<ProjectVoxelObjectInstance>,
}

pub open spec fn identity_fault(value: Seq<char>, path: Seq<char>) -> Option<Seq<char>> {
    if canonical_text(value) {
        None
    } else {
        Some(path + " must be non-empty canonical text"@)
    }
}

pub open spec fn path_fault(value: Seq<char>, field: Seq<char>) -> Option<Seq<char>> {
    if normal_relative_path(value) {
        None
    } else {
        Some(field + " must be a normalized project-relative path"@)
    }
}

pub open spec fn clip_id_before(clips: Seq<ExperimentClip>, k: int, id: Seq<char>) -> bool {
    exists|j: int| 0 <= j < k && (#[trigger] clips[j]).output_clip_id@ == id
}

pub open spec fn clip_fault(clips: Seq<ExperimentClip>, k: int) -> Option<Seq<char>> {
    let clip = clips[k];
    if identity_fault(clip.source_clip_name@, "conversion.clips.sourceClipName"@) is Some {
        identity_fault(clip.source_clip_name@, "conversion.clips.sourceClipName"@)
    } else if !starts_with(clip.output_clip_id@, "clip/"@) {
        Some("output clip "@ + clip.output_clip_id@ + " must be a clip/... identity"@)
    } else if identity_fault(clip.output_name@, "conversion.clips.outputName"@) is Some {
        identity_fault(clip.output_name@, "conversion.clips.outputName"@)
    } else if clip_id_before(clips, k, clip.output_clip_id@) {
        Some("duplicate output clip "@ + clip.output_clip_id@)
    } else if clip.sample_rate_hz == 0 || clip.sample_rate_hz > 240 {
        Some("invalid sample rate for "@ + clip.output_clip_id@)
    } else {
        None
    }
}

pub open spec fn clips_fault_from(clips: Seq<ExperimentClip>, k: int) -> Option<Seq<char>>
    decreases clips.len() - k,
{
    if k < 0 || k >= clips.len() {
        None
    } else if clip_fault(clips, k) is Some {
        clip_fault(clips, k)
    } else {
        clips_fault_from(clips, k + 1)
    }
}

pub open spec fn material_ids(materials: Seq<ProjectMaterial>) -> Seq<String> {
    Seq::new(materials.len(), |i: int| materials[i].asset_id)
}

pub open spec fn object_ids(objects: Seq<ProjectVoxelObject>) -> Seq<String> {
    Seq::new(objects.len(), |i: int| objects[i].asset_id)
}

pub open spec fn instance_ids(instances: Seq<ProjectVoxelObjectInstance>) -> Seq<String> {
    Seq::new(instances.len(), |i: int| instances[i].instance_id)
}

pub open spec fn repeat_fault(values: Seq<String>, kind: Seq<char>) -> Option<Seq<char>> {
    match first_repeat_from(values, 0) {
        Some(v) => Some("duplicate "@ + kind + " identity "@ + v),
        None => None,
    }
}

pub open spec fn materials_fault_from(materials: Seq<ProjectMaterial>, k: int) -> Option<Seq<char>>
    decreases materials.len() - k,
{
    if k < 0 || k >= materials.len() {
        None
    } else if !starts_with(materials[k].asset_id@, "material/"@) || !materials[k].appearance_valid {
        Some("invalid material "@ + materials[k].asset_id@)
    } else {
        materials_fault_from(materials, k + 1)
    }
}

pub open spec fn objects_fault_from(objects: Seq<ProjectVoxelObject>, k: int) -> Option<Seq<char>>
    decreases objects.len() - k,
{
    if k < 0 || k >= objects.len() {
        None
    } else if !starts_with(objects[k].asset_id@, "voxel-object/"@) || !sha256_form(
        vstd::utf8::encode_utf8(objects[k].expected_content_hash@),
    ) {
        Some("invalid voxel object entry "@ + objects[k].asset_id@)
    } else if path_fault(objects[k].path@, "voxelObjects.path"@) is Some {
        path_fault(objects[k].path@, "voxelObjects.path"@)
    } else {
        objects_fault_from(objects, k + 1)
    }
}

pub open spec fn entity_before(instances: Seq<ProjectVoxelObjectInstance>, k: int, entity: u64) -> bool {
    exists|j: int| 0 <= j < k && (#[trigger] instances[j]).entity_id == entity
}

pub open spec fn object_named(objects: Seq<ProjectVoxelObject>, id: Seq<char>) -> bool {
    exists|j: int| 0 <= j < objects.len() && (#[trigger] objects[j]).asset_id@ == id
}

pub open spec fn instance_fault(
    objects: Seq<ProjectVoxelObject>,
    instances: Seq<ProjectVoxelObjectInstance>,
    k: int,
) -> Option<Seq<char>> {
    let instance = instances[k];
    if instance.entity_id == 0 || entity_before(instances, k, instance.entity_id) {
        Some(
            "instance "@ + instance.instance_id@ + " has an invalid or duplicate entity id "@ + decimal_text(
                instance.entity_id as int,
            ),
        )
    } else if identity_fault(instance.instance_id@, "instances.instanceId"@) is Some {
        identity_fault(instance.instance_id@, "instances.instanceId"@)
    } else if !object_named(objects, instance.voxel_object_asset_id@) {
        Some("instance "@ + instance.instance_id@ + " references unknown "@ + instance.voxel_object_asset_id@)
    } else if !instance.transform_valid {
        Some("invalid transform for "@ + instance.instance_id@)
    } else {
        None
    }
}

pub open spec fn instances_fault_from(
    objects: Seq<ProjectVoxelObject>,
    instances: Seq<ProjectVoxelObjectInstance>,
    k: int,
) -> Option<Seq<char>>
    decreases instances.len() - k,
{
    if k < 0 || k >= instances.len() {
        None
    } else if instance_fault(objects, instances, k) is Some {
        instance_fault(objects, instances, k)
    } else {
        instances_fault_from(objects, instances, k + 1)
    }
}

/// The conversion section's first fault.
pub open spec fn conversion_fault(c: ConversionExperiment) -> Option<Seq<char>> {
    if !starts_with(c.source_asset_id@, "mesh-animation/"@) {
        Some("conversion.sourceAssetId must be mesh-animation/..."@)
    } else if !starts_with(c.target_asset_id@, "voxel-object/"@) {
        Some("conversion.targetAssetId must be voxel-object/..."@)
    } else if path_fault(c.source_path@, "conversion.sourcePath"@) is Some {
        path_fault(c.source_path@, "conversion.sourcePath"@)
    } else if path_fault(c.license_path@, "conversion.licensePath"@) is Some {
        path_fault(c.license_path@, "conversion.licensePath"@)
    } else if path_fault(c.object_directory@, "conversion.objectDirectory"@) is Some {
        path_fault(c.object_directory@, "conversion.objectDirectory"@)
    } else if !sha256_form(vstd::utf8::encode_utf8(c.expected_source_sha256@)) {
        Some("conversion.expectedSourceSha256 is not a canonical SHA-256"@)
    } else if c.resolution[0] == 0 || c.resolution[1] == 0 || c.resolution[2] == 0 || !c.cell_size_valid
        || c.chunk_size == 0 || !c.pivot_finite {
        Some("conversion grid settings are invalid"@)
    } else if clips_fault_from(c.clips@, 0) is Some {
        clips_fault_from(c.clips@, 0)
    } else if !clip_id_before(c.clips@, c.clips@.len() as int, c.default_clip@) {
        Some("conversion.defaultClip must name a configured output clip"@)
    } else {
        None
    }
}

impl VoxelLabProject {
    /// The message of the first rule the project breaks, or `None`.
    pub open spec fn fault(&self) -> Option<Seq<char>> {
        if self.schema_version != PROJECT_SCHEMA_VERSION {
            Some("project schema "@ + decimal_text(self.schema_version as int) + " is unsupported; expected 2"@)
        } else if identity_fault(self.project_id@, "projectId"@) is Some {
            identity_fault(self.project_id@, "projectId"@)
        } else if identity_fault(self.name@, "name"@) is Some {
            identity_fault(self.name@, "name"@)
        } else if !starts_with(self.entry_scene@, "scene/"@) {
            Some("entryScene must be a scene/... identity"@)
        } else if conversion_fault(self.conversion) is Some {
            conversion_fault(self.conversion)
        } else if repeat_fault(material_ids(self.materials@), "material"@) is Some {
            repeat_fault(material_ids(self.materials@), "material"@)
        } else if materials_fault_from(self.materials@, 0) is Some {
            materials_fault_from(self.materials@, 0)
        } else if repeat_fault(object_ids(self.voxel_objects@), "voxel object"@) is Some {
            repeat_fault(object_ids(self.voxel_objects@), "voxel object"@)
        } else if objects_fault_from(self.voxel_objects@, 0) is Some {
            objects_fault_from(self.voxel_objects@, 0)
        } else if repeat_fault(instance_ids(self.instances@), "instance"@) is Some {
            repeat_fault(instance_ids(self.instances@), "instance"@)
        } else {
            instances_fault_from(self.voxel_objects@, self.instances@, 0)
        }
    }
}


fn clip_id_in(clips: &Vec<ExperimentClip>, k: usize, id: &String) -> (found: bool)
    requires
        k <= clips@.len(),
    ensures
        found == clip_id_before(clips@, k as int, id@),
{
    let mut j: usize = 0;
    while j < k
        invariant
            j <= k <= clips@.len(),
            forall|i: int| 0 <= i < j ==> (#[trigger] clips@[i]).output_clip_id@ != id@,
        decreases k - j,
    {
        if clips[j].output_clip_id == *id {
            assert(clips@[j as int].output_clip_id@ == id@);
            return true;
        }
        j = j + 1;
    }
    false
}

fn check_clips(clips: &Vec<ExperimentClip>) -> (result: Result<(), String>)
    ensures
        result is Ok <==> clips_fault_from(clips@, 0) is None,
        result matches Err(m) ==> Some(m@) == clips_fault_from(clips@, 0),
{
    let mut k: usize = 0;
    while k < clips.len()
        invariant
            k <= clips@.len(),
            clips_fault_from(clips@, 0) == clips_fault_from(clips@, k as int),
        decreases clips@.len() - k,
    {
        let clip = &clips[k];
        match require_identity(clip.source_clip_name.as_str(), "conversion.clips.sourceClipName") {
            Ok(()) => {},
            Err(m) => {
                return Err(m);
            },
        }
        if !text_starts_with(clip.output_clip_id.as_str(), "clip/") {
            let mut message = String::from_str("output clip ");
            message.append(clip.output_clip_id.as_str());
            message.append(" must be a clip/... identity");
            return Err(message);
        }
        match require_identity(clip.output_name.as_str(), "conversion.clips.outputName") {
            Ok(()) => {},
            Err(m) => {
                return Err(m);
            },
        }
        if clip_id_in(clips, k, &clip.output_clip_id) {
            let mut message = String::from_str("duplicate output clip ");
            message.append(clip.output_clip_id.as_str());
            return Err(message);
        }
        if clip.sample_rate_hz == 0 || clip.sample_rate_hz > 240 {
            let mut message = String::from_str("invalid sample rate for ");
            message.append(clip.output_clip_id.as_str());
            return Err(message);
        }
        k = k + 1;
    }
    Ok(())
}

fn check_conversion(c: &ConversionExperiment) -> (result: Result<(), String>)
    ensures
        result is Ok <==> conversion_fault(*c) is None,
        result matches Err(m) ==> Some(m@) == conversion_fault(*c),
{
    if !text_starts_with(c.source_asset_id.as_str(), "mesh-animation/") {
        return Err(String::from_str("conversion.sourceAssetId must be mesh-animation/..."));
    }
    if !text_starts_with(c.target_asset_id.as_str(), "voxel-object/") {
        return Err(String::from_str("conversion.targetAssetId must be voxel-object/..."));
    }
    match require_relative_path(c.source_path.as_str(), "conversion.sourcePath") {
        Ok(()) => {},
        Err(m) => {
            return Err(m);
        },
    }
    match require_relative_path(c.license_path.as_str(), "conversion.licensePath") {
        Ok(()) => {},
        Err(m) => {
            return Err(m);
        },
    }
    match require_relative_path(c.object_directory.as_str(), "conversion.objectDirectory") {
        Ok(()) => {},
        Err(m) => {
            return Err(m);
        },
    }
    if !valid_sha256(c.expected_source_sha256.as_str()) {
        return Err(String::from_str("conversion.expectedSourceSha256 is not a canonical SHA-256"));
    }
    if c.resolution[0] == 0 || c.resolution[1] == 0 || c.resolution[2] == 0 || !c.cell_size_valid || c.chunk_size == 0
        || !c.pivot_finite {
        return Err(String::from_str("conversion grid settings are invalid"));
    }
    match check_clips(&c.clips) {
        Ok(()) => {},
        Err(m) => {
            return Err(m);
        },
    }
    if !clip_id_in(&c.clips, c.clips.len(), &c.default_clip) {
        return Err(String::from_str("conversion.defaultClip must name a configured output clip"));
    }
    Ok(())
}

fn material_id_list(materials: &Vec<ProjectMaterial>) -> (ids: Vec<String>)
    ensures
        ids@ == material_ids(materials@),
{
    let mut ids: Vec<String> = Vec::new();
    let mut i: usize = 0;
    while i < materials.len()
        invariant
            i <= materials@.len(),
            ids@ == material_ids(materials@.take(i as int)),
        decreases materials@.len() - i,
    {
        ids.push(materials[i].asset_id.clone());
        assert(ids@ =~= material_ids(materials@.take(i + 1)));
        i = i + 1;
    }
    assert(materials@.take(i as int) =~= materials@);
    ids
}

fn object_id_list(objects: &Vec<ProjectVoxelObject>) -> (ids: Vec<String>)
    ensures
        ids@ == object_ids(objects@),
{
    let mut ids: Vec<String> = Vec::new();
    let mut i: usize = 0;
    while i < objects.len()
        invariant
            i <= objects@.len(),
            ids@ == object_ids(objects@.take(i as int)),
        decreases objects@.len() - i,
    {
        ids.push(objects[i].asset_id.clone());
        assert(ids@ =~= object_ids(objects@.take(i + 1)));
        i = i + 1;
    }
    assert(objects@.take(i as int) =~= objects@);
    ids
}

fn instance_id_list(instances: &Vec<ProjectVoxelObjectInstance>) -> (ids: Vec<String>)
    ensures
        ids@ == instance_ids(instances@),
{
    let mut ids: Vec<String> = Vec::new();
    let mut i: usize = 0;
    while i < instances.len()
        invariant
            i <= instances@.len(),
            ids@ == instance_ids(instances@.take(i as int)),
        decreases instances@.len() - i,
    {
        ids.push(instances[i].instance_id.clone());
        assert(ids@ =~= instance_ids(instances@.take(i + 1)));
        i = i + 1;
    }
    assert(instances@.take(i as int) =~= instances@);
    ids
}

fn check_materials(materials: &Vec<ProjectMaterial>) -> (result: Result<(), String>)
    ensures
        result is Ok <==> materials_fault_from(materials@, 0) is None,
        result matches Err(m) ==> Some(m@) == materials_fault_from(materials@, 0),
{
    let mut k: usize = 0;
    while k < materials.len()
        invariant
            k <= materials@.len(),
            materials_fault_from(materials@, 0) == materials_fault_from(materials@, k as int),
        decreases materials@.len() - k,
    {
        let material = &materials[k];
        if !text_starts_with(material.asset_id.as_str(), "material/") || !material.appearance_valid {
            let mut message = String::from_str("invalid material ");
            message.append(material.asset_id.as_str());
            return Err(message);
        }
        k = k + 1;
    }
    Ok(())
}

fn check_objects(objects: &Vec<ProjectVoxelObject>) -> (result: Result<(), String>)
    ensures
        result is Ok <==> objects_fault_from(objects@, 0) is None,
        result matches Err(m) ==> Some(m@) == objects_fault_from(objects@, 0),
{
    let mut k: usize = 0;
    while k < objects.len()
        invariant
            k <= objects@.len(),
            objects_fault_from(objects@, 0) == objects_fault_from(objects@, k as int),
        decreases objects@.len() - k,
    {
        let object = &objects[k];
        if !text_starts_with(object.asset_id.as_str(), "voxel-object/") || !valid_sha256(
            object.expected_content_hash.as_str(),
        ) {
            let mut message = String::from_str("invalid voxel object entry ");
            message.append(object.asset_id.as_str());
            return Err(message);
        }
        match require_relative_path(object.path.as_str(), "voxelObjects.path") {
            Ok(()) => {},
            Err(m) => {
                return Err(m);
            },
        }
        k = k + 1;
    }
    Ok(())
}

fn object_named_exec(objects: &Vec<ProjectVoxelObject>, id: &String) -> (found: bool)
    ensures
        found == object_named(objects@, id@),
{
    let mut j: usize = 0;
    while j < objects.len()
        invariant
            j <= objects@.len(),
            forall|i: int| 0 <= i < j ==> (#[trigger] objects@[i]).asset_id@ != id@,
        decreases objects@.len() - j,
    {
        if objects[j].asset_id == *id {
            assert(objects@[j as int].asset_id@ == id@);
            return true;
        }
        j = j + 1;
    }
    false
}

fn entity_seen(instances: &Vec<ProjectVoxelObjectInstance>, k: usize, entity: u64) -> (found: bool)
    requires
        k <= instances@.len(),
    ensures
        found == entity_before(instances@, k as int, entity),
{
    let mut j: usize = 0;
    while j < k
        invariant
            j <= k <= instances@.len(),
            forall|i: int| 0 <= i < j ==> (#[trigger] instances@[i]).entity_id != entity,
        decreases k - j,
    {
        if instances[j].entity_id == entity {
            return true;
        }
        j = j + 1;
    }
    false
}

fn check_instances(objects: &Vec<ProjectVoxelObject>, instances: &Vec<ProjectVoxelObjectInstance>) -> (result: Result<(), String>)
    ensures
        result is Ok <==> instances_fault_from(objects@, instances@, 0) is None,
        result matches Err(m) ==> Some(m@) == instances_fault_from(objects@, instances@, 0),
{
    let mut k: usize = 0;
    while k < instances.len()
        invariant
            k <= instances@.len(),
            instances_fault_from(objects@, instances@, 0) == instances_fault_from(objects@, instances@, k as int),
        decreases instances@.len() - k,
    {
        let instance = &instances[k];
        if instance.entity_id == 0 || entity_seen(instances, k, instance.entity_id) {
            let mut message = String::from_str("instance ");
            message.append(instance.instance_id.as_str());
            message.append(" has an invalid or duplicate entity id ");
            message.append(decimal_u64(instance.entity_id).as_str());
            return Err(message);
        }
        match require_identity(instance.instance_id.as_str(), "instances.instanceId") {
            Ok(()) => {},
            Err(m) => {
                return Err(m);
            },
        }
        if !object_named_exec(objects, &instance.voxel_object_asset_id) {
            let mut message = String::from_str("instance ");
            message.append(instance.instance_id.as_str());
            message.append(" references unknown ");
            message.append(instance.voxel_object_asset_id.as_str());
            return Err(message);
        }
        if !instance.transform_valid {
            let mut message = String::from_str("invalid transform for ");
            message.append(instance.instance_id.as_str());
            return Err(message);
        }
        k = k + 1;
    }
    Ok(())
}

impl VoxelLabProject {
    /// Checks the project document and names the first rule it breaks.
    pub fn validate(&self) -> (result: Result<(), String>)
        ensures
            result is Ok <==> self.fault() is None,
            result matches Err(m) ==> Some(m@) == self.fault(),
    {
        if self.schema_version != PROJECT_SCHEMA_VERSION {
            let mut message = String::from_str("project schema ");
            message.append(decimal_u64(self.schema_version as u64).as_str());
            message.append(" is unsupported; expected 2");
            return Err(message);
        }
        match require_identity(self.project_id.as_str(), "projectId") {
            Ok(()) => {},
            Err(m) => {
                return Err(m);
            },
        }
        match require_identity(self.name.as_str(), "name") {
            Ok(()) => {},
            Err(m) => {
                return Err(m);
            },
        }
        if !text_starts_with(self.entry_scene.as_str(), "scene/") {
            return Err(String::from_str("entryScene must be a scene/... identity"));
        }
        match check_conversion(&self.conversion) {
            Ok(()) => {},
            Err(m) => {
                return Err(m);
            },
        }
        match unique(&material_id_list(&self.materials), "material") {
            Ok(()) => {},
            Err(m) => {
                return Err(m);
            },
        }
        match check_materials(&self.materials) {
            Ok(()) => {},
            Err(m) => {
                return Err(m);
            },
        }
        match unique(&object_id_list(&self.voxel_objects), "voxel object") {
            Ok(()) => {},
            Err(m) => {
                return Err(m);
            },
        }
        match check_objects(&self.voxel_objects) {
            Ok(()) => {},
            Err(m) => {
                return Err(m);
            },
        }
        match unique(&instance_id_list(&self.instances), "instance") {
            Ok(()) => {},
            Err(m) => {
                return Err(m);
            },
        }
        check_instances(&self.voxel_objects, &self.instances)
    }
}

} // verus!
