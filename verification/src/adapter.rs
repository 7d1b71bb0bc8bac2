//! Studio adapter refusals and the content-hash preconditions surface
//! mutations check before they write.

use vstd::prelude::*;
use vstd::string::StrSliceExecFns;
use vstd::string::StringExecFns;

use crate::text::text_equals;

verus! {

/// A refused adapter request: a stable code, the request field it concerns
/// when there is one, and a message.
#[derive(Debug, Clone, PartialEq, Eq)]
pub struct AdapterError {
    pub code: String,
    pub path: Option<String>,
    pub message: String,
}

pub open spec fn adapter_error_view(e: AdapterError) -> (Seq<char>, Option<Seq<char>>, Seq<char>) {
    (
        e.code@,
        match e.path {
            Some(p) => Some(p@),
            None => None,
        },
        e.message@,
    )
}

impl AdapterError {
    pub fn new(code: &str, message: &str) -> (error: AdapterError)
        ensures
            adapter_error_view(error) == (code@, None::<Seq<char>>, message@),
    {
        AdapterError { code: String::from_str(code), path: None, message: String::from_str(message) }
    }

    pub fn at(code: &str, path: &str, message: &str) -> (error: AdapterError)
        ensures
            adapter_error_view(error) == (code@, Some(path@), message@),
    {
        AdapterError { code: String::from_str(code), path: Some(String::from_str(path)), message: String::from_str(message) }
    }

    /// A refusal of the project document itself.
    pub fn project(message: &str) -> (error: AdapterError)
        ensures
            adapter_error_view(error) == ("project.rejected"@, None::<Seq<char>>, message@),
    {
        AdapterError::new("project.rejected", message)
    }
}

/// What `char::to_uppercase` yields for a character, collected into text.
pub uninterp spec fn uppercase_of(c: char) -> Seq<char>;

/// Wraps `char::to_uppercase`, collecting the characters it yields (one or
/// more, by Unicode's default case mapping) into a `String`. Claimed: the
/// text depends on the character alone.
#[verifier::external_body]
fn uppercase(c: char) -> (text: String)
    ensures
        text@ == uppercase_of(c),
{
    c.to_uppercase().collect()
}

/// The text with its first character upper-cased.
pub open spec fn title_cased(value: Seq<char>) -> Seq<char> {
    if value.len() == 0 {
        Seq::empty()
    } else {
        uppercase_of(value[0]) + value.drop_first()
    }
}

/// The text with its first character upper-cased and the rest kept.
pub fn title_case(value: &str) -> (text: String)
    ensures
        text@ == title_cased(value@),
{
    let n = value.unicode_len();
    if n == 0 {
        return String::new();
    }
    let mut text = uppercase(value.get_char(0));
    let rest = value.substring_char(1, n);
    proof {
        assert(rest@ =~= value@.drop_first());
    }
    text.append(rest);
    text
}

/// The refusal owed when a surface asset's expected content hash does not
/// match what exists: `kind` names the asset (`material`, `texture`, ...).
pub open spec fn hash_refusal(
    kind: Seq<char>,
    asset_id: Seq<char>,
    expected: Option<Seq<char>>,
    current: Option<Seq<char>>,
) -> Option<(Seq<char>, Option<Seq<char>>, Seq<char>)> {
    let path = Some("expected"@ + title_cased(kind) + "ContentHash"@);
    match (expected, current) {
        (None, None) => None,
        (Some(e), Some(c)) => if e == c {
            None
        } else {
            Some(("surface.stale"@ + title_cased(kind), path, asset_id + " changed since it was read"@))
        },
        (None, Some(_)) => Some(
            ("surface."@ + kind + "AlreadyExists"@, path, asset_id + " already exists; supply its exact content hash"@),
        ),
        (Some(_), None) => Some(("surface.unknown"@ + title_cased(kind), path, asset_id + " does not exist"@)),
    }
}

pub open spec fn text_option(value: Option<&str>) -> Option<Seq<char>> {
    match value {
        Some(v) => Some(v@),
        None => None,
    }
}

fn expected_path(kind: &str) -> (path: String)
    ensures
        path@ == "expected"@ + title_cased(kind@) + "ContentHash"@,
{
    let mut path = String::from_str("expected");
    path.append(title_case(kind).as_str());
    path.append("ContentHash");
    path
}

/// Refuses a mutation unless the asset's current content hash is the one
/// the request expects (absent on both sides for a new asset).
pub fn require_expected_hash(kind: &str, asset_id: &str, expected: Option<&str>, current: Option<&str>) -> (result:
    Result<(), AdapterError>)
    ensures
        result is Ok <==> hash_refusal(kind@, asset_id@, text_option(expected), text_option(current)) is None,
        result matches Err(e) ==> Some(adapter_error_view(e)) == hash_refusal(
            kind@,
            asset_id@,
            text_option(expected),
            text_option(current),
        ),
{
    match (expected, current) {
        (None, None) => Ok(()),
        (Some(e), Some(c)) => {
            if text_equals(e, c) {
                Ok(())
            } else {
                let mut code = String::from_str("surface.stale");
                code.append(title_case(kind).as_str());
                let mut message = String::from_str(asset_id);
                message.append(" changed since it was read");
                Err(AdapterError::at(code.as_str(), expected_path(kind).as_str(), message.as_str()))
            }
        },
        (None, Some(_)) => {
            let mut code = String::from_str("surface.");
            code.append(kind);
            code.append("AlreadyExists");
            let mut message = String::from_str(asset_id);
            message.append(" already exists; supply its exact content hash");
            Err(AdapterError::at(code.as_str(), expected_path(kind).as_str(), message.as_str()))
        },
        (Some(_), None) => {
            let mut code = String::from_str("surface.unknown");
            code.append(title_case(kind).as_str());
            let mut message = String::from_str(asset_id);
            message.append(" does not exist");
            Err(AdapterError::at(code.as_str(), expected_path(kind).as_str(), message.as_str()))
        },
    }
}

/// `require_expected_hash` for an asset that must already exist.
pub fn require_exact_present_hash(kind: &str, asset_id: &str, expected: &str, current: Option<&str>) -> (result: Result<
    (),
    AdapterError,
>)
    ensures
        result is Ok <==> hash_refusal(kind@, asset_id@, Some(expected@), text_option(current)) is None,
        result matches Err(e) ==> Some(adapter_error_view(e)) == hash_refusal(
            kind@,
            asset_id@,
            Some(expected@),
            text_option(current),
        ),
{
    require_expected_hash(kind, asset_id, Some(expected), current)
}

} // verus!

verus! {

/// The most placements one attach request may carry.
pub const MAX_VOXEL_OBJECT_INSTANCE_BATCH: usize = 32;

/// The largest entity id a JSON number carries exactly (2^53 - 1).
pub const MAX_JSON_SAFE_ENTITY_ID: u64 = 9007199254740991;

/// A refusal as (code, path, message).
pub type Refusal = (Seq<char>, Option<Seq<char>>, Seq<char>);

pub open spec fn placement_path(k: int, field: Seq<char>) -> Seq<char> {
    "placements["@ + crate::text::decimal_text(k) + "]"@ + field
}

/// The first placement, from `k` on, whose instance id repeats an earlier
/// one of the batch.
pub open spec fn repeat_refusal_from(ids: Seq<String>, k: int) -> Option<Refusal>
    decreases ids.len() - k,
{
    if k < 0 || k >= ids.len() {
        None
    } else if exists|j: int| 0 <= j < k && (#[trigger] ids[j])@ == ids[k]@ {
        Some((
            "voxelObject.duplicatePlacementIdentity"@,
            Some(placement_path(k, ".instance.instanceId"@)),
            "placement repeats instance identity "@ + crate::text::debug_text(ids[k]@),
        ))
    } else {
        repeat_refusal_from(ids, k + 1)
    }
}

/// The batch-level refusal of an attach request: its size, then repeated
/// instance ids.
pub open spec fn batch_refusal(ids: Seq<String>) -> Option<Refusal> {
    if ids.len() == 0 || ids.len() > MAX_VOXEL_OBJECT_INSTANCE_BATCH {
        Some((
            "voxelObject.invalidPlacementBatch"@,
            Some("placements"@),
            "voxel-object placement batch must contain 1..=32 entries"@,
        ))
    } else {
        repeat_refusal_from(ids, 0)
    }
}

/// The first placement, from `k` on, whose instance id an instance of the
/// project already has.
pub open spec fn collision_refusal_from(ids: Seq<String>, existing: Seq<String>, k: int) -> Option<Refusal>
    decreases ids.len() - k,
{
    if k < 0 || k >= ids.len() {
        None
    } else if exists|j: int| 0 <= j < existing.len() && (#[trigger] existing[j])@ == ids[k]@ {
        Some((
            "voxelObject.instanceIdentityCollision"@,
            Some(placement_path(k, ".instance.instanceId"@)),
            "placement collides with existing instance "@ + crate::text::debug_text(ids[k]@),
        ))
    } else {
        collision_refusal_from(ids, existing, k + 1)
    }
}

fn placement_path_string(k: usize, field: &str) -> (text: String)
    ensures
        text@ == placement_path(k as int, field@),
{
    let mut text = String::from_str("placements[");
    text.append(crate::text::decimal_u64(k as u64).as_str());
    text.append("]");
    text.append(field);
    text
}

fn refusal(code: &str, path: Option<String>, message: String) -> (e: AdapterError)
    ensures
        e.code@ == code@,
        e.path == path,
        e.message == message,
{
    AdapterError { code: String::from_str(code), path, message }
}

fn listed_text(values: &Vec<String>, upto: usize, value: &str) -> (found: bool)
    requires
        upto <= values@.len(),
    ensures
        found == exists|j: int| 0 <= j < upto && (#[trigger] values@[j])@ == value@,
{
    let mut j: usize = 0;
    while j < upto
        invariant
            upto <= values@.len(),
            j <= upto,
            forall|q: int| 0 <= q < j ==> (#[trigger] values@[q])@ != value@,
        decreases upto - j,
    {
        if text_equals(values[j].as_str(), value) {
            return true;
        }
        j = j + 1;
    }
    false
}

/// The checks an attach request passes before the project is read: 1..=32
/// placements with distinct instance ids.
pub fn check_placement_batch(ids: &Vec<String>) -> (result: Result<(), AdapterError>)
    ensures
        result is Ok <==> batch_refusal(ids@) is None,
        result matches Err(e) ==> Some(adapter_error_view(e)) == batch_refusal(ids@),
{
    if ids.len() == 0 || ids.len() > MAX_VOXEL_OBJECT_INSTANCE_BATCH {
        return Err(AdapterError::at(
            "voxelObject.invalidPlacementBatch",
            "placements",
            "voxel-object placement batch must contain 1..=32 entries",
        ));
    }
    let mut k: usize = 0;
    while k < ids.len()
        invariant
            k <= ids@.len(),
            0 < ids@.len() <= MAX_VOXEL_OBJECT_INSTANCE_BATCH,
            repeat_refusal_from(ids@, 0) == repeat_refusal_from(ids@, k as int),
        decreases ids@.len() - k,
    {
        if listed_text(ids, k, ids[k].as_str()) {
            let mut message = String::from_str("placement repeats instance identity ");
            message.append(crate::text::debug_string(ids[k].as_str()).as_str());
            let e = refusal(
                "voxelObject.duplicatePlacementIdentity",
                Some(placement_path_string(k, ".instance.instanceId")),
                message,
            );
            return Err(e);
        }
        k = k + 1;
    }
    Ok(())
}

/// The check an attach request passes once the project is read: no
/// placement reuses the instance id of an existing instance.
pub fn check_instance_collisions(ids: &Vec<String>, existing: &Vec<String>) -> (result: Result<(), AdapterError>)
    ensures
        result is Ok <==> collision_refusal_from(ids@, existing@, 0) is None,
        result matches Err(e) ==> Some(adapter_error_view(e)) == collision_refusal_from(ids@, existing@, 0),
{
    let mut k: usize = 0;
    while k < ids.len()
        invariant
            k <= ids@.len(),
            collision_refusal_from(ids@, existing@, 0) == collision_refusal_from(ids@, existing@, k as int),
        decreases ids@.len() - k,
    {
        if listed_text(existing, existing.len(), ids[k].as_str()) {
            let mut message = String::from_str("placement collides with existing instance ");
            message.append(crate::text::debug_string(ids[k].as_str()).as_str());
            let e = refusal(
                "voxelObject.instanceIdentityCollision",
                Some(placement_path_string(k, ".instance.instanceId")),
                message,
            );
            return Err(e);
        }
        k = k + 1;
    }
    Ok(())
}

} // verus!

verus! {

/// What the per-placement checks of an attach request read: the scene the
/// placement targets, whether it carries material overrides, whether its
/// voxel object is loaded, and the project's refusal of its frame, if any.
#[derive(Debug, Clone, PartialEq, Eq)]
pub struct PlacementCheck {
    pub scene_id: String,
    pub has_material_overrides: bool,
    pub asset_loaded: bool,
    pub frame_error: Option<String>,
}

/// The largest entity id in use, or 0.
pub open spec fn max_entity(ids: Seq<u64>) -> u64
    decreases ids.len(),
{
    if ids.len() == 0 {
        0
    } else {
        let m = max_entity(ids.drop_last());
        if ids.last() > m { ids.last() } else { m }
    }
}

/// The owner entity ids placements `k..` receive, counting up from `next`,
/// or the first refusal among them.
pub open spec fn owners_from(ps: Seq<PlacementCheck>, entry: Seq<char>, next: int, k: int) -> Result<Seq<u64>, Refusal>
    decreases ps.len() - k,
{
    if k < 0 || k >= ps.len() {
        Ok(Seq::empty())
    } else {
        let p = ps[k];
        if p.scene_id@ != entry {
            Err(("project.unknownScene"@, Some(placement_path(k, ".sceneId"@)), "scene is not the voxel lab entry scene"@))
        } else if p.has_material_overrides {
            Err((
                "adapter.unsupportedMaterialOverride"@,
                Some(placement_path(k, ".instance.materialOverrides"@)),
                "voxel lab instances do not yet persist material overrides"@,
            ))
        } else if !p.asset_loaded {
            Err((
                "project.unknownAsset"@,
                Some(placement_path(k, ".instance.voxelObjectAssetId"@)),
                "voxel object is not loaded"@,
            ))
        } else if p.frame_error is Some {
            Err(("project.rejected"@, None, p.frame_error.unwrap()@))
        } else if next + 1 > MAX_JSON_SAFE_ENTITY_ID {
            Err((
                "voxelObject.ownerIdentityExhausted"@,
                Some(placement_path(k, ""@)),
                "cannot allocate another JSON-safe entity owner"@,
            ))
        } else {
            match owners_from(ps, entry, next + 1, k + 1) {
                Err(r) => Err(r),
                Ok(rest) => Ok(seq![(next + 1) as u64] + rest),
            }
        }
    }
}

fn max_entity_exec(ids: &Vec<u64>) -> (m: u64)
    ensures
        m == max_entity(ids@),
{
    let mut m: u64 = 0;
    let mut i: usize = 0;
    while i < ids.len()
        invariant
            i <= ids@.len(),
            m == max_entity(ids@.take(i as int)),
        decreases ids@.len() - i,
    {
        assert(ids@.take(i + 1).drop_last() =~= ids@.take(i as int));
        if ids[i] > m {
            m = ids[i];
        }
        i = i + 1;
    }
    assert(ids@.take(ids@.len() as int) =~= ids@);
    m
}

fn allocate_from(ps: &Vec<PlacementCheck>, entry_scene: &str, next: u64, k: usize) -> (result: Result<Vec<u64>, AdapterError>)
    requires
        k <= ps@.len(),
        next <= MAX_JSON_SAFE_ENTITY_ID,
    ensures
        match owners_from(ps@, entry_scene@, next as int, k as int) {
            Ok(ids) => result matches Ok(v) && v@ == ids,
            Err(r) => result matches Err(e) && adapter_error_view(e) == r,
        },
    decreases ps@.len() - k,
{
    if k >= ps.len() {
        return Ok(Vec::new());
    }
    let p = &ps[k];
    if !text_equals(p.scene_id.as_str(), entry_scene) {
        return Err(refusal(
            "project.unknownScene",
            Some(placement_path_string(k, ".sceneId")),
            String::from_str("scene is not the voxel lab entry scene"),
        ));
    }
    if p.has_material_overrides {
        return Err(refusal(
            "adapter.unsupportedMaterialOverride",
            Some(placement_path_string(k, ".instance.materialOverrides")),
            String::from_str("voxel lab instances do not yet persist material overrides"),
        ));
    }
    if !p.asset_loaded {
        return Err(refusal(
            "project.unknownAsset",
            Some(placement_path_string(k, ".instance.voxelObjectAssetId")),
            String::from_str("voxel object is not loaded"),
        ));
    }
    if let Some(m) = &p.frame_error {
        return Err(AdapterError::project(m.as_str()));
    }
    if next >= MAX_JSON_SAFE_ENTITY_ID {
        return Err(refusal(
            "voxelObject.ownerIdentityExhausted",
            Some(placement_path_string(k, "")),
            String::from_str("cannot allocate another JSON-safe entity owner"),
        ));
    }
    let mut rest = allocate_from(ps, entry_scene, next + 1, k + 1)?;
    let ghost tail = rest@;
    rest.insert(0, next + 1);
    assert(rest@ =~= seq![(next + 1) as u64] + tail);
    Ok(rest)
}

/// The owner entity ids an attach request's placements receive (one past
/// the largest id in use, then counting up) and the project's next
/// revision, or the first per-placement refusal.
pub fn allocate_instance_owners(
    existing_entity_ids: &Vec<u64>,
    placements: &Vec<PlacementCheck>,
    entry_scene: &str,
    revision: u64,
) -> (result: Result<(Vec<u64>, u64), AdapterError>)
    ensures
        match owners_from(placements@, entry_scene@, max_entity(existing_entity_ids@) as int, 0) {
            Err(r) => result matches Err(e) && adapter_error_view(e) == r,
            Ok(ids) => if revision == u64::MAX {
                result matches Err(e) && adapter_error_view(e) == ("project.rejected"@, None::<Seq<char>>,
                    "project revision is exhausted"@)
            } else {
                result matches Ok((v, next_revision)) && v@ == ids && next_revision == revision + 1
            },
        },
{
    let start = max_entity_exec(existing_entity_ids);
    let owners = if start > MAX_JSON_SAFE_ENTITY_ID {
        if placements.len() == 0 {
            Vec::new()
        } else {
            proof {
                reveal_with_fuel(owners_from, 2);
            }
            allocate_from_exhausted(placements, entry_scene, start)?
        }
    } else {
        allocate_from(placements, entry_scene, start, 0)?
    };
    if revision == u64::MAX {
        return Err(AdapterError::project("project revision is exhausted"));
    }
    Ok((owners, revision + 1))
}

/// Placements when the ids in use already pass the JSON-safe bound: the
/// first one is refused, by its own checks or for want of an owner.
fn allocate_from_exhausted(ps: &Vec<PlacementCheck>, entry_scene: &str, next: u64) -> (result: Result<Vec<u64>, AdapterError>)
    requires
        ps@.len() > 0,
        next > MAX_JSON_SAFE_ENTITY_ID,
    ensures
        owners_from(ps@, entry_scene@, next as int, 0) matches Err(r) && result matches Err(e) && adapter_error_view(e)
            == r,
{
    let p = &ps[0];
    if !text_equals(p.scene_id.as_str(), entry_scene) {
        return Err(refusal(
            "project.unknownScene",
            Some(placement_path_string(0, ".sceneId")),
            String::from_str("scene is not the voxel lab entry scene"),
        ));
    }
    if p.has_material_overrides {
        return Err(refusal(
            "adapter.unsupportedMaterialOverride",
            Some(placement_path_string(0, ".instance.materialOverrides")),
            String::from_str("voxel lab instances do not yet persist material overrides"),
        ));
    }
    if !p.asset_loaded {
        return Err(refusal(
            "project.unknownAsset",
            Some(placement_path_string(0, ".instance.voxelObjectAssetId")),
            String::from_str("voxel object is not loaded"),
        ));
    }
    if let Some(m) = &p.frame_error {
        return Err(AdapterError::project(m.as_str()));
    }
    Err(refusal(
        "voxelObject.ownerIdentityExhausted",
        Some(placement_path_string(0, "")),
        String::from_str("cannot allocate another JSON-safe entity owner"),
    ))
}

} // verus!
