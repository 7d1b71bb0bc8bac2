use voxel_lab::adapter::{allocate_instance_owners, check_instance_collisions, check_placement_batch, PlacementCheck, MAX_JSON_SAFE_ENTITY_ID};
use voxel_lab::adapter::{require_exact_present_hash, require_expected_hash, title_case, AdapterError};

#[test]
fn title_case_upper_cases_the_first_character() {
    assert_eq!(title_case("material"), "Material");
    assert_eq!(title_case(""), "");
    assert_eq!(title_case("ßtexture"), "SStexture");
}

#[test]
fn expected_hashes_gate_surface_mutations() {
    assert!(require_expected_hash("material", "mat/a", None, None).is_ok());
    assert!(require_expected_hash("material", "mat/a", Some("sha256:1"), Some("sha256:1")).is_ok());
    assert_eq!(
        require_expected_hash("material", "mat/a", None, Some("sha256:1")),
        Err(AdapterError {
            code: "surface.materialAlreadyExists".to_owned(),
            path: Some("expectedMaterialContentHash".to_owned()),
            message: "mat/a already exists; supply its exact content hash".to_owned(),
        })
    );
    assert_eq!(
        require_expected_hash("texture", "tex/a", Some("sha256:1"), None),
        Err(AdapterError::at("surface.unknownTexture", "expectedTextureContentHash", "tex/a does not exist"))
    );
    assert_eq!(
        require_exact_present_hash("texture", "tex/a", "sha256:1", Some("sha256:2")),
        Err(AdapterError::at("surface.staleTexture", "expectedTextureContentHash", "tex/a changed since it was read"))
    );
    assert_eq!(AdapterError::project("bad"), AdapterError::new("project.rejected", "bad"));
}

fn ids(values: &[&str]) -> Vec<String> {
    values.iter().map(|v| v.to_string()).collect()
}

fn placement(scene: &str) -> PlacementCheck {
    PlacementCheck { scene_id: scene.to_owned(), has_material_overrides: false, asset_loaded: true, frame_error: None }
}

#[test]
fn placement_batches_are_bounded_and_distinct() {
    assert!(check_placement_batch(&ids(&["a", "b"])).is_ok());
    let empty = check_placement_batch(&Vec::new()).unwrap_err();
    assert_eq!(empty.code, "voxelObject.invalidPlacementBatch");
    assert_eq!(empty.path.as_deref(), Some("placements"));
    let repeated = check_placement_batch(&ids(&["a", "b", "a"])).unwrap_err();
    assert_eq!(repeated.code, "voxelObject.duplicatePlacementIdentity");
    assert_eq!(repeated.path.as_deref(), Some("placements[2].instance.instanceId"));
    assert_eq!(repeated.message, "placement repeats instance identity \"a\"");
    let collision = check_instance_collisions(&ids(&["a", "b"]), &ids(&["x", "b"])).unwrap_err();
    assert_eq!(collision.code, "voxelObject.instanceIdentityCollision");
    assert_eq!(collision.path.as_deref(), Some("placements[1].instance.instanceId"));
}

#[test]
fn owners_count_up_from_the_largest_entity() {
    let (owners, revision) =
        allocate_instance_owners(&vec![4, 9, 2], &vec![placement("main"), placement("main")], "main", 7).expect("owners");
    assert_eq!(owners, vec![10, 11]);
    assert_eq!(revision, 8);
    let refused = allocate_instance_owners(&vec![], &vec![placement("main"), placement("side")], "main", 7).unwrap_err();
    assert_eq!(refused.code, "project.unknownScene");
    assert_eq!(refused.path.as_deref(), Some("placements[1].sceneId"));
    let exhausted = allocate_instance_owners(&vec![MAX_JSON_SAFE_ENTITY_ID], &vec![placement("main")], "main", 7).unwrap_err();
    assert_eq!(exhausted.code, "voxelObject.ownerIdentityExhausted");
    assert_eq!(exhausted.path.as_deref(), Some("placements[0]"));
    let stale = allocate_instance_owners(&vec![], &vec![placement("main")], "main", u64::MAX).unwrap_err();
    assert_eq!(stale.message, "project revision is exhausted");
}
