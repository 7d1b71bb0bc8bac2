use voxel_lab::model::{
    require_relative_path, valid_sha256, ConversionExperiment, ExperimentClip, ProjectCollisionPolicy,
    ProjectFrameSelection, ProjectMaterial, ProjectVoxelObject, ProjectVoxelObjectInstance, VoxelLabProject,
};
use voxel_lab::project::sha256;

const HASH: &str = "sha256:ba7816bf8f01cfea414140de5dae2223b00361a396177a9cb410ff61f20015ad";

fn project() -> VoxelLabProject {
    VoxelLabProject {
        schema_version: 2,
        project_id: "lab".to_owned(),
        name: "Voxel Lab".to_owned(),
        entry_scene: "scene/main".to_owned(),
        revision: 1,
        conversion: ConversionExperiment {
            source_asset_id: "mesh-animation/hero".to_owned(),
            source_path: "assets/hero.glb".to_owned(),
            expected_source_sha256: HASH.to_owned(),
            license_path: "assets/LICENSE".to_owned(),
            target_asset_id: "voxel-object/hero".to_owned(),
            object_directory: "objects/hero".to_owned(),
            resolution: [32, 64, 32],
            cell_size_valid: true,
            chunk_size: 16,
            pivot_finite: true,
            clips: vec![ExperimentClip {
                source_clip_name: "Walk".to_owned(),
                output_clip_id: "clip/walk".to_owned(),
                output_name: "walk".to_owned(),
                sample_rate_hz: 24,
                start_microseconds: 0,
                end_microseconds: None,
            }],
            default_clip: "clip/walk".to_owned(),
        },
        materials: vec![ProjectMaterial {
            asset_id: "material/skin".to_owned(),
            display_name: "Skin".to_owned(),
            appearance_valid: true,
        }],
        voxel_objects: vec![ProjectVoxelObject {
            asset_id: "voxel-object/hero".to_owned(),
            path: "objects/hero/object.json".to_owned(),
            expected_content_hash: HASH.to_owned(),
        }],
        instances: vec![ProjectVoxelObjectInstance {
            entity_id: 7,
            instance_id: "hero-1".to_owned(),
            voxel_object_asset_id: "voxel-object/hero".to_owned(),
            frame: ProjectFrameSelection::Default,
            transform_valid: true,
            collision_policy: ProjectCollisionPolicy::Disabled,
        }],
    }
}

#[test]
fn complete_project_is_valid() {
    project().validate().expect("valid project");
}

#[test]
fn project_errors_name_the_first_broken_rule() {
    let mut p = project();
    p.schema_version = 1;
    assert_eq!(p.validate().unwrap_err(), "project schema 1 is unsupported; expected 2");
    let mut p = project();
    p.name = "Lab ".to_owned();
    assert_eq!(p.validate().unwrap_err(), "name must be non-empty canonical text");
    let mut p = project();
    p.entry_scene = "main".to_owned();
    assert_eq!(p.validate().unwrap_err(), "entryScene must be a scene/... identity");
    let mut p = project();
    p.conversion.source_path = "../hero.glb".to_owned();
    assert_eq!(
        p.validate().unwrap_err(),
        "conversion.sourcePath must be a normalized project-relative path"
    );
    let mut p = project();
    p.conversion.resolution[1] = 0;
    assert_eq!(p.validate().unwrap_err(), "conversion grid settings are invalid");
    let mut p = project();
    p.conversion.clips[0].sample_rate_hz = 241;
    assert_eq!(p.validate().unwrap_err(), "invalid sample rate for clip/walk");
    let mut p = project();
    p.conversion.default_clip = "clip/run".to_owned();
    assert_eq!(
        p.validate().unwrap_err(),
        "conversion.defaultClip must name a configured output clip"
    );
    let mut p = project();
    let clip = p.conversion.clips[0].clone();
    p.conversion.clips.push(clip);
    assert_eq!(p.validate().unwrap_err(), "duplicate output clip clip/walk");
    let mut p = project();
    let material = p.materials[0].clone();
    p.materials.push(material);
    assert_eq!(p.validate().unwrap_err(), "duplicate material identity material/skin");
    let mut p = project();
    p.materials[0].appearance_valid = false;
    assert_eq!(p.validate().unwrap_err(), "invalid material material/skin");
    let mut p = project();
    p.voxel_objects[0].expected_content_hash = "sha256:ABC".to_owned();
    assert_eq!(p.validate().unwrap_err(), "invalid voxel object entry voxel-object/hero");
    let mut p = project();
    p.instances[0].entity_id = 0;
    assert_eq!(
        p.validate().unwrap_err(),
        "instance hero-1 has an invalid or duplicate entity id 0"
    );
    let mut p = project();
    let mut second = p.instances[0].clone();
    second.instance_id = "hero-2".to_owned();
    p.instances.push(second);
    assert_eq!(
        p.validate().unwrap_err(),
        "instance hero-2 has an invalid or duplicate entity id 7"
    );
    let mut p = project();
    p.instances[0].voxel_object_asset_id = "voxel-object/other".to_owned();
    assert_eq!(p.validate().unwrap_err(), "instance hero-1 references unknown voxel-object/other");
    let mut p = project();
    p.instances[0].transform_valid = false;
    assert_eq!(p.validate().unwrap_err(), "invalid transform for hero-1");
}

#[test]
fn content_hashes_have_canonical_form() {
    assert!(valid_sha256(HASH));
    assert!(!valid_sha256(&HASH.to_uppercase()));
    assert!(!valid_sha256("sha256:abc"));
    assert_eq!(sha256(b"abc"), HASH);
    assert!(valid_sha256(&sha256(b"any bytes")));
}

#[test]
fn relative_paths_stay_inside_the_project() {
    assert!(require_relative_path("a/b.json", "path").is_ok());
    assert!(require_relative_path("a/./b.json", "path").is_ok());
    assert!(require_relative_path("/a", "path").is_err());
    assert!(require_relative_path("a/../b", "path").is_err());
    assert!(require_relative_path("./a", "path").is_err());
    assert!(require_relative_path("", "path").is_err());
}
