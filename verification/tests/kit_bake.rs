use voxel_lab::kit::{PaletteGroup, PaletteSlot};
use voxel_lab::kit_bake::{KitBakePart, KitBakeRegion, KitBakeSlice, KitBakeSocket, KitBakeSource, KitBakeSpec};

fn valid_spec() -> KitBakeSpec {
    KitBakeSpec {
        schema_version: 1,
        kit_id: "unit-kit".to_owned(),
        source: KitBakeSource {
            asset_id: "mesh/unit".to_owned(),
            path: "content/sources/unit/unit.glb".to_owned(),
            expected_source_sha256: format!("sha256:{}", "0".repeat(64)),
            license_path: "content/sources/unit/LICENSE.txt".to_owned(),
        },
        scale_valid: true,
        palette: vec![PaletteGroup {
            name: "body".to_owned(),
            slots: vec![PaletteSlot { slot: 1, display_name: "body".to_owned(), color_in_range: true }],
        }],
        material_slots: vec![(0, 1)],
        parts: vec![KitBakePart {
            id: "torso".to_owned(),
            palette_groups: vec!["body".to_owned()],
            limb: false,
            symmetry_partner: None,
            pivot_finite: true,
            slices: vec![KitBakeSlice { node: "Torso_0".to_owned(), region: None, kit_slot: None }],
        }],
        sockets: Vec::new(),
        min_limb_thickness: 2,
        protected_parts: Vec::new(),
    }
}

fn socket(id: &str, a: &str, b: &str) -> KitBakeSocket {
    KitBakeSocket { id: id.to_owned(), parts: [a.to_owned(), b.to_owned()], geometry_valid: true }
}

fn with_head(spec: &mut KitBakeSpec) {
    let mut head = spec.parts[0].clone();
    head.id = "head".to_owned();
    head.slices[0].node = "Head_0".to_owned();
    spec.parts.push(head);
}

#[test]
fn kit_bake_valid_spec_passes() {
    valid_spec().validate().expect("valid spec");
}

#[test]
fn kit_bake_animated_source_identity_is_rejected() {
    let mut spec = valid_spec();
    spec.source.asset_id = "mesh-animation/unit".to_owned();
    assert!(spec.validate().is_err());
}

#[test]
fn inverted_region_bounds_are_rejected() {
    let mut spec = valid_spec();
    spec.parts[0].slices[0].region = Some(KitBakeRegion { x_ordered: true, y_ordered: false, z_ordered: true });
    assert!(spec.validate().is_err());
}

#[test]
fn self_mating_socket_is_rejected() {
    let mut spec = valid_spec();
    spec.sockets.push(socket("neck", "torso", "torso"));
    assert!(spec.validate().is_err());
}

#[test]
fn bake_rule_messages_name_the_first_fault() {
    let mut spec = valid_spec();
    spec.schema_version = 2;
    assert_eq!(spec.validate(), Err("kit bake spec schema 2 is unsupported; expected 1".to_owned()));

    let mut spec = valid_spec();
    spec.kit_id = "unit_kit".to_owned();
    assert_eq!(spec.validate(), Err("kitId must be a non-empty identity".to_owned()));

    let mut spec = valid_spec();
    spec.source.asset_id = "mesh-animation/unit".to_owned();
    assert_eq!(spec.validate(), Err("source.assetId must be a mesh/... static mesh identity".to_owned()));

    let mut spec = valid_spec();
    spec.source.path = "../unit.glb".to_owned();
    assert_eq!(spec.validate(), Err("source.path must be a safe relative path".to_owned()));

    let mut spec = valid_spec();
    spec.source.license_path = "/LICENSE".to_owned();
    assert_eq!(spec.validate(), Err("source.licensePath must be a safe relative path".to_owned()));

    let mut spec = valid_spec();
    spec.scale_valid = false;
    assert_eq!(spec.validate(), Err("character height, ground, and target rate must be positive finite".to_owned()));

    let mut spec = valid_spec();
    spec.material_slots = vec![(0, 1), (3, 9)];
    assert_eq!(spec.validate(), Err("source material slot 3 maps to unknown kit slot 9".to_owned()));

    let mut spec = valid_spec();
    spec.parts[0].id = "tor so".to_owned();
    assert_eq!(spec.validate(), Err("part id \"tor so\" is not an identity".to_owned()));

    let mut spec = valid_spec();
    spec.parts.push(spec.parts[0].clone());
    assert_eq!(spec.validate(), Err("duplicate part id torso".to_owned()));

    let mut spec = valid_spec();
    spec.parts[0].slices[0].kit_slot = Some(7);
    assert_eq!(spec.validate(), Err("part torso slice Torso_0: kitSlot 7 is not in the palette".to_owned()));

    let mut spec = valid_spec();
    spec.parts[0].slices[0].region = Some(KitBakeRegion { x_ordered: true, y_ordered: true, z_ordered: false });
    assert_eq!(
        spec.validate(),
        Err("part torso slice Torso_0: region lower bound must be < upper bound".to_owned())
    );

    let mut spec = valid_spec();
    spec.min_limb_thickness = 0;
    assert_eq!(spec.validate(), Err("minLimbThickness must be >= 1".to_owned()));

    let mut spec = valid_spec();
    spec.protected_parts = vec!["tail".to_owned()];
    assert_eq!(spec.validate(), Err("protectedParts references unknown part tail".to_owned()));
}

#[test]
fn bake_source_hash_must_be_canonical() {
    let mut spec = valid_spec();
    spec.source.expected_source_sha256 = format!("sha256:{}", "Ab".repeat(32));
    assert_eq!(spec.validate(), Ok(()));
    spec.source.expected_source_sha256 = format!("sha256:{}", "0".repeat(63));
    assert_eq!(spec.validate(), Err("source.expectedSourceSha256 is not a canonical SHA-256".to_owned()));
    spec.source.expected_source_sha256 = format!("sha256:{}g", "0".repeat(63));
    assert!(spec.validate().is_err());
}

#[test]
fn bake_sockets_join_two_declared_parts() {
    let mut spec = valid_spec();
    with_head(&mut spec);
    spec.sockets.push(socket("neck", "torso", "head"));
    assert_eq!(spec.validate(), Ok(()));

    let mut bad = spec.clone();
    bad.sockets[0] = socket("neck", "torso", "tail");
    assert_eq!(bad.validate(), Err("socket neck references unknown part tail".to_owned()));

    let mut bad = spec.clone();
    bad.sockets[0] = socket("neck-joint", "torso", "head");
    assert_eq!(bad.validate(), Err("socket id \"neck-joint\" is not an identity".to_owned()));

    let mut bad = spec.clone();
    bad.sockets[0].geometry_valid = false;
    assert_eq!(bad.validate(), Err("socket neck has invalid geometry".to_owned()));

    let mut bad = spec;
    bad.sockets[0] = socket("neck", "head", "head");
    assert_eq!(bad.validate(), Err("socket neck mates a part to itself".to_owned()));
}
