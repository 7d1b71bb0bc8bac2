use voxel_lab::carve::{carve_visual_hull, DirectionalCarveSpec};
use voxel_lab::directional::{
    DirectionalSpriteAction, DirectionalSpriteFrame, DirectionalSpriteLayout, DirectionalSpriteSource,
    DirectionalSpriteView, SpriteAnchor, SpriteBackground, SpriteRect,
};
use voxel_lab::raster::RgbaImage;

const DIRECTIONS: [&str; 4] = ["front", "right", "back", "left"];

fn layout(size: u32) -> DirectionalSpriteLayout {
    let views = DIRECTIONS
        .iter()
        .enumerate()
        .map(|(i, d)| DirectionalSpriteView {
            direction: d.to_string(),
            rect: Some(SpriteRect { x: i as u32 * size, y: 0, width: size, height: size }),
            anchor: Some(SpriteAnchor { x: (size / 2) as i32, y: size as i32 - 1 }),
        })
        .collect();
    DirectionalSpriteLayout {
        schema_version: 1,
        id: "carve".to_owned(),
        source: DirectionalSpriteSource {
            path: "sheet.png".to_owned(),
            background: SpriteBackground { color_key: None, color_keys: Vec::new() },
        },
        directions: DIRECTIONS.iter().map(|d| d.to_string()).collect(),
        actions: vec![DirectionalSpriteAction {
            id: "idle".to_owned(),
            name: "Idle".to_owned(),
            frames: vec![DirectionalSpriteFrame { id: "idle-0".to_owned(), name: "Idle 0".to_owned(), views }],
        }],
    }
}

fn sheet(size: u32, pixel: [u8; 4]) -> RgbaImage {
    let width = size * 4;
    let mut pixels = Vec::new();
    for _ in 0..(width * size) {
        pixels.extend_from_slice(&pixel);
    }
    RgbaImage { width, height: size, pixels }
}

#[test]
fn carving_four_squares_gives_a_grounded_box() {
    let frame = carve_visual_hull(&layout(20), &sheet(20, [100, 100, 100, 255]), "idle-0", 4, 83_333).expect("carved");
    assert_eq!(frame.voxels.len(), 19 * 19 * 20);
    assert_eq!(frame.voxels[0].coordinate, [-9, 0, -9]);
    assert_eq!(frame.voxels[0].material_slot, 2);
    assert_eq!(frame.voxels[0].source_voxel_index, 0);
    assert_eq!(frame.voxels[frame.voxels.len() - 1].coordinate, [9, 19, 9]);
    assert_eq!(frame.voxels[frame.voxels.len() - 1].material_slot, 1);
    assert_eq!(frame.duration_microseconds, 83_333);
    assert!(frame.voxels.iter().enumerate().all(|(i, v)| v.source_voxel_index == i as u32));
}

#[test]
fn reddish_silhouettes_carve_slot_three() {
    let frame = carve_visual_hull(&layout(20), &sheet(20, [200, 20, 20, 255]), "idle-0", 4, 1).expect("carved");
    assert!(frame.voxels.iter().all(|v| v.material_slot == 3));
}

#[test]
fn carve_refusals_name_the_first_fault() {
    let image = sheet(20, [100, 100, 100, 255]);
    assert_eq!(
        carve_visual_hull(&layout(20), &image, "walk-0", 4, 1).err(),
        Some("frameId walk-0 not found in layout".to_owned())
    );
    assert_eq!(
        carve_visual_hull(&layout(20), &image, "idle-0", 5, 1).err(),
        Some("carved hull is empty — threshold too high or views misaligned".to_owned())
    );
    assert_eq!(
        carve_visual_hull(&layout(5), &sheet(5, [100, 100, 100, 255]), "idle-0", 4, 1).err(),
        Some("carved frame has 125 voxels; expected 3000..=100000".to_owned())
    );
    let mut missing = layout(20);
    missing.actions[0].frames[0].views[2].rect = None;
    assert_eq!(
        carve_visual_hull(&missing, &image, "idle-0", 4, 1).err(),
        Some("frame idle-0 direction back is explicitly missing".to_owned())
    );
    let mut outside = layout(20);
    outside.actions[0].frames[0].views[3].rect = Some(SpriteRect { x: 70, y: 0, width: 20, height: 20 });
    assert_eq!(
        carve_visual_hull(&outside, &image, "idle-0", 4, 1).err(),
        Some("rect SpriteRect { x: 70, y: 0, width: 20, height: 20 } outside 80x20".to_owned())
    );
    let mut renamed = layout(20);
    renamed.directions[0] = "north".to_owned();
    renamed.actions[0].frames[0].views[0].direction = "north".to_owned();
    assert_eq!(carve_visual_hull(&renamed, &image, "idle-0", 4, 1).err(), Some("missing front".to_owned()));
}

#[test]
fn a_hovering_hull_is_not_grounded() {
    let mut raised = layout(20);
    for view in &mut raised.actions[0].frames[0].views {
        view.anchor = Some(SpriteAnchor { x: 10, y: 25 });
    }
    assert_eq!(
        carve_visual_hull(&raised, &sheet(20, [100, 100, 100, 255]), "idle-0", 4, 1).err(),
        Some("carved frame not grounded at y=0; min y is 6".to_owned())
    );
}

#[test]
fn carve_spec_rules_come_in_order() {
    let valid = DirectionalCarveSpec {
        schema_version: 1,
        id: "carve".to_owned(),
        kit: "kits/unit.json".to_owned(),
        layout: "layouts/unit.json".to_owned(),
        source_image: "sheets/unit.png".to_owned(),
        expected_source_sha256: format!("sha256:{}", "0".repeat(64)),
        output_asset_id: "voxel-object/unit".to_owned(),
        clip_id: "clip/idle".to_owned(),
        clip_name: "Idle".to_owned(),
        cell_size_positive: true,
        frame_id: "idle-0".to_owned(),
        frame_duration_microseconds: 83_333,
        carve_threshold: 3,
    };
    assert_eq!(valid.validate(), Ok(()));
    let mut spec = valid.clone();
    spec.schema_version = 2;
    assert_eq!(spec.validate(), Err("directional carve schema 2 is unsupported; expected 1".to_owned()));
    let mut spec = valid.clone();
    spec.clip_name = " Idle".to_owned();
    assert_eq!(spec.validate(), Err("clipName must be non-empty canonical text".to_owned()));
    let mut spec = valid.clone();
    spec.output_asset_id = "mesh/unit".to_owned();
    assert_eq!(spec.validate(), Err("outputAssetId must start with voxel-object/".to_owned()));
    let mut spec = valid.clone();
    spec.carve_threshold = 5;
    assert_eq!(spec.validate(), Err("carveThreshold must be 1..=4".to_owned()));
}
