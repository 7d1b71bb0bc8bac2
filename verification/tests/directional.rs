use voxel_lab::directional::{
    normalize_layout, rectangles_overlap, require_identity, validate_rect, DirectionalSpriteAction, DirectionalSpriteFrame,
    DirectionalSpriteLayout, DirectionalSpriteSource, DirectionalSpriteView, SpriteBackground, SpriteRect,
};

fn layout() -> DirectionalSpriteLayout {
    DirectionalSpriteLayout {
        schema_version: 1,
        id: "test".to_owned(),
        source: DirectionalSpriteSource {
            path: "local/test.png".to_owned(),
            background: SpriteBackground::default(),
        },
        directions: vec![
            "front".to_owned(),
            "right".to_owned(),
            "back".to_owned(),
            "left".to_owned(),
        ],
        actions: vec![DirectionalSpriteAction {
            id: "idle".to_owned(),
            name: "Idle".to_owned(),
            frames: vec![DirectionalSpriteFrame {
                id: "f0".to_owned(),
                name: "Frame 0".to_owned(),
                views: vec![
                    (
                        "front",
                        Some(SpriteRect {
                            x: 0,
                            y: 0,
                            width: 4,
                            height: 4,
                        }),
                    ),
                    (
                        "right",
                        Some(SpriteRect {
                            x: 4,
                            y: 0,
                            width: 4,
                            height: 4,
                        }),
                    ),
                    ("back", None),
                    ("left", None),
                ]
                .into_iter()
                .map(|(direction, rect)| DirectionalSpriteView {
                    direction: direction.to_owned(),
                    rect,
                    anchor: None,
                })
                .collect(),
            }],
        }],
    }
}

#[test]
fn rejects_overlap_and_empty_frames() {
    let mut value = layout();
    value.actions[0].frames[0].views[1].rect = Some(SpriteRect {
        x: 2,
        y: 0,
        width: 4,
        height: 4,
    });
    let error = value.validate(16, 16).expect_err("overlap");
    assert!(error.contains("overlap"), "{error}");
    value.actions[0].frames[0].views[0].rect = None;
    value.actions[0].frames[0].views[1].rect = None;
    let error = value.validate(16, 16).expect_err("empty");
    assert!(error.contains("at least one"), "{error}");
}

#[test]
fn accepts_explicit_missing_views_and_bounds() {
    let value = layout();
    value.validate(16, 16).expect("layout");
}

#[test]
fn overlap_message_names_both_rectangles() {
    let mut value = layout();
    value.actions[0].frames[0].views[1].rect = Some(SpriteRect {
        x: 2,
        y: 1,
        width: 4,
        height: 4,
    });
    assert_eq!(
        value.validate(16, 16).unwrap_err(),
        "sprite rectangles overlap: (0,0,4,4) and (2,1,4,4)"
    );
}

#[test]
fn layout_errors_come_in_rule_order() {
    let mut value = layout();
    value.schema_version = 2;
    assert_eq!(
        value.validate(16, 16).unwrap_err(),
        "layout schema 2 is unsupported; expected 1"
    );
    let mut value = layout();
    value.id = " test".to_owned();
    assert_eq!(
        value.validate(16, 16).unwrap_err(),
        "id must be short canonical text without '/': \" test\""
    );
    let mut value = layout();
    value.directions.truncate(1);
    assert_eq!(value.validate(16, 16).unwrap_err(), "directions must contain 2..=8 labels");
    let mut value = layout();
    value.directions[3] = "front".to_owned();
    assert_eq!(value.validate(16, 16).unwrap_err(), "direction front is repeated");
    let mut value = layout();
    value.actions.clear();
    assert_eq!(value.validate(16, 16).unwrap_err(), "actions must contain 1..=32 entries");
    let mut value = layout();
    let action = value.actions[0].clone();
    value.actions.push(action);
    assert_eq!(value.validate(16, 16).unwrap_err(), "action idle is repeated");
    let mut value = layout();
    value.actions[0].frames.clear();
    assert_eq!(
        value.validate(16, 16).unwrap_err(),
        "action idle frames must contain 1..=64 entries"
    );
    let mut value = layout();
    let frame = value.actions[0].frames[0].clone();
    value.actions[0].frames.push(frame);
    assert_eq!(value.validate(16, 16).unwrap_err(), "frame f0 is repeated in action idle");
    let mut value = layout();
    value.actions[0].frames[0].views.pop();
    assert_eq!(
        value.validate(16, 16).unwrap_err(),
        "frame f0 in action idle must contain exactly one view per direction"
    );
    let mut value = layout();
    value.actions[0].frames[0].views[2].direction = "up".to_owned();
    assert_eq!(
        value.validate(16, 16).unwrap_err(),
        "frame f0 in action idle names unknown direction up"
    );
    let mut value = layout();
    value.actions[0].frames[0].views[2].direction = "front".to_owned();
    assert_eq!(
        value.validate(16, 16).unwrap_err(),
        "frame f0 in action idle repeats direction front"
    );
    let value = layout();
    assert_eq!(
        value.validate(6, 16).unwrap_err(),
        "idle/f0/right rectangle is outside source bounds"
    );
}

#[test]
fn rectangle_rules() {
    let empty = SpriteRect { x: 0, y: 0, width: 0, height: 3 };
    assert_eq!(
        validate_rect(&empty, 8, 8, "a", "f", "d").unwrap_err(),
        "a/f/d has an empty rectangle"
    );
    let edge = SpriteRect { x: u32::MAX, y: 0, width: 1, height: 1 };
    assert!(validate_rect(&edge, u32::MAX, 8, "a", "f", "d").is_err());
    let inside = SpriteRect { x: 4, y: 4, width: 4, height: 4 };
    assert!(validate_rect(&inside, 8, 8, "a", "f", "d").is_ok());
    let touching = SpriteRect { x: 0, y: 4, width: 4, height: 4 };
    assert!(!rectangles_overlap(&inside, &touching));
    let crossing = SpriteRect { x: 7, y: 7, width: 4, height: 4 };
    assert!(rectangles_overlap(&inside, &crossing));
    assert!(rectangles_overlap(&crossing, &inside));
}

#[test]
fn identities_are_short_and_slash_free() {
    assert!(require_identity("idle", "id").is_ok());
    assert!(require_identity("a/b", "id").is_err());
    assert!(require_identity("", "id").is_err());
    assert!(require_identity(&"x".repeat(64), "id").is_ok());
    assert!(require_identity(&"x".repeat(65), "id").is_err());
    assert!(require_identity(&"é".repeat(33), "id").is_err());
}

#[test]
fn background_keys_are_exact() {
    let background = SpriteBackground {
        color_key: Some([255, 0, 255, 255]),
        color_keys: vec![[0, 0, 0, 255]],
    };
    assert!(background.is_key(&[255, 0, 255, 255]));
    assert!(background.is_key(&[0, 0, 0, 255]));
    assert!(!background.is_key(&[0, 0, 1, 255]));
    assert!(!SpriteBackground::default().is_key(&[0, 0, 0, 255]));
}

#[test]
fn normalization_orders_views_and_measures_coverage() {
    let mut value = layout();
    value.actions[0].frames[0].views.reverse();
    value.validate(16, 16).expect("layout");
    let normalized = normalize_layout(&value, b"abc", 16, 16).expect("normalize");
    let order: Vec<&str> = normalized.actions[0].frames[0]
        .views
        .iter()
        .map(|view| view.direction.as_str())
        .collect();
    assert_eq!(order, vec!["front", "right", "back", "left"]);
    assert_eq!(normalized.source_area, 256);
    assert_eq!(normalized.covered_area, 32);
    assert_eq!(normalized.unused_area, 224);
    assert_eq!(normalized.source.byte_count, 3);
    assert_eq!(
        normalized.source.sha256,
        "sha256:ba7816bf8f01cfea414140de5dae2223b00361a396177a9cb410ff61f20015ad"
    );
    let missing: Vec<(&str, &str, &str)> = normalized
        .missing_views
        .iter()
        .map(|view| (view.action.as_str(), view.frame.as_str(), view.direction.as_str()))
        .collect();
    assert_eq!(missing, vec![("idle", "f0", "back"), ("idle", "f0", "left")]);
    assert_eq!(normalized.directions, value.directions);
}
