use voxel_lab::cleanup::EditBounds;
use voxel_lab::kit::{KitCell, KitError};
use voxel_lab::replay::EditPolicy;
use voxel_lab::structural::{FusionKit, FusionPart, ProtectedRegion};

fn kit() -> FusionKit {
    FusionKit {
        palette_slots: vec![7, 2, 7, 4],
        parts: vec![
            FusionPart {
                id: "torso".to_owned(),
                limb: false,
                cells: vec![
                    KitCell { coordinate: [0, 0, 0], material_slot: 2 },
                    KitCell { coordinate: [0, 1, 0], material_slot: 2 },
                    KitCell { coordinate: [0, 2, 0], material_slot: 2 },
                ],
                protected_regions: vec![ProtectedRegion { min: [0, 1, 0], max: [0, 5, 0] }],
            },
            FusionPart {
                id: "sword".to_owned(),
                limb: false,
                cells: vec![KitCell { coordinate: [0, 0, 0], material_slot: 4 }],
                protected_regions: vec![],
            },
        ],
        protected_parts: vec!["sword".to_owned()],
        ground_y: 0,
        volume_range: None,
        min_limb_thickness: 1,
        fixed_dimensions: vec![],
    }
}

fn region() -> EditBounds {
    EditBounds { min: [-4, 0, -4], max: [4, 8, 4] }
}

#[test]
fn kit_policy_protects_regions_and_parts() {
    let policy = EditPolicy::for_kit(&kit(), Ok(()), vec![region()], 500).expect("policy");
    assert_eq!(policy.material_slots, vec![2, 4, 7]);
    assert_eq!(policy.protected_origins, vec![(0, 1), (0, 2)]);
    assert_eq!(policy.protected_parts, vec![1]);
    assert_eq!(policy.max_voxel_count, 500);
    assert_eq!(policy.max_operation_cells, 262_144);
    assert_eq!(policy.max_operations_per_diff, 256);
    assert!(policy.required_anchors.is_empty());
    assert!(policy.connected_parts.is_empty());
    assert_eq!(policy.protected_dimension_tolerance, [0, 0, 0]);
    assert_eq!(policy.declared_regions, vec![region()]);
}

#[test]
fn kit_policy_rejects_bad_arguments_in_order() {
    let error = EditPolicy::for_kit(&kit(), Err(KitError::validation("bad".to_owned())), vec![], 0).unwrap_err();
    assert_eq!(error.code(), "edit.invalidKit");
    let error = EditPolicy::for_kit(&kit(), Ok(()), vec![], 0).unwrap_err();
    assert_eq!(error.code(), "edit.noDeclaredRegions");
    let inverted = EditBounds { min: [1, 0, 0], max: [0, 0, 0] };
    let error = EditPolicy::for_kit(&kit(), Ok(()), vec![region(), inverted], 0).unwrap_err();
    assert_eq!(error.code(), "edit.invalidBounds");
    let error = EditPolicy::for_kit(&kit(), Ok(()), vec![region()], 1_000_001).unwrap_err();
    assert_eq!(error.code(), "edit.invalidQuota");
    assert_eq!(error.path(), "maxVoxelCount");
}
