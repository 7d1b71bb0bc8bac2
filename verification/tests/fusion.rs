use voxel_lab::assemble::{AssembledVoxelCell, DiscardedCanonicalVoxel, RoughFrame};
use voxel_lab::fusion::{
    check_rough_frame, manhattan_path, CleanupOperation, FusedFrame, FusedVoxelCell, FusedVoxelOrigin, FusionSettings, GeneratedOperation,
};
use voxel_lab::voxel::manhattan;

#[test]
fn manhattan_path_is_deterministic_and_face_connected() {
    let path = manhattan_path([0, 0, 0], [2, -1, 1]);
    assert_eq!(path.first(), Some(&[0, 0, 0]));
    assert_eq!(path.last(), Some(&[2, -1, 1]));
    assert_eq!(path.len(), 5);
    assert!(path.windows(2).all(|pair| manhattan(pair[0], pair[1]) == 1));
    assert_eq!(path, manhattan_path([0, 0, 0], [2, -1, 1]));
}

#[test]
fn settings_reject_zero_or_unbounded_quotas() {
    assert_eq!(
        FusionSettings {
            max_generated_voxels: 0,
            ..FusionSettings::default()
        }
        .validate()
        .expect_err("zero quota")
        .code(),
        "fusion.invalidSettings"
    );
    assert_eq!(
        FusionSettings {
            max_socket_bridge_length: 257,
            ..FusionSettings::default()
        }
        .validate()
        .expect_err("unbounded bridge")
        .code(),
        "fusion.invalidSettings"
    );
}

#[test]
fn generated_coordinates_are_listed_in_order() {
    let generated = |c: [i64; 3]| FusedVoxelCell {
        coordinate: c,
        material_slot: 1,
        origin: FusedVoxelOrigin::Generated {
            operation: GeneratedOperation::Cleanup { operation: CleanupOperation::FillOneVoxelCavity },
        },
        operations: vec![],
    };
    let frame = FusedFrame {
        time_microseconds: 0,
        duration_microseconds: 10,
        voxels: vec![
            generated([2, 0, 0]),
            FusedVoxelCell {
                coordinate: [1, 0, 0],
                material_slot: 1,
                origin: FusedVoxelOrigin::Canonical { part_id: 0, source_voxel_index: 0 },
                operations: vec![],
            },
            generated([0, 5, 0]),
        ],
        discarded_origins: vec![],
        generated_voxels: 2,
        applied_operations: vec![],
    };
    assert_eq!(frame.generated_coordinates(), vec![[0, 5, 0], [2, 0, 0]]);
    assert_eq!(frame.bounds(), Some(([0, 0, 0], [2, 5, 0])));
}

#[test]
fn fusion_candidates_count_flagged_voxels() {
    let cell = |x: i64, needs_fusion: bool| AssembledVoxelCell {
        coordinate: [x, 0, 0],
        material_slot: 1,
        part_id: 0,
        source_voxel_index: x as u32,
        needs_fusion,
    };
    let rough = RoughFrame {
        time_microseconds: 0,
        duration_microseconds: 10,
        voxels: vec![cell(0, true), cell(1, false), cell(2, true)],
        discarded_overlaps: vec![],
    };
    assert_eq!(rough.fusion_candidates(), 2);
    assert_eq!(rough.len(), 3);
    assert!(!rough.is_empty());
}

#[test]
fn manhattan_path_prefers_the_last_widest_axis() {
    let path = manhattan_path([0, 0, 0], [2, -1, 1]);
    assert_eq!(path, vec![[0, 0, 0], [1, 0, 0], [1, 0, 1], [1, -1, 1], [2, -1, 1]]);
}

#[test]
fn rough_frames_must_match_their_pose_and_ledger() {
    let ledger = vec![DiscardedCanonicalVoxel {
        coordinate: [1, 2, 3],
        part_id: 1,
        source_voxel_index: 4,
        material_slot: 2,
        winner_part_id: 0,
        winner_source_voxel_index: 9,
    }];
    let rough = RoughFrame {
        time_microseconds: 10,
        duration_microseconds: 20,
        voxels: Vec::new(),
        discarded_overlaps: ledger.clone(),
    };
    assert!(check_rough_frame(&rough, 10, 20, &ledger).is_ok());
    let error = check_rough_frame(&rough, 11, 20, &ledger).unwrap_err();
    assert_eq!(error.code(), "fusion.poseMismatch");
    let error = check_rough_frame(&rough, 10, 20, &Vec::new()).unwrap_err();
    assert_eq!(error.code(), "fusion.overlapLedgerMismatch");
    assert!(error.to_text().starts_with("fusion.overlapLedgerMismatch: "));
}
