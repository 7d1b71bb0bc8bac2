use voxel_lab::assemble::{AssembledVoxelCell, RoughFrame};
use voxel_lab::canonical::canonical_cells;
use voxel_lab::components::connected_components;
use voxel_lab::fusion::{
    CleanupOperation, FusedFrame, FusedVoxelCell, FusedVoxelOrigin, FusionSettings, GeneratedOperation,
};
use voxel_lab::kit::KitCell;
use voxel_lab::repair::{
    bridge_one_voxel_gaps, enforce_minimum_limb_thickness, fill_one_voxel_cavities, restore_ground_contact,
};
use voxel_lab::structural::{
    validate_structural_frame, validate_volume, FixedDimension, FusionKit, FusionPart, ProtectedRegion,
};

fn canonical(coordinate: [i64; 3], material_slot: u16, part_id: u32, source_voxel_index: u32) -> FusedVoxelCell {
    FusedVoxelCell {
        coordinate,
        material_slot,
        origin: FusedVoxelOrigin::Canonical { part_id, source_voxel_index },
        operations: Vec::new(),
    }
}

fn sorted(mut cells: Vec<FusedVoxelCell>) -> Vec<FusedVoxelCell> {
    cells.sort_by_key(|cell| cell.coordinate);
    cells
}

fn coordinates(cells: &[FusedVoxelCell]) -> Vec<[i64; 3]> {
    cells.iter().map(|cell| cell.coordinate).collect()
}

fn generated_by(cell: &FusedVoxelCell, operation: CleanupOperation) -> bool {
    cell.origin
        == FusedVoxelOrigin::Generated {
            operation: GeneratedOperation::Cleanup { operation },
        }
        && cell.operations == vec![operation]
}

#[test]
fn one_voxel_gap_next_to_a_seam_is_bridged() {
    let mut cells = sorted(vec![canonical([0, 0, 0], 3, 0, 0), canonical([2, 0, 0], 4, 1, 0)]);
    bridge_one_voxel_gaps(&mut cells, &vec![[1, 2, 0]], 10).expect("bridge");
    assert_eq!(coordinates(&cells), vec![[0, 0, 0], [1, 0, 0], [2, 0, 0]]);
    assert!(generated_by(&cells[1], CleanupOperation::BridgeOneVoxelGap));
    assert_eq!(cells[1].material_slot, 3);
}

#[test]
fn gap_far_from_every_seam_is_left_open() {
    let mut cells = sorted(vec![canonical([0, 0, 0], 3, 0, 0), canonical([2, 0, 0], 4, 1, 0)]);
    bridge_one_voxel_gaps(&mut cells, &vec![[1, 5, 0]], 10).expect("bridge");
    assert_eq!(cells.len(), 2);
}

#[test]
fn gap_bridging_reports_overflow_and_quota() {
    let mut cells = vec![canonical([i64::MAX - 1, 0, 0], 3, 0, 0)];
    let error = bridge_one_voxel_gaps(&mut cells, &vec![], 10).unwrap_err();
    assert_eq!(error.code(), "fusion.coordinateOverflow");
    assert_eq!(error.to_text(), "fusion.coordinateOverflow: gap bridge coordinate overflow");
    let mut cells = sorted(vec![canonical([0, 0, 0], 3, 0, 0), canonical([2, 0, 0], 4, 1, 0)]);
    let error = bridge_one_voxel_gaps(&mut cells, &vec![[1, 0, 0]], 2).unwrap_err();
    assert_eq!(
        error.to_text(),
        "fusion.generatedVoxelQuotaExceeded: candidate cell cap 2 would be exceeded"
    );
}

#[test]
fn enclosed_cell_near_a_seam_is_filled() {
    let mut cells = Vec::new();
    for x in -1..=1 {
        for y in -1..=1 {
            for z in -1..=1 {
                if [x, y, z] != [0, 0, 0] {
                    cells.push(canonical([x, y, z], 7, 0, 0));
                }
            }
        }
    }
    let mut cells = sorted(cells);
    fill_one_voxel_cavities(&mut cells, &vec![[0, 0, 0]], 100).expect("fill");
    assert_eq!(cells.len(), 27);
    let center = cells.iter().find(|cell| cell.coordinate == [0, 0, 0]).unwrap();
    assert!(generated_by(center, CleanupOperation::FillOneVoxelCavity));
    assert_eq!(center.material_slot, 7);
}

#[test]
fn cavity_pass_names_the_overflowing_axis() {
    let mut cells = vec![canonical([0, i64::MIN, 0], 1, 0, 0)];
    let error = fill_one_voxel_cavities(&mut cells, &vec![], 100).unwrap_err();
    assert_eq!(error.to_text(), "fusion.coordinateOverflow: Y coordinate overflow");
    let mut empty: Vec<FusedVoxelCell> = Vec::new();
    fill_one_voxel_cavities(&mut empty, &vec![], 100).expect("empty frame");
}

#[test]
fn ground_contact_moves_the_frame_and_records_the_repair() {
    let mut cells = sorted(vec![canonical([0, 2, 0], 1, 0, 0), canonical([0, 3, 0], 1, 0, 1)]);
    restore_ground_contact(0, &mut cells, 100).expect("ground");
    assert_eq!(coordinates(&cells), vec![[0, 0, 0], [0, 1, 0]]);
    assert_eq!(cells[0].operations, vec![CleanupOperation::RestoreGroundContact]);
    let mut far = sorted(vec![canonical([0, 9, 0], 1, 0, 0)]);
    assert_eq!(
        restore_ground_contact(0, &mut far, 100).unwrap_err().to_text(),
        "fusion.invalidGroundPlane: ground correction -9 exceeds the four-cell repair policy (min y 9, ground y 0)"
    );
    let mut grounded = sorted(vec![canonical([0, 0, 0], 1, 0, 0)]);
    restore_ground_contact(0, &mut grounded, 100).expect("already grounded");
    assert!(grounded[0].operations.is_empty());
    let mut empty: Vec<FusedVoxelCell> = Vec::new();
    assert_eq!(
        restore_ground_contact(0, &mut empty, 100).unwrap_err().to_text(),
        "fusion.missingRequiredRegion: empty frame"
    );
}

fn limb_kit(limb: bool) -> FusionKit {
    FusionKit {
        palette_slots: vec![1, 2, 5],
        parts: vec![FusionPart {
            id: "arm".to_owned(),
            limb,
            cells: vec![
                KitCell { coordinate: [0, 0, 0], material_slot: 5 },
                KitCell { coordinate: [1, 0, 0], material_slot: 5 },
                KitCell { coordinate: [2, 0, 0], material_slot: 5 },
            ],
            protected_regions: vec![],
        }],
        protected_parts: vec![],
        ground_y: 0,
        volume_range: None,
        min_limb_thickness: 2,
        fixed_dimensions: vec![],
    }
}

fn rough_voxel(coordinate: [i64; 3], source_voxel_index: u32, needs_fusion: bool) -> AssembledVoxelCell {
    AssembledVoxelCell {
        coordinate,
        material_slot: 5,
        part_id: 0,
        source_voxel_index,
        needs_fusion,
    }
}

#[test]
fn thin_limb_grows_along_its_thin_axes_at_seams() {
    let kit = limb_kit(true);
    let voxels = vec![
        rough_voxel([0, 0, 0], 0, false),
        rough_voxel([1, 0, 0], 1, false),
        rough_voxel([2, 0, 0], 2, true),
    ];
    let mut cells = canonical_cells(&kit, &voxels).expect("canonical");
    enforce_minimum_limb_thickness(&kit, &voxels, &mut cells, 100).expect("thicken");
    assert_eq!(
        coordinates(&cells),
        vec![[0, 0, 0], [1, 0, 0], [2, 0, 0], [2, 0, 1], [2, 1, 0]]
    );
    let grown = cells.iter().find(|cell| cell.coordinate == [2, 1, 0]).unwrap();
    assert!(generated_by(grown, CleanupOperation::EnforceMinimumLimbThickness));
    assert_eq!(grown.material_slot, 5);
    let mut unchanged = canonical_cells(&limb_kit(false), &voxels).expect("canonical");
    enforce_minimum_limb_thickness(&limb_kit(false), &voxels, &mut unchanged, 100).expect("no limb");
    assert_eq!(unchanged.len(), 3);
}

#[test]
fn canonical_cells_check_provenance() {
    let kit = limb_kit(true);
    let mut voxels = vec![rough_voxel([0, 0, 0], 0, false), rough_voxel([0, 0, 0], 1, false)];
    assert_eq!(
        canonical_cells(&kit, &voxels).unwrap_err().to_text(),
        "fusion.duplicateCoordinate: rough frame repeats coordinate [0, 0, 0]"
    );
    voxels[1].source_voxel_index = 9;
    assert_eq!(
        canonical_cells(&kit, &voxels).unwrap_err().to_text(),
        "fusion.invalidProvenance: part arm has no source voxel 9"
    );
    voxels[1].source_voxel_index = 1;
    voxels[1].material_slot = 2;
    assert_eq!(
        canonical_cells(&kit, &voxels).unwrap_err().to_text(),
        "fusion.invalidProvenance: part arm voxel 1 material 5 does not match rough material 2"
    );
    voxels[1].part_id = 4;
    assert_eq!(
        canonical_cells(&kit, &voxels).unwrap_err().to_text(),
        "fusion.invalidProvenance: unknown part index 4"
    );
    assert_eq!(
        canonical_cells(&kit, &vec![]).unwrap_err().to_text(),
        "fusion.missingRequiredRegion: rough frame contains no canonical geometry"
    );
}

#[test]
fn components_are_counted_face_to_face() {
    assert_eq!(connected_components(&vec![]), 0);
    assert_eq!(connected_components(&vec![[0, 0, 0], [0, 0, 1], [0, 1, 1]]), 1);
    assert_eq!(connected_components(&vec![[0, 0, 0], [1, 1, 0]]), 2);
    assert_eq!(connected_components(&vec![[0, 0, 0], [0, 0, 2], [5, 5, 5]]), 3);
}

fn frame(voxels: Vec<FusedVoxelCell>) -> FusedFrame {
    FusedFrame {
        time_microseconds: 0,
        duration_microseconds: 0,
        generated_voxels: 0,
        voxels,
        discarded_origins: vec![],
        applied_operations: vec![],
    }
}

fn rough() -> RoughFrame {
    RoughFrame {
        time_microseconds: 0,
        duration_microseconds: 0,
        voxels: vec![rough_voxel([2, 0, 0], 2, true)],
        discarded_overlaps: vec![],
    }
}

fn whole_arm() -> Vec<FusedVoxelCell> {
    vec![canonical([0, 0, 0], 5, 0, 0), canonical([1, 0, 0], 5, 0, 1), canonical([2, 0, 0], 5, 0, 2)]
}

#[test]
fn structural_gates_come_in_order() {
    let kit = limb_kit(false);
    let settings = FusionSettings::default();
    validate_structural_frame(&kit, &rough(), &frame(whole_arm()), settings, Ok(())).expect("admitted");

    let mut cells = whole_arm();
    cells[0].material_slot = 9;
    assert_eq!(
        validate_structural_frame(&kit, &rough(), &frame(cells), settings, Ok(())).unwrap_err().to_text(),
        "fusion.invalidPalette: cell [0, 0, 0] uses material slot 9 outside the kit palette"
    );

    let mut cells = whole_arm();
    cells[2].coordinate = [2_000_000, 0, 0];
    assert_eq!(
        validate_structural_frame(&kit, &rough(), &frame(cells), settings, Ok(())).unwrap_err().to_text(),
        "fusion.runtimeBoundsExceeded: cell [2000000, 0, 0] exceeds runtime coordinate bounds"
    );

    let mut protected = limb_kit(false);
    protected.parts[0].protected_regions = vec![ProtectedRegion { min: [2, 0, 0], max: [2, 0, 0] }];
    let cells = vec![canonical([0, 0, 0], 5, 0, 0), canonical([1, 0, 0], 5, 0, 1)];
    assert_eq!(
        validate_structural_frame(&protected, &rough(), &frame(cells), settings, Ok(())).unwrap_err().to_text(),
        "fusion.protectedRegionRemoved: part arm protected region [2, 0, 0]..[2, 0, 0] retained 0 cells from 1 canonical cells"
    );

    let cells = vec![canonical([0, 0, 0], 5, 0, 0), canonical([2, 0, 0], 5, 0, 2)];
    assert_eq!(
        validate_structural_frame(&kit, &rough(), &frame(cells), settings, Ok(())).unwrap_err().to_text(),
        "fusion.requiredGeometryDisconnected: fused frame has 2 face-connected components"
    );

    let mut raised = kit.clone();
    raised.ground_y = -1;
    assert_eq!(
        validate_structural_frame(&raised, &rough(), &frame(whole_arm()), settings, Ok(())).unwrap_err().to_text(),
        "fusion.invalidGroundPlane: fused frame min y 0 does not equal ground y -1"
    );

    let mut small = kit.clone();
    small.volume_range = Some([1, 2]);
    assert_eq!(
        validate_structural_frame(&small, &rough(), &frame(whole_arm()), settings, Ok(())).unwrap_err().to_text(),
        "fusion.volumeOutOfRange: fused volume 3 is outside kit range [1, 2]"
    );

    assert_eq!(
        validate_structural_frame(&limb_kit(true), &rough(), &frame(whole_arm()), settings, Ok(()))
            .unwrap_err()
            .to_text(),
        "fusion.minimumLimbThickness: limb arm cross-section [1, 1] is below minimum 2"
    );

    let mut sized = kit.clone();
    sized.fixed_dimensions = vec![FixedDimension {
        subject: "arm".to_owned(),
        axis: "width".to_owned(),
        range: [1, 2],
    }];
    assert_eq!(
        validate_structural_frame(&sized, &rough(), &frame(whole_arm()), settings, Ok(())).unwrap_err().to_text(),
        "fusion.invalidWeaponDimension: arm width extent 3 is outside [1, 2]"
    );

    let mut cells = whole_arm();
    cells.push(FusedVoxelCell {
        coordinate: [9, 0, 0],
        material_slot: 5,
        origin: FusedVoxelOrigin::Generated {
            operation: GeneratedOperation::Cleanup {
                operation: CleanupOperation::BridgeOneVoxelGap,
            },
        },
        operations: vec![CleanupOperation::BridgeOneVoxelGap],
    });
    for x in 3..9 {
        cells.push(FusedVoxelCell {
            coordinate: [x, 0, 0],
            material_slot: 5,
            origin: FusedVoxelOrigin::Generated {
                operation: GeneratedOperation::JointBridge {
                    joint_id: "arm.a<->b.c".to_owned(),
                },
            },
            operations: vec![CleanupOperation::RepairSocketNeighborhood],
        });
    }
    let cells = sorted(cells);
    assert_eq!(
        validate_structural_frame(&kit, &rough(), &frame(cells), settings, Ok(())).unwrap_err().to_text(),
        "fusion.nonLocalCleanup: generated cell [7, 0, 0] from Generated { operation: JointBridge { joint_id: \"arm.a<->b.c\" } } is outside the four-cell joint seam envelope"
    );
}

#[test]
fn volume_range_is_inclusive() {
    assert!(validate_volume(Some([3, 3]), 3).is_ok());
    assert!(validate_volume(None, 0).is_ok());
    assert!(validate_volume(Some([4, 9]), 3).is_err());
}
