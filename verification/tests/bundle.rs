use voxel_lab::bundle::{
    build_agent_input_bundle, cleanup_evaluation, difference_overlay, frame_window_summary, project_view,
    CleanupDecision, CleanupMetricGates, DiagnosticViewKind, DifferenceKind,
};
use voxel_lab::edit::EditedFrame;
use voxel_lab::fusion::{CleanupOperation, FusedFrame, FusedVoxelCell, FusedVoxelOrigin, GeneratedOperation};
use voxel_lab::kit::{KitCell, KitError};
use voxel_lab::structural::{FusionKit, FusionPart};

fn canonical(coordinate: [i64; 3], material_slot: u16, part_id: u32, source_voxel_index: u32) -> FusedVoxelCell {
    FusedVoxelCell {
        coordinate,
        material_slot,
        origin: FusedVoxelOrigin::Canonical { part_id, source_voxel_index },
        operations: Vec::new(),
    }
}

fn generated(coordinate: [i64; 3]) -> FusedVoxelCell {
    FusedVoxelCell {
        coordinate,
        material_slot: 9,
        origin: FusedVoxelOrigin::Generated {
            operation: GeneratedOperation::Cleanup {
                operation: CleanupOperation::FillOneVoxelCavity,
            },
        },
        operations: vec![CleanupOperation::FillOneVoxelCavity],
    }
}

fn frame(time: u64, voxels: Vec<FusedVoxelCell>) -> FusedFrame {
    FusedFrame {
        time_microseconds: time,
        duration_microseconds: 100,
        generated_voxels: 0,
        voxels,
        discarded_origins: vec![],
        applied_operations: vec![],
    }
}

fn kit() -> FusionKit {
    FusionKit {
        palette_slots: vec![1, 2, 9],
        parts: vec![
            FusionPart {
                id: "torso".to_owned(),
                limb: false,
                cells: vec![KitCell { coordinate: [0, 0, 0], material_slot: 1 }],
                protected_regions: vec![],
            },
            FusionPart {
                id: "arm".to_owned(),
                limb: true,
                cells: vec![KitCell { coordinate: [0, 0, 0], material_slot: 2 }],
                protected_regions: vec![],
            },
            FusionPart {
                id: "tail".to_owned(),
                limb: false,
                cells: vec![],
                protected_regions: vec![],
            },
        ],
        protected_parts: vec![],
        ground_y: 0,
        volume_range: None,
        min_limb_thickness: 1,
        fixed_dimensions: vec![],
    }
}

#[test]
fn views_keep_the_nearest_cell_and_id_passes_the_lowest_part() {
    let f = frame(
        0,
        vec![canonical([0, 0, 5], 2, 1, 0), canonical([0, 0, 1], 1, 3, 0), generated([0, 0, 3])],
    );
    let front = project_view(&f, DiagnosticViewKind::Front, false);
    assert_eq!(front.pixels.len(), 1);
    assert_eq!(front.pixels[0].coordinate, [0, 0]);
    assert_eq!(front.pixels[0].depth, 1);
    assert_eq!(front.pixels[0].material_slot, 1);
    let ids = project_view(&f, DiagnosticViewKind::Front, true);
    assert_eq!(ids.pixels[0].part_index, None);
    assert_eq!(ids.pixels[0].depth, 3);
    let top = project_view(&f, DiagnosticViewKind::Top, false);
    let positions: Vec<[i64; 2]> = top.pixels.iter().map(|pixel| pixel.coordinate).collect();
    assert_eq!(positions, vec![[0, 1], [0, 3], [0, 5]]);
}

#[test]
fn overlays_mark_removed_added_and_retained_cells() {
    let from = frame(0, vec![canonical([0, 0, 0], 1, 0, 0), canonical([1, 0, 0], 1, 0, 1)]);
    let to = frame(1, vec![canonical([1, 0, 0], 1, 0, 1), canonical([2, 0, 0], 1, 0, 2)]);
    let overlay = difference_overlay("next", &from, &to);
    assert_eq!(overlay.neighbor, "next");
    let cells: Vec<([i64; 3], DifferenceKind)> = overlay.cells.iter().map(|cell| (cell.coordinate, cell.kind)).collect();
    assert_eq!(
        cells,
        vec![
            ([0, 0, 0], DifferenceKind::Removed),
            ([1, 0, 0], DifferenceKind::Retained),
            ([2, 0, 0], DifferenceKind::Added),
        ]
    );
}

#[test]
fn bundle_summarizes_parts_and_warns_about_thin_or_missing_ones() {
    let previous = frame(0, vec![canonical([0, 0, 0], 1, 0, 0)]);
    let current = frame(
        100,
        vec![
            canonical([0, 0, 0], 1, 0, 0),
            canonical([0, 1, 0], 1, 0, 0),
            canonical([5, 0, 0], 2, 1, 0),
            canonical([7, 0, 0], 2, 1, 0),
            generated([0, 2, 0]),
        ],
    );
    let bundle = build_agent_input_bundle(
        &kit(),
        Ok(()),
        Some((&previous, b"previous".as_slice())),
        &current,
        b"current",
        None,
        vec!["keep silhouettes".to_owned()],
        vec![("hand".to_owned(), [1, 2, 3])],
    )
    .expect("bundle");
    assert_eq!(bundle.canonical_parts.len(), 3);
    assert_eq!(bundle.canonical_parts[0].retained_voxels, 2);
    assert_eq!(bundle.canonical_parts[1].retained_voxels, 2);
    assert_eq!(bundle.canonical_parts[2].bounds, None);
    assert_eq!(bundle.metrics.occupied_voxels, 5);
    assert_eq!(bundle.metrics.generated_or_edited_voxels, 1);
    assert_eq!(bundle.metrics.connected_components, 3);
    let warnings: Vec<(&str, &str)> = bundle
        .structural_warnings
        .iter()
        .map(|w| (w.code.as_str(), w.part_id.as_deref().unwrap_or("")))
        .collect();
    assert_eq!(
        warnings,
        vec![
            ("frame.part_one_voxel_thick", "torso"),
            ("frame.part_one_voxel_thick", "arm"),
            ("frame.part_disconnected", "arm"),
            ("frame.part_missing", "tail"),
        ]
    );
    assert_eq!(
        bundle.structural_warnings[0].message,
        "part has one-voxel thickness within [1, 2, 1]"
    );
    assert_eq!(bundle.multiview.len(), 3);
    assert_eq!(bundle.id_passes[2].view, DiagnosticViewKind::Top);
    assert_eq!(bundle.difference_overlays.len(), 1);
    assert_eq!(bundle.difference_overlays[0].neighbor, "previous");
    assert_eq!(
        bundle.temporal_window.previous.as_ref().unwrap().frame_sha256,
        voxel_lab::project::sha256(b"previous")
    );
    assert!(bundle.temporal_window.next.is_none());
    assert_eq!(bundle.temporal_window.current.occupied_voxels, 5);
    assert_eq!(bundle.frame_sha256, voxel_lab::project::sha256(b"current"));
    assert_eq!(bundle.anchors, vec![("hand".to_owned(), [1, 2, 3])]);
    assert_eq!(bundle.style_rules, vec!["keep silhouettes".to_owned()]);
}

#[test]
fn bundle_rejects_invalid_kits_and_repeated_identities() {
    let current = frame(0, vec![canonical([0, 0, 0], 1, 0, 0)]);
    let error = build_agent_input_bundle(
        &kit(),
        Err(KitError::validation("kit.id must be non-empty canonical text".to_owned())),
        None,
        &current,
        b"",
        None,
        vec![],
        vec![],
    )
    .unwrap_err();
    assert_eq!(error.code(), "edit.invalidKit");
    assert_eq!(error.path(), "kit");
    let repeated = frame(0, vec![canonical([0, 0, 0], 1, 0, 0), canonical([0, 0, 0], 1, 0, 0)]);
    let error = build_agent_input_bundle(&kit(), Ok(()), None, &repeated, b"", None, vec![], vec![]).unwrap_err();
    assert_eq!(error.code(), "edit.duplicateCanonicalIdentity");
}

#[test]
fn window_summary_hashes_the_encoding() {
    let f = frame(42, vec![canonical([0, 0, 0], 1, 0, 0)]);
    let summary = frame_window_summary(&f, b"abc");
    assert_eq!(summary.time_microseconds, 42);
    assert_eq!(summary.duration_microseconds, 100);
    assert_eq!(summary.occupied_voxels, 1);
    assert_eq!(
        summary.frame_sha256,
        "sha256:ba7816bf8f01cfea414140de5dae2223b00361a396177a9cb410ff61f20015ad"
    );
}

#[test]
fn evaluation_revises_when_gates_are_exceeded() {
    let before_frame = frame(0, vec![canonical([0, 0, 0], 1, 0, 0)]);
    let after_frame = frame(
        0,
        vec![canonical([0, 0, 0], 1, 0, 0), generated([2, 0, 0]), generated([4, 0, 0])],
    );
    let before = build_agent_input_bundle(&kit(), Ok(()), None, &before_frame, b"a", None, vec![], vec![]).unwrap();
    let after = build_agent_input_bundle(&kit(), Ok(()), None, &after_frame, b"b", None, vec![], vec![]).unwrap();
    let candidate = EditedFrame {
        frame: after_frame.clone(),
        anchors: vec![],
        diffs: vec![],
    };
    let gates = CleanupMetricGates {
        max_occupied_voxel_increase: 1,
        ..CleanupMetricGates::default()
    };
    let evaluation = cleanup_evaluation(candidate.clone(), before.clone(), after.clone(), gates).unwrap();
    assert_eq!(evaluation.occupied_voxel_delta, 2);
    assert_eq!(evaluation.connected_component_delta, 2);
    assert_eq!(
        evaluation.decision,
        CleanupDecision::Revise {
            reasons: vec![
                "occupied voxel increase 2 exceeds 1".to_owned(),
                "connected component increase 2 exceeds 0".to_owned(),
            ],
        }
    );
    let lenient = CleanupMetricGates {
        max_occupied_voxel_increase: 10,
        max_component_increase: 5,
        allow_additional_warnings: true,
    };
    let evaluation = cleanup_evaluation(candidate, before, after, lenient).unwrap();
    assert_eq!(evaluation.decision, CleanupDecision::Accept);
}

#[test]
fn edit_refusals_carry_namespaced_codes_in_their_text() {
    let repeated = frame(0, vec![canonical([0, 0, 0], 1, 0, 0), canonical([0, 0, 0], 1, 0, 0)]);
    let error = build_agent_input_bundle(&kit(), Ok(()), None, &repeated, b"", None, vec![], vec![]).unwrap_err();
    assert!(error.code().starts_with("edit."));
    assert!(error.to_text().starts_with(error.code()));
}
