use voxel_lab::churn::{measure_transition, region_of, FrameCell, FrameTransitionChurn};

fn cell(x: i64, y: i64, z: i64) -> FrameCell {
    FrameCell { coordinate: [x, y, z], material_slot: 1 }
}

fn churn_fraction(transition: &FrameTransitionChurn) -> f64 {
    let churned = transition.added_voxels + transition.removed_voxels;
    if transition.union_voxels == 0 {
        0.0
    } else {
        churned as f64 / transition.union_voxels as f64
    }
}

#[test]
fn bands_split_the_y_extent_evenly() {
    assert_eq!(region_of(0, 0, 99), 0);
    assert_eq!(region_of(24, 0, 99), 0);
    assert_eq!(region_of(25, 0, 99), 1);
    assert_eq!(region_of(99, 0, 99), 3);
    assert_eq!(region_of(5, 5, 5), 0);
}

#[test]
fn heights_outside_the_extent_clamp_to_the_end_bands() {
    assert_eq!(region_of(-10, 0, 99), 0);
    assert_eq!(region_of(500, 0, 99), 3);
    assert_eq!(region_of(3, 5, 2), 0);
}

#[test]
fn churn_tracks_region_and_overlap() {
    // Base occupies a vertical column y 0..=7; next keeps the low half,
    // moves the top half one cell over (all churn in the upper bands).
    let from: Vec<_> = (0..=7).map(|y| cell(0, y, 0)).collect();
    let to: Vec<_> = (0..=3).map(|y| cell(0, y, 0)).chain((4..=7).map(|y| cell(1, y, 0))).collect();
    let transition = measure_transition(0, &from, 1, &to, 0, 7);
    assert_eq!(transition.shared_voxels, 4);
    assert_eq!(transition.added_voxels, 4);
    assert_eq!(transition.removed_voxels, 4);
    // 8 changed of a 12-cell union (8 base + 4 added).
    assert!((churn_fraction(&transition) - 8.0 / 12.0).abs() < 1e-9);
    // All churn is in y 4..=7 -> bands 2 and 3, none in bands 0 and 1.
    assert_eq!(transition.churn_by_region[0], 0);
    assert_eq!(transition.churn_by_region[1], 0);
    assert_eq!(transition.churn_by_region[2] + transition.churn_by_region[3], 8);
}

#[test]
fn identical_frames_have_zero_churn() {
    let frame: Vec<_> = (0..=3).map(|y| cell(0, y, 0)).collect();
    let transition = measure_transition(0, &frame, 1, &frame, 0, 3);
    assert_eq!(churn_fraction(&transition), 0.0);
    assert!(transition.churn_by_region.iter().all(|count| *count == 0));
}

#[test]
fn repeated_cells_count_once_and_materials_are_ignored() {
    let from = vec![cell(0, 0, 0), cell(0, 0, 0), FrameCell { coordinate: [0, 1, 0], material_slot: 7 }];
    let to = vec![cell(0, 1, 0), cell(0, 2, 0)];
    let transition = measure_transition(3, &from, 4, &to, 0, 3);
    assert_eq!((transition.from_frame, transition.to_frame), (3, 4));
    assert_eq!((transition.from_voxels, transition.to_voxels), (2, 2));
    assert_eq!(transition.shared_voxels, 1);
    assert_eq!((transition.added_voxels, transition.removed_voxels, transition.union_voxels), (1, 1, 3));
    assert_eq!(transition.churn_by_region, vec![1, 0, 1, 0]);
}
