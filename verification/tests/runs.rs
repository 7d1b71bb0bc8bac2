use voxel_lab::assemble::{AssembledVoxelCell, RoughFrame};
use voxel_lab::runs::{voxel_frame_runs, SparseRun};

fn voxel(x: i64, y: i64, z: i64, material_slot: u16) -> AssembledVoxelCell {
    AssembledVoxelCell { coordinate: [x, y, z], material_slot, part_id: 0, source_voxel_index: 0, needs_fusion: false }
}

fn frame(voxels: Vec<AssembledVoxelCell>) -> RoughFrame {
    RoughFrame { time_microseconds: 0, duration_microseconds: 100, voxels, discarded_overlaps: vec![] }
}

#[test]
fn rows_become_maximal_runs_in_scan_order() {
    let rough = frame(vec![
        voxel(2, 0, 0, 1),
        voxel(0, 1, 0, 1),
        voxel(0, 0, 0, 1),
        voxel(1, 0, 0, 1),
        voxel(3, 0, 0, 2),
        voxel(5, 0, 0, 2),
        voxel(0, 0, 1, 1),
    ]);
    let encoded = voxel_frame_runs(&rough).expect("runs");
    assert_eq!((encoded.min, encoded.max), ([0, 0, 0], [5, 1, 1]));
    assert_eq!(
        encoded.runs,
        vec![
            SparseRun { start: [0, 0, 0], length: 3, material_slot: 1 },
            SparseRun { start: [3, 0, 0], length: 1, material_slot: 2 },
            SparseRun { start: [5, 0, 0], length: 1, material_slot: 2 },
            SparseRun { start: [0, 0, 1], length: 1, material_slot: 1 },
            SparseRun { start: [0, 1, 0], length: 1, material_slot: 1 },
        ]
    );
}

#[test]
fn empty_frames_have_no_runs() {
    assert_eq!(voxel_frame_runs(&frame(vec![])), Err("posed flipbook frame contains no voxels".to_owned()));
}
