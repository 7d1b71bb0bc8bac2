use voxel_lab::assemble::{AssembledVoxelCell, RoughFrame};
use voxel_lab::downsample::downsample_rough_frame;

fn cell(coordinate: [i64; 3], material_slot: u16) -> AssembledVoxelCell {
    AssembledVoxelCell {
        coordinate,
        material_slot,
        part_id: 3,
        source_voxel_index: 5,
        needs_fusion: true,
    }
}

fn rough(voxels: Vec<AssembledVoxelCell>) -> RoughFrame {
    RoughFrame {
        time_microseconds: 10,
        duration_microseconds: 20,
        voxels,
        discarded_overlaps: vec![],
    }
}

#[test]
fn blocks_take_the_majority_material() {
    let frame = rough(vec![
        cell([0, 0, 0], 4),
        cell([1, 0, 0], 2),
        cell([1, 1, 1], 2),
        cell([-1, 0, 0], 7),
        cell([-2, -1, 0], 3),
    ]);
    let coarse = downsample_rough_frame(&frame, 2);
    let cells: Vec<([i64; 3], u16)> = coarse
        .voxels
        .iter()
        .map(|voxel| (voxel.coordinate, voxel.material_slot))
        .collect();
    assert_eq!(cells, vec![([-1, -1, 0], 3), ([-1, 0, 0], 7), ([0, 0, 0], 2)]);
    assert!(coarse.voxels.iter().all(|voxel| voxel.part_id == 0 && !voxel.needs_fusion));
    assert_eq!(coarse.time_microseconds, 10);
    assert_eq!(coarse.duration_microseconds, 20);
}

#[test]
fn ties_go_to_the_lowest_slot() {
    let frame = rough(vec![cell([0, 0, 0], 9), cell([1, 1, 1], 4), cell([2, 0, 0], 1)]);
    let coarse = downsample_rough_frame(&frame, 2);
    assert_eq!(coarse.voxels[0].coordinate, [0, 0, 0]);
    assert_eq!(coarse.voxels[0].material_slot, 4);
    assert_eq!(coarse.voxels[1].coordinate, [1, 0, 0]);
}

#[test]
fn factor_one_keeps_the_frame() {
    let frame = rough(vec![cell([5, 5, 5], 1)]);
    assert_eq!(downsample_rough_frame(&frame, 1), frame);
    assert_eq!(downsample_rough_frame(&frame, 0), frame);
}
