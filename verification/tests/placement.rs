use voxel_lab::kit::KitCell;
use voxel_lab::placement::{place_and_connect, PoseError, RasterCell};

fn kit_cell(x: i64, slot: u16) -> KitCell {
    KitCell { coordinate: [x, 0, 0], material_slot: slot }
}

fn vote(c: [i64; 3], slot: u16, index: u32) -> RasterCell {
    RasterCell { coordinate: c, material_slot: slot, source_voxel_index: index }
}

#[test]
fn colliding_voxels_get_distinct_face_adjacent_cells() {
    let source = vec![kit_cell(0, 1), kit_cell(1, 2)];
    let cells = place_and_connect(&source, &Vec::new(), &Vec::new(), &vec![[5, 5, 5], [5, 5, 5]]).expect("placed");
    assert_eq!(cells, vec![vote([4, 5, 5], 2, 1), vote([5, 5, 5], 1, 0)]);
}

#[test]
fn passing_votes_stand_and_gaps_are_bridged() {
    let source = vec![kit_cell(0, 1), kit_cell(1, 1)];
    let votes = vec![vote([0, 0, 0], 1, 0), vote([1, 0, 0], 3, 0), vote([2, 0, 0], 1, 1)];
    let passed = vec![true, false, true];
    let cells = place_and_connect(&source, &votes, &passed, &vec![[0, 0, 0], [2, 0, 0]]).expect("placed");
    assert_eq!(cells, votes);
}

#[test]
fn unreachable_candidates_leave_the_body_as_it_is() {
    let source = vec![kit_cell(0, 1), kit_cell(1, 1)];
    let votes = vec![vote([0, 0, 0], 1, 0), vote([5, 0, 0], 1, 1), vote([9, 9, 9], 2, 1)];
    let passed = vec![true, true, false];
    let cells = place_and_connect(&source, &votes, &passed, &vec![[0, 0, 0], [5, 0, 0]]).expect("placed");
    assert_eq!(cells, vec![votes[0], votes[1]]);
}

#[test]
fn an_empty_body_is_seeded_from_the_lowest_candidate() {
    let votes = vec![vote([1, 0, 0], 2, 0), vote([3, 0, 0], 2, 0)];
    let cells = place_and_connect(&Vec::new(), &votes, &vec![false, false], &Vec::new()).expect("placed");
    assert_eq!(cells, vec![votes[0]]);
}

#[test]
fn displacement_outside_the_search_range_is_refused() {
    let source = vec![kit_cell(0, 1), kit_cell(1, 1)];
    let far = [i64::MAX, 0, 0];
    assert_eq!(
        place_and_connect(&source, &Vec::new(), &Vec::new(), &vec![far, far]),
        Err(PoseError::Validation("rasterized cell is outside the placement range".to_owned()))
    );
}

#[test]
fn repair_takes_the_most_touching_candidate_lowest_first() {
    let source = vec![kit_cell(0, 1), kit_cell(1, 1)];
    let votes = vec![
        vote([0, 0, 0], 1, 0),
        vote([1, 0, 0], 2, 0),
        vote([1, 1, 0], 2, 1),
        vote([2, 0, 0], 2, 1),
        vote([2, 1, 0], 1, 1),
    ];
    let passed = vec![true, false, false, false, true];
    let cells = place_and_connect(&source, &votes, &passed, &vec![[0, 0, 0], [2, 1, 0]]).expect("placed");
    assert_eq!(cells, vec![votes[0], votes[1], votes[2], votes[4]]);
}
