use std::collections::BTreeSet;

use voxel_lab::shell::nearest_free_cell;

fn sorted(cells: &[[i64; 3]]) -> Vec<[i64; 3]> {
    cells.iter().copied().collect::<BTreeSet<_>>().into_iter().collect()
}

#[test]
fn nearest_free_cell_prefers_the_closest_face_neighbour() {
    assert_eq!(nearest_free_cell([0, 0, 0], &sorted(&[[0, 0, 0]])), [-1, 0, 0]);
    assert_eq!(nearest_free_cell([5, 5, 5], &sorted(&[[5, 5, 5], [4, 5, 5]])), [5, 4, 5]);
}

#[test]
fn nearest_free_cell_moves_out_a_shell_when_one_is_full() {
    let mut cells = Vec::new();
    for x in -1..=1 {
        for y in -1..=1 {
            for z in -1..=1 {
                cells.push([x, y, z]);
            }
        }
    }
    assert_eq!(nearest_free_cell([0, 0, 0], &sorted(&cells)), [-2, 0, 0]);
    cells.push([-2, 0, 0]);
    cells.push([0, -2, 0]);
    assert_eq!(nearest_free_cell([0, 0, 0], &sorted(&cells)), [0, 0, -2]);
}

#[test]
fn a_free_origin_is_skipped() {
    assert_eq!(nearest_free_cell([0, 0, 0], &vec![]), [-1, 0, 0]);
}
