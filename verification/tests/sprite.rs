use voxel_lab::sprite::{material_slot, material_slot_from_samples};

#[test]
fn material_policy_has_stable_head_and_body_fallbacks() {
    assert_eq!(material_slot([20, 10, 10, 255], 0, 8), 2);
    assert_eq!(material_slot([20, 10, 10, 255], 3, 8), 1);
    assert_eq!(material_slot([255, 20, 20, 255], 7, 8), 3);
}

#[test]
fn sampled_columns_follow_the_red_majority() {
    assert_eq!(material_slot_from_samples(&[], 0, 8), 1);
    assert_eq!(
        material_slot_from_samples(&[[255, 0, 0, 255], [10, 10, 10, 255]], 5, 8),
        3
    );
    assert_eq!(
        material_slot_from_samples(&[[255, 0, 0, 255], [10, 10, 10, 255], [10, 10, 10, 255]], 1, 8),
        2
    );
    assert_eq!(material_slot([20, 10, 10, 255], u32::MAX, 8), 1);
}
