use voxel_lab::anchors::{check_required_sockets, resolve_required_socket};
use voxel_lab::kit::{
    AssembledFrame, AssembledVoxel,
    emit_neutral_frame, placement_order, root_translation, CanonicalVoxelId, CoordinateConvention, IdentityInvariants,
    KitCell, KitError, KitPart, PaletteGroup, PaletteSlot, Socket, VoxelKit, VoxelOrigin, KIT_SCHEMA_VERSION,
};

fn slot(slot: u16) -> PaletteSlot {
    PaletteSlot { slot, display_name: format!("slot {slot}"), color_in_range: true }
}

fn cell(x: i64, y: i64, z: i64, material_slot: u16) -> KitCell {
    KitCell { coordinate: [x, y, z], material_slot }
}

fn socket(id: &str, mate: Option<&str>) -> Socket {
    Socket {
        id: id.to_owned(),
        position_finite: true,
        forward_finite: true,
        forward_nonzero: true,
        radius_positive: true,
        mate: mate.map(|m| m.to_owned()),
    }
}

fn two_part_kit() -> VoxelKit {
    VoxelKit {
        schema_version: KIT_SCHEMA_VERSION,
        id: "test".to_owned(),
        version: 1,
        convention: CoordinateConvention {
            coordinate_system: "right_handed_y_up".to_owned(),
            forward_axis: "-Z".to_owned(),
            voxel_size_positive: true,
            ground_y: 0,
            neutral_facing: [0, 0, -1],
        },
        palette: vec![PaletteGroup { name: "body".to_owned(), slots: vec![slot(1), slot(2)] }],
        parts: vec![
            KitPart {
                id: "torso".to_owned(),
                version: 1,
                pivot: [0, 0, 0],
                cells: vec![cell(0, 0, 0, 1), cell(0, 1, 0, 1)],
                sockets: vec![socket("neck", None)],
                palette_groups: vec!["body".to_owned()],
                symmetry_partner: None,
            },
            KitPart {
                id: "head".to_owned(),
                version: 1,
                pivot: [0, 0, 0],
                cells: vec![cell(0, 0, 0, 2)],
                sockets: vec![socket("neck", Some("torso.neck"))],
                palette_groups: vec!["body".to_owned()],
                symmetry_partner: None,
            },
        ],
        invariants: IdentityInvariants {
            min_limb_thickness: 2,
            protected_parts: vec![],
            volume_range: None,
            required_sockets: vec![],
        },
    }
}

fn validation_message(kit: &VoxelKit) -> String {
    match kit.validate() {
        Err(KitError::Validation(message)) => message,
        other => panic!("expected a validation error, got {other:?}"),
    }
}

#[test]
fn valid_kit_passes() {
    assert!(two_part_kit().validate().is_ok());
}

#[test]
fn rejects_unsorted_cells() {
    let mut kit = two_part_kit();
    kit.parts[0].cells = vec![cell(0, 1, 0, 1), cell(0, 0, 0, 1)];
    assert!(kit.validate().is_err());
}

#[test]
fn rejects_missing_mate_socket() {
    let mut kit = two_part_kit();
    kit.parts[1].sockets[0].mate = Some("torso.missing".to_owned());
    assert!(kit.validate().is_err());
}

#[test]
fn rejects_unknown_material_slot() {
    let mut kit = two_part_kit();
    kit.parts[0].cells[0].material_slot = 9;
    assert!(kit.validate().is_err());
}

#[test]
fn rejects_unknown_palette_group() {
    let mut kit = two_part_kit();
    kit.parts[0].palette_groups = vec!["nope".to_owned()];
    assert!(kit.validate().is_err());
}

#[test]
fn rejects_reserved_slot_zero() {
    let mut kit = two_part_kit();
    kit.parts[0].cells[0].material_slot = 0;
    assert!(kit.validate().is_err());
}

#[test]
fn kit_validation_names_the_first_broken_rule() {
    let mut kit = two_part_kit();
    kit.parts[0].cells = vec![cell(0, 1, 0, 1), cell(0, 0, 0, 1)];
    assert_eq!(
        validation_message(&kit),
        "part torso: cells must be sorted and deduplicated (out of order at [0, 0, 0])"
    );
    let mut kit = two_part_kit();
    kit.parts[1].sockets[0].mate = Some("torso.missing".to_owned());
    assert_eq!(validation_message(&kit), "part head socket neck: mate socket missing missing on torso");
    let mut kit = two_part_kit();
    kit.parts[0].cells[0].material_slot = 9;
    assert_eq!(validation_message(&kit), "part torso: cell [0, 0, 0] uses unknown material slot 9");
    let mut kit = two_part_kit();
    kit.parts[0].palette_groups = vec!["nope".to_owned()];
    assert_eq!(validation_message(&kit), "part torso: references unknown palette group nope");
    let mut kit = two_part_kit();
    kit.parts[0].cells[0].material_slot = 0;
    assert_eq!(validation_message(&kit), "part torso: cell [0, 0, 0] uses reserved material slot 0");
    let mut kit = two_part_kit();
    kit.schema_version = 2;
    assert_eq!(validation_message(&kit), "kit schema 2 is unsupported; expected 1");
    let mut kit = two_part_kit();
    kit.convention.forward_axis = "+Z".to_owned();
    assert_eq!(validation_message(&kit), "forwardAxis must be -Z, got +Z");
    let mut kit = two_part_kit();
    kit.palette[0].slots.push(slot(1));
    assert_eq!(validation_message(&kit), "duplicate material slot 1 across palette");
    let mut kit = two_part_kit();
    kit.parts[1].id = "torso".to_owned();
    kit.parts[1].sockets[0].mate = None;
    assert_eq!(validation_message(&kit), "duplicate part id torso");
    let mut kit = two_part_kit();
    kit.parts[0].sockets[0].radius_positive = false;
    assert_eq!(validation_message(&kit), "part torso socket neck: radius must be positive");
    let mut kit = two_part_kit();
    kit.parts[1].sockets[0].mate = Some("torso".to_owned());
    assert_eq!(validation_message(&kit), "part head socket neck: mate \"torso\" must be <partId>.<socketId>");
    let mut kit = two_part_kit();
    kit.invariants.required_sockets = vec!["head.ear".to_owned()];
    assert_eq!(validation_message(&kit), "required socket head.ear: socket ear missing on head");
    let mut kit = two_part_kit();
    kit.parts.clear();
    assert_eq!(validation_message(&kit), "kit must contain at least one part");
}

#[test]
fn parts_and_sockets_are_found_by_id() {
    let kit = two_part_kit();
    assert_eq!(kit.part("head").map(|p| p.cells.len()), Some(1));
    assert!(kit.part("tail").is_none());
    assert_eq!(kit.parts[1].socket("neck").and_then(|s| s.mate.clone()), Some("torso.neck".to_owned()));
    assert!(kit.parts[1].socket("ear").is_none());
    assert_eq!(kit.total_cells(), 3);
}

#[test]
fn roots_are_ordered_before_their_dependents() {
    let kit = two_part_kit();
    assert_eq!(placement_order(&kit).expect("order"), vec![0, 1]);
    let mut reversed = two_part_kit();
    reversed.parts.swap(0, 1);
    assert_eq!(placement_order(&reversed).expect("order"), vec![1, 0]);
}

#[test]
fn mate_cycle_has_no_placement_order() {
    let mut kit = two_part_kit();
    kit.parts[0].sockets[0].mate = Some("head.neck".to_owned());
    match placement_order(&kit) {
        Err(KitError::Assembly(message)) => {
            assert_eq!(message, "kit has no root part (every part declares a mate)")
        }
        other => panic!("expected an assembly error, got {other:?}"),
    }
    let mut kit = two_part_kit();
    kit.parts.push(KitPart {
        id: "left".to_owned(),
        version: 1,
        pivot: [0, 0, 0],
        cells: vec![cell(0, 0, 0, 1)],
        sockets: vec![socket("joint", Some("right.joint"))],
        palette_groups: vec![],
        symmetry_partner: None,
    });
    kit.parts.push(KitPart {
        id: "right".to_owned(),
        version: 1,
        pivot: [0, 0, 0],
        cells: vec![cell(0, 0, 0, 1)],
        sockets: vec![socket("joint", Some("left.joint"))],
        palette_groups: vec![],
        symmetry_partner: None,
    });
    match placement_order(&kit) {
        Err(KitError::Assembly(message)) => {
            assert_eq!(message, "mate relationships form a cycle; cannot order parts")
        }
        other => panic!("expected an assembly error, got {other:?}"),
    }
}

#[test]
fn emitted_frame_places_the_head_on_the_neck_and_grounds_it() {
    let kit = two_part_kit();
    let order = placement_order(&kit).expect("order");
    assert_eq!(root_translation(&kit, 0), [0, 0, 0]);
    let frame = emit_neutral_frame(&kit, &order, &vec![[0, 0, 0], [0, 2, 0]]);
    let coordinates: Vec<[i64; 3]> = frame.voxels.iter().map(|v| v.coordinate).collect();
    assert_eq!(coordinates, vec![[0, 0, 0], [0, 1, 0], [0, 2, 0]]);
    assert_eq!(frame.voxels[2].material_slot, 2);
    assert_eq!(frame.voxels[2].origin, VoxelOrigin::Canonical(CanonicalVoxelId { part_index: 1, voxel_index: 0 }));

    let mut lifted = two_part_kit();
    lifted.convention.ground_y = 5;
    let frame = emit_neutral_frame(&lifted, &order, &vec![[0, -3, 0], [0, -2, 0]]);
    let coordinates: Vec<[i64; 3]> = frame.voxels.iter().map(|v| v.coordinate).collect();
    assert_eq!(coordinates, vec![[0, 5, 0], [0, 6, 0]]);
    // The head's cell landed on the torso's upper cell; the torso voxel wins.
    assert_eq!(frame.voxels[1].material_slot, 1);
    assert_eq!(frame.bounds().map(|(lo, _)| lo[1]), Some(5));
}

#[test]
fn fingerprint_ignores_origins_and_starts_at_the_offset_basis() {
    assert_eq!(AssembledFrame { voxels: Vec::new() }.fingerprint(), 0xcbf2_9ce4_8422_2325);
    let canonical = AssembledFrame {
        voxels: vec![AssembledVoxel {
            coordinate: [0, 1, 2],
            material_slot: 3,
            origin: VoxelOrigin::Canonical(CanonicalVoxelId { part_index: 0, voxel_index: 0 }),
        }],
    };
    let other = AssembledFrame {
        voxels: vec![AssembledVoxel {
            coordinate: [0, 1, 2],
            material_slot: 3,
            origin: VoxelOrigin::Canonical(CanonicalVoxelId { part_index: 4, voxel_index: 7 }),
        }],
    };
    assert_eq!(canonical.fingerprint(), other.fingerprint());
}

#[test]
fn required_sockets_resolve_in_order() {
    let mut kit = two_part_kit();
    kit.invariants.required_sockets =
        vec!["head.neck".to_owned(), "torso.neck".to_owned(), "torso".to_owned(), "tail.tip".to_owned(), "head.ear".to_owned()];
    assert_eq!(resolve_required_socket(&kit, 0).ok(), Some((1, 0)));
    assert_eq!(resolve_required_socket(&kit, 1).ok(), Some((0, 0)));
    assert_eq!(resolve_required_socket(&kit, 2).unwrap_err().to_text(), "fusion.missingAnchor: required socket torso is malformed");
    assert_eq!(
        resolve_required_socket(&kit, 3).unwrap_err().to_text(),
        "fusion.missingAnchor: required socket part tail is absent"
    );
    assert_eq!(
        resolve_required_socket(&kit, 4).unwrap_err().to_text(),
        "fusion.missingAnchor: required socket head.ear is absent"
    );
    kit.invariants.required_sockets = vec!["head.neck".to_owned(), "torso.neck".to_owned()];
    assert!(check_required_sockets(&kit, &vec![true, true]).is_ok());
    assert_eq!(
        check_required_sockets(&kit, &vec![true, false]).unwrap_err().to_text(),
        "fusion.missingAnchor: required socket torso.neck has no occupied neighborhood"
    );
}
