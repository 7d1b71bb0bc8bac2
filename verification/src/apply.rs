//! One authored edit operation applied to the cell store and anchors.

use vstd::prelude::*;
use vstd::string::StringExecFns;

use crate::cellmap::sorted_by_loc;
use crate::cellstore::{
    cells_outside, edit_index, fill_absent, fill_cells, listed, outside, region_coordinates, region_set,
};
use crate::cleanup::{
    fault, layers_valid, spec_affected_bounds, spec_edit_path, validate_layers, EditError, Fault,
    FrameEditOperation,
};
use crate::connect::{connect_region, spec_enforce};
use crate::fusion::{cells_view, FusedCellView, FusedFrame, FusedVoxelCell};
use crate::replay::{
    add_voxel, anchor_map, anchors_unique, carve_region, carve_set, copy_canonical, copy_part, grow_layer,
    material_fault, move_voxel, moved_view, neighbor_view, recolor, recolored, remove_voxel, restore_region,
    set_anchor, shift_component, smooth_region, smooth_set, spec_add_voxel, spec_move_voxel,
    spec_remove_voxel, spec_restore, spec_shift, thicken, thin, thin_layer, validate_material, EditPolicy,
};

verus! {

/// The material is in the policy's palette.
pub open spec fn material_allowed(policy: EditPolicy, material_slot: u16) -> bool {
    policy.material_slots@.contains(material_slot)
}

/// A cell-map outcome with the anchors unchanged.
pub open spec fn keep_anchors(
    r: Result<Map<[i64; 3], FusedCellView>, Fault>,
    anchors: Map<Seq<char>, [i64; 3]>,
) -> Result<(Map<[i64; 3], FusedCellView>, Map<Seq<char>, [i64; 3]>), Fault> {
    match r {
        Ok(m) => Ok((m, anchors)),
        Err(f) => Err(f),
    }
}

pub open spec fn layers_fault() -> Fault {
    fault("edit.invalidLayers", "layers"@, "layers must be within 1..=8"@)
}

/// What one operation does to the cell map and the anchor map, or the
/// fault it reports. `index` is the operation's position, saturated to u32,
/// recorded on every cell the operation authors.
pub open spec fn spec_apply(
    m: Map<[i64; 3], FusedCellView>,
    anchors: Map<Seq<char>, [i64; 3]>,
    previous: Option<Map<[i64; 3], FusedCellView>>,
    next: Option<Map<[i64; 3], FusedCellView>>,
    policy: EditPolicy,
    operation: FrameEditOperation,
    index: u32,
) -> Result<(Map<[i64; 3], FusedCellView>, Map<Seq<char>, [i64; 3]>), Fault> {
    match operation {
        FrameEditOperation::AddVoxel { at, material_slot } => if !material_allowed(policy, material_slot) {
            Err(material_fault(material_slot))
        } else {
            keep_anchors(spec_add_voxel(m, at, material_slot, index), anchors)
        },
        FrameEditOperation::RemoveVoxel { at } => keep_anchors(spec_remove_voxel(m, at), anchors),
        FrameEditOperation::MoveVoxel { from, to } => keep_anchors(spec_move_voxel(m, from, to), anchors),
        FrameEditOperation::FillBox { region, material_slot } => if !material_allowed(policy, material_slot) {
            Err(material_fault(material_slot))
        } else {
            Ok((fill_cells(m, region_set(region), material_slot, index), anchors))
        },
        FrameEditOperation::ClearBox { region } => Ok((outside(m, region), anchors)),
        FrameEditOperation::ReplaceMaterial { region, from_material_slot, to_material_slot } => if !material_allowed(
            policy,
            from_material_slot,
        ) {
            Err(material_fault(from_material_slot))
        } else if !material_allowed(policy, to_material_slot) {
            Err(material_fault(to_material_slot))
        } else {
            Ok((recolor(m, region, from_material_slot, to_material_slot), anchors))
        },
        FrameEditOperation::BridgeRegions { from, to, material_slot } => if !material_allowed(policy, material_slot) {
            Err(material_fault(material_slot))
        } else {
            Ok((fill_cells(m, listed(spec_edit_path(from, to)), material_slot, index), anchors))
        },
        FrameEditOperation::ThickenRegion { region, material_slot, layers } => if !material_allowed(policy, material_slot) {
            Err(material_fault(material_slot))
        } else if !layers_valid(layers) {
            Err(layers_fault())
        } else {
            Ok((thicken(m, region, material_slot, index, layers as nat), anchors))
        },
        FrameEditOperation::ThinRegion { region, layers } => if !layers_valid(layers) {
            Err(layers_fault())
        } else {
            Ok((thin(m, region, layers as nat), anchors))
        },
        FrameEditOperation::CopyCanonicalRegion { source, offset } => Ok(
            (copy_part(m, source, offset, index).union_prefer_right(m), anchors),
        ),
        FrameEditOperation::RestoreFromPreviousFrame { region } => keep_anchors(spec_restore(m, region, previous, "previous"@), anchors),
        FrameEditOperation::RestoreFromNextFrame { region } => keep_anchors(spec_restore(m, region, next, "next"@), anchors),
        FrameEditOperation::SmoothLocalSurface { region, material_slot } => if !material_allowed(policy, material_slot) {
            Err(material_fault(material_slot))
        } else {
            Ok((fill_cells(m, smooth_set(m, region), material_slot, index), anchors))
        },
        FrameEditOperation::CarveLocalSurface { region, maximum_face_neighbors } => if maximum_face_neighbors > 5 {
            Err(fault("edit.invalidSurfaceThreshold", "maximumFaceNeighbors"@, "maximumFaceNeighbors must be within 0..=5"@))
        } else {
            Ok((m.remove_keys(carve_set(m, region, maximum_face_neighbors)), anchors))
        },
        FrameEditOperation::EnforceConnectivity { region, material_slot, maximum_bridge_length } => if !material_allowed(
            policy,
            material_slot,
        ) {
            Err(material_fault(material_slot))
        } else {
            keep_anchors(spec_enforce(m, region, material_slot, maximum_bridge_length, index), anchors)
        },
        FrameEditOperation::ShiftComponent { region, offset } => keep_anchors(spec_shift(m, region, offset), anchors),
        FrameEditOperation::SetAnchor { id, position } => {
            let bytes = vstd::utf8::encode_utf8(id@).len() as usize;
            if bytes == 0 || bytes > 128 {
                Err(fault("edit.invalidAnchor", "id"@, "anchor identity must contain 1..=128 bytes"@))
            } else {
                Ok((m, anchors.insert(id@, position)))
            }
        },
    }
}

/// Apply one operation whose affected region is valid.
pub fn apply_operation(
    cells: &mut Vec<FusedVoxelCell>,
    anchors: &mut Vec<(String, [i64; 3])>,
    previous: Option<&FusedFrame>,
    next: Option<&FusedFrame>,
    policy: &EditPolicy,
    operation: &FrameEditOperation,
    operation_index: usize,
) -> (result: Result<(), EditError>)
    requires
        sorted_by_loc(old(cells)@),
        anchors_unique(old(anchors)@),
        spec_affected_bounds(*operation) is Ok,
    ensures
        sorted_by_loc(final(cells)@),
        anchors_unique(final(anchors)@),
        match spec_apply(
            cells_view(old(cells)@),
            anchor_map(old(anchors)@),
            neighbor_view(previous),
            neighbor_view(next),
            *policy,
            *operation,
            edit_index(operation_index),
        ) {
            Ok((m, a)) => result is Ok && cells_view(final(cells)@) == m && anchor_map(final(anchors)@) == a,
            Err(f) => result matches Err(e) && e.is_fault(f) && e.spec_operation_index() is None
                && anchor_map(final(anchors)@) == anchor_map(old(anchors)@) && (!crate::replay::bridge_too_long(f)
                ==> cells_view(final(cells)@) == cells_view(old(cells)@)),
        },
{
    let index = crate::cellstore::edit_index_exec(operation_index);
    match operation {
        FrameEditOperation::AddVoxel { at, material_slot } => {
            validate_material(policy, *material_slot)?;
            add_voxel(cells, *at, *material_slot, index)
        },
        FrameEditOperation::RemoveVoxel { at } => remove_voxel(cells, *at),
        FrameEditOperation::MoveVoxel { from, to } => move_voxel(cells, *from, *to),
        FrameEditOperation::FillBox { region, material_slot } => {
            validate_material(policy, *material_slot)?;
            let coordinates = region_coordinates(*region);
            fill_absent(cells, &coordinates, *material_slot, index);
            Ok(())
        },
        FrameEditOperation::ClearBox { region } => {
            *cells = cells_outside(cells, *region);
            Ok(())
        },
        FrameEditOperation::ReplaceMaterial { region, from_material_slot, to_material_slot } => {
            validate_material(policy, *from_material_slot)?;
            validate_material(policy, *to_material_slot)?;
            *cells = recolored(cells, *region, *from_material_slot, *to_material_slot);
            Ok(())
        },
        FrameEditOperation::BridgeRegions { from, to, material_slot } => {
            validate_material(policy, *material_slot)?;
            let path = crate::cleanup::manhattan_path(*from, *to);
            fill_absent(cells, &path, *material_slot, index);
            Ok(())
        },
        FrameEditOperation::ThickenRegion { region, material_slot, layers } => {
            validate_material(policy, *material_slot)?;
            validate_layers(*layers)?;
            let ghost m0 = cells_view(cells@);
            let mut done: u8 = 0;
            while done < *layers
                invariant
                    sorted_by_loc(cells@),
                    done <= *layers,
                    thicken(cells_view(cells@), *region, *material_slot, index, (*layers - done) as nat) == thicken(
                        m0,
                        *region,
                        *material_slot,
                        index,
                        *layers as nat,
                    ),
                decreases *layers - done,
            {
                grow_layer(cells, *region, *material_slot, index);
                done = done + 1;
            }
            Ok(())
        },
        FrameEditOperation::ThinRegion { region, layers } => {
            validate_layers(*layers)?;
            let ghost m0 = cells_view(cells@);
            let mut done: u8 = 0;
            while done < *layers
                invariant
                    sorted_by_loc(cells@),
                    done <= *layers,
                    thin(cells_view(cells@), *region, (*layers - done) as nat) == thin(m0, *region, *layers as nat),
                decreases *layers - done,
            {
                thin_layer(cells, *region);
                done = done + 1;
            }
            Ok(())
        },
        FrameEditOperation::CopyCanonicalRegion { source, offset } => {
            copy_canonical(cells, *source, *offset, index);
            Ok(())
        },
        FrameEditOperation::RestoreFromPreviousFrame { region } => restore_region(cells, previous, *region, "previous"),
        FrameEditOperation::RestoreFromNextFrame { region } => restore_region(cells, next, *region, "next"),
        FrameEditOperation::SmoothLocalSurface { region, material_slot } => {
            validate_material(policy, *material_slot)?;
            smooth_region(cells, *region, *material_slot, index);
            Ok(())
        },
        FrameEditOperation::CarveLocalSurface { region, maximum_face_neighbors } => {
            if *maximum_face_neighbors > 5 {
                return Err(EditError::new(
                    "edit.invalidSurfaceThreshold",
                    "maximumFaceNeighbors",
                    String::from_str("maximumFaceNeighbors must be within 0..=5"),
                ));
            }
            carve_region(cells, *region, *maximum_face_neighbors);
            Ok(())
        },
        FrameEditOperation::EnforceConnectivity { region, material_slot, maximum_bridge_length } => {
            validate_material(policy, *material_slot)?;
            connect_region(cells, *region, *material_slot, *maximum_bridge_length, index)
        },
        FrameEditOperation::ShiftComponent { region, offset } => shift_component(cells, *region, *offset),
        FrameEditOperation::SetAnchor { id, position } => {
            let bytes = id.as_str().len();
            if bytes == 0 || bytes > 128 {
                return Err(EditError::new(
                    "edit.invalidAnchor",
                    "id",
                    String::from_str("anchor identity must contain 1..=128 bytes"),
                ));
            }
            set_anchor(anchors, id, *position);
            Ok(())
        },
    }
}

} // verus!

verus! {

/// Adding a voxel at a free coordinate and then removing it restores the
/// cells and leaves the anchors alone.
pub proof fn law_add_then_remove_restores(
    m: Map<[i64; 3], FusedCellView>,
    anchors: Map<Seq<char>, [i64; 3]>,
    previous: Option<Map<[i64; 3], FusedCellView>>,
    next: Option<Map<[i64; 3], FusedCellView>>,
    policy: EditPolicy,
    at: [i64; 3],
    material_slot: u16,
    index: u32,
)
    requires
        !m.contains_key(at),
        material_allowed(policy, material_slot),
    ensures
        spec_apply(m, anchors, previous, next, policy, FrameEditOperation::AddVoxel { at, material_slot }, index) matches Ok(
            (added, a),
        ) && a == anchors && spec_apply(added, anchors, previous, next, policy, FrameEditOperation::RemoveVoxel { at }, index)
            == Ok::<(Map<[i64; 3], FusedCellView>, Map<Seq<char>, [i64; 3]>), Fault>((m, anchors)),
{
    let added = m.insert(at, crate::cellstore::edited_view(at, material_slot, index));
    assert(added.remove(at) =~= m);
}

/// Moving a voxel to a free coordinate and back restores the cells.
pub proof fn law_move_and_back_restores(
    m: Map<[i64; 3], FusedCellView>,
    anchors: Map<Seq<char>, [i64; 3]>,
    previous: Option<Map<[i64; 3], FusedCellView>>,
    next: Option<Map<[i64; 3], FusedCellView>>,
    policy: EditPolicy,
    from: [i64; 3],
    to: [i64; 3],
    index: u32,
)
    requires
        m.contains_key(from),
        !m.contains_key(to),
        m[from].coordinate == from,
    ensures
        spec_apply(m, anchors, previous, next, policy, FrameEditOperation::MoveVoxel { from, to }, index) matches Ok(
            (moved, a),
        ) && a == anchors && spec_apply(moved, anchors, previous, next, policy, FrameEditOperation::MoveVoxel { from: to, to: from }, index)
            == Ok::<(Map<[i64; 3], FusedCellView>, Map<Seq<char>, [i64; 3]>), Fault>((m, anchors)),
{
    let moved = m.remove(from).insert(to, moved_view(m[from], to));
    assert(!moved.contains_key(from));
    assert(moved_view(moved[to], from) == m[from]);
    assert(moved.remove(to).insert(from, moved_view(moved[to], from)) =~= m);
}

} // verus!
