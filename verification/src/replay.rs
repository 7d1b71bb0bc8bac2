//! Applying authored edit operations to the cell store of a fused frame.
//!
//! Each operation is stated as a function on the coordinate-keyed cell map
//! (and the anchor map), and its executable form is proved to compute it.

use vstd::prelude::*;
use vstd::string::StringExecFns;

use crate::cellmap::{
    contains, get_at, insert_absent, lemma_map_at, lemma_push_map, lemma_take_map, located_map,
    remove_at, sorted_by_loc, Located,
};
use crate::cellstore::{
    cells_outside, edited, edited_view, fill_absent, fill_cells, frame_cells, frame_view,
    lemma_view_insert, listed, outside, region_coordinates, region_set,
};
use crate::cleanup::{fault, spec_edit_path, spec_neighbor, EditBounds, EditError, Fault};
use crate::fusion::{cells_view, copy_cell, FusedCellView, FusedFrame, FusedVoxelCell};
use crate::text::{coord_string, coord_text, decimal_text, decimal_u64};
use crate::voxel::coord_lt;

verus! {

/// The limits and protections an authored edit must respect.
#[derive(Debug, Clone, PartialEq, Eq)]
pub struct EditPolicy {
    pub declared_regions: Vec<EditBounds>,
    /// Palette slots that edits may paint, in ascending order.
    pub material_slots: Vec<u16>,
    pub max_voxel_count: usize,
    pub max_operation_cells: usize,
    pub max_operations_per_diff: usize,
    /// Anchor identities that every accepted frame must carry.
    pub required_anchors: Vec<String>,
    /// Canonical `(part, source voxel)` identities that edits may not change.
    pub protected_origins: Vec<(u32, u32)>,
    pub protected_parts: Vec<u32>,
    pub protected_dimension_tolerance: [i64; 3],
    /// Parts whose canonical cells must stay face-connected.
    pub connected_parts: Vec<u32>,
}

// ---------------------------------------------------------------------------
// Anchors: named positions, kept as a list of distinct identities.

pub open spec fn anchors_unique(s: Seq<(String, [i64; 3])>) -> bool {
    forall|i: int, j: int| 0 <= i < j < s.len() ==> (#[trigger] s[i]).0@ != (#[trigger] s[j]).0@
}

/// The identity-to-position map an anchor list stands for.
pub open spec fn anchor_map(s: Seq<(String, [i64; 3])>) -> Map<Seq<char>, [i64; 3]> {
    Map::new(
        |k: Seq<char>| exists|i: int| 0 <= i < s.len() && (#[trigger] s[i]).0@ == k,
        |k: Seq<char>| s[choose|i: int| 0 <= i < s.len() && (#[trigger] s[i]).0@ == k].1,
    )
}

proof fn lemma_anchor_at(s: Seq<(String, [i64; 3])>, i: int)
    requires
        anchors_unique(s),
        0 <= i < s.len(),
    ensures
        anchor_map(s).contains_key(s[i].0@),
        anchor_map(s)[s[i].0@] == s[i].1,
{
    let k = s[i].0@;
    assert(s[i].0@ == k);
    let j = choose|j: int| 0 <= j < s.len() && (#[trigger] s[j]).0@ == k;
    if j != i {
        if j < i {
            assert(s[j].0@ != s[i].0@);
        } else {
            assert(s[i].0@ != s[j].0@);
        }
    }
}

proof fn lemma_anchor_update(s: Seq<(String, [i64; 3])>, i: int, x: (String, [i64; 3]))
    requires
        anchors_unique(s),
        0 <= i < s.len(),
        s[i].0@ == x.0@,
    ensures
        anchors_unique(s.update(i, x)),
        anchor_map(s.update(i, x)) == anchor_map(s).insert(x.0@, x.1),
{
    let t = s.update(i, x);
    assert forall|a: int, b: int| 0 <= a < b < t.len() implies (#[trigger] t[a]).0@ != (#[trigger] t[b]).0@ by {
        assert(t[a].0@ == s[a].0@ && t[b].0@ == s[b].0@);
        assert(s[a].0@ != s[b].0@);
    }
    let m1 = anchor_map(t);
    let m2 = anchor_map(s).insert(x.0@, x.1);
    assert forall|k: Seq<char>| #[trigger] m1.contains_key(k) <==> m2.contains_key(k) by {
        if m1.contains_key(k) {
            let j = choose|j: int| 0 <= j < t.len() && (#[trigger] t[j]).0@ == k;
            assert(s[j].0@ == k);
        }
        if anchor_map(s).contains_key(k) {
            let j = choose|j: int| 0 <= j < s.len() && (#[trigger] s[j]).0@ == k;
            assert(t[j].0@ == k);
        }
        if k == x.0@ {
            assert(t[i].0@ == k);
        }
    }
    assert forall|k: Seq<char>| #[trigger] m1.contains_key(k) implies m1[k] == m2[k] by {
        let j = choose|j: int| 0 <= j < t.len() && (#[trigger] t[j]).0@ == k;
        lemma_anchor_at(t, j);
        if j != i {
            assert(t[j] == s[j]);
            lemma_anchor_at(s, j);
        }
    }
    assert(m1 =~= m2);
}

proof fn lemma_anchor_push(s: Seq<(String, [i64; 3])>, x: (String, [i64; 3]))
    requires
        anchors_unique(s),
        forall|j: int| 0 <= j < s.len() ==> (#[trigger] s[j]).0@ != x.0@,
    ensures
        anchors_unique(s.push(x)),
        anchor_map(s.push(x)) == anchor_map(s).insert(x.0@, x.1),
{
    let t = s.push(x);
    assert forall|a: int, b: int| 0 <= a < b < t.len() implies (#[trigger] t[a]).0@ != (#[trigger] t[b]).0@ by {
        assert(t[a] == s[a]);
        if b < s.len() {
            assert(t[b] == s[b]);
        }
    }
    let m1 = anchor_map(t);
    let m2 = anchor_map(s).insert(x.0@, x.1);
    assert forall|k: Seq<char>| #[trigger] m1.contains_key(k) <==> m2.contains_key(k) by {
        if m1.contains_key(k) {
            let j = choose|j: int| 0 <= j < t.len() && (#[trigger] t[j]).0@ == k;
            if j < s.len() {
                assert(s[j].0@ == k);
            }
        }
        if anchor_map(s).contains_key(k) {
            let j = choose|j: int| 0 <= j < s.len() && (#[trigger] s[j]).0@ == k;
            assert(t[j].0@ == k);
        }
        if k == x.0@ {
            assert(t[s.len() as int].0@ == k);
        }
    }
    assert forall|k: Seq<char>| #[trigger] m1.contains_key(k) implies m1[k] == m2[k] by {
        let j = choose|j: int| 0 <= j < t.len() && (#[trigger] t[j]).0@ == k;
        lemma_anchor_at(t, j);
        if j < s.len() {
            assert(t[j] == s[j]);
            lemma_anchor_at(s, j);
        }
    }
    assert(m1 =~= m2);
}

/// Set the anchor `id` to `position`, adding it when absent.
pub fn set_anchor(anchors: &mut Vec<(String, [i64; 3])>, id: &String, position: [i64; 3])
    requires
        anchors_unique(old(anchors)@),
    ensures
        anchors_unique(final(anchors)@),
        anchor_map(final(anchors)@) == anchor_map(old(anchors)@).insert(id@, position),
{
    let mut i: usize = 0;
    while i < anchors.len()
        invariant
            i <= anchors@.len(),
            anchors_unique(anchors@),
            anchors@ == old(anchors)@,
            forall|j: int| 0 <= j < i ==> (#[trigger] anchors@[j]).0@ != id@,
        decreases anchors@.len() - i,
    {
        if anchors[i].0 == *id {
            let entry = (id.clone(), position);
            proof {
                lemma_anchor_update(anchors@, i as int, entry);
            }
            anchors.set(i, entry);
            return;
        }
        i = i + 1;
    }
    let entry = (id.clone(), position);
    proof {
        lemma_anchor_push(anchors@, entry);
    }
    anchors.push(entry);
}

/// Whether the anchor list carries `id`.
pub fn has_anchor(anchors: &Vec<(String, [i64; 3])>, id: &String) -> (present: bool)
    ensures
        present == anchor_map(anchors@).contains_key(id@),
{
    let mut i: usize = 0;
    while i < anchors.len()
        invariant
            i <= anchors@.len(),
            forall|j: int| 0 <= j < i ==> (#[trigger] anchors@[j]).0@ != id@,
        decreases anchors@.len() - i,
    {
        if anchors[i].0 == *id {
            assert(anchors@[i as int].0@ == id@);
            return true;
        }
        i = i + 1;
    }
    false
}

// ---------------------------------------------------------------------------
// Materials.

pub open spec fn material_fault(material_slot: u16) -> Fault {
    fault(
        "edit.invalidMaterial",
        "materialSlot"@,
        "material slot "@ + decimal_text(material_slot as int) + " is outside the kit palette"@,
    )
}

pub fn validate_material(policy: &EditPolicy, material_slot: u16) -> (result: Result<(), EditError>)
    ensures
        result is Ok <==> policy.material_slots@.contains(material_slot),
        result matches Err(e) ==> e.is_fault(material_fault(material_slot)) && e.spec_operation_index() is None,
{
    let mut i: usize = 0;
    while i < policy.material_slots.len()
        invariant
            i <= policy.material_slots@.len(),
            forall|j: int| 0 <= j < i ==> policy.material_slots@[j] != material_slot,
        decreases policy.material_slots@.len() - i,
    {
        if policy.material_slots[i] == material_slot {
            assert(policy.material_slots@[i as int] == material_slot);
            return Ok(());
        }
        i = i + 1;
    }
    let mut message = String::from_str("material slot ");
    message.append(decimal_u64(material_slot as u64).as_str());
    message.append(" is outside the kit palette");
    Err(EditError::new("edit.invalidMaterial", "materialSlot", message))
}

// ---------------------------------------------------------------------------
// Single-cell operations.

/// `v` moved to coordinate `c`, keeping material, provenance and ledger.
pub open spec fn moved_view(v: FusedCellView, c: [i64; 3]) -> FusedCellView {
    FusedCellView { coordinate: c, ..v }
}

pub open spec fn spec_add_voxel(
    m: Map<[i64; 3], FusedCellView>,
    at: [i64; 3],
    material: u16,
    index: u32,
) -> Result<Map<[i64; 3], FusedCellView>, Fault> {
    if m.contains_key(at) {
        Err(fault("edit.coordinateOccupied", "at"@, "voxel already exists at "@ + coord_text(at)))
    } else {
        Ok(m.insert(at, edited_view(at, material, index)))
    }
}

pub open spec fn spec_remove_voxel(m: Map<[i64; 3], FusedCellView>, at: [i64; 3]) -> Result<Map<[i64; 3], FusedCellView>, Fault> {
    if !m.contains_key(at) {
        Err(fault("edit.coordinateEmpty", "at"@, "no voxel exists at "@ + coord_text(at)))
    } else {
        Ok(m.remove(at))
    }
}

pub open spec fn spec_move_voxel(
    m: Map<[i64; 3], FusedCellView>,
    from: [i64; 3],
    to: [i64; 3],
) -> Result<Map<[i64; 3], FusedCellView>, Fault> {
    if m.contains_key(to) {
        Err(fault("edit.coordinateOccupied", "to"@, "destination "@ + coord_text(to) + " is occupied"@))
    } else if !m.contains_key(from) {
        Err(fault("edit.coordinateEmpty", "from"@, "no voxel exists at "@ + coord_text(from)))
    } else {
        Ok(m.remove(from).insert(to, moved_view(m[from], to)))
    }
}

/// The outcome of a cell-store step, stated over the cell map.
pub open spec fn cells_outcome(
    result: Result<(), EditError>,
    before: Seq<FusedVoxelCell>,
    after: Seq<FusedVoxelCell>,
    expected: Result<Map<[i64; 3], FusedCellView>, Fault>,
) -> bool {
    &&& sorted_by_loc(after)
    &&& match expected {
        Ok(m) => result is Ok && cells_view(after) == m,
        Err(f) => result matches Err(e) && e.is_fault(f) && e.spec_operation_index() is None && (!bridge_too_long(f)
            ==> cells_view(after) == cells_view(before)),
    }
}

/// The one refusal that can come after cells were already added: a bridge
/// longer than allowed, found once earlier bridges are in place.
pub open spec fn bridge_too_long(f: Fault) -> bool {
    f.code@ == "edit.connectivityBridgeTooLong"@
}

pub(crate) fn add_voxel(cells: &mut Vec<FusedVoxelCell>, at: [i64; 3], material: u16, index: u32) -> (result: Result<(), EditError>)
    requires
        sorted_by_loc(old(cells)@),
    ensures
        cells_outcome(result, old(cells)@, final(cells)@, spec_add_voxel(cells_view(old(cells)@), at, material, index)),
{
    if contains(cells, at) {
        let mut message = String::from_str("voxel already exists at ");
        message.append(coord_string(at).as_str());
        return Err(EditError::new("edit.coordinateOccupied", "at", message));
    }
    let cell = edited(at, material, index);
    let ghost before = cells@;
    insert_absent(cells, cell);
    proof {
        lemma_view_insert(before, cells@, cell);
    }
    Ok(())
}

pub(crate) fn remove_voxel(cells: &mut Vec<FusedVoxelCell>, at: [i64; 3]) -> (result: Result<(), EditError>)
    requires
        sorted_by_loc(old(cells)@),
    ensures
        cells_outcome(result, old(cells)@, final(cells)@, spec_remove_voxel(cells_view(old(cells)@), at)),
{
    let ghost before = cells@;
    match remove_at(cells, at) {
        Some(_) => {
            proof {
                assert(cells_view(cells@) =~= cells_view(before).remove(at));
            }
            Ok(())
        },
        None => {
            let mut message = String::from_str("no voxel exists at ");
            message.append(coord_string(at).as_str());
            Err(EditError::new("edit.coordinateEmpty", "at", message))
        },
    }
}

pub(crate) fn move_voxel(cells: &mut Vec<FusedVoxelCell>, from: [i64; 3], to: [i64; 3]) -> (result: Result<(), EditError>)
    requires
        sorted_by_loc(old(cells)@),
    ensures
        cells_outcome(result, old(cells)@, final(cells)@, spec_move_voxel(cells_view(old(cells)@), from, to)),
{
    if contains(cells, to) {
        let mut message = String::from_str("destination ");
        message.append(coord_string(to).as_str());
        message.append(" is occupied");
        return Err(EditError::new("edit.coordinateOccupied", "to", message));
    }
    let ghost before = cells@;
    match remove_at(cells, from) {
        Some(cell) => {
            let ghost middle = cells@;
            let mut cell = cell;
            cell.coordinate = to;
            proof {
                assert(cells_view(middle) =~= cells_view(before).remove(from));
                assert(!crate::cellmap::occupies(middle, to));
            }
            insert_absent(cells, cell);
            proof {
                lemma_view_insert(middle, cells@, cell);
                assert(cell@ == moved_view(cells_view(before)[from], to));
            }
            Ok(())
        },
        None => {
            let mut message = String::from_str("no voxel exists at ");
            message.append(coord_string(from).as_str());
            Err(EditError::new("edit.coordinateEmpty", "from", message))
        },
    }
}

// ---------------------------------------------------------------------------
// Region operations.

/// Cells of `region` painted `from` take material `to`.
pub open spec fn recolor(m: Map<[i64; 3], FusedCellView>, region: EditBounds, from: u16, to: u16) -> Map<[i64; 3], FusedCellView> {
    Map::new(
        |c: [i64; 3]| m.contains_key(c),
        |c: [i64; 3]|
            if region.spec_contains(c) && m[c].material_slot == from {
                FusedCellView { material_slot: to, ..m[c] }
            } else {
                m[c]
            },
    )
}

pub(crate) fn recolored(cells: &Vec<FusedVoxelCell>, region: EditBounds, from: u16, to: u16) -> (out: Vec<FusedVoxelCell>)
    requires
        sorted_by_loc(cells@),
    ensures
        sorted_by_loc(out@),
        cells_view(out@) == recolor(cells_view(cells@), region, from, to),
{
    let mut out: Vec<FusedVoxelCell> = Vec::new();
    let mut i: usize = 0;
    proof {
        assert(cells_view(out@) =~= recolor(cells_view(cells@.take(0)), region, from, to));
    }
    while i < cells.len()
        invariant
            i <= cells@.len(),
            sorted_by_loc(cells@),
            sorted_by_loc(out@),
            out@.len() == i,
            forall|j: int| 0 <= j < i ==> (#[trigger] out@[j]).coordinate == cells@[j].coordinate,
            cells_view(out@) == recolor(cells_view(cells@.take(i as int)), region, from, to),
        decreases cells@.len() - i,
    {
        proof {
            lemma_take_map(cells@, i as int);
            lemma_view_insert(cells@.take(i as int), cells@.take(i + 1), cells@[i as int]);
        }
        let mut cell = copy_cell(&cells[i]);
        if region.contains(cell.coordinate) && cell.material_slot == from {
            cell.material_slot = to;
        }
        let ghost before = out@;
        proof {
            if i > 0 {
                assert(coord_lt(cells@[i - 1].loc(), cells@[i as int].loc()));
                assert(out@[i - 1].coordinate == cells@[i - 1].coordinate);
            }
            lemma_push_map(out@, cell);
        }
        out.push(cell);
        proof {
            lemma_view_insert(before, out@, cell);
            assert(cells_view(out@) =~= recolor(cells_view(cells@.take(i + 1)), region, from, to));
        }
        i = i + 1;
    }
    proof {
        assert(cells@.take(cells@.len() as int) =~= cells@);
    }
    out
}

/// Cells of `region` are taken from `source`; cells elsewhere stay.
pub open spec fn restore(
    m: Map<[i64; 3], FusedCellView>,
    region: EditBounds,
    source: Map<[i64; 3], FusedCellView>,
) -> Map<[i64; 3], FusedCellView> {
    Map::new(
        |c: [i64; 3]| if region.spec_contains(c) { source.contains_key(c) } else { m.contains_key(c) },
        |c: [i64; 3]| if region.spec_contains(c) { source[c] } else { m[c] },
    )
}

pub open spec fn spec_restore(
    m: Map<[i64; 3], FusedCellView>,
    region: EditBounds,
    source: Option<Map<[i64; 3], FusedCellView>>,
    direction: Seq<char>,
) -> Result<Map<[i64; 3], FusedCellView>, Fault> {
    match source {
        None => Err(fault("edit.temporalFrameMissing", "region"@, direction + " frame is not available"@)),
        Some(s) => Ok(restore(m, region, s)),
    }
}

/// The keyed cells of an optional neighbor frame.
pub open spec fn neighbor_view(frame: Option<&FusedFrame>) -> Option<Map<[i64; 3], FusedCellView>> {
    match frame {
        Some(f) => Some(frame_view(f.voxels@)),
        None => None,
    }
}

pub(crate) fn restore_region(
    cells: &mut Vec<FusedVoxelCell>,
    source: Option<&FusedFrame>,
    region: EditBounds,
    direction: &str,
) -> (result: Result<(), EditError>)
    requires
        sorted_by_loc(old(cells)@),
    ensures
        cells_outcome(result, old(cells)@, final(cells)@, spec_restore(cells_view(old(cells)@), region, neighbor_view(source), direction@)),
{
    let source = match source {
        Some(frame) => frame,
        None => {
            let mut message = String::from_str(direction);
            message.append(" frame is not available");
            return Err(EditError::new("edit.temporalFrameMissing", "region", message));
        },
    };
    let ghost m = cells_view(cells@);
    let kept = cells_outside(cells, region);
    let taken = frame_cells(&source.voxels);
    let mut out = kept;
    let mut i: usize = 0;
    proof {
        assert(taken@.take(0) =~= Seq::<FusedVoxelCell>::empty());
        assert(cells_view(out@) =~= restore(m, region, cells_view(taken@.take(0))));
    }
    while i < taken.len()
        invariant
            i <= taken@.len(),
            sorted_by_loc(taken@),
            sorted_by_loc(out@),
            cells_view(out@) == restore(m, region, cells_view(taken@.take(i as int))),
        decreases taken@.len() - i,
    {
        proof {
            lemma_take_map(taken@, i as int);
            lemma_view_insert(taken@.take(i as int), taken@.take(i + 1), taken@[i as int]);
        }
        let c = taken[i].coordinate;
        if region.contains(c) {
            let copy = copy_cell(&taken[i]);
            let ghost before = out@;
            proof {
                if crate::cellmap::occupies(out@, c) {
                    assert(cells_view(out@).contains_key(c));
                    assert(cells_view(taken@.take(i as int)).contains_key(c));
                    let tk = taken@.take(i as int);
                    let j = choose|j: int| 0 <= j < tk.len() && #[trigger] tk[j].loc() == c;
                    assert(coord_lt(taken@[j].loc(), taken@[i as int].loc()));
                    crate::voxel::lemma_coord_lt_total(c, c);
                }
            }
            insert_absent(&mut out, copy);
            proof {
                lemma_view_insert(before, out@, copy);
                assert(cells_view(out@) =~= restore(m, region, cells_view(taken@.take(i + 1))));
            }
        } else {
            proof {
                assert(cells_view(out@) =~= restore(m, region, cells_view(taken@.take(i + 1))));
            }
        }
        i = i + 1;
    }
    proof {
        assert(taken@.take(taken@.len() as int) =~= taken@);
    }
    *cells = out;
    Ok(())
}


// ---------------------------------------------------------------------------
// Neighborhood operations.

/// Number of the face neighbors `k..6` of `c` that are occupied.
pub open spec fn present_from(m: Map<[i64; 3], FusedCellView>, c: [i64; 3], k: int) -> nat
    decreases 6 - k,
{
    if k >= 6 || k < 0 {
        0
    } else {
        (if m.contains_key(spec_neighbor(c, k)) { 1nat } else { 0nat }) + present_from(m, c, k + 1)
    }
}

/// Number of occupied face neighbors of `c` (a clamped neighbor counts once
/// per direction).
pub open spec fn present_neighbors(m: Map<[i64; 3], FusedCellView>, c: [i64; 3]) -> nat {
    present_from(m, c, 0)
}

fn count_present(cells: &Vec<FusedVoxelCell>, c: [i64; 3]) -> (count: u8)
    requires
        sorted_by_loc(cells@),
    ensures
        count == present_neighbors(cells_view(cells@), c),
{
    let ghost m = cells_view(cells@);
    let mut count: u8 = 0;
    let mut k: usize = 0;
    while k < 6
        invariant
            k <= 6,
            count <= k,
            sorted_by_loc(cells@),
            m == cells_view(cells@),
            count + present_from(m, c, k as int) == present_neighbors(m, c),
        decreases 6 - k,
    {
        if contains(cells, crate::cleanup::neighbor(c, k)) {
            count = count + 1;
        }
        k = k + 1;
    }
    count
}

/// Free cells of the region that touch an occupied region cell.
pub open spec fn grow_set(m: Map<[i64; 3], FusedCellView>, region: EditBounds) -> Set<[i64; 3]> {
    Set::new(
        |n: [i64; 3]|
            region.spec_contains(n) && !m.contains_key(n) && exists|c: [i64; 3], k: int|
                #![trigger spec_neighbor(c, k)]
                m.contains_key(c) && region.spec_contains(c) && 0 <= k < 6 && spec_neighbor(c, k) == n,
    )
}

/// `layers` rounds of growing the region's occupied cells by one face layer.
pub open spec fn thicken(
    m: Map<[i64; 3], FusedCellView>,
    region: EditBounds,
    material: u16,
    index: u32,
    layers: nat,
) -> Map<[i64; 3], FusedCellView>
    decreases layers,
{
    if layers == 0 {
        m
    } else {
        thicken(fill_cells(m, grow_set(m, region), material, index), region, material, index, (layers - 1) as nat)
    }
}

pub(crate) fn grow_layer(cells: &mut Vec<FusedVoxelCell>, region: EditBounds, material: u16, index: u32)
    requires
        sorted_by_loc(old(cells)@),
    ensures
        sorted_by_loc(final(cells)@),
        cells_view(final(cells)@) == fill_cells(cells_view(old(cells)@), grow_set(cells_view(old(cells)@), region), material, index),
{
    let ghost m = cells_view(cells@);
    let mut additions: Vec<[i64; 3]> = Vec::new();
    let mut i: usize = 0;
    while i < cells.len()
        invariant
            i <= cells@.len(),
            sorted_by_loc(cells@),
            m == cells_view(cells@),
            forall|d: [i64; 3]| #[trigger] listed(additions@).contains(d) ==> grow_set(m, region).contains(d),
            forall|j: int, k: int|
                0 <= j < i && 0 <= k < 6 && region.spec_contains(cells@[j].coordinate) && region.spec_contains(
                    #[trigger] spec_neighbor(cells@[j].coordinate, k),
                ) && !m.contains_key(spec_neighbor(cells@[j].coordinate, k)) ==> listed(additions@).contains(
                    spec_neighbor(cells@[j].coordinate, k),
                ),
        decreases cells@.len() - i,
    {
        let c = cells[i].coordinate;
        proof {
            lemma_map_at(cells@, i as int);
        }
        if region.contains(c) {
            let mut k: usize = 0;
            while k < 6
                invariant
                    k <= 6,
                    i < cells@.len(),
                    c == cells@[i as int].coordinate,
                    region.spec_contains(c),
                    m.contains_key(c),
                    sorted_by_loc(cells@),
                    m == cells_view(cells@),
                    forall|d: [i64; 3]| #[trigger] listed(additions@).contains(d) ==> grow_set(m, region).contains(d),
                    forall|j: int, kk: int|
                        0 <= j < i && 0 <= kk < 6 && region.spec_contains(cells@[j].coordinate) && region.spec_contains(
                            #[trigger] spec_neighbor(cells@[j].coordinate, kk),
                        ) && !m.contains_key(spec_neighbor(cells@[j].coordinate, kk)) ==> listed(additions@).contains(
                            spec_neighbor(cells@[j].coordinate, kk),
                        ),
                    forall|kk: int|
                        0 <= kk < k && region.spec_contains(#[trigger] spec_neighbor(c, kk)) && !m.contains_key(
                            spec_neighbor(c, kk),
                        ) ==> listed(additions@).contains(spec_neighbor(c, kk)),
                decreases 6 - k,
            {
                let n = crate::cleanup::neighbor(c, k);
                if region.contains(n) && !contains(cells, n) {
                    let ghost before = additions@;
                    additions.push(n);
                    proof {
                        crate::cellstore::lemma_listed_push(before, n);
                        assert(spec_neighbor(c, k as int) == n);
                        assert(grow_set(m, region).contains(n));
                    }
                }
                k = k + 1;
            }
        }
        i = i + 1;
    }
    proof {
        assert forall|d: [i64; 3]| #[trigger] grow_set(m, region).contains(d) implies listed(additions@).contains(d) by {
            let (c, k) = choose|c: [i64; 3], k: int|
                #![trigger spec_neighbor(c, k)]
                m.contains_key(c) && region.spec_contains(c) && 0 <= k < 6 && spec_neighbor(c, k) == d;
            let j = crate::cellmap::index_at(cells@, c);
            assert(cells@[j].coordinate == c);
            assert(spec_neighbor(cells@[j].coordinate, k) == d);
        }
        assert(listed(additions@) =~= grow_set(m, region));
    }
    fill_absent(cells, &additions, material, index);
}

/// Occupied region cells with at least one free face neighbor.
pub open spec fn thin_set(m: Map<[i64; 3], FusedCellView>, region: EditBounds) -> Set<[i64; 3]> {
    Set::new(
        |c: [i64; 3]|
            m.contains_key(c) && region.spec_contains(c) && exists|k: int| 0 <= k < 6 && !m.contains_key(#[trigger] spec_neighbor(c, k)),
    )
}

/// `layers` rounds of peeling the region's exposed cells.
pub open spec fn thin(m: Map<[i64; 3], FusedCellView>, region: EditBounds, layers: nat) -> Map<[i64; 3], FusedCellView>
    decreases layers,
{
    if layers == 0 {
        m
    } else {
        thin(m.remove_keys(thin_set(m, region)), region, (layers - 1) as nat)
    }
}

fn exposed(cells: &Vec<FusedVoxelCell>, c: [i64; 3]) -> (open: bool)
    requires
        sorted_by_loc(cells@),
    ensures
        open == exists|k: int| 0 <= k < 6 && !cells_view(cells@).contains_key(#[trigger] spec_neighbor(c, k)),
{
    let mut k: usize = 0;
    while k < 6
        invariant
            k <= 6,
            sorted_by_loc(cells@),
            forall|kk: int| 0 <= kk < k ==> cells_view(cells@).contains_key(#[trigger] spec_neighbor(c, kk)),
        decreases 6 - k,
    {
        if !contains(cells, crate::cleanup::neighbor(c, k)) {
            assert(!cells_view(cells@).contains_key(spec_neighbor(c, k as int)));
            return true;
        }
        k = k + 1;
    }
    false
}

pub(crate) fn thin_layer(cells: &mut Vec<FusedVoxelCell>, region: EditBounds)
    requires
        sorted_by_loc(old(cells)@),
    ensures
        sorted_by_loc(final(cells)@),
        cells_view(final(cells)@) == cells_view(old(cells)@).remove_keys(thin_set(cells_view(old(cells)@), region)),
{
    let ghost m = cells_view(cells@);
    let mut removals: Vec<[i64; 3]> = Vec::new();
    let mut i: usize = 0;
    while i < cells.len()
        invariant
            i <= cells@.len(),
            sorted_by_loc(cells@),
            m == cells_view(cells@),
            forall|d: [i64; 3]| #[trigger] listed(removals@).contains(d) ==> thin_set(m, region).contains(d),
            forall|j: int| 0 <= j < i && #[trigger] thin_set(m, region).contains(cells@[j].coordinate) ==> listed(removals@).contains(cells@[j].coordinate),
        decreases cells@.len() - i,
    {
        let c = cells[i].coordinate;
        proof {
            lemma_map_at(cells@, i as int);
        }
        let ghost before = removals@;
        if region.contains(c) && exposed(cells, c) {
            removals.push(c);
            proof {
                crate::cellstore::lemma_listed_push(before, c);
            }
        }
        i = i + 1;
    }
    proof {
        assert forall|d: [i64; 3]| #[trigger] thin_set(m, region).contains(d) implies listed(removals@).contains(d) by {
            let j = crate::cellmap::index_at(cells@, d);
            assert(cells@[j].coordinate == d);
        }
        assert(listed(removals@) =~= thin_set(m, region));
    }
    crate::cellstore::remove_listed(cells, &removals);
}

/// Free region cells with at least five occupied face neighbors.
pub open spec fn smooth_set(m: Map<[i64; 3], FusedCellView>, region: EditBounds) -> Set<[i64; 3]> {
    Set::new(|c: [i64; 3]| region.spec_contains(c) && !m.contains_key(c) && present_neighbors(m, c) >= 5)
}

pub(crate) fn smooth_region(cells: &mut Vec<FusedVoxelCell>, region: EditBounds, material: u16, index: u32)
    requires
        sorted_by_loc(old(cells)@),
        region.valid(),
    ensures
        sorted_by_loc(final(cells)@),
        cells_view(final(cells)@) == fill_cells(cells_view(old(cells)@), smooth_set(cells_view(old(cells)@), region), material, index),
{
    let ghost m = cells_view(cells@);
    let coords = region_coordinates(region);
    let mut additions: Vec<[i64; 3]> = Vec::new();
    let mut i: usize = 0;
    while i < coords.len()
        invariant
            i <= coords@.len(),
            listed(coords@) == region_set(region),
            sorted_by_loc(cells@),
            m == cells_view(cells@),
            forall|d: [i64; 3]| #[trigger] listed(additions@).contains(d) ==> smooth_set(m, region).contains(d),
            forall|j: int| 0 <= j < i && #[trigger] smooth_set(m, region).contains(coords@[j]) ==> listed(additions@).contains(coords@[j]),
        decreases coords@.len() - i,
    {
        let c = coords[i];
        proof {
            assert(listed(coords@).contains(c));
        }
        let ghost before = additions@;
        if !contains(cells, c) && count_present(cells, c) >= 5 {
            additions.push(c);
            proof {
                crate::cellstore::lemma_listed_push(before, c);
            }
        }
        i = i + 1;
    }
    proof {
        assert forall|d: [i64; 3]| #[trigger] smooth_set(m, region).contains(d) implies listed(additions@).contains(d) by {
            assert(region_set(region).contains(d));
            let j = choose|j: int| #![auto] 0 <= j < coords@.len() && coords@[j] == d;
        }
        assert(listed(additions@) =~= smooth_set(m, region));
    }
    fill_absent(cells, &additions, material, index);
}

/// Occupied region cells with at most `limit` occupied face neighbors.
pub open spec fn carve_set(m: Map<[i64; 3], FusedCellView>, region: EditBounds, limit: u8) -> Set<[i64; 3]> {
    Set::new(|c: [i64; 3]| m.contains_key(c) && region.spec_contains(c) && present_neighbors(m, c) <= limit)
}

pub(crate) fn carve_region(cells: &mut Vec<FusedVoxelCell>, region: EditBounds, limit: u8)
    requires
        sorted_by_loc(old(cells)@),
    ensures
        sorted_by_loc(final(cells)@),
        cells_view(final(cells)@) == cells_view(old(cells)@).remove_keys(carve_set(cells_view(old(cells)@), region, limit)),
{
    let ghost m = cells_view(cells@);
    let mut removals: Vec<[i64; 3]> = Vec::new();
    let mut i: usize = 0;
    while i < cells.len()
        invariant
            i <= cells@.len(),
            sorted_by_loc(cells@),
            m == cells_view(cells@),
            forall|d: [i64; 3]| #[trigger] listed(removals@).contains(d) ==> carve_set(m, region, limit).contains(d),
            forall|j: int| 0 <= j < i && #[trigger] carve_set(m, region, limit).contains(cells@[j].coordinate) ==> listed(removals@).contains(cells@[j].coordinate),
        decreases cells@.len() - i,
    {
        let c = cells[i].coordinate;
        proof {
            lemma_map_at(cells@, i as int);
        }
        let ghost before = removals@;
        if region.contains(c) && count_present(cells, c) <= limit {
            removals.push(c);
            proof {
                crate::cellstore::lemma_listed_push(before, c);
            }
        }
        i = i + 1;
    }
    proof {
        assert forall|d: [i64; 3]| #[trigger] carve_set(m, region, limit).contains(d) implies listed(removals@).contains(d) by {
            let j = crate::cellmap::index_at(cells@, d);
            assert(cells@[j].coordinate == d);
        }
        assert(listed(removals@) =~= carve_set(m, region, limit));
    }
    crate::cellstore::remove_listed(cells, &removals);
}


// ---------------------------------------------------------------------------
// Copying and shifting by an offset.

/// `c + offset`, for offsets that keep the coordinate in range.
pub open spec fn shifted(c: [i64; 3], offset: [i64; 3]) -> [i64; 3] {
    [(c[0] + offset[0]) as i64, (c[1] + offset[1]) as i64, (c[2] + offset[2]) as i64]
}

/// `d - offset` lies in the i64 range on every axis.
pub open spec fn unshift_ok(d: [i64; 3], offset: [i64; 3]) -> bool {
    &&& i64::MIN <= d[0] - offset[0] <= i64::MAX
    &&& i64::MIN <= d[1] - offset[1] <= i64::MAX
    &&& i64::MIN <= d[2] - offset[2] <= i64::MAX
}

pub open spec fn unshifted(d: [i64; 3], offset: [i64; 3]) -> [i64; 3] {
    [(d[0] - offset[0]) as i64, (d[1] - offset[1]) as i64, (d[2] - offset[2]) as i64]
}

proof fn lemma_shift_inside(region: EditBounds, offset: [i64; 3], c: [i64; 3])
    requires
        region.spec_translated(offset) is Ok,
        region.spec_contains(c),
    ensures
        -crate::voxel::MAX_COORDINATE_ABS <= c[0] + offset[0] <= crate::voxel::MAX_COORDINATE_ABS,
        -crate::voxel::MAX_COORDINATE_ABS <= c[1] + offset[1] <= crate::voxel::MAX_COORDINATE_ABS,
        -crate::voxel::MAX_COORDINATE_ABS <= c[2] + offset[2] <= crate::voxel::MAX_COORDINATE_ABS,
        unshift_ok(shifted(c, offset), offset),
        unshifted(shifted(c, offset), offset) == c,
{
    crate::voxel::lemma_coord_eq(unshifted(shifted(c, offset), offset), c);
}

proof fn lemma_shift_order(region: EditBounds, offset: [i64; 3], a: [i64; 3], b: [i64; 3])
    requires
        region.spec_translated(offset) is Ok,
        region.spec_contains(a),
        region.spec_contains(b),
        coord_lt(a, b),
    ensures
        coord_lt(shifted(a, offset), shifted(b, offset)),
{
    lemma_shift_inside(region, offset, a);
    lemma_shift_inside(region, offset, b);
}

/// Authored copies of the canonical cells of `source`, moved by `offset`.
pub open spec fn copy_part(
    m: Map<[i64; 3], FusedCellView>,
    source: EditBounds,
    offset: [i64; 3],
    index: u32,
) -> Map<[i64; 3], FusedCellView> {
    Map::new(
        |d: [i64; 3]|
            unshift_ok(d, offset) && m.contains_key(unshifted(d, offset)) && source.spec_contains(unshifted(d, offset))
                && m[unshifted(d, offset)].origin is Canonical,
        |d: [i64; 3]|
            FusedCellView {
                coordinate: d,
                origin: crate::fusion::FusedVoxelOrigin::AuthoredEdit { operation_index: index },
                ..m[unshifted(d, offset)]
            },
    )
}

/// The cells of `m` moved by `offset` from inside `region`.
pub open spec fn shift_part(m: Map<[i64; 3], FusedCellView>, region: EditBounds, offset: [i64; 3]) -> Map<[i64; 3], FusedCellView> {
    Map::new(
        |d: [i64; 3]| unshift_ok(d, offset) && m.contains_key(unshifted(d, offset)) && region.spec_contains(unshifted(d, offset)),
        |d: [i64; 3]| moved_view(m[unshifted(d, offset)], d),
    )
}

/// Shifting the cell at `c` would land on a cell that stays put.
pub open spec fn shift_conflict(m: Map<[i64; 3], FusedCellView>, region: EditBounds, offset: [i64; 3], c: [i64; 3]) -> bool {
    &&& m.contains_key(c)
    &&& region.spec_contains(c)
    &&& m.contains_key(shifted(c, offset))
    &&& !region.spec_contains(shifted(c, offset))
}

/// The lowest conflicting source coordinate.
#[verifier::opaque]
pub open spec fn first_shift_conflict(m: Map<[i64; 3], FusedCellView>, region: EditBounds, offset: [i64; 3]) -> [i64; 3] {
    choose|c: [i64; 3]|
        shift_conflict(m, region, offset, c) && forall|c2: [i64; 3]| #[trigger] shift_conflict(m, region, offset, c2) ==> !coord_lt(c2, c)
}

#[verifier::opaque]
pub open spec fn spec_shift(m: Map<[i64; 3], FusedCellView>, region: EditBounds, offset: [i64; 3]) -> Result<Map<[i64; 3], FusedCellView>, Fault> {
    if exists|c: [i64; 3]| #[trigger] shift_conflict(m, region, offset, c) {
        Err(fault(
            "edit.coordinateOccupied",
            "offset"@,
            "shift destination "@ + coord_text(shifted(first_shift_conflict(m, region, offset), offset)) + " is occupied"@,
        ))
    } else {
        Ok(outside(m, region).union_prefer_right(shift_part(m, region, offset)))
    }
}

fn shifted_exec(region: EditBounds, offset: [i64; 3], c: [i64; 3]) -> (d: [i64; 3])
    requires
        region.spec_translated(offset) is Ok,
        region.spec_contains(c),
    ensures
        d == shifted(c, offset),
        crate::voxel::coordinate_admitted(d),
{
    proof {
        lemma_shift_inside(region, offset, c);
    }
    let d = [c[0] + offset[0], c[1] + offset[1], c[2] + offset[2]];
    proof {
        crate::voxel::lemma_coord_eq(d, shifted(c, offset));
    }
    d
}

/// Insert every listed cell whose coordinate is still free, in order.
fn insert_free(cells: &mut Vec<FusedVoxelCell>, extra: &Vec<FusedVoxelCell>)
    requires
        sorted_by_loc(old(cells)@),
        sorted_by_loc(extra@),
    ensures
        sorted_by_loc(final(cells)@),
        cells_view(final(cells)@) == cells_view(extra@).union_prefer_right(cells_view(old(cells)@)),
{
    let ghost m = cells_view(cells@);
    let mut j: usize = 0;
    proof {
        assert(extra@.take(0) =~= Seq::<FusedVoxelCell>::empty());
        assert(cells_view(cells@) =~= cells_view(extra@.take(0)).union_prefer_right(m));
    }
    while j < extra.len()
        invariant
            j <= extra@.len(),
            sorted_by_loc(extra@),
            sorted_by_loc(cells@),
            cells_view(cells@) == cells_view(extra@.take(j as int)).union_prefer_right(m),
        decreases extra@.len() - j,
    {
        proof {
            lemma_take_map(extra@, j as int);
            lemma_view_insert(extra@.take(j as int), extra@.take(j + 1), extra@[j as int]);
        }
        let d = extra[j].coordinate;
        let ghost before = cells@;
        proof {
            let tk = extra@.take(j as int);
            if cells_view(tk).contains_key(d) {
                let k = choose|k: int| 0 <= k < tk.len() && #[trigger] tk[k].loc() == d;
                assert(coord_lt(extra@[k].loc(), extra@[j as int].loc()));
                crate::voxel::lemma_coord_lt_total(d, d);
            }
        }
        if !contains(cells, d) {
            let copy = copy_cell(&extra[j]);
            insert_absent(cells, copy);
            proof {
                lemma_view_insert(before, cells@, copy);
                assert(!located_map(before).contains_key(d));
                assert(!cells_view(before).contains_key(d));
                assert(!m.contains_key(d));
                let p1 = cells_view(extra@.take(j + 1));
                assert forall|e: [i64; 3]| #[trigger] cells_view(cells@).contains_key(e) <==> p1.union_prefer_right(m).contains_key(e) by {
                }
                assert forall|e: [i64; 3]| #[trigger] cells_view(cells@).contains_key(e) implies cells_view(cells@)[e] == p1.union_prefer_right(m)[e] by {
                }
                assert(cells_view(cells@) =~= p1.union_prefer_right(m));
            }
        } else {
            proof {
                assert(cells_view(before).contains_key(d));
                assert(m.contains_key(d));
                let p1 = cells_view(extra@.take(j + 1));
                assert forall|e: [i64; 3]| #[trigger] cells_view(cells@).contains_key(e) <==> p1.union_prefer_right(m).contains_key(e) by {
                }
                assert forall|e: [i64; 3]| #[trigger] cells_view(cells@).contains_key(e) implies cells_view(cells@)[e] == p1.union_prefer_right(m)[e] by {
                }
                assert(cells_view(cells@) =~= p1.union_prefer_right(m));
            }
        }
        j = j + 1;
    }
    proof {
        assert(extra@.take(extra@.len() as int) =~= extra@);
    }
}

pub(crate) fn copy_canonical(cells: &mut Vec<FusedVoxelCell>, source: EditBounds, offset: [i64; 3], index: u32)
    requires
        sorted_by_loc(old(cells)@),
        source.spec_translated(offset) is Ok,
    ensures
        sorted_by_loc(final(cells)@),
        cells_view(final(cells)@) == copy_part(cells_view(old(cells)@), source, offset, index).union_prefer_right(cells_view(old(cells)@)),
{
    let ghost m = cells_view(cells@);
    let mut copies: Vec<FusedVoxelCell> = Vec::new();
    let ghost mut last: int = -1;
    let mut i: usize = 0;
    proof {
        assert(cells@.take(0) =~= Seq::<FusedVoxelCell>::empty());
        assert(cells_view(copies@) =~= copy_part(cells_view(cells@.take(0)), source, offset, index));
    }
    while i < cells.len()
        invariant
            i <= cells@.len(),
            sorted_by_loc(cells@),
            m == cells_view(cells@),
            source.spec_translated(offset) is Ok,
            sorted_by_loc(copies@),
            -1 <= last < i,
            copies@.len() > 0 ==> 0 <= last && source.spec_contains(cells@[last].coordinate) && copies@.last().coordinate
                == shifted(cells@[last].coordinate, offset),
            cells_view(copies@) == copy_part(cells_view(cells@.take(i as int)), source, offset, index),
        decreases cells@.len() - i,
    {
        proof {
            lemma_take_map(cells@, i as int);
            lemma_view_insert(cells@.take(i as int), cells@.take(i + 1), cells@[i as int]);
        }
        let c = cells[i].coordinate;
        let canonical = match &cells[i].origin {
            crate::fusion::FusedVoxelOrigin::Canonical { .. } => true,
            _ => false,
        };
        if source.contains(c) && canonical {
            let d = shifted_exec(source, offset, c);
            let mut copy = copy_cell(&cells[i]);
            copy.coordinate = d;
            copy.origin = crate::fusion::FusedVoxelOrigin::AuthoredEdit { operation_index: index };
            let ghost before = copies@;
            proof {
                lemma_shift_inside(source, offset, c);
                if copies@.len() > 0 {
                    assert(coord_lt(cells@[last].loc(), cells@[i as int].loc()));
                    lemma_shift_order(source, offset, cells@[last].coordinate, c);
                }
                lemma_push_map(copies@, copy);
            }
            copies.push(copy);
            proof {
                lemma_view_insert(before, copies@, copy);
                last = i as int;
                let mm = cells_view(cells@.take(i as int));
                let mn = cells_view(cells@.take(i + 1));
                assert forall|e: [i64; 3]| #[trigger] copy_part(mn, source, offset, index).contains_key(e) && e != d
                    implies unshifted(e, offset) != c by {
                    if unshifted(e, offset) == c {
                        crate::voxel::lemma_coord_eq(e, shifted(c, offset));
                    }
                }
                assert(cells_view(copies@) =~= copy_part(mn, source, offset, index));
            }
        } else {
            proof {
                let mn = cells_view(cells@.take(i + 1));
                assert forall|e: [i64; 3]| #[trigger] copy_part(mn, source, offset, index).contains_key(e)
                    implies unshifted(e, offset) != c by {
                }
                assert(cells_view(copies@) =~= copy_part(mn, source, offset, index));
            }
        }
        i = i + 1;
    }
    proof {
        assert(cells@.take(cells@.len() as int) =~= cells@);
    }
    insert_free(cells, &copies);
}


proof fn lemma_first_conflict(cells: Seq<FusedVoxelCell>, region: EditBounds, offset: [i64; 3], i: int)
    requires
        sorted_by_loc(cells),
        0 <= i < cells.len(),
        shift_conflict(cells_view(cells), region, offset, cells[i].coordinate),
        forall|j: int| 0 <= j < i ==> !shift_conflict(cells_view(cells), region, offset, #[trigger] cells[j].coordinate),
    ensures
        first_shift_conflict(cells_view(cells), region, offset) == cells[i].coordinate,
{
    let m = cells_view(cells);
    let c = cells[i].coordinate;
    assert forall|c2: [i64; 3]| #[trigger] shift_conflict(m, region, offset, c2) implies !coord_lt(c2, c) by {
        let j = crate::cellmap::index_at(cells, c2);
        assert(cells[j].coordinate == c2);
        if j > i {
            assert(coord_lt(cells[i].loc(), cells[j].loc()));
        }
        crate::voxel::lemma_coord_lt_total(c2, c);
    }
    reveal(first_shift_conflict);
    let f = first_shift_conflict(m, region, offset);
    crate::voxel::lemma_coord_lt_total(f, c);
}

proof fn lemma_shift_part_step(cells: Seq<FusedVoxelCell>, i: int, region: EditBounds, offset: [i64; 3], moved: FusedCellView)
    requires
        sorted_by_loc(cells),
        0 <= i < cells.len(),
        region.spec_translated(offset) is Ok,
        cells_view(cells.take(i + 1)) == cells_view(cells.take(i)).insert(cells[i].coordinate, cells[i]@),
        region.spec_contains(cells[i].coordinate) ==> moved == moved_view(cells[i]@, shifted(cells[i].coordinate, offset)),
    ensures
        region.spec_contains(cells[i].coordinate) ==> shift_part(cells_view(cells.take(i + 1)), region, offset)
            == shift_part(cells_view(cells.take(i)), region, offset).insert(shifted(cells[i].coordinate, offset), moved),
        !region.spec_contains(cells[i].coordinate) ==> shift_part(cells_view(cells.take(i + 1)), region, offset)
            == shift_part(cells_view(cells.take(i)), region, offset),
{
    let c = cells[i].coordinate;
    let mn = cells_view(cells.take(i + 1));
    let mo = cells_view(cells.take(i));
    if region.spec_contains(c) {
        let d = shifted(c, offset);
        lemma_shift_inside(region, offset, c);
        assert forall|e: [i64; 3]| #[trigger] shift_part(mn, region, offset).contains_key(e) && e != d
            implies unshifted(e, offset) != c by {
            if unshifted(e, offset) == c {
                crate::voxel::lemma_coord_eq(e, shifted(c, offset));
            }
        }
        assert(shift_part(mn, region, offset) =~= shift_part(mo, region, offset).insert(d, moved));
    } else {
        assert(shift_part(mn, region, offset) =~= shift_part(mo, region, offset));
    }
}

/// The index of the lowest-coordinate cell whose shift would collide.
fn find_shift_conflict(cells: &Vec<FusedVoxelCell>, region: EditBounds, offset: [i64; 3]) -> (found: Option<usize>)
    requires
        sorted_by_loc(cells@),
        region.spec_translated(offset) is Ok,
    ensures
        found is None ==> forall|c: [i64; 3]| !#[trigger] shift_conflict(cells_view(cells@), region, offset, c),
        found matches Some(i) ==> i < cells@.len() && shift_conflict(cells_view(cells@), region, offset, cells@[i as int].coordinate)
            && first_shift_conflict(cells_view(cells@), region, offset) == cells@[i as int].coordinate,
{
    let ghost m = cells_view(cells@);
    let mut i: usize = 0;
    while i < cells.len()
        invariant
            i <= cells@.len(),
            sorted_by_loc(cells@),
            m == cells_view(cells@),
            region.spec_translated(offset) is Ok,
            forall|j: int| 0 <= j < i ==> !shift_conflict(m, region, offset, #[trigger] cells@[j].coordinate),
        decreases cells@.len() - i,
    {
        proof {
            lemma_map_at(cells@, i as int);
        }
        let c = cells[i].coordinate;
        if region.contains(c) {
            let d = shifted_exec(region, offset, c);
            if contains(cells, d) && !region.contains(d) {
                proof {
                    lemma_first_conflict(cells@, region, offset, i as int);
                }
                return Some(i);
            }
        }
        i = i + 1;
    }
    proof {
        assert forall|c: [i64; 3]| !#[trigger] shift_conflict(m, region, offset, c) by {
            if shift_conflict(m, region, offset, c) {
                let j = crate::cellmap::index_at(cells@, c);
                assert(cells@[j].coordinate == c);
            }
        }
    }
    None
}

/// Copies of the region's cells moved by `offset`, in order.
fn shifted_cells(cells: &Vec<FusedVoxelCell>, region: EditBounds, offset: [i64; 3]) -> (moved: Vec<FusedVoxelCell>)
    requires
        sorted_by_loc(cells@),
        region.spec_translated(offset) is Ok,
    ensures
        sorted_by_loc(moved@),
        cells_view(moved@) == shift_part(cells_view(cells@), region, offset),
{
    let mut moved: Vec<FusedVoxelCell> = Vec::new();
    let ghost mut last: int = -1;
    let mut i: usize = 0;
    proof {
        assert(cells@.take(0) =~= Seq::<FusedVoxelCell>::empty());
        assert(cells_view(moved@) =~= shift_part(cells_view(cells@.take(0)), region, offset));
    }
    while i < cells.len()
        invariant
            i <= cells@.len(),
            sorted_by_loc(cells@),
            region.spec_translated(offset) is Ok,
            sorted_by_loc(moved@),
            -1 <= last < i,
            moved@.len() > 0 ==> 0 <= last && region.spec_contains(cells@[last].coordinate) && moved@.last().coordinate
                == shifted(cells@[last].coordinate, offset),
            cells_view(moved@) == shift_part(cells_view(cells@.take(i as int)), region, offset),
        decreases cells@.len() - i,
    {
        proof {
            lemma_take_map(cells@, i as int);
            lemma_view_insert(cells@.take(i as int), cells@.take(i + 1), cells@[i as int]);
        }
        let c = cells[i].coordinate;
        if region.contains(c) {
            let d = shifted_exec(region, offset, c);
            let mut copy = copy_cell(&cells[i]);
            copy.coordinate = d;
            let ghost before = moved@;
            proof {
                lemma_shift_inside(region, offset, c);
                if moved@.len() > 0 {
                    assert(coord_lt(cells@[last].loc(), cells@[i as int].loc()));
                    lemma_shift_order(region, offset, cells@[last].coordinate, c);
                }
                lemma_push_map(moved@, copy);
            }
            moved.push(copy);
            proof {
                lemma_view_insert(before, moved@, copy);
                last = i as int;
                lemma_shift_part_step(cells@, i as int, region, offset, copy@);
            }
        } else {
            proof {
                lemma_shift_part_step(cells@, i as int, region, offset, cells@[i as int]@);
            }
        }
        i = i + 1;
    }
    proof {
        assert(cells@.take(cells@.len() as int) =~= cells@);
    }
    moved
}

proof fn lemma_shift_disjoint(m: Map<[i64; 3], FusedCellView>, region: EditBounds, offset: [i64; 3])
    requires
        region.spec_translated(offset) is Ok,
        forall|c: [i64; 3]| !#[trigger] shift_conflict(m, region, offset, c),
    ensures
        shift_part(m, region, offset).union_prefer_right(outside(m, region)) == outside(m, region).union_prefer_right(
            shift_part(m, region, offset),
        ),
{
    assert forall|d: [i64; 3]| #[trigger] shift_part(m, region, offset).contains_key(d) implies !outside(m, region).contains_key(d) by {
        let c = unshifted(d, offset);
        lemma_shift_inside(region, offset, c);
        crate::voxel::lemma_coord_eq(shifted(c, offset), d);
        assert(!shift_conflict(m, region, offset, c));
    }
    assert(shift_part(m, region, offset).union_prefer_right(outside(m, region)) =~= outside(m, region).union_prefer_right(
        shift_part(m, region, offset),
    ));
}

pub(crate) fn shift_component(cells: &mut Vec<FusedVoxelCell>, region: EditBounds, offset: [i64; 3]) -> (result: Result<(), EditError>)
    requires
        sorted_by_loc(old(cells)@),
        region.spec_translated(offset) is Ok,
    ensures
        cells_outcome(result, old(cells)@, final(cells)@, spec_shift(cells_view(old(cells)@), region, offset)),
{
    let ghost m = cells_view(cells@);
    let found = find_shift_conflict(cells, region, offset);
    if let Some(i) = found {
        let d = shifted_exec(region, offset, cells[i].coordinate);
        let mut message = String::from_str("shift destination ");
        message.append(coord_string(d).as_str());
        message.append(" is occupied");
        proof {
            let f = fault("edit.coordinateOccupied", "offset"@, "shift destination "@ + coord_text(d) + " is occupied"@);
            assert(spec_shift(m, region, offset) == Err::<Map<[i64; 3], FusedCellView>, Fault>(f)) by {
                reveal(spec_shift);
                assert(shift_conflict(m, region, offset, cells@[i as int].coordinate));
            }
        }
        return Err(EditError::new("edit.coordinateOccupied", "offset", message));
    }
    let moved = shifted_cells(cells, region, offset);
    let mut out = cells_outside(cells, region);
    proof {
        lemma_shift_disjoint(m, region, offset);
        assert(spec_shift(m, region, offset) == Ok::<Map<[i64; 3], FusedCellView>, Fault>(
            outside(m, region).union_prefer_right(shift_part(m, region, offset)),
        )) by {
            reveal(spec_shift);
        }
    }
    insert_free(&mut out, &moved);
    *cells = out;
    Ok(())
}

} // verus!
