//! Bulk operations on the sorted cell store of a frame being edited: the
//! cells of a fused frame keyed by coordinate, with the keyed anchor list
//! that travels with them.

use vstd::prelude::*;

use crate::cellmap::{
    Located, contains, insert_absent, remove_at, lemma_push_map, lemma_take_map, located_map, put, sorted_by_loc,
};
use crate::cleanup::EditBounds;
use crate::fusion::{cells_view, copy_cell, FusedCellView, FusedVoxelCell, FusedVoxelOrigin};

verus! {

/// The coordinates listed by a sequence, as a set.
pub open spec fn listed(s: Seq<[i64; 3]>) -> Set<[i64; 3]> {
    Set::new(|d: [i64; 3]| exists|j: int| 0 <= j < s.len() && s[j] == d)
}

/// The coordinates inside a region.
pub open spec fn region_set(region: EditBounds) -> Set<[i64; 3]> {
    Set::new(|c: [i64; 3]| region.spec_contains(c))
}

/// The operation index recorded on authored cells, saturated to u32.
pub open spec fn edit_index(index: usize) -> u32 {
    if index <= u32::MAX {
        index as u32
    } else {
        u32::MAX
    }
}

/// A cell written by an authored edit.
pub open spec fn edited_view(c: [i64; 3], material: u16, index: u32) -> FusedCellView {
    FusedCellView {
        coordinate: c,
        material_slot: material,
        origin: FusedVoxelOrigin::AuthoredEdit { operation_index: index },
        operations: Seq::empty(),
    }
}

/// Every coordinate of `s` that is still free receives an authored cell.
pub open spec fn fill_cells(
    m: Map<[i64; 3], FusedCellView>,
    s: Set<[i64; 3]>,
    material: u16,
    index: u32,
) -> Map<[i64; 3], FusedCellView> {
    Map::new(
        |c: [i64; 3]| m.contains_key(c) || s.contains(c),
        |c: [i64; 3]|
            if m.contains_key(c) {
                m[c]
            } else {
                edited_view(c, material, index)
            },
    )
}

/// The cells of `m` that lie outside `region`.
pub open spec fn outside(m: Map<[i64; 3], FusedCellView>, region: EditBounds) -> Map<[i64; 3], FusedCellView> {
    Map::new(|c: [i64; 3]| m.contains_key(c) && !region.spec_contains(c), |c: [i64; 3]| m[c])
}

/// The frame's cells keyed by coordinate; a later cell at a coordinate
/// replaces an earlier one.
pub open spec fn frame_view(s: Seq<FusedVoxelCell>) -> Map<[i64; 3], FusedCellView>
    decreases s.len(),
{
    if s.len() == 0 {
        Map::empty()
    } else {
        frame_view(s.drop_last()).insert(s.last().coordinate, s.last()@)
    }
}

/// No two cells share a coordinate.
pub open spec fn distinct_coordinates(s: Seq<FusedVoxelCell>) -> bool {
    forall|i: int, j: int| 0 <= i < j < s.len() ==> s[i].coordinate != s[j].coordinate
}

pub proof fn lemma_frame_view_domain(s: Seq<FusedVoxelCell>, c: [i64; 3])
    ensures
        frame_view(s).contains_key(c) <==> exists|j: int| 0 <= j < s.len() && #[trigger] s[j].coordinate == c,
    decreases s.len(),
{
    if s.len() > 0 {
        lemma_frame_view_domain(s.drop_last(), c);
        if frame_view(s.drop_last()).contains_key(c) {
            let j = choose|j: int| 0 <= j < s.drop_last().len() && #[trigger] s.drop_last()[j].coordinate == c;
            assert(s[j].coordinate == c);
        }
        if exists|j: int| 0 <= j < s.len() && #[trigger] s[j].coordinate == c {
            let j = choose|j: int| 0 <= j < s.len() && #[trigger] s[j].coordinate == c;
            if j < s.len() - 1 {
                assert(s.drop_last()[j].coordinate == c);
            }
        }
    }
}

pub proof fn lemma_view_insert(s: Seq<FusedVoxelCell>, t: Seq<FusedVoxelCell>, x: FusedVoxelCell)
    requires
        located_map(t) == located_map(s).insert(x.coordinate, x),
    ensures
        cells_view(t) == cells_view(s).insert(x.coordinate, x@),
{
    assert(cells_view(t) =~= cells_view(s).insert(x.coordinate, x@));
}

/// A fresh authored cell.
pub fn edited(c: [i64; 3], material: u16, index: u32) -> (cell: FusedVoxelCell)
    ensures
        cell@ == edited_view(c, material, index),
        cell.coordinate == c,
{
    let cell = FusedVoxelCell {
        coordinate: c,
        material_slot: material,
        origin: FusedVoxelOrigin::AuthoredEdit { operation_index: index },
        operations: Vec::new(),
    };
    assert(cell@.operations =~= Seq::<crate::fusion::CleanupOperation>::empty());
    cell
}

/// The saturated u32 form of an operation index.
pub fn edit_index_exec(index: usize) -> (r: u32)
    ensures
        r == edit_index(index),
{
    if index <= u32::MAX as usize {
        index as u32
    } else {
        u32::MAX
    }
}

/// Every coordinate of a valid region, x-major, then y, then z.
pub fn region_coordinates(region: EditBounds) -> (coords: Vec<[i64; 3]>)
    requires
        region.valid(),
    ensures
        listed(coords@) == region_set(region),
{
    let mut coords: Vec<[i64; 3]> = Vec::new();
    let mut x = region.min[0];
    while x <= region.max[0]
        invariant
            region.valid(),
            region.min[0] <= x <= region.max[0] + 1,
            forall|c: [i64; 3]| #[trigger] listed(coords@).contains(c) <==> (region.spec_contains(c) && c[0] < x),
        decreases region.max[0] + 1 - x,
    {
        let mut y = region.min[1];
        while y <= region.max[1]
            invariant
                region.valid(),
                region.min[0] <= x <= region.max[0],
                region.min[1] <= y <= region.max[1] + 1,
                forall|c: [i64; 3]| #[trigger] listed(coords@).contains(c) <==> (region.spec_contains(c) && (c[0] < x || (c[0] == x && c[1] < y))),
            decreases region.max[1] + 1 - y,
        {
            let mut z = region.min[2];
            while z <= region.max[2]
                invariant
                    region.valid(),
                    region.min[0] <= x <= region.max[0],
                    region.min[1] <= y <= region.max[1],
                    region.min[2] <= z <= region.max[2] + 1,
                    forall|c: [i64; 3]| #[trigger] listed(coords@).contains(c) <==> (region.spec_contains(c) && (c[0] < x || (c[0] == x && (c[1] < y || (c[1] == y && c[2] < z))))),
                decreases region.max[2] + 1 - z,
            {
                let ghost before = coords@;
                let p = [x, y, z];
                coords.push(p);
                proof {
                    assert forall|c: [i64; 3]| #[trigger] listed(coords@).contains(c) <==> (region.spec_contains(c) && (c[0] < x || (c[0] == x && (c[1] < y || (c[1] == y && c[2] < z + 1))))) by {
                        crate::voxel::lemma_coord_eq(c, p);
                        if listed(coords@).contains(c) {
                            let j = choose|j: int| #![auto] 0 <= j < coords@.len() && coords@[j] == c;
                            if j < before.len() {
                                assert(listed(before).contains(c));
                            }
                        }
                        if region.spec_contains(c) && (c[0] < x || (c[0] == x && (c[1] < y || (c[1] == y && c[2] < z + 1)))) {
                            if c[0] == x && c[1] == y && c[2] == z {
                                assert(coords@[before.len() as int] == c);
                            } else {
                                assert(listed(before).contains(c));
                                let j = choose|j: int| #![auto] 0 <= j < before.len() && before[j] == c;
                                assert(coords@[j] == c);
                            }
                        }
                    }
                }
                z = z + 1;
            }
            y = y + 1;
        }
        x = x + 1;
    }
    proof {
        assert(listed(coords@) =~= region_set(region));
    }
    coords
}

/// Give every listed coordinate that is still free an authored cell.
pub fn fill_absent(cells: &mut Vec<FusedVoxelCell>, coords: &Vec<[i64; 3]>, material: u16, index: u32)
    requires
        sorted_by_loc(old(cells)@),
    ensures
        sorted_by_loc(final(cells)@),
        cells_view(final(cells)@) == fill_cells(cells_view(old(cells)@), listed(coords@), material, index),
{
    let ghost m0 = cells_view(cells@);
    let mut i: usize = 0;
    proof {
        assert(cells_view(cells@) =~= fill_cells(m0, listed(coords@.take(0)), material, index));
    }
    while i < coords.len()
        invariant
            i <= coords@.len(),
            sorted_by_loc(cells@),
            cells_view(cells@) == fill_cells(m0, listed(coords@.take(i as int)), material, index),
        decreases coords@.len() - i,
    {
        let c = coords[i];
        let ghost before = cells@;
        if !contains(cells, c) {
            let cell = edited(c, material, index);
            insert_absent(cells, cell);
            proof {
                lemma_view_insert(before, cells@, cell);
                assert(!cells_view(before).contains_key(c));
            }
        } else {
            assert(cells_view(before).contains_key(c));
        }
        proof {
            let tp = coords@.take(i as int);
            let tn = coords@.take(i + 1);
            let prev = listed(tp);
            let next = listed(tn);
            assert forall|d: [i64; 3]| #[trigger] next.contains(d) <==> (prev.contains(d) || d == c) by {
                if next.contains(d) {
                    let j = choose|j: int| #![auto] 0 <= j < tn.len() && tn[j] == d;
                    if j < i {
                        assert(tp[j] == d);
                    }
                }
                if prev.contains(d) {
                    let j = choose|j: int| #![auto] 0 <= j < tp.len() && tp[j] == d;
                    assert(tn[j] == d);
                }
                if d == c {
                    assert(tn[i as int] == d);
                }
            }
            assert forall|d: [i64; 3]| #[trigger] cells_view(cells@).contains_key(d) <==> fill_cells(m0, next, material, index).contains_key(d) by {
            }
            assert forall|d: [i64; 3]| #[trigger] cells_view(cells@).contains_key(d) implies cells_view(cells@)[d] == fill_cells(m0, next, material, index)[d] by {
                if d != c {
                    assert(cells_view(cells@)[d] == cells_view(before)[d]);
                }
            }
            assert(cells_view(cells@) =~= fill_cells(m0, next, material, index));
        }
        i = i + 1;
    }
    proof {
        assert(coords@.take(coords@.len() as int) =~= coords@);
    }
}


pub proof fn lemma_listed_push(s: Seq<[i64; 3]>, x: [i64; 3])
    ensures
        forall|d: [i64; 3]| #[trigger] listed(s.push(x)).contains(d) <==> (listed(s).contains(d) || d == x),
{
    let t = s.push(x);
    assert forall|d: [i64; 3]| #[trigger] listed(t).contains(d) <==> (listed(s).contains(d) || d == x) by {
        if listed(t).contains(d) {
            let j = choose|j: int| #![auto] 0 <= j < t.len() && t[j] == d;
            if j < s.len() {
                assert(s[j] == d);
            }
        }
        if listed(s).contains(d) {
            let j = choose|j: int| #![auto] 0 <= j < s.len() && s[j] == d;
            assert(t[j] == d);
        }
        if d == x {
            assert(t[s.len() as int] == d);
        }
    }
}

/// Remove the cell at every listed coordinate.
pub fn remove_listed(cells: &mut Vec<FusedVoxelCell>, coords: &Vec<[i64; 3]>)
    requires
        sorted_by_loc(old(cells)@),
    ensures
        sorted_by_loc(final(cells)@),
        cells_view(final(cells)@) == cells_view(old(cells)@).remove_keys(listed(coords@)),
{
    let ghost m0 = cells_view(cells@);
    let mut i: usize = 0;
    proof {
        assert(cells_view(cells@) =~= m0.remove_keys(listed(coords@.take(0))));
    }
    while i < coords.len()
        invariant
            i <= coords@.len(),
            sorted_by_loc(cells@),
            cells_view(cells@) == m0.remove_keys(listed(coords@.take(i as int))),
        decreases coords@.len() - i,
    {
        let c = coords[i];
        let ghost before = cells@;
        remove_at(cells, c);
        proof {
            assert(coords@.take(i + 1) =~= coords@.take(i as int).push(c));
            lemma_listed_push(coords@.take(i as int), c);
            assert(cells_view(cells@) =~= cells_view(before).remove(c));
            assert(cells_view(cells@) =~= m0.remove_keys(listed(coords@.take(i + 1))));
        }
        i = i + 1;
    }
    proof {
        assert(coords@.take(coords@.len() as int) =~= coords@);
    }
}

/// Copies of the cells that lie outside `region`, in order.
pub fn cells_outside(cells: &Vec<FusedVoxelCell>, region: EditBounds) -> (kept: Vec<FusedVoxelCell>)
    requires
        sorted_by_loc(cells@),
    ensures
        sorted_by_loc(kept@),
        cells_view(kept@) == outside(cells_view(cells@), region),
{
    let mut kept: Vec<FusedVoxelCell> = Vec::new();
    let ghost mut last: int = -1;
    let mut i: usize = 0;
    proof {
        assert(cells@.take(0) =~= Seq::<FusedVoxelCell>::empty());
        assert(cells_view(kept@) =~= outside(cells_view(cells@.take(0)), region));
    }
    while i < cells.len()
        invariant
            i <= cells@.len(),
            sorted_by_loc(cells@),
            sorted_by_loc(kept@),
            -1 <= last < i,
            kept@.len() > 0 ==> last >= 0 && kept@.last().coordinate == cells@[last].coordinate,
            cells_view(kept@) == outside(cells_view(cells@.take(i as int)), region),
        decreases cells@.len() - i,
    {
        proof {
            lemma_take_map(cells@, i as int);
            lemma_view_insert(cells@.take(i as int), cells@.take(i + 1), cells@[i as int]);
        }
        if !region.contains(cells[i].coordinate) {
            let copy = copy_cell(&cells[i]);
            let ghost before = kept@;
            proof {
                if kept@.len() > 0 {
                    assert(crate::voxel::coord_lt(cells@[last].loc(), cells@[i as int].loc()));
                }
                lemma_push_map(kept@, copy);
            }
            kept.push(copy);
            proof {
                lemma_view_insert(before, kept@, copy);
                last = i as int;
                assert(cells_view(kept@) =~= outside(cells_view(cells@.take(i + 1)), region));
            }
        } else {
            proof {
                assert(cells_view(kept@) =~= outside(cells_view(cells@.take(i + 1)), region));
            }
        }
        i = i + 1;
    }
    proof {
        assert(cells@.take(cells@.len() as int) =~= cells@);
    }
    kept
}

/// The cells of a frame keyed by coordinate, or `None` when two cells share
/// a coordinate.
pub fn sorted_cells(voxels: &Vec<FusedVoxelCell>) -> (cells: Option<Vec<FusedVoxelCell>>)
    ensures
        cells is Some <==> distinct_coordinates(voxels@),
        cells matches Some(v) ==> sorted_by_loc(v@) && cells_view(v@) == frame_view(voxels@),
{
    let mut cells: Vec<FusedVoxelCell> = Vec::new();
    let mut i: usize = 0;
    proof {
        assert(voxels@.take(0) =~= Seq::<FusedVoxelCell>::empty());
        assert(cells_view(cells@) =~= frame_view(voxels@.take(0)));
    }
    while i < voxels.len()
        invariant
            i <= voxels@.len(),
            sorted_by_loc(cells@),
            cells_view(cells@) == frame_view(voxels@.take(i as int)),
            distinct_coordinates(voxels@.take(i as int)),
        decreases voxels@.len() - i,
    {
        let c = voxels[i].coordinate;
        proof {
            assert(voxels@.take(i + 1).drop_last() =~= voxels@.take(i as int));
            lemma_frame_view_domain(voxels@.take(i as int), c);
        }
        if contains(&cells, c) {
            proof {
                assert(cells_view(cells@).contains_key(c));
                let j = choose|j: int| 0 <= j < voxels@.take(i as int).len() && #[trigger] voxels@.take(i as int)[j].coordinate == c;
                assert(voxels@[j].coordinate == voxels@[i as int].coordinate);
            }
            return None;
        }
        let copy = copy_cell(&voxels[i]);
        let ghost before = cells@;
        insert_absent(&mut cells, copy);
        proof {
            lemma_view_insert(before, cells@, copy);
            let tn = voxels@.take(i + 1);
            assert forall|a: int, b: int| 0 <= a < b < tn.len() implies #[trigger] tn[a].coordinate != #[trigger] tn[b].coordinate by {
                if b == i {
                    if voxels@[a].coordinate == c {
                        assert(voxels@.take(i as int)[a].coordinate == c);
                    }
                } else {
                    assert(voxels@.take(i as int)[a] == voxels@[a] && voxels@.take(i as int)[b] == voxels@[b]);
                }
            }
        }
        i = i + 1;
    }
    proof {
        assert(voxels@.take(voxels@.len() as int) =~= voxels@);
    }
    Some(cells)
}

/// The frame's cells keyed by coordinate, later cells replacing earlier ones.
pub fn frame_cells(voxels: &Vec<FusedVoxelCell>) -> (cells: Vec<FusedVoxelCell>)
    ensures
        sorted_by_loc(cells@),
        cells_view(cells@) == frame_view(voxels@),
{
    let mut cells: Vec<FusedVoxelCell> = Vec::new();
    let mut i: usize = 0;
    proof {
        assert(voxels@.take(0) =~= Seq::<FusedVoxelCell>::empty());
        assert(cells_view(cells@) =~= frame_view(voxels@.take(0)));
    }
    while i < voxels.len()
        invariant
            i <= voxels@.len(),
            sorted_by_loc(cells@),
            cells_view(cells@) == frame_view(voxels@.take(i as int)),
        decreases voxels@.len() - i,
    {
        let copy = copy_cell(&voxels[i]);
        let ghost before = cells@;
        put(&mut cells, copy);
        proof {
            lemma_view_insert(before, cells@, copy);
            assert(voxels@.take(i + 1).drop_last() =~= voxels@.take(i as int));
        }
        i = i + 1;
    }
    proof {
        assert(voxels@.take(voxels@.len() as int) =~= voxels@);
    }
    cells
}

} // verus!
