//! Canonical provenance of a frame's cells: for each `(part, source voxel)`
//! identity, the coordinates (and materials) that carry it.

use vstd::prelude::*;
use vstd::string::StringExecFns;

use crate::cellmap::{
    contains, insert_absent, lemma_insert_map, lemma_map_at, lemma_update_map, located_map, search,
    sorted_by_loc, Located,
};
use crate::cleanup::{fault, EditError, Fault};
use crate::fusion::{FusedVoxelCell, FusedVoxelOrigin};
use crate::text::{coord_string, coord_text, decimal_text, decimal_u64};

verus! {

/// The canonical identity a cell carries, if any.
pub open spec fn canonical_id(cell: FusedVoxelCell) -> Option<(u32, u32)> {
    match cell.origin {
        FusedVoxelOrigin::Canonical { part_id, source_voxel_index } => Some((part_id, source_voxel_index)),
        _ => None,
    }
}

/// Cell `i` of `s` carries identity `id` at coordinate `c`.
pub open spec fn holds(s: Seq<FusedVoxelCell>, id: (u32, u32), c: [i64; 3], i: int) -> bool {
    0 <= i < s.len() && canonical_id(s[i]) == Some(id) && s[i].coordinate == c
}

/// The coordinates (with materials) that carry identity `id`.
pub open spec fn footprint(s: Seq<FusedVoxelCell>, id: (u32, u32)) -> Map<[i64; 3], u16> {
    Map::new(
        |c: [i64; 3]| exists|i: int| #[trigger] holds(s, id, c, i),
        |c: [i64; 3]| s[choose|i: int| #[trigger] holds(s, id, c, i)].material_slot,
    )
}

/// Identity to footprint, for every identity that some cell carries.
pub open spec fn origin_view(s: Seq<FusedVoxelCell>) -> Map<(u32, u32), Map<[i64; 3], u16>> {
    Map::new(
        |id: (u32, u32)| exists|i: int| 0 <= i < s.len() && #[trigger] canonical_id(s[i]) == Some(id),
        |id: (u32, u32)| footprint(s, id),
    )
}

/// Cell `j` repeats the identity and coordinate of an earlier cell.
pub open spec fn origin_repeat(s: Seq<FusedVoxelCell>, j: int) -> bool {
    &&& 0 <= j < s.len()
    &&& canonical_id(s[j]) is Some
    &&& exists|i: int| 0 <= i < j && #[trigger] canonical_id(s[i]) == canonical_id(s[j]) && s[i].coordinate == s[j].coordinate
}

pub open spec fn origins_distinct(s: Seq<FusedVoxelCell>) -> bool {
    forall|j: int| !#[trigger] origin_repeat(s, j)
}

/// The first repeating cell.
#[verifier::opaque]
pub open spec fn first_repeat(s: Seq<FusedVoxelCell>) -> int {
    choose|j: int| origin_repeat(s, j) && forall|k: int| 0 <= k < j ==> !#[trigger] origin_repeat(s, k)
}

/// Debug-style text of an identity: `(part, source)`.
pub open spec fn id_text(id: (u32, u32)) -> Seq<char> {
    "("@ + decimal_text(id.0 as int) + ", "@ + decimal_text(id.1 as int) + ")"@
}

pub open spec fn repeat_fault(s: Seq<FusedVoxelCell>) -> Fault {
    let j = first_repeat(s);
    fault(
        "edit.duplicateCanonicalIdentity",
        "voxels"@,
        "canonical identity "@ + id_text(canonical_id(s[j]).unwrap()) + " repeats occupied coordinate "@ + coord_text(s[j].coordinate),
    )
}

pub fn id_string(part: u32, source: u32) -> (text: String)
    ensures
        text@ == id_text((part, source)),
{
    let mut text = String::from_str("(");
    text.append(decimal_u64(part as u64).as_str());
    text.append(", ");
    text.append(decimal_u64(source as u64).as_str());
    text.append(")");
    text
}

/// One footprint entry: a coordinate and its material.
impl Located for ([i64; 3], u16) {
    open spec fn loc(&self) -> [i64; 3] {
        self.0
    }

    fn location(&self) -> (c: [i64; 3]) {
        self.0
    }
}

/// The coordinates of one canonical identity, ascending.
#[derive(Debug)]
pub struct OriginEntry {
    pub part_id: u32,
    pub source_voxel_index: u32,
    pub footprint: Vec<([i64; 3], u16)>,
}

/// The ordering key of an identity.
pub open spec fn id_key(id: (u32, u32)) -> [i64; 3] {
    [id.0 as i64, id.1 as i64, 0i64]
}

impl Located for OriginEntry {
    open spec fn loc(&self) -> [i64; 3] {
        id_key((self.part_id, self.source_voxel_index))
    }

    fn location(&self) -> (c: [i64; 3]) {
        let c = [self.part_id as i64, self.source_voxel_index as i64, 0];
        proof {
            crate::voxel::lemma_coord_eq(c, id_key((self.part_id, self.source_voxel_index)));
        }
        c
    }
}

/// Coordinate to material of an entry.
pub open spec fn entry_map(e: OriginEntry) -> Map<[i64; 3], u16> {
    Map::new(|c: [i64; 3]| located_map(e.footprint@).contains_key(c), |c: [i64; 3]| located_map(e.footprint@)[c].1)
}

/// Identity to footprint, as an index lists it.
pub open spec fn index_view(ix: Seq<OriginEntry>) -> Map<(u32, u32), Map<[i64; 3], u16>> {
    Map::new(
        |id: (u32, u32)| located_map(ix).contains_key(id_key(id)),
        |id: (u32, u32)| entry_map(located_map(ix)[id_key(id)]),
    )
}

/// Sorted by identity, every footprint sorted by coordinate.
pub open spec fn index_wf(ix: Seq<OriginEntry>) -> bool {
    &&& sorted_by_loc(ix)
    &&& forall|k: int| 0 <= k < ix.len() ==> sorted_by_loc(#[trigger] ix[k].footprint@)
}

proof fn lemma_id_key(a: (u32, u32), b: (u32, u32))
    ensures
        id_key(a) == id_key(b) <==> a == b,
{
    crate::voxel::lemma_coord_eq(id_key(a), id_key(b));
}

proof fn lemma_origin_push(s: Seq<FusedVoxelCell>, x: FusedVoxelCell)
    requires
        canonical_id(x) matches Some(id) ==> !footprint(s, id).contains_key(x.coordinate),
        origins_distinct(s),
    ensures
        canonical_id(x) is None ==> origin_view(s.push(x)) == origin_view(s),
        canonical_id(x) matches Some(id) ==> origin_view(s.push(x)) == origin_view(s).insert(
            id,
            footprint(s, id).insert(x.coordinate, x.material_slot),
        ),
        origins_distinct(s.push(x)),
{
    let t = s.push(x);
    let n = s.len() as int;
    assert forall|j: int| !#[trigger] origin_repeat(t, j) by {
        if origin_repeat(t, j) {
            let i = choose|i: int| 0 <= i < j && #[trigger] canonical_id(t[i]) == canonical_id(t[j]) && t[i].coordinate == t[j].coordinate;
            if j < n {
                assert(t[i] == s[i] && t[j] == s[j]);
                assert(origin_repeat(s, j));
            } else {
                assert(t[i] == s[i]);
                assert(holds(s, canonical_id(x).unwrap(), x.coordinate, i));
            }
        }
    }
    assert forall|id: (u32, u32), c: [i64; 3]| #[trigger] footprint(t, id).contains_key(c) <==> (footprint(s, id).contains_key(c) || (canonical_id(x) == Some(id) && c == x.coordinate)) by {
        if footprint(t, id).contains_key(c) {
            let i = choose|i: int| #[trigger] holds(t, id, c, i);
            if i < n {
                assert(holds(s, id, c, i));
            }
        }
        if footprint(s, id).contains_key(c) {
            let i = choose|i: int| #[trigger] holds(s, id, c, i);
            assert(holds(t, id, c, i));
        }
        if canonical_id(x) == Some(id) && c == x.coordinate {
            assert(holds(t, id, c, n));
        }
    }
    assert forall|id: (u32, u32), c: [i64; 3]| #[trigger] footprint(t, id).contains_key(c) implies footprint(t, id)[c] == (if canonical_id(x) == Some(id) && c == x.coordinate { x.material_slot } else { footprint(s, id)[c] }) by {
        let i = choose|i: int| #[trigger] holds(t, id, c, i);
        if canonical_id(x) == Some(id) && c == x.coordinate {
            if i < n {
                assert(holds(s, id, c, i));
            }
        } else {
            assert(i < n);
            assert(holds(s, id, c, i));
            let i2 = choose|i2: int| #[trigger] holds(s, id, c, i2);
            if i != i2 {
                if i < i2 {
                    assert(origin_repeat(s, i2));
                } else {
                    assert(origin_repeat(s, i));
                }
            }
        }
    }
    match canonical_id(x) {
        None => {
            assert forall|id: (u32, u32)| #[trigger] origin_view(t).contains_key(id) == origin_view(s).contains_key(id) by {
                if origin_view(t).contains_key(id) {
                    let i = choose|i: int| 0 <= i < t.len() && #[trigger] canonical_id(t[i]) == Some(id);
                    assert(t[i] == s[i]);
                }
                if origin_view(s).contains_key(id) {
                    let i = choose|i: int| 0 <= i < s.len() && #[trigger] canonical_id(s[i]) == Some(id);
                    assert(t[i] == s[i]);
                }
            }
            assert forall|id: (u32, u32)| #[trigger] origin_view(t).contains_key(id) implies origin_view(t)[id] == origin_view(s)[id] by {
                assert(footprint(t, id) =~= footprint(s, id));
            }
            assert(origin_view(t) =~= origin_view(s));
        },
        Some(xid) => {
            let v2 = origin_view(s).insert(xid, footprint(s, xid).insert(x.coordinate, x.material_slot));
            assert forall|id: (u32, u32)| #[trigger] origin_view(t).contains_key(id) == v2.contains_key(id) by {
                if origin_view(t).contains_key(id) {
                    let i = choose|i: int| 0 <= i < t.len() && #[trigger] canonical_id(t[i]) == Some(id);
                    if i < n {
                        assert(t[i] == s[i]);
                    }
                }
                if origin_view(s).contains_key(id) {
                    let i = choose|i: int| 0 <= i < s.len() && #[trigger] canonical_id(s[i]) == Some(id);
                    assert(t[i] == s[i]);
                }
                if id == xid {
                    assert(canonical_id(t[n]) == Some(id));
                }
            }
            assert forall|id: (u32, u32)| #[trigger] origin_view(t).contains_key(id) implies origin_view(t)[id] == v2[id] by {
                if id == xid {
                    assert(footprint(t, id) =~= footprint(s, xid).insert(x.coordinate, x.material_slot));
                } else {
                    assert(footprint(t, id) =~= footprint(s, id));
                }
            }
            assert(origin_view(t) =~= v2);
        },
    }
}

fn copy_footprint(v: &Vec<([i64; 3], u16)>) -> (copy: Vec<([i64; 3], u16)>)
    ensures
        copy@ == v@,
{
    let mut copy: Vec<([i64; 3], u16)> = Vec::new();
    let mut i: usize = 0;
    while i < v.len()
        invariant
            i <= v@.len(),
            copy@ == v@.take(i as int),
        decreases v@.len() - i,
    {
        copy.push(v[i]);
        proof {
            assert(v@.take(i + 1) =~= v@.take(i as int).push(v@[i as int]));
        }
        i = i + 1;
    }
    assert(v@.take(v@.len() as int) =~= v@);
    copy
}

proof fn lemma_index_update(ix: Seq<OriginEntry>, t: Seq<OriginEntry>, e: OriginEntry)
    requires
        located_map(t) == located_map(ix).insert(e.loc(), e),
    ensures
        index_view(t) == index_view(ix).insert((e.part_id, e.source_voxel_index), entry_map(e)),
{
    let id = (e.part_id, e.source_voxel_index);
    assert forall|j: (u32, u32)| #[trigger] index_view(t).contains_key(j) == index_view(ix).insert(id, entry_map(e)).contains_key(j) by {
        lemma_id_key(j, id);
    }
    assert forall|j: (u32, u32)| #[trigger] index_view(t).contains_key(j) implies index_view(t)[j] == index_view(ix).insert(id, entry_map(e))[j] by {
        lemma_id_key(j, id);
    }
    assert(index_view(t) =~= index_view(ix).insert(id, entry_map(e)));
}

/// The canonical provenance of `cells`, or the first repeated identity and
/// coordinate.
pub fn origin_index(cells: &Vec<FusedVoxelCell>) -> (index: Result<Vec<OriginEntry>, EditError>)
    ensures
        index is Ok <==> origins_distinct(cells@),
        index matches Ok(ix) ==> index_wf(ix@) && index_view(ix@) == origin_view(cells@),
        index matches Err(e) ==> e.is_fault(repeat_fault(cells@)) && e.spec_operation_index() is None,
{
    let mut ix: Vec<OriginEntry> = Vec::new();
    let mut i: usize = 0;
    proof {
        assert(cells@.take(0) =~= Seq::<FusedVoxelCell>::empty());
        assert(index_view(ix@) =~= origin_view(cells@.take(0)));
    }
    while i < cells.len()
        invariant
            i <= cells@.len(),
            index_wf(ix@),
            index_view(ix@) == origin_view(cells@.take(i as int)),
            origins_distinct(cells@.take(i as int)),
        decreases cells@.len() - i,
    {
        let ghost prefix = cells@.take(i as int);
        proof {
            assert(cells@.take(i + 1) =~= prefix.push(cells@[i as int]));
        }
        let c = cells[i].coordinate;
        let material = cells[i].material_slot;
        match &cells[i].origin {
            FusedVoxelOrigin::Canonical { part_id, source_voxel_index } => {
                let id = (*part_id, *source_voxel_index);
                let key = [*part_id as i64, *source_voxel_index as i64, 0];
                proof {
                    crate::voxel::lemma_coord_eq(key, id_key(id));
                }
                match search(&ix, key) {
                    Ok(pos) => {
                        proof {
                            lemma_map_at(ix@, pos as int);
                            lemma_id_key((ix@[pos as int].part_id, ix@[pos as int].source_voxel_index), id);
                            assert(index_view(ix@)[id] == footprint(prefix, id));
                            assert(entry_map(ix@[pos as int]) == footprint(prefix, id));
                        }
                        if contains(&ix[pos].footprint, c) {
                            proof {
                                assert(footprint(prefix, id).contains_key(c));
                                let j = choose|j: int| #[trigger] holds(prefix, id, c, j);
                                assert(origin_repeat(cells@, i as int));
                                assert forall|k: int| 0 <= k < i implies !#[trigger] origin_repeat(cells@, k) by {
                                    if origin_repeat(cells@, k) {
                                        let j2 = choose|j2: int| 0 <= j2 < k && #[trigger] canonical_id(cells@[j2]) == canonical_id(cells@[k]) && cells@[j2].coordinate == cells@[k].coordinate;
                                        assert(prefix[j2] == cells@[j2] && prefix[k] == cells@[k]);
                                        assert(origin_repeat(prefix, k));
                                    }
                                }
                                reveal(first_repeat);
                                let f = first_repeat(cells@);
                                if f < i {
                                } else if f > i {
                                }
                            }
                            let mut message = String::from_str("canonical identity ");
                            message.append(id_string(*part_id, *source_voxel_index).as_str());
                            message.append(" repeats occupied coordinate ");
                            message.append(coord_string(c).as_str());
                            return Err(EditError::new("edit.duplicateCanonicalIdentity", "voxels", message));
                        }
                        let mut fp = copy_footprint(&ix[pos].footprint);
                        let ghost fp0 = fp@;
                        proof {
                            assert(sorted_by_loc(ix@[pos as int].footprint@));
                        }
                        insert_absent(&mut fp, (c, material));
                        let entry = OriginEntry { part_id: *part_id, source_voxel_index: *source_voxel_index, footprint: fp };
                        let ghost before = ix@;
                        proof {
                            assert(entry.loc() == key);
                            lemma_update_map(ix@, pos as int, entry);
                            assert(entry_map(entry) =~= footprint(prefix, id).insert(c, material));
                            lemma_origin_push(prefix, cells@[i as int]);
                        }
                        ix.set(pos, entry);
                        proof {
                            lemma_index_update(before, ix@, entry);
                            assert forall|k: int| 0 <= k < ix@.len() implies sorted_by_loc(#[trigger] ix@[k].footprint@) by {
                                if k != pos {
                                    assert(ix@[k] == before[k]);
                                }
                            }
                            assert(index_view(ix@) =~= origin_view(cells@.take(i + 1)));
                        }
                    },
                    Err(pos) => {
                        let fp = vec![(c, material)];
                        let entry = OriginEntry { part_id: *part_id, source_voxel_index: *source_voxel_index, footprint: fp };
                        let ghost before = ix@;
                        proof {
                            assert(entry.loc() == key);
                            assert(!index_view(ix@).contains_key(id));
                            assert(!origin_view(prefix).contains_key(id));
                            assert(footprint(prefix, id) =~= Map::<[i64; 3], u16>::empty()) by {
                                assert forall|cc: [i64; 3]| !#[trigger] footprint(prefix, id).contains_key(cc) by {
                                    if footprint(prefix, id).contains_key(cc) {
                                        let j = choose|j: int| #[trigger] holds(prefix, id, cc, j);
                                        assert(canonical_id(prefix[j]) == Some(id));
                                    }
                                }
                            }
                            lemma_insert_map(ix@, pos as int, entry);
                            assert(fp@ =~= seq![(c, material)]);
                            assert(located_map(fp@) =~= Map::<[i64; 3], ([i64; 3], u16)>::empty().insert(c, (c, material))) by {
                                crate::cellmap::lemma_map_at(fp@, 0);
                                assert forall|cc: [i64; 3]| #[trigger] located_map(fp@).contains_key(cc) implies cc == c by {
                                    let j = choose|j: int| 0 <= j < fp@.len() && #[trigger] fp@[j].loc() == cc;
                                }
                            }
                            assert(entry_map(entry) =~= footprint(prefix, id).insert(c, material));
                            lemma_origin_push(prefix, cells@[i as int]);
                        }
                        ix.insert(pos, entry);
                        proof {
                            lemma_index_update(before, ix@, entry);
                            assert forall|k: int| 0 <= k < ix@.len() implies sorted_by_loc(#[trigger] ix@[k].footprint@) by {
                                if k < pos {
                                    assert(ix@[k] == before[k]);
                                } else if k > pos {
                                    assert(ix@[k] == before[k - 1]);
                                }
                            }
                            assert(index_view(ix@) =~= origin_view(cells@.take(i + 1)));
                        }
                    },
                }
            },
            _ => {
                proof {
                    lemma_origin_push(prefix, cells@[i as int]);
                }
            },
        }
        i = i + 1;
    }
    proof {
        assert(cells@.take(cells@.len() as int) =~= cells@);
    }
    Ok(ix)
}

} // verus!
