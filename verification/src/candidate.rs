//! Admission checks on an edited frame: required anchors, canonical
//! identities, protected voxels and parts, and required connectivity.

use vstd::prelude::*;
use vstd::string::StringExecFns;

use crate::cellmap::{contains, get_at, insert_absent, lemma_map_at, located_map, search, sorted_by_loc, Located};
use crate::cellstore::listed;
use crate::cleanup::{fault, EditError, Fault};
use crate::connect::{first_group, least};
use crate::fusion::{FusedCellView, FusedFrame, FusedVoxelCell, FusedVoxelOrigin};
use crate::origins::{
    canonical_id, entry_map, id_key, id_text, id_string, index_view, index_wf, origin_index, origin_view,
    origins_distinct, repeat_fault, OriginEntry,
};
use crate::region::{component_of, lemma_listed_occupies};
use crate::replay::{anchor_map, has_anchor, EditPolicy};
use crate::text::{decimal_text, decimal_u64};
use crate::voxel::{coord_lt, lemma_coord_lt_total, seq_max_axis, seq_min_axis, spec_bounds};

verus! {

pub proof fn lemma_sorted_len<T: Located>(v: Seq<T>)
    requires
        sorted_by_loc(v),
    ensures
        located_map(v).dom().finite(),
        located_map(v).dom().len() == v.len(),
{
    let locs = Seq::new(v.len(), |i: int| v[i].loc());
    assert(locs.no_duplicates()) by {
        assert forall|i: int, j: int| 0 <= i < locs.len() && 0 <= j < locs.len() && i != j implies locs[i] != locs[j] by {
            if i < j {
                assert(coord_lt(v[i].loc(), v[j].loc()));
            } else {
                assert(coord_lt(v[j].loc(), v[i].loc()));
            }
            lemma_coord_lt_total(locs[i], locs[j]);
        }
    }
    locs.unique_seq_to_set();
    vstd::seq_lib::seq_to_set_is_finite(locs);
    assert forall|c: [i64; 3]| #[trigger] located_map(v).dom().contains(c) <==> locs.to_set().contains(c) by {
        if located_map(v).dom().contains(c) {
            let i = choose|i: int| 0 <= i < v.len() && #[trigger] v[i].loc() == c;
            assert(locs[i] == c);
        }
        if locs.to_set().contains(c) {
            let i = choose|i: int| 0 <= i < locs.len() && locs[i] == c;
            assert(v[i].loc() == c);
        }
    }
    assert(located_map(v).dom() =~= locs.to_set());
}

/// Number of coordinates an identity occupies (zero when absent).
pub open spec fn count_of(v: Map<(u32, u32), Map<[i64; 3], u16>>, id: (u32, u32)) -> nat {
    if v.contains_key(id) {
        v[id].len()
    } else {
        0
    }
}

pub open spec fn max_nat(a: nat, b: nat) -> nat {
    if a >= b { a } else { b }
}

pub open spec fn optional_count(v: Option<Map<(u32, u32), Map<[i64; 3], u16>>>, id: (u32, u32)) -> nat {
    match v {
        Some(m) => count_of(m, id),
        None => 0,
    }
}

/// How many coordinates an identity may occupy: as many as the base or a
/// neighbor frame gives it, and at least one.
pub open spec fn allowed_count(
    base: Map<(u32, u32), Map<[i64; 3], u16>>,
    previous: Option<Map<(u32, u32), Map<[i64; 3], u16>>>,
    next: Option<Map<(u32, u32), Map<[i64; 3], u16>>>,
    id: (u32, u32),
) -> nat {
    max_nat(max_nat(max_nat(count_of(base, id), optional_count(previous, id)), optional_count(next, id)), 1)
}

pub open spec fn over_quota(
    candidate: Map<(u32, u32), Map<[i64; 3], u16>>,
    base: Map<(u32, u32), Map<[i64; 3], u16>>,
    previous: Option<Map<(u32, u32), Map<[i64; 3], u16>>>,
    next: Option<Map<(u32, u32), Map<[i64; 3], u16>>>,
    id: (u32, u32),
) -> bool {
    candidate.contains_key(id) && count_of(candidate, id) > allowed_count(base, previous, next, id)
}

/// The lowest identity (part, then source voxel) over its quota.
#[verifier::opaque]
pub open spec fn first_over_quota(
    candidate: Map<(u32, u32), Map<[i64; 3], u16>>,
    base: Map<(u32, u32), Map<[i64; 3], u16>>,
    previous: Option<Map<(u32, u32), Map<[i64; 3], u16>>>,
    next: Option<Map<(u32, u32), Map<[i64; 3], u16>>>,
) -> (u32, u32) {
    choose|id: (u32, u32)|
        over_quota(candidate, base, previous, next, id) && forall|other: (u32, u32)|
            #[trigger] over_quota(candidate, base, previous, next, other) ==> !coord_lt(id_key(other), id_key(id))
}

pub open spec fn quota_fault(
    candidate: Map<(u32, u32), Map<[i64; 3], u16>>,
    base: Map<(u32, u32), Map<[i64; 3], u16>>,
    previous: Option<Map<(u32, u32), Map<[i64; 3], u16>>>,
    next: Option<Map<(u32, u32), Map<[i64; 3], u16>>>,
) -> Option<Fault> {
    if exists|id: (u32, u32)| #[trigger] over_quota(candidate, base, previous, next, id) {
        let id = first_over_quota(candidate, base, previous, next);
        Some(fault(
            "edit.duplicateCanonicalIdentity",
            "voxels"@,
            "canonical identity "@ + id_text(id) + " has "@ + decimal_text(count_of(candidate, id) as int)
                + " occupied records; authoritative base/neighbor frames allow at most "@ + decimal_text(
                allowed_count(base, previous, next, id) as int,
            ),
        ))
    } else {
        None
    }
}

/// Number of coordinates the index gives an identity.
fn index_count(ix: &Vec<OriginEntry>, part: u32, source: u32) -> (count: usize)
    requires
        index_wf(ix@),
    ensures
        count == count_of(index_view(ix@), (part, source)),
{
    let key = [part as i64, source as i64, 0];
    proof {
        crate::voxel::lemma_coord_eq(key, id_key((part, source)));
    }
    match search(ix, key) {
        Ok(pos) => {
            proof {
                lemma_map_at(ix@, pos as int);
                assert(sorted_by_loc(ix@[pos as int].footprint@));
                lemma_sorted_len(ix@[pos as int].footprint@);
                assert(entry_map(ix@[pos as int]).dom() =~= located_map(ix@[pos as int].footprint@).dom());
            }
            ix[pos].footprint.len()
        },
        Err(_) => 0,
    }
}

fn optional_index_count(ix: &Option<Vec<OriginEntry>>, part: u32, source: u32) -> (count: usize)
    requires
        ix matches Some(v) ==> index_wf(v@),
    ensures
        count == optional_count(
            match ix {
                Some(v) => Some(index_view(v@)),
                None => None,
            },
            (part, source),
        ),
{
    match ix {
        Some(v) => index_count(v, part, source),
        None => 0,
    }
}

proof fn lemma_first_over(
    cix: Seq<OriginEntry>,
    base: Map<(u32, u32), Map<[i64; 3], u16>>,
    previous: Option<Map<(u32, u32), Map<[i64; 3], u16>>>,
    next: Option<Map<(u32, u32), Map<[i64; 3], u16>>>,
    k: int,
)
    requires
        sorted_by_loc(cix),
        0 <= k < cix.len(),
        over_quota(index_view(cix), base, previous, next, (cix[k].part_id, cix[k].source_voxel_index)),
        forall|j: int| 0 <= j < k ==> !over_quota(index_view(cix), base, previous, next, (#[trigger] cix[j].part_id, cix[j].source_voxel_index)),
    ensures
        first_over_quota(index_view(cix), base, previous, next) == (cix[k].part_id, cix[k].source_voxel_index),
{
    let v = index_view(cix);
    let id = (cix[k].part_id, cix[k].source_voxel_index);
    assert forall|other: (u32, u32)| #[trigger] over_quota(v, base, previous, next, other) implies !coord_lt(id_key(other), id_key(id)) by {
        let j = crate::cellmap::index_at(cix, id_key(other));
        assert(cix[j].loc() == id_key(other));
        crate::voxel::lemma_coord_eq(id_key(other), id_key((cix[j].part_id, cix[j].source_voxel_index)));
        assert(other == (cix[j].part_id, cix[j].source_voxel_index));
        if j > k {
            assert(coord_lt(cix[k].loc(), cix[j].loc()));
        }
        lemma_coord_lt_total(id_key(other), id_key(id));
    }
    reveal(first_over_quota);
    let f = first_over_quota(v, base, previous, next);
    lemma_coord_lt_total(id_key(f), id_key(id));
    crate::voxel::lemma_coord_eq(id_key(f), id_key(id));
}

/// The first identity of the candidate index over its quota, if any.
fn check_quota(
    cix: &Vec<OriginEntry>,
    bix: &Vec<OriginEntry>,
    pix: &Option<Vec<OriginEntry>>,
    nix: &Option<Vec<OriginEntry>>,
) -> (result: Result<(), EditError>)
    requires
        index_wf(cix@),
        index_wf(bix@),
        pix matches Some(v) ==> index_wf(v@),
        nix matches Some(v) ==> index_wf(v@),
    ensures
        ({
            let q = quota_fault(
                index_view(cix@),
                index_view(bix@),
                match pix {
                    Some(v) => Some(index_view(v@)),
                    None => None,
                },
                match nix {
                    Some(v) => Some(index_view(v@)),
                    None => None,
                },
            );
            &&& result is Ok <==> q is None
            &&& result matches Err(e) ==> q matches Some(f) && e.is_fault(f) && e.spec_operation_index() is None
        }),
{
    let ghost cv = index_view(cix@);
    let ghost bv = index_view(bix@);
    let ghost pv = match pix {
        Some(v) => Some(index_view(v@)),
        None => None,
    };
    let ghost nv = match nix {
        Some(v) => Some(index_view(v@)),
        None => None,
    };
    let mut k: usize = 0;
    while k < cix.len()
        invariant
            k <= cix@.len(),
            index_wf(cix@),
            index_wf(bix@),
            pix matches Some(v) ==> index_wf(v@),
            nix matches Some(v) ==> index_wf(v@),
            cv == index_view(cix@),
            bv == index_view(bix@),
            pv == (match pix {
                Some(v) => Some(index_view(v@)),
                None => None,
            }),
            nv == (match nix {
                Some(v) => Some(index_view(v@)),
                None => None,
            }),
            forall|j: int| 0 <= j < k ==> !over_quota(cv, bv, pv, nv, (#[trigger] cix@[j].part_id, cix@[j].source_voxel_index)),
        decreases cix@.len() - k,
    {
        let part = cix[k].part_id;
        let source = cix[k].source_voxel_index;
        let count = cix[k].footprint.len();
        let b = index_count(bix, part, source);
        let p = optional_index_count(pix, part, source);
        let n = optional_index_count(nix, part, source);
        let mut allowed = b;
        if p > allowed {
            allowed = p;
        }
        if n > allowed {
            allowed = n;
        }
        if allowed < 1 {
            allowed = 1;
        }
        proof {
            lemma_map_at(cix@, k as int);
            let id = (part, source);
            assert(cix@[k as int].loc() == id_key(id));
            assert(cv.contains_key(id));
            assert(sorted_by_loc(cix@[k as int].footprint@));
            lemma_sorted_len(cix@[k as int].footprint@);
            assert(entry_map(cix@[k as int]).dom() =~= located_map(cix@[k as int].footprint@).dom());
            assert(count == count_of(cv, id));
            assert(allowed == allowed_count(bv, pv, nv, id));
        }
        if count > allowed {
            proof {
                lemma_first_over(cix@, bv, pv, nv, k as int);
                assert(over_quota(cv, bv, pv, nv, (part, source)));
                assert(first_over_quota(cv, bv, pv, nv) == (part, source));
            }
            let mut message = String::from_str("canonical identity ");
            message.append(id_string(part, source).as_str());
            message.append(" has ");
            message.append(decimal_u64(count as u64).as_str());
            message.append(" occupied records; authoritative base/neighbor frames allow at most ");
            message.append(decimal_u64(allowed as u64).as_str());
            proof {
                let f = fault(
                    "edit.duplicateCanonicalIdentity",
                    "voxels"@,
                    "canonical identity "@ + id_text((part, source)) + " has "@ + decimal_text(count_of(cv, (part, source)) as int)
                        + " occupied records; authoritative base/neighbor frames allow at most "@ + decimal_text(
                        allowed_count(bv, pv, nv, (part, source)) as int,
                    ),
                );
                assert(quota_fault(cv, bv, pv, nv) == Some(f));
                assert(message@ == f.message);
            }
            return Err(EditError::new("edit.duplicateCanonicalIdentity", "voxels", message));
        }
        k = k + 1;
    }
    proof {
        assert forall|id: (u32, u32)| !#[trigger] over_quota(cv, bv, pv, nv, id) by {
            if over_quota(cv, bv, pv, nv, id) {
                let j = crate::cellmap::index_at(cix@, id_key(id));
                assert(cix@[j].loc() == id_key(id));
                crate::voxel::lemma_coord_eq(id_key(id), id_key((cix@[j].part_id, cix@[j].source_voxel_index)));
            }
        }
    }
    Ok(())
}

} // verus!

verus! {

// ---------------------------------------------------------------------------
// Required anchors.

/// The first required anchor (in policy order) that the anchors lack.
pub open spec fn missing_from(required: Seq<String>, anchors: Map<Seq<char>, [i64; 3]>, k: int) -> Option<Seq<char>>
    decreases required.len() - k,
{
    if k >= required.len() || k < 0 {
        None
    } else if !anchors.contains_key(required[k]@) {
        Some(required[k]@)
    } else {
        missing_from(required, anchors, k + 1)
    }
}

pub open spec fn anchor_fault(policy: EditPolicy, anchors: Map<Seq<char>, [i64; 3]>) -> Option<Fault> {
    match missing_from(policy.required_anchors@, anchors, 0) {
        Some(id) => Some(fault("edit.requiredAnchorMissing", "anchors"@, "required anchor "@ + id + " is missing"@)),
        None => None,
    }
}

fn check_anchors(policy: &EditPolicy, anchors: &Vec<(String, [i64; 3])>) -> (result: Result<(), EditError>)
    ensures
        result is Ok <==> anchor_fault(*policy, anchor_map(anchors@)) is None,
        result matches Err(e) ==> anchor_fault(*policy, anchor_map(anchors@)) matches Some(f) && e.is_fault(f)
            && e.spec_operation_index() is None,
{
    let ghost a = anchor_map(anchors@);
    let mut k: usize = 0;
    while k < policy.required_anchors.len()
        invariant
            k <= policy.required_anchors@.len(),
            a == anchor_map(anchors@),
            missing_from(policy.required_anchors@, a, 0) == missing_from(policy.required_anchors@, a, k as int),
        decreases policy.required_anchors@.len() - k,
    {
        if !has_anchor(anchors, &policy.required_anchors[k]) {
            let mut message = String::from_str("required anchor ");
            message.append(policy.required_anchors[k].as_str());
            message.append(" is missing");
            return Err(EditError::new("edit.requiredAnchorMissing", "anchors", message));
        }
        k = k + 1;
    }
    Ok(())
}

// ---------------------------------------------------------------------------
// Protected canonical voxels.

/// The identity's footprint differs between the two maps (absent counts as
/// different from present).
pub open spec fn origin_changed(c: Map<(u32, u32), Map<[i64; 3], u16>>, b: Map<(u32, u32), Map<[i64; 3], u16>>, id: (u32, u32)) -> bool {
    c.contains_key(id) != b.contains_key(id) || (c.contains_key(id) && c[id] != b[id])
}

/// The first listed identity whose footprint changed.
pub open spec fn changed_from(
    list: Seq<(u32, u32)>,
    c: Map<(u32, u32), Map<[i64; 3], u16>>,
    b: Map<(u32, u32), Map<[i64; 3], u16>>,
    k: int,
) -> Option<(u32, u32)>
    decreases list.len() - k,
{
    if k >= list.len() || k < 0 {
        None
    } else if origin_changed(c, b, list[k]) {
        Some(list[k])
    } else {
        changed_from(list, c, b, k + 1)
    }
}

pub open spec fn protected_origin_fault(
    list: Seq<(u32, u32)>,
    c: Map<(u32, u32), Map<[i64; 3], u16>>,
    b: Map<(u32, u32), Map<[i64; 3], u16>>,
) -> Option<Fault> {
    match changed_from(list, c, b, 0) {
        Some(id) => Some(fault("edit.protectedRegionChanged", "voxels"@, "protected canonical voxel "@ + id_text(id) + " changed"@)),
        None => None,
    }
}

/// Coordinate to material of a footprint list.
pub open spec fn fp_map(v: Seq<([i64; 3], u16)>) -> Map<[i64; 3], u16> {
    Map::new(|c: [i64; 3]| located_map(v).contains_key(c), |c: [i64; 3]| located_map(v)[c].1)
}

fn same_footprint(a: &Vec<([i64; 3], u16)>, b: &Vec<([i64; 3], u16)>) -> (same: bool)
    requires
        sorted_by_loc(a@),
        sorted_by_loc(b@),
    ensures
        same == (fp_map(a@) == fp_map(b@)),
{
    let mut i: usize = 0;
    while i < a.len()
        invariant
            i <= a@.len(),
            sorted_by_loc(a@),
            sorted_by_loc(b@),
            forall|j: int| 0 <= j < i ==> fp_map(b@).contains_key(#[trigger] a@[j].0) && fp_map(b@)[a@[j].0] == a@[j].1,
        decreases a@.len() - i,
    {
        proof {
            lemma_map_at(a@, i as int);
        }
        match get_at(b, a[i].0) {
            Some(entry) => {
                if entry.1 != a[i].1 {
                    proof {
                        assert(fp_map(a@)[a@[i as int].0] == a@[i as int].1);
                    }
                    return false;
                }
                proof {
                    assert(fp_map(b@).contains_key(a@[i as int].0) && fp_map(b@)[a@[i as int].0] == a@[i as int].1);
                }
            },
            None => {
                proof {
                    assert(fp_map(a@).contains_key(a@[i as int].0));
                }
                return false;
            },
        }
        i = i + 1;
    }
    let mut j: usize = 0;
    while j < b.len()
        invariant
            j <= b@.len(),
            sorted_by_loc(a@),
            sorted_by_loc(b@),
            forall|k: int| 0 <= k < a@.len() ==> fp_map(b@).contains_key(#[trigger] a@[k].0) && fp_map(b@)[a@[k].0] == a@[k].1,
            forall|k: int| 0 <= k < j ==> #[trigger] fp_map(a@).contains_key(b@[k].0),
        decreases b@.len() - j,
    {
        proof {
            lemma_map_at(b@, j as int);
        }
        if !contains(a, b[j].0) {
            proof {
                assert(fp_map(b@).contains_key(b@[j as int].0));
            }
            return false;
        }
        j = j + 1;
    }
    proof {
        assert forall|c: [i64; 3]| #[trigger] fp_map(a@).contains_key(c) == fp_map(b@).contains_key(c) by {
            if fp_map(a@).contains_key(c) {
                let k = crate::cellmap::index_at(a@, c);
                lemma_map_at(a@, k);
            }
            if fp_map(b@).contains_key(c) {
                let k = crate::cellmap::index_at(b@, c);
                lemma_map_at(b@, k);
            }
        }
        assert forall|c: [i64; 3]| #[trigger] fp_map(a@).contains_key(c) implies fp_map(a@)[c] == fp_map(b@)[c] by {
            let k = crate::cellmap::index_at(a@, c);
            lemma_map_at(a@, k);
        }
        assert(fp_map(a@) =~= fp_map(b@));
    }
    true
}

fn find_entry<'a>(ix: &'a Vec<OriginEntry>, id: (u32, u32)) -> (found: Option<&'a OriginEntry>)
    requires
        index_wf(ix@),
    ensures
        found is Some <==> index_view(ix@).contains_key(id),
        found matches Some(e) ==> entry_map(*e) == index_view(ix@)[id] && sorted_by_loc(e.footprint@)
            && fp_map(e.footprint@) == entry_map(*e),
{
    let key = [id.0 as i64, id.1 as i64, 0];
    proof {
        crate::voxel::lemma_coord_eq(key, id_key(id));
    }
    match search(ix, key) {
        Ok(pos) => {
            proof {
                lemma_map_at(ix@, pos as int);
                assert(sorted_by_loc(ix@[pos as int].footprint@));
                assert(fp_map(ix@[pos as int].footprint@) =~= entry_map(ix@[pos as int]));
            }
            Some(&ix[pos])
        },
        Err(_) => None,
    }
}

fn check_protected_origins(policy: &EditPolicy, cix: &Vec<OriginEntry>, bix: &Vec<OriginEntry>) -> (result: Result<(), EditError>)
    requires
        index_wf(cix@),
        index_wf(bix@),
    ensures
        result is Ok <==> protected_origin_fault(policy.protected_origins@, index_view(cix@), index_view(bix@)) is None,
        result matches Err(e) ==> protected_origin_fault(policy.protected_origins@, index_view(cix@), index_view(bix@)) matches Some(f)
            && e.is_fault(f) && e.spec_operation_index() is None,
{
    let ghost c = index_view(cix@);
    let ghost b = index_view(bix@);
    let mut k: usize = 0;
    while k < policy.protected_origins.len()
        invariant
            k <= policy.protected_origins@.len(),
            index_wf(cix@),
            index_wf(bix@),
            c == index_view(cix@),
            b == index_view(bix@),
            changed_from(policy.protected_origins@, c, b, 0) == changed_from(policy.protected_origins@, c, b, k as int),
        decreases policy.protected_origins@.len() - k,
    {
        let id = policy.protected_origins[k];
        let changed = match (find_entry(cix, id), find_entry(bix, id)) {
            (Some(x), Some(y)) => !same_footprint(&x.footprint, &y.footprint),
            (None, None) => false,
            _ => true,
        };
        if changed {
            let mut message = String::from_str("protected canonical voxel ");
            message.append(id_string(id.0, id.1).as_str());
            message.append(" changed");
            return Err(EditError::new("edit.protectedRegionChanged", "voxels", message));
        }
        k = k + 1;
    }
    Ok(())
}

} // verus!

verus! {

// ---------------------------------------------------------------------------
// Protected and connected parts.

/// Cell `i` of `s` is a canonical cell of `part` at `c`.
pub open spec fn part_holds(s: Seq<FusedVoxelCell>, part: u32, c: [i64; 3], i: int) -> bool {
    &&& 0 <= i < s.len()
    &&& canonical_id(s[i]) is Some
    &&& canonical_id(s[i]).unwrap().0 == part
    &&& s[i].coordinate == c
}

/// The coordinates of the canonical cells of `part`.
pub open spec fn part_set(s: Seq<FusedVoxelCell>, part: u32) -> Set<[i64; 3]> {
    Set::new(|c: [i64; 3]| exists|i: int| #[trigger] part_holds(s, part, c, i))
}

pub open spec fn is_axis_low(s: Set<[i64; 3]>, a: int, v: int) -> bool {
    (exists|c: [i64; 3]| #[trigger] s.contains(c) && c[a] == v) && forall|c: [i64; 3]| #[trigger] s.contains(c) ==> v <= c[a]
}

pub open spec fn is_axis_high(s: Set<[i64; 3]>, a: int, v: int) -> bool {
    (exists|c: [i64; 3]| #[trigger] s.contains(c) && c[a] == v) && forall|c: [i64; 3]| #[trigger] s.contains(c) ==> c[a] <= v
}

/// Least coordinate of a set along an axis.
#[verifier::opaque]
pub open spec fn axis_low(s: Set<[i64; 3]>, a: int) -> int {
    choose|v: int| #[trigger] is_axis_low(s, a, v)
}

/// Greatest coordinate of a set along an axis.
#[verifier::opaque]
pub open spec fn axis_high(s: Set<[i64; 3]>, a: int) -> int {
    choose|v: int| #[trigger] is_axis_high(s, a, v)
}

/// Span of a set along an axis.
pub open spec fn extent(s: Set<[i64; 3]>, a: int) -> int {
    axis_high(s, a) - axis_low(s, a)
}

pub open spec fn extent_changed(b: Set<[i64; 3]>, c: Set<[i64; 3]>, tolerance: [i64; 3], a: int) -> bool {
    let d = extent(c, a) - extent(b, a);
    (if d < 0 { -d } else { d }) > tolerance[a]
}

pub open spec fn part_fault(base: Seq<FusedVoxelCell>, candidate: Seq<FusedVoxelCell>, tolerance: [i64; 3], part: u32) -> Option<Fault> {
    let b = part_set(base, part);
    let c = part_set(candidate, part);
    let name = "protected part "@ + decimal_text(part as int);
    if b.len() != c.len() {
        Some(fault("edit.protectedPartChanged", "voxels"@, name + " changed voxel count"@))
    } else if b.len() == 0 {
        Some(fault("edit.invalidBase", "voxels"@, name + " is absent from the base"@))
    } else if extent_changed(b, c, tolerance, 0) {
        Some(fault("edit.protectedDimensionChanged", "voxels"@, name + " changed extent on axis 0"@))
    } else if extent_changed(b, c, tolerance, 1) {
        Some(fault("edit.protectedDimensionChanged", "voxels"@, name + " changed extent on axis 1"@))
    } else if extent_changed(b, c, tolerance, 2) {
        Some(fault("edit.protectedDimensionChanged", "voxels"@, name + " changed extent on axis 2"@))
    } else {
        None
    }
}

/// The first fault among the listed protected parts.
pub open spec fn part_fault_from(
    list: Seq<u32>,
    base: Seq<FusedVoxelCell>,
    candidate: Seq<FusedVoxelCell>,
    tolerance: [i64; 3],
    k: int,
) -> Option<Fault>
    decreases list.len() - k,
{
    if k >= list.len() || k < 0 {
        None
    } else {
        match part_fault(base, candidate, tolerance, list[k]) {
            Some(f) => Some(f),
            None => part_fault_from(list, base, candidate, tolerance, k + 1),
        }
    }
}

/// The first listed part whose canonical cells are not face-connected.
pub open spec fn connected_fault_from(list: Seq<u32>, candidate: Seq<FusedVoxelCell>, k: int) -> Option<Fault>
    decreases list.len() - k,
{
    if k >= list.len() || k < 0 {
        None
    } else {
        let s = part_set(candidate, list[k]);
        if s.len() > 0 && first_group(s) != s {
            Some(fault(
                "edit.requiredComponentDisconnected",
                "voxels"@,
                "canonical cells for part "@ + decimal_text(list[k] as int) + " are disconnected"@,
            ))
        } else {
            connected_fault_from(list, candidate, k + 1)
        }
    }
}

pub(crate) proof fn lemma_listed_len(v: Seq<[i64; 3]>)
    requires
        sorted_by_loc(v),
    ensures
        listed(v).finite(),
        listed(v).len() == v.len(),
{
    lemma_sorted_len(v);
    assert forall|c: [i64; 3]| #[trigger] listed(v).contains(c) == located_map(v).dom().contains(c) by {
        lemma_listed_occupies(v, c);
    }
    assert(listed(v) =~= located_map(v).dom());
}

proof fn lemma_axis_bounds(v: Seq<[i64; 3]>, a: int)
    requires
        v.len() > 0,
        0 <= a < 3,
    ensures
        axis_low(listed(v), a) == seq_min_axis(v, a),
        axis_high(listed(v), a) == seq_max_axis(v, a),
{
    let s = listed(v);
    crate::voxel::lemma_bounds_contain(v, a);
    let i = choose|i: int| 0 <= i < v.len() && v[i][a] == seq_min_axis(v, a);
    let j = choose|j: int| 0 <= j < v.len() && v[j][a] == seq_max_axis(v, a);
    assert(s.contains(v[i]));
    assert(s.contains(v[j]));
    assert forall|c: [i64; 3]| #[trigger] s.contains(c) implies seq_min_axis(v, a) <= c[a] <= seq_max_axis(v, a) by {
        let k = choose|k: int| #![auto] 0 <= k < v.len() && v[k] == c;
    }
    assert(is_axis_low(s, a, seq_min_axis(v, a) as int));
    assert(is_axis_high(s, a, seq_max_axis(v, a) as int));
    reveal(axis_low);
    reveal(axis_high);
    let lo = axis_low(s, a);
    let hi = axis_high(s, a);
    assert(is_axis_low(s, a, lo));
    assert(is_axis_high(s, a, hi));
    let ci = choose|c: [i64; 3]| #[trigger] s.contains(c) && c[a] == lo;
    let cj = choose|c: [i64; 3]| #[trigger] s.contains(c) && c[a] == hi;
    assert(lo <= v[i][a]);
    assert(seq_min_axis(v, a) <= ci[a]);
    assert(v[j][a] <= hi);
    assert(cj[a] <= seq_max_axis(v, a));
}

/// The coordinates of the canonical cells of `part`, ascending.
fn part_coordinates(cells: &Vec<FusedVoxelCell>, part: u32) -> (coords: Vec<[i64; 3]>)
    ensures
        sorted_by_loc(coords@),
        listed(coords@) == part_set(cells@, part),
{
    let mut coords: Vec<[i64; 3]> = Vec::new();
    let mut i: usize = 0;
    proof {
        assert forall|c: [i64; 3]| !#[trigger] part_set(cells@.take(0), part).contains(c) by {
            if part_set(cells@.take(0), part).contains(c) {
                let j = choose|j: int| #[trigger] part_holds(cells@.take(0), part, c, j);
            }
        }
        assert forall|c: [i64; 3]| !#[trigger] listed(coords@).contains(c) by {
            if listed(coords@).contains(c) {
                let j = choose|j: int| #![auto] 0 <= j < coords@.len() && coords@[j] == c;
            }
        }
        assert(listed(coords@) =~= part_set(cells@.take(0), part));
    }
    while i < cells.len()
        invariant
            i <= cells@.len(),
            sorted_by_loc(coords@),
            listed(coords@) == part_set(cells@.take(i as int), part),
        decreases cells@.len() - i,
    {
        let c = cells[i].coordinate;
        let matches = match &cells[i].origin {
            FusedVoxelOrigin::Canonical { part_id, .. } => *part_id == part,
            _ => false,
        };
        let ghost before = coords@;
        let ghost prev = cells@.take(i as int);
        let ghost next = cells@.take(i + 1);
        proof {
            assert forall|d: [i64; 3]| #[trigger] part_set(next, part).contains(d) <==> (part_set(prev, part).contains(d) || (matches && d == c)) by {
                if part_set(next, part).contains(d) {
                    let j = choose|j: int| #[trigger] part_holds(next, part, d, j);
                    if j < i {
                        assert(part_holds(prev, part, d, j));
                    }
                }
                if part_set(prev, part).contains(d) {
                    let j = choose|j: int| #[trigger] part_holds(prev, part, d, j);
                    assert(part_holds(next, part, d, j));
                }
                if matches && d == c {
                    assert(part_holds(next, part, d, i as int));
                }
            }
        }
        if matches && !contains(&coords, c) {
            insert_absent(&mut coords, c);
            proof {
                assert forall|d: [i64; 3]| #[trigger] listed(coords@).contains(d) <==> (listed(before).contains(d) || d == c) by {
                    lemma_listed_occupies(coords@, d);
                    lemma_listed_occupies(before, d);
                }
            }
        } else {
            proof {
                lemma_listed_occupies(coords@, c);
            }
        }
        proof {
            assert(listed(coords@) =~= part_set(next, part));
        }
        i = i + 1;
    }
    proof {
        assert(cells@.take(cells@.len() as int) =~= cells@);
    }
    coords
}

fn extent_check(lo_b: i64, hi_b: i64, lo_c: i64, hi_c: i64, tolerance: i64) -> (changed: bool)
    ensures
        changed == ({
            let d = (hi_c - lo_c) - (hi_b - lo_b);
            (if d < 0 { -d } else { d }) > tolerance
        }),
{
    let d: i128 = ((hi_c as i128) - (lo_c as i128)) - ((hi_b as i128) - (lo_b as i128));
    let a: i128 = if d < 0 { -d } else { d };
    a > tolerance as i128
}

fn check_part(base: &Vec<FusedVoxelCell>, cells: &Vec<FusedVoxelCell>, tolerance: [i64; 3], part: u32) -> (result: Result<(), EditError>)
    ensures
        result is Ok <==> part_fault(base@, cells@, tolerance, part) is None,
        result matches Err(e) ==> part_fault(base@, cells@, tolerance, part) matches Some(f) && e.is_fault(f)
            && e.spec_operation_index() is None,
{
    let b = part_coordinates(base, part);
    let c = part_coordinates(cells, part);
    proof {
        lemma_listed_len(b@);
        lemma_listed_len(c@);
    }
    let mut name = String::from_str("protected part ");
    name.append(decimal_u64(part as u64).as_str());
    if b.len() != c.len() {
        name.append(" changed voxel count");
        return Err(EditError::new("edit.protectedPartChanged", "voxels", name));
    }
    let (lo_b, hi_b) = match crate::voxel::bounds_of(&b) {
        Some(bounds) => bounds,
        None => {
            name.append(" is absent from the base");
            return Err(EditError::new("edit.invalidBase", "voxels", name));
        },
    };
    let (lo_c, hi_c) = match crate::voxel::bounds_of(&c) {
        Some(bounds) => bounds,
        None => {
            name.append(" was removed");
            return Err(EditError::new("edit.protectedPartChanged", "voxels", name));
        },
    };
    proof {
        lemma_axis_bounds(b@, 0);
        lemma_axis_bounds(b@, 1);
        lemma_axis_bounds(b@, 2);
        lemma_axis_bounds(c@, 0);
        lemma_axis_bounds(c@, 1);
        lemma_axis_bounds(c@, 2);
    }
    if extent_check(lo_b[0], hi_b[0], lo_c[0], hi_c[0], tolerance[0]) {
        name.append(" changed extent on axis 0");
        return Err(EditError::new("edit.protectedDimensionChanged", "voxels", name));
    }
    if extent_check(lo_b[1], hi_b[1], lo_c[1], hi_c[1], tolerance[1]) {
        name.append(" changed extent on axis 1");
        return Err(EditError::new("edit.protectedDimensionChanged", "voxels", name));
    }
    if extent_check(lo_b[2], hi_b[2], lo_c[2], hi_c[2], tolerance[2]) {
        name.append(" changed extent on axis 2");
        return Err(EditError::new("edit.protectedDimensionChanged", "voxels", name));
    }
    Ok(())
}

fn check_protected_parts(policy: &EditPolicy, base: &Vec<FusedVoxelCell>, cells: &Vec<FusedVoxelCell>) -> (result: Result<(), EditError>)
    ensures
        result is Ok <==> part_fault_from(policy.protected_parts@, base@, cells@, policy.protected_dimension_tolerance, 0) is None,
        result matches Err(e) ==> part_fault_from(policy.protected_parts@, base@, cells@, policy.protected_dimension_tolerance, 0) matches Some(f)
            && e.is_fault(f) && e.spec_operation_index() is None,
{
    let mut k: usize = 0;
    while k < policy.protected_parts.len()
        invariant
            k <= policy.protected_parts@.len(),
            part_fault_from(policy.protected_parts@, base@, cells@, policy.protected_dimension_tolerance, 0) == part_fault_from(
                policy.protected_parts@,
                base@,
                cells@,
                policy.protected_dimension_tolerance,
                k as int,
            ),
        decreases policy.protected_parts@.len() - k,
    {
        check_part(base, cells, policy.protected_dimension_tolerance, policy.protected_parts[k])?;
        k = k + 1;
    }
    Ok(())
}

fn check_connected_parts(policy: &EditPolicy, cells: &Vec<FusedVoxelCell>) -> (result: Result<(), EditError>)
    ensures
        result is Ok <==> connected_fault_from(policy.connected_parts@, cells@, 0) is None,
        result matches Err(e) ==> connected_fault_from(policy.connected_parts@, cells@, 0) matches Some(f) && e.is_fault(f)
            && e.spec_operation_index() is None,
{
    let mut k: usize = 0;
    while k < policy.connected_parts.len()
        invariant
            k <= policy.connected_parts@.len(),
            connected_fault_from(policy.connected_parts@, cells@, 0) == connected_fault_from(policy.connected_parts@, cells@, k as int),
        decreases policy.connected_parts@.len() - k,
    {
        let part = policy.connected_parts[k];
        let coords = part_coordinates(cells, part);
        let ghost s = part_set(cells@, part);
        proof {
            lemma_listed_len(coords@);
        }
        if coords.len() > 0 {
            proof {
                crate::connect::lemma_least_sorted(coords@);
                crate::region::lemma_reach_start(s, coords@[0]);
            }
            let comp = component_of(&coords, coords[0]);
            let others = crate::connect::coords_without(&coords, &comp);
            proof {
                assert forall|b: [i64; 3]| #[trigger] first_group(s).contains(b) implies s.contains(b) by {
                    crate::connect::lemma_component_inside(s, least(s), b);
                }
            }
            if others.len() > 0 {
                proof {
                    assert(listed(others@).contains(others@[0]));
                    assert(first_group(s) != s);
                }
                let mut message = String::from_str("canonical cells for part ");
                message.append(decimal_u64(part as u64).as_str());
                message.append(" are disconnected");
                return Err(EditError::new("edit.requiredComponentDisconnected", "voxels", message));
            }
            proof {
                assert forall|b: [i64; 3]| #[trigger] s.contains(b) implies first_group(s).contains(b) by {
                    if !first_group(s).contains(b) {
                        assert(listed(others@).contains(b));
                        let j = choose|j: int| #![auto] 0 <= j < others@.len() && others@[j] == b;
                    }
                }
                assert(first_group(s) =~= s);
            }
        }
        k = k + 1;
    }
    Ok(())
}

} // verus!

verus! {

// ---------------------------------------------------------------------------
// The same provenance read from a coordinate-keyed cell map.

pub open spec fn view_id(v: FusedCellView) -> Option<(u32, u32)> {
    match v.origin {
        FusedVoxelOrigin::Canonical { part_id, source_voxel_index } => Some((part_id, source_voxel_index)),
        _ => None,
    }
}

pub open spec fn map_footprint(m: Map<[i64; 3], FusedCellView>, id: (u32, u32)) -> Map<[i64; 3], u16> {
    Map::new(|c: [i64; 3]| m.contains_key(c) && view_id(m[c]) == Some(id), |c: [i64; 3]| m[c].material_slot)
}

/// Identity to footprint for the cells of a map.
pub open spec fn map_origins(m: Map<[i64; 3], FusedCellView>) -> Map<(u32, u32), Map<[i64; 3], u16>> {
    Map::new(
        |id: (u32, u32)| exists|c: [i64; 3]| #[trigger] m.contains_key(c) && view_id(m[c]) == Some(id),
        |id: (u32, u32)| map_footprint(m, id),
    )
}

/// The canonical cells of `part` in a map.
pub open spec fn map_part_set(m: Map<[i64; 3], FusedCellView>, part: u32) -> Set<[i64; 3]> {
    Set::new(|c: [i64; 3]| m.contains_key(c) && view_id(m[c]) is Some && view_id(m[c]).unwrap().0 == part)
}

pub proof fn lemma_map_provenance(s: Seq<FusedVoxelCell>)
    requires
        sorted_by_loc(s),
    ensures
        origins_distinct(s),
        origin_view(s) == map_origins(crate::fusion::cells_view(s)),
        forall|part: u32| #[trigger] part_set(s, part) == map_part_set(crate::fusion::cells_view(s), part),
{
    let m = crate::fusion::cells_view(s);
    assert forall|j: int| !#[trigger] crate::origins::origin_repeat(s, j) by {
        if crate::origins::origin_repeat(s, j) {
            let i = choose|i: int| 0 <= i < j && #[trigger] canonical_id(s[i]) == canonical_id(s[j]) && s[i].coordinate == s[j].coordinate;
            assert(coord_lt(s[i].loc(), s[j].loc()));
            lemma_coord_lt_total(s[i].coordinate, s[j].coordinate);
        }
    }
    assert forall|i: int| 0 <= i < s.len() implies #[trigger] m.contains_key(s[i].coordinate) && m[s[i].coordinate] == s[i]@ by {
        lemma_map_at(s, i);
    }
    assert forall|id: (u32, u32)| #[trigger] crate::origins::footprint(s, id) == map_footprint(m, id) by {
        assert forall|c: [i64; 3]| #[trigger] crate::origins::footprint(s, id).contains_key(c) == map_footprint(m, id).contains_key(c) by {
            if crate::origins::footprint(s, id).contains_key(c) {
                let i = choose|i: int| #[trigger] crate::origins::holds(s, id, c, i);
                assert(m.contains_key(s[i].coordinate));
            }
            if map_footprint(m, id).contains_key(c) {
                let i = crate::cellmap::index_at(s, c);
                lemma_map_at(s, i);
                assert(crate::origins::holds(s, id, c, i));
            }
        }
        assert forall|c: [i64; 3]| #[trigger] crate::origins::footprint(s, id).contains_key(c) implies crate::origins::footprint(s, id)[c] == map_footprint(m, id)[c] by {
            let i = choose|i: int| #[trigger] crate::origins::holds(s, id, c, i);
            assert(m.contains_key(s[i].coordinate));
        }
        assert(crate::origins::footprint(s, id) =~= map_footprint(m, id));
    }
    assert forall|id: (u32, u32)| #[trigger] origin_view(s).contains_key(id) == map_origins(m).contains_key(id) by {
        if origin_view(s).contains_key(id) {
            let i = choose|i: int| 0 <= i < s.len() && #[trigger] canonical_id(s[i]) == Some(id);
            assert(m.contains_key(s[i].coordinate));
        }
        if map_origins(m).contains_key(id) {
            let c = choose|c: [i64; 3]| #[trigger] m.contains_key(c) && view_id(m[c]) == Some(id);
            let i = crate::cellmap::index_at(s, c);
            lemma_map_at(s, i);
            assert(canonical_id(s[i]) == Some(id));
        }
    }
    assert(origin_view(s) =~= map_origins(m));
    assert forall|part: u32| #[trigger] part_set(s, part) == map_part_set(m, part) by {
        assert forall|c: [i64; 3]| #[trigger] part_set(s, part).contains(c) == map_part_set(m, part).contains(c) by {
            if part_set(s, part).contains(c) {
                let i = choose|i: int| #[trigger] part_holds(s, part, c, i);
                assert(m.contains_key(s[i].coordinate));
            }
            if map_part_set(m, part).contains(c) {
                let i = crate::cellmap::index_at(s, c);
                lemma_map_at(s, i);
                assert(part_holds(s, part, c, i));
            }
        }
        assert(part_set(s, part) =~= map_part_set(m, part));
    }
}

// ---------------------------------------------------------------------------
// The whole admission check.

pub open spec fn optional_origins(frame: Option<&FusedFrame>) -> Option<Map<(u32, u32), Map<[i64; 3], u16>>> {
    match frame {
        Some(f) => Some(origin_view(f.voxels@)),
        None => None,
    }
}

pub open spec fn frame_repeats(frame: Option<&FusedFrame>) -> bool {
    frame matches Some(f) && !origins_distinct(f.voxels@)
}

/// The faults of the checks on a part list, as the candidate map states them.
pub open spec fn map_part_fault(base: Seq<FusedVoxelCell>, m: Map<[i64; 3], FusedCellView>, tolerance: [i64; 3], part: u32) -> Option<Fault> {
    let b = part_set(base, part);
    let c = map_part_set(m, part);
    let name = "protected part "@ + decimal_text(part as int);
    if b.len() != c.len() {
        Some(fault("edit.protectedPartChanged", "voxels"@, name + " changed voxel count"@))
    } else if b.len() == 0 {
        Some(fault("edit.invalidBase", "voxels"@, name + " is absent from the base"@))
    } else if extent_changed(b, c, tolerance, 0) {
        Some(fault("edit.protectedDimensionChanged", "voxels"@, name + " changed extent on axis 0"@))
    } else if extent_changed(b, c, tolerance, 1) {
        Some(fault("edit.protectedDimensionChanged", "voxels"@, name + " changed extent on axis 1"@))
    } else if extent_changed(b, c, tolerance, 2) {
        Some(fault("edit.protectedDimensionChanged", "voxels"@, name + " changed extent on axis 2"@))
    } else {
        None
    }
}

pub open spec fn map_part_fault_from(
    list: Seq<u32>,
    base: Seq<FusedVoxelCell>,
    m: Map<[i64; 3], FusedCellView>,
    tolerance: [i64; 3],
    k: int,
) -> Option<Fault>
    decreases list.len() - k,
{
    if k >= list.len() || k < 0 {
        None
    } else {
        match map_part_fault(base, m, tolerance, list[k]) {
            Some(f) => Some(f),
            None => map_part_fault_from(list, base, m, tolerance, k + 1),
        }
    }
}

pub open spec fn map_connected_fault_from(list: Seq<u32>, m: Map<[i64; 3], FusedCellView>, k: int) -> Option<Fault>
    decreases list.len() - k,
{
    if k >= list.len() || k < 0 {
        None
    } else {
        let s = map_part_set(m, list[k]);
        if s.len() > 0 && first_group(s) != s {
            Some(fault(
                "edit.requiredComponentDisconnected",
                "voxels"@,
                "canonical cells for part "@ + decimal_text(list[k] as int) + " are disconnected"@,
            ))
        } else {
            map_connected_fault_from(list, m, k + 1)
        }
    }
}

/// The first admission fault of a candidate cell map, in check order.
pub open spec fn spec_validate(
    base: &FusedFrame,
    previous: Option<&FusedFrame>,
    next: Option<&FusedFrame>,
    m: Map<[i64; 3], FusedCellView>,
    anchors: Map<Seq<char>, [i64; 3]>,
    policy: EditPolicy,
) -> Option<Fault> {
    match anchor_fault(policy, anchors) {
        Some(f) => Some(f),
        None => if !origins_distinct(base.voxels@) {
            Some(repeat_fault(base.voxels@))
        } else if frame_repeats(previous) {
            Some(repeat_fault(previous.unwrap().voxels@))
        } else if frame_repeats(next) {
            Some(repeat_fault(next.unwrap().voxels@))
        } else {
            match quota_fault(map_origins(m), origin_view(base.voxels@), optional_origins(previous), optional_origins(next)) {
                Some(f) => Some(f),
                None => match protected_origin_fault(policy.protected_origins@, map_origins(m), origin_view(base.voxels@)) {
                    Some(f) => Some(f),
                    None => match map_part_fault_from(policy.protected_parts@, base.voxels@, m, policy.protected_dimension_tolerance, 0) {
                        Some(f) => Some(f),
                        None => map_connected_fault_from(policy.connected_parts@, m, 0),
                    },
                },
            }
        },
    }
}

proof fn lemma_part_lists(policy: EditPolicy, base: Seq<FusedVoxelCell>, s: Seq<FusedVoxelCell>, k: int)
    requires
        sorted_by_loc(s),
        0 <= k,
    ensures
        part_fault_from(policy.protected_parts@, base, s, policy.protected_dimension_tolerance, k) == map_part_fault_from(
            policy.protected_parts@,
            base,
            crate::fusion::cells_view(s),
            policy.protected_dimension_tolerance,
            k,
        ),
        connected_fault_from(policy.connected_parts@, s, k) == map_connected_fault_from(policy.connected_parts@, crate::fusion::cells_view(s), k),
    decreases policy.protected_parts@.len() + policy.connected_parts@.len() - k,
{
    lemma_map_provenance(s);
    if k < policy.protected_parts@.len() || k < policy.connected_parts@.len() {
        lemma_part_lists(policy, base, s, k + 1);
    }
    if k < policy.protected_parts@.len() {
        assert(part_set(s, policy.protected_parts@[k]) == map_part_set(crate::fusion::cells_view(s), policy.protected_parts@[k]));
    }
    if k < policy.connected_parts@.len() {
        assert(part_set(s, policy.connected_parts@[k]) == map_part_set(crate::fusion::cells_view(s), policy.connected_parts@[k]));
    }
}

/// Admit or reject a candidate cell list.
pub fn validate_candidate(
    base: &FusedFrame,
    previous: Option<&FusedFrame>,
    next: Option<&FusedFrame>,
    cells: &Vec<FusedVoxelCell>,
    anchors: &Vec<(String, [i64; 3])>,
    policy: &EditPolicy,
) -> (result: Result<(), EditError>)
    requires
        sorted_by_loc(cells@),
    ensures
        result is Ok <==> spec_validate(base, previous, next, crate::fusion::cells_view(cells@), anchor_map(anchors@), *policy) is None,
        result matches Err(e) ==> spec_validate(base, previous, next, crate::fusion::cells_view(cells@), anchor_map(anchors@), *policy) matches Some(f)
            && e.is_fault(f) && e.spec_operation_index() is None,
{
    proof {
        lemma_map_provenance(cells@);
        lemma_part_lists(*policy, base.voxels@, cells@, 0);
    }
    check_anchors(policy, anchors)?;
    let bix = origin_index(&base.voxels)?;
    let pix = match previous {
        Some(frame) => Some(origin_index(&frame.voxels)?),
        None => None,
    };
    let nix = match next {
        Some(frame) => Some(origin_index(&frame.voxels)?),
        None => None,
    };
    let cix = origin_index(cells)?;
    proof {
        assert((match pix {
            Some(v) => Some(index_view(v@)),
            None => None,
        }) == optional_origins(previous));
        assert((match nix {
            Some(v) => Some(index_view(v@)),
            None => None,
        }) == optional_origins(next));
    }
    check_quota(&cix, &bix, &pix, &nix)?;
    check_protected_origins(policy, &cix, &bix)?;
    check_protected_parts(policy, &base.voxels, cells)?;
    check_connected_parts(policy, cells)
}

} // verus!
