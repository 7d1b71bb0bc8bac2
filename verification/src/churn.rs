//! Vertical bands used to localize frame-to-frame churn.

use vstd::prelude::*;

use crate::bundle::sorted_set;
use crate::candidate::lemma_listed_len;
use crate::cellmap::{contains, sorted_by_loc, Located};
use crate::cellstore::{lemma_listed_push, listed};
use crate::region::lemma_listed_occupies;
use crate::voxel::{coord_lt, lemma_coord_lt_total};

verus! {

/// Number of equal vertical bands a frame's y extent splits into.
pub const CHURN_REGIONS: usize = 4;

/// The band of `y` within `y_min..=y_max`: `offset * 4 / span`, clamped to
/// the last band, with the offset and span floored at 0 and 1.
pub open spec fn spec_region_of(y: int, y_min: int, y_max: int) -> int {
    let span = if y_max - y_min + 1 >= 1 { y_max - y_min + 1 } else { 1 };
    let offset = if y - y_min >= 0 { y - y_min } else { 0 };
    let band = offset * 4 / span;
    if band < 3 { band } else { 3 }
}

/// The vertical band (0..4) that `y` falls in.
pub fn region_of(y: i64, y_min: i64, y_max: i64) -> (band: usize)
    requires
        i64::MIN <= y_max - y_min < i64::MAX,
        i64::MIN <= y - y_min <= i64::MAX,
        (if y - y_min >= 0 { y - y_min } else { 0 }) * 4 <= usize::MAX,
        y_max - y_min + 1 <= usize::MAX,
    ensures
        band == spec_region_of(y as int, y_min as int, y_max as int),
        band < CHURN_REGIONS,
{
    let span_i = y_max - y_min + 1;
    let span: usize = if span_i >= 1 { span_i as usize } else { 1 };
    let offset_i = y - y_min;
    let offset: usize = if offset_i >= 0 { offset_i as usize } else { 0 };
    let band = offset * CHURN_REGIONS / span;
    if band < CHURN_REGIONS - 1 {
        band
    } else {
        CHURN_REGIONS - 1
    }
}

} // verus!

verus! {

/// Bands never decrease as `y` rises within the same extent.
pub proof fn law_region_of_is_monotone(y1: int, y2: int, y_min: int, y_max: int)
    requires
        y1 <= y2,
    ensures
        spec_region_of(y1, y_min, y_max) <= spec_region_of(y2, y_min, y_max),
{
    let span = if y_max - y_min + 1 >= 1 { y_max - y_min + 1 } else { 1 };
    let o1 = if y1 - y_min >= 0 { y1 - y_min } else { 0 };
    let o2 = if y2 - y_min >= 0 { y2 - y_min } else { 0 };
    assert(o1 * 4 <= o2 * 4);
    vstd::arithmetic::div_mod::lemma_div_is_ordered(o1 * 4, o2 * 4, span);
}

} // verus!

verus! {

/// One occupied cell of a stored frame.
#[derive(Debug, Clone, Copy, PartialEq, Eq)]
pub struct FrameCell {
    pub coordinate: [i64; 3],
    pub material_slot: u16,
}

/// How two consecutive frames differ, by cell occupancy. The churn fraction
/// is `(added + removed) / union` (zero for an empty union).
#[derive(Debug, Clone, PartialEq, Eq)]
pub struct FrameTransitionChurn {
    pub from_frame: u32,
    pub to_frame: u32,
    pub from_voxels: usize,
    pub to_voxels: usize,
    pub shared_voxels: usize,
    pub added_voxels: usize,
    pub removed_voxels: usize,
    pub union_voxels: usize,
    /// Churned cells per height band, index 0 = lowest.
    pub churn_by_region: Vec<usize>,
}

/// The occupied coordinates of a frame; material slots are ignored.
pub open spec fn occupied(cells: Seq<FrameCell>) -> Set<[i64; 3]> {
    Set::new(|c: [i64; 3]| exists|i: int| 0 <= i < cells.len() && #[trigger] cells[i].coordinate == c)
}

/// Coordinates occupied in exactly one of the two frames.
pub open spec fn churned(a: Set<[i64; 3]>, b: Set<[i64; 3]>) -> Set<[i64; 3]> {
    a.difference(b).union(b.difference(a))
}

/// The churned coordinates that fall in band `r`.
pub open spec fn churned_in_band(a: Set<[i64; 3]>, b: Set<[i64; 3]>, r: int, y_min: i64, y_max: i64) -> Set<[i64; 3]> {
    churned(a, b).filter(|c: [i64; 3]| spec_region_of(c[1] as int, y_min as int, y_max as int) == r)
}

/// The band arithmetic for height `y` stays within the machine integers.
pub open spec fn band_defined(y: i64, y_min: i64, y_max: i64) -> bool {
    &&& i64::MIN <= y_max - y_min < i64::MAX
    &&& i64::MIN <= y - y_min <= i64::MAX
    &&& (if y - y_min >= 0 { y - y_min } else { 0 }) * 4 <= usize::MAX
    &&& y_max - y_min + 1 <= usize::MAX
}

proof fn lemma_filter_step(s: Seq<[i64; 3]>, i: int, p: spec_fn([i64; 3]) -> bool)
    requires
        sorted_by_loc(s),
        0 <= i < s.len(),
    ensures
        listed(s.take(i)).filter(p).finite(),
        listed(s.take(i + 1)).filter(p).finite(),
        listed(s.take(i + 1)).filter(p).len() == listed(s.take(i)).filter(p).len() + (if p(s[i]) {
            1int
        } else {
            0int
        }),
{
    let t = s.take(i);
    let a = listed(t);
    let b = listed(s.take(i + 1));
    assert(sorted_by_loc(t));
    lemma_listed_len(t);
    assert(a.filter(p).subset_of(a));
    vstd::set_lib::lemma_len_subset(a.filter(p), a);
    assert(s.take(i + 1) =~= t.push(s[i]));
    lemma_listed_push(t, s[i]);
    assert(!a.contains(s[i])) by {
        if a.contains(s[i]) {
            let j = choose|j: int| 0 <= j < t.len() && t[j] == s[i];
            assert(coord_lt(s[j].loc(), s[i].loc()));
            lemma_coord_lt_total(s[i], s[i]);
        }
    }
    if p(s[i]) {
        assert(b.filter(p) =~= a.filter(p).insert(s[i]));
    } else {
        assert(b.filter(p) =~= a.filter(p));
    }
}

proof fn lemma_filter_empty(s: Seq<[i64; 3]>, p: spec_fn([i64; 3]) -> bool)
    ensures
        listed(s.take(0)).filter(p).finite(),
        listed(s.take(0)).filter(p).len() == 0,
{
    assert(listed(s.take(0)).filter(p) =~= Set::<[i64; 3]>::empty());
}

proof fn lemma_listed_all(s: Seq<[i64; 3]>)
    ensures
        s.take(s.len() as int) == s,
        listed(s.take(0)) == Set::<[i64; 3]>::empty(),
{
    assert(s.take(s.len() as int) =~= s);
    assert(listed(s.take(0)) =~= Set::<[i64; 3]>::empty());
}

fn coordinates(cells: &Vec<FrameCell>) -> (set: Vec<[i64; 3]>)
    ensures
        sorted_by_loc(set@),
        listed(set@) == occupied(cells@),
        set@.len() <= cells@.len(),
{
    let mut coords: Vec<[i64; 3]> = Vec::new();
    let mut i: usize = 0;
    while i < cells.len()
        invariant
            i <= cells@.len(),
            coords@.len() == i,
            forall|j: int| 0 <= j < i ==> coords@[j] == (#[trigger] cells@[j]).coordinate,
        decreases cells@.len() - i,
    {
        coords.push(cells[i].coordinate);
        i = i + 1;
    }
    let set = sorted_set(&coords);
    assert forall|c: [i64; 3]| #[trigger] listed(coords@).contains(c) == occupied(cells@).contains(c) by {
        if occupied(cells@).contains(c) {
            let j = choose|j: int| 0 <= j < cells@.len() && #[trigger] cells@[j].coordinate == c;
            assert(coords@[j] == c);
        }
        if listed(coords@).contains(c) {
            let j = choose|j: int| 0 <= j < coords@.len() && coords@[j] == c;
            assert(cells@[j].coordinate == c);
        }
    }
    assert(listed(coords@) =~= occupied(cells@));
    proof {
        assert(listed(coords@) =~= coords@.to_set());
        coords@.lemma_cardinality_of_set();
        lemma_listed_len(set@);
    }
    set
}

/// Counts the elements of `s` that `other` does (`inside`) or does not
/// hold, the latter also by band.
fn count_against(s: &Vec<[i64; 3]>, other: &Vec<[i64; 3]>, counts: &mut Vec<usize>, y_min: i64, y_max: i64) -> (inside: usize)
    requires
        sorted_by_loc(s@),
        sorted_by_loc(other@),
        old(counts)@.len() == 4,
        forall|i: int| 0 <= i < s@.len() && !listed(other@).contains(#[trigger] s@[i]) ==> band_defined(
            s@[i][1],
            y_min,
            y_max,
        ),
        forall|r: int| 0 <= r < 4 ==> old(counts)@[r] + s@.len() <= usize::MAX,
    ensures
        inside == listed(s@).filter(|c: [i64; 3]| listed(other@).contains(c)).len(),
        final(counts)@.len() == 4,
        forall|r: int| 0 <= r < 4 ==> final(counts)@[r] == old(counts)@[r] + listed(s@).filter(
            |c: [i64; 3]| !listed(other@).contains(c) && spec_region_of(c[1] as int, y_min as int, y_max as int) == r,
        ).len(),
{
    let ghost start = counts@;
    let ghost inp = |c: [i64; 3]| listed(other@).contains(c);
    let ghost band = |r: int| (|c: [i64; 3]| !listed(other@).contains(c) && spec_region_of(c[1] as int, y_min as int, y_max as int) == r);
    let mut inside: usize = 0;
    let mut i: usize = 0;
    proof {
        lemma_listed_all(s@);
        lemma_filter_empty(s@, inp);
        assert forall|r: int| 0 <= r < 4 implies #[trigger] counts@[r] == start[r] + listed(s@.take(0)).filter(band(r)).len()
            by {
            lemma_filter_empty(s@, band(r));
        }
        assert forall|r: int| 0 <= r < 4 implies listed(s@.take(0)).filter(#[trigger] band(r)).len() <= 0 by {
            lemma_filter_empty(s@, band(r));
        }
    }
    while i < s.len()
        invariant
            i <= s@.len(),
            sorted_by_loc(s@),
            sorted_by_loc(other@),
            counts@.len() == 4,
            forall|i2: int| 0 <= i2 < s@.len() && !listed(other@).contains(#[trigger] s@[i2]) ==> band_defined(
                s@[i2][1],
                y_min,
                y_max,
            ),
            forall|r: int| 0 <= r < 4 ==> start[r] + s@.len() <= usize::MAX,
            inp == (|c: [i64; 3]| listed(other@).contains(c)),
            band == (|r: int| (|c: [i64; 3]| !listed(other@).contains(c) && spec_region_of(c[1] as int, y_min as int, y_max as int) == r)),
            listed(s@.take(i as int)).filter(inp).finite(),
            inside == listed(s@.take(i as int)).filter(inp).len(),
            inside <= i,
            forall|r: int| 0 <= r < 4 ==> #[trigger] counts@[r] == start[r] + listed(s@.take(i as int)).filter(band(r)).len(),
            forall|r: int| 0 <= r < 4 ==> listed(s@.take(i as int)).filter(#[trigger] band(r)).len() <= i,
        decreases s@.len() - i,
    {
        let c = s[i];
        proof {
            lemma_filter_step(s@, i as int, inp);
            assert forall|r: int| 0 <= r < 4 implies listed(s@.take(i + 1)).filter(#[trigger] band(r)).len()
                == listed(s@.take(i as int)).filter(band(r)).len() + (if band(r)(c) { 1int } else { 0int }) by {
                lemma_filter_step(s@, i as int, band(r));
            }
        }
        if contains(other, c) {
            proof {
                lemma_listed_occupies(other@, c);
            }
            inside = inside + 1;
        } else {
            proof {
                lemma_listed_occupies(other@, c);
                assert(band_defined(c[1], y_min, y_max));
            }
            let r = region_of(c[1], y_min, y_max);
            counts.set(r, counts[r] + 1);
        }
        i = i + 1;
    }
    proof {
        lemma_listed_all(s@);
    }
    inside
}

} // verus!

verus! {

/// Compares two consecutive frames by occupied coordinates: what they share,
/// what was added and removed, and the churned cells per height band.
pub fn measure_transition(
    from_index: u32,
    from_cells: &Vec<FrameCell>,
    to_index: u32,
    to_cells: &Vec<FrameCell>,
    y_min: i64,
    y_max: i64,
) -> (t: FrameTransitionChurn)
    requires
        from_cells@.len() + to_cells@.len() <= usize::MAX,
        forall|c: [i64; 3]| #[trigger] churned(occupied(from_cells@), occupied(to_cells@)).contains(c) ==> band_defined(
            c[1],
            y_min,
            y_max,
        ),
    ensures
        ({
            let a = occupied(from_cells@);
            let b = occupied(to_cells@);
            &&& t.from_frame == from_index
            &&& t.to_frame == to_index
            &&& t.from_voxels == a.len()
            &&& t.to_voxels == b.len()
            &&& t.shared_voxels == a.intersect(b).len()
            &&& t.added_voxels == b.difference(a).len()
            &&& t.removed_voxels == a.difference(b).len()
            &&& t.union_voxels == a.union(b).len()
            &&& t.churn_by_region@.len() == CHURN_REGIONS
            &&& forall|r: int| 0 <= r < CHURN_REGIONS ==> #[trigger] t.churn_by_region@[r] == churned_in_band(
                a,
                b,
                r,
                y_min,
                y_max,
            ).len()
        }),
{
    let a = coordinates(from_cells);
    let b = coordinates(to_cells);
    let ghost sa = listed(a@);
    let ghost sb = listed(b@);
    proof {
        lemma_listed_len(a@);
        lemma_listed_len(b@);
        assert forall|i: int| 0 <= i < a@.len() && !sb.contains(#[trigger] a@[i]) implies band_defined(a@[i][1], y_min, y_max) by {
            assert(sa.contains(a@[i]));
            assert(churned(sa, sb).contains(a@[i]));
        }
        assert forall|i: int| 0 <= i < b@.len() && !sa.contains(#[trigger] b@[i]) implies band_defined(b@[i][1], y_min, y_max) by {
            assert(sb.contains(b@[i]));
            assert(churned(sa, sb).contains(b@[i]));
        }
    }
    let mut counts: Vec<usize> = vec![0, 0, 0, 0];
    let shared = count_against(&a, &b, &mut counts, y_min, y_max);
    proof {
        assert forall|r: int| 0 <= r < 4 implies counts@[r] + b@.len() <= usize::MAX by {
            let fa = sa.filter(|c: [i64; 3]| !sb.contains(c) && spec_region_of(c[1] as int, y_min as int, y_max as int) == r);
            assert(fa.subset_of(sa));
            vstd::set_lib::lemma_len_subset(fa, sa);
        }
    }
    let _ = count_against(&b, &a, &mut counts, y_min, y_max);
    proof {
        let inb = |c: [i64; 3]| sb.contains(c);
        assert(sa.filter(inb) =~= sa.intersect(sb));
        assert(sa.intersect(sb).disjoint(sa.difference(sb)));
        assert(sa =~= sa.intersect(sb) + sa.difference(sb));
        vstd::set_lib::lemma_set_disjoint_lens(sa.intersect(sb), sa.difference(sb));
        assert(sb.intersect(sa) =~= sa.intersect(sb));
        assert(sb.intersect(sa).disjoint(sb.difference(sa)));
        assert(sb =~= sb.intersect(sa) + sb.difference(sa));
        vstd::set_lib::lemma_set_disjoint_lens(sb.intersect(sa), sb.difference(sa));
        assert(sa.disjoint(sb.difference(sa)));
        assert(sa.union(sb) =~= sa + sb.difference(sa));
        vstd::set_lib::lemma_set_disjoint_lens(sa, sb.difference(sa));
        assert forall|r: int| 0 <= r < CHURN_REGIONS implies #[trigger] counts@[r] == churned_in_band(sa, sb, r, y_min, y_max).len() by {
            let fa = sa.filter(|c: [i64; 3]| !sb.contains(c) && spec_region_of(c[1] as int, y_min as int, y_max as int) == r);
            let fb = sb.filter(|c: [i64; 3]| !sa.contains(c) && spec_region_of(c[1] as int, y_min as int, y_max as int) == r);
            assert(fa.disjoint(fb));
            assert(churned_in_band(sa, sb, r, y_min, y_max) =~= fa + fb);
            assert(fa.subset_of(sa));
            assert(fb.subset_of(sb));
            vstd::set_lib::lemma_len_subset(fa, sa);
            vstd::set_lib::lemma_len_subset(fb, sb);
            vstd::set_lib::lemma_set_disjoint_lens(fa, fb);
        }
    }
    let removed = a.len() - shared;
    let added = b.len() - shared;
    FrameTransitionChurn {
        from_frame: from_index,
        to_frame: to_index,
        from_voxels: a.len(),
        to_voxels: b.len(),
        shared_voxels: shared,
        added_voxels: added,
        removed_voxels: removed,
        union_voxels: a.len() + added,
        churn_by_region: counts,
    }
}

} // verus!

verus! {

/// A frame compared with itself churns nothing: nothing is added or removed
/// and every band is empty.
pub proof fn law_identical_frames_have_zero_churn(a: Set<[i64; 3]>, y_min: i64, y_max: i64)
    ensures
        a.difference(a).len() == 0,
        churned(a, a).len() == 0,
        forall|r: int| #[trigger] churned_in_band(a, a, r, y_min, y_max).len() == 0,
{
    assert(a.difference(a) =~= Set::<[i64; 3]>::empty());
    assert(churned(a, a) =~= Set::<[i64; 3]>::empty());
    assert forall|r: int| #[trigger] churned_in_band(a, a, r, y_min, y_max).len() == 0 by {
        assert(churned_in_band(a, a, r, y_min, y_max) =~= Set::<[i64; 3]>::empty());
    }
}

} // verus!
