//! Coarsening a rough frame: every block of `factor`³ cells becomes one cell
//! holding the block's majority material.

use vstd::prelude::*;

use crate::assemble::{AssembledVoxelCell, DiscardedCanonicalVoxel, RoughFrame};
use crate::cellmap::{contains, insert_absent, located_map, sorted_by_loc, Located};
use crate::cellstore::listed;
use crate::region::lemma_listed_occupies;

verus! {

impl Located for AssembledVoxelCell {
    open spec fn loc(&self) -> [i64; 3] {
        self.coordinate
    }

    fn location(&self) -> (c: [i64; 3]) {
        self.coordinate
    }
}

/// `floor(value / factor)`.
pub open spec fn floor_div(value: i64, factor: int) -> int {
    value as int / factor
}

/// The block a cell falls in.
pub open spec fn block_of(c: [i64; 3], factor: int) -> [i64; 3] {
    [floor_div(c[0], factor) as i64, floor_div(c[1], factor) as i64, floor_div(c[2], factor) as i64]
}

proof fn lemma_floor_negative(m: int, f: int)
    requires
        m >= 0,
        f > 0,
    ensures
        (-(m + 1)) / f == -(m / f) - 1,
{
    let q = m / f;
    let r = m % f;
    vstd::arithmetic::div_mod::lemma_fundamental_div_mod(m, f);
    assert(m == f * q + r);
    assert(0 <= r < f);
    let x = -(m + 1);
    assert(x == f * (-q - 1) + (f - r - 1)) by (nonlinear_arith)
        requires
            m == f * q + r,
            x == -(m + 1),
    ;
    vstd::arithmetic::div_mod::lemma_fundamental_div_mod_converse(x, f, -q - 1, f - r - 1);
}

fn floor_div_exec(value: i64, factor: u32) -> (q: i64)
    requires
        factor > 0,
    ensures
        q == floor_div(value, factor as int),
{
    if value >= 0 {
        ((value as u64) / (factor as u64)) as i64
    } else {
        let m: u64 = (-(value as i128) - 1) as u64;
        let q = m / (factor as u64);
        proof {
            lemma_floor_negative(m as int, factor as int);
            assert(q <= m);
        }
        -(q as i64) - 1
    }
}

fn block_exec(c: [i64; 3], factor: u32) -> (b: [i64; 3])
    requires
        factor > 0,
    ensures
        b == block_of(c, factor as int),
{
    let b = [floor_div_exec(c[0], factor), floor_div_exec(c[1], factor), floor_div_exec(c[2], factor)];
    proof {
        crate::voxel::lemma_coord_eq(b, block_of(c, factor as int));
    }
    b
}


/// How many cells of block `block` hold material `slot`.
pub open spec fn votes(voxels: Seq<AssembledVoxelCell>, factor: int, block: [i64; 3], slot: u16) -> nat
    decreases voxels.len(),
{
    if voxels.len() == 0 {
        0
    } else {
        votes(voxels.drop_last(), factor, block, slot) + if block_of(voxels.last().coordinate, factor) == block
            && voxels.last().material_slot == slot {
            1nat
        } else {
            0nat
        }
    }
}

/// `slot` has the most votes in the block; ties go to the lowest slot.
pub open spec fn majority_slot(voxels: Seq<AssembledVoxelCell>, factor: int, block: [i64; 3], slot: u16) -> bool {
    &&& votes(voxels, factor, block, slot) > 0
    &&& forall|other: u16|
        other != slot ==> #[trigger] votes(voxels, factor, block, other) < votes(voxels, factor, block, slot) || (votes(
            voxels,
            factor,
            block,
            other,
        ) == votes(voxels, factor, block, slot) && slot < other)
}

/// The blocks the cells fall in.
pub open spec fn blocks(voxels: Seq<AssembledVoxelCell>, factor: int) -> Set<[i64; 3]> {
    Set::new(|b: [i64; 3]| exists|i: int| 0 <= i < voxels.len() && block_of((#[trigger] voxels[i]).coordinate, factor) == b)
}

proof fn lemma_votes_bound(voxels: Seq<AssembledVoxelCell>, factor: int, block: [i64; 3], slot: u16)
    ensures
        votes(voxels, factor, block, slot) <= voxels.len(),
    decreases voxels.len(),
{
    if voxels.len() > 0 {
        lemma_votes_bound(voxels.drop_last(), factor, block, slot);
    }
}

proof fn lemma_votes_positive(voxels: Seq<AssembledVoxelCell>, factor: int, i: int)
    requires
        0 <= i < voxels.len(),
    ensures
        votes(voxels, factor, block_of(voxels[i].coordinate, factor), voxels[i].material_slot) > 0,
    decreases voxels.len(),
{
    if i < voxels.len() - 1 {
        lemma_votes_positive(voxels.drop_last(), factor, i);
    }
}

/// The material with the most votes in `block`, lowest slot on ties.
fn majority(voxels: &Vec<AssembledVoxelCell>, factor: u32, block: [i64; 3]) -> (slot: u16)
    requires
        factor > 0,
        voxels@.len() <= u32::MAX,
        blocks(voxels@, factor as int).contains(block),
    ensures
        majority_slot(voxels@, factor as int, block, slot),
{
    let ghost f = factor as int;
    let mut tally: Vec<(u16, u32)> = Vec::new();
    let mut i: usize = 0;
    while i < voxels.len()
        invariant
            factor > 0,
            f == factor as int,
            i <= voxels@.len() <= u32::MAX,
            forall|k: int| 0 <= k < tally@.len() ==> (#[trigger] tally@[k]).1 == votes(voxels@.take(i as int), f, block, tally@[k].0),
            forall|k: int, l: int| 0 <= k < l < tally@.len() ==> (#[trigger] tally@[k]).0 != (#[trigger] tally@[l]).0,
            forall|s: u16| #[trigger] votes(voxels@.take(i as int), f, block, s) > 0 ==> exists|k: int| 0 <= k < tally@.len() && tally@[k].0 == s,
        decreases voxels@.len() - i,
    {
        let v = voxels[i];
        let ghost prefix = voxels@.take(i as int);
        let ghost next = voxels@.take(i + 1);
        proof {
            assert(next.drop_last() =~= prefix);
            assert(next.last() == v);
        }
        if crate::voxel::same_coord(block_exec(v.coordinate, factor), block) {
            let mut k: usize = 0;
            while k < tally.len() && tally[k].0 != v.material_slot
                invariant
                    k <= tally@.len(),
                    forall|t: int| 0 <= t < k ==> tally@[t].0 != v.material_slot,
                decreases tally@.len() - k,
            {
                k = k + 1;
            }
            let ghost before = tally@;
            if k < tally.len() {
                proof {
                    lemma_votes_bound(prefix, f, block, v.material_slot);
                }
                let (slot, count) = tally[k];
                tally.set(k, (slot, count + 1));
            } else {
                tally.push((v.material_slot, 1));
            }
            proof {
                assert forall|t: int| 0 <= t < tally@.len() implies (#[trigger] tally@[t]).1 == votes(next, f, block, tally@[t].0) by {
                    if t < before.len() {
                        assert(tally@[t].0 == before[t].0);
                    }
                }
                assert forall|s: u16| #[trigger] votes(next, f, block, s) > 0 implies exists|t: int| 0 <= t < tally@.len() && tally@[t].0 == s by {
                    if s == v.material_slot {
                        if k < before.len() {
                            assert(tally@[k as int].0 == s);
                        } else {
                            assert(tally@[before.len() as int].0 == s);
                        }
                    } else {
                        assert(votes(prefix, f, block, s) > 0);
                        let t = choose|t: int| 0 <= t < before.len() && before[t].0 == s;
                        assert(tally@[t].0 == s);
                    }
                }
            }
        } else {
            proof {
                assert forall|t: int| 0 <= t < tally@.len() implies (#[trigger] tally@[t]).1 == votes(next, f, block, tally@[t].0) by {
                }
                assert forall|s: u16| #[trigger] votes(next, f, block, s) > 0 implies exists|t: int| 0 <= t < tally@.len() && tally@[t].0 == s by {
                    assert(votes(prefix, f, block, s) > 0);
                }
            }
        }
        i = i + 1;
    }
    proof {
        assert(voxels@.take(i as int) =~= voxels@);
        let j = choose|j: int| 0 <= j < voxels@.len() && block_of((#[trigger] voxels@[j]).coordinate, f) == block;
        lemma_votes_positive(voxels@, f, j);
        let s0 = voxels@[j].material_slot;
        assert(votes(voxels@, f, block, s0) > 0);
    }
    let mut best = tally[0];
    let mut k: usize = 1;
    while k < tally.len()
        invariant
            1 <= k <= tally@.len(),
            exists|t: int| 0 <= t < tally@.len() && tally@[t] == best,
            forall|t: int| 0 <= t < k ==> (#[trigger] tally@[t]).1 < best.1 || (tally@[t].1 == best.1 && best.0 <= tally@[t].0),
        decreases tally@.len() - k,
    {
        let entry = tally[k];
        if entry.1 > best.1 || (entry.1 == best.1 && entry.0 < best.0) {
            best = entry;
        }
        k = k + 1;
    }
    proof {
        let t0 = choose|t: int| 0 <= t < tally@.len() && tally@[t] == best;
        assert forall|other: u16| other != best.0 implies #[trigger] votes(voxels@, f, block, other) < votes(voxels@, f, block, best.0) || (
            votes(voxels@, f, block, other) == votes(voxels@, f, block, best.0) && best.0 < other) by {
            if votes(voxels@, f, block, other) > 0 {
                let t = choose|t: int| 0 <= t < tally@.len() && tally@[t].0 == other;
                assert(tally@[t].1 < best.1 || (tally@[t].1 == best.1 && best.0 <= tally@[t].0));
            }
        }
        let j = choose|j: int| 0 <= j < voxels@.len() && block_of((#[trigger] voxels@[j]).coordinate, f) == block;
        let s0 = voxels@[j].material_slot;
        let t = choose|t: int| 0 <= t < tally@.len() && tally@[t].0 == s0;
        assert(tally@[t].1 > 0);
        assert(best.1 > 0);
    }
    best.0
}


fn copy_voxels(v: &Vec<AssembledVoxelCell>) -> (copy: Vec<AssembledVoxelCell>)
    ensures
        copy@ == v@,
{
    let mut copy: Vec<AssembledVoxelCell> = Vec::new();
    let mut i: usize = 0;
    while i < v.len()
        invariant
            i <= v@.len(),
            copy@ == v@.take(i as int),
        decreases v@.len() - i,
    {
        copy.push(v[i]);
        assert(copy@ =~= v@.take(i + 1));
        i = i + 1;
    }
    assert(v@.take(i as int) =~= v@);
    copy
}

fn copy_discarded(v: &Vec<DiscardedCanonicalVoxel>) -> (copy: Vec<DiscardedCanonicalVoxel>)
    ensures
        copy@ == v@,
{
    let mut copy: Vec<DiscardedCanonicalVoxel> = Vec::new();
    let mut i: usize = 0;
    while i < v.len()
        invariant
            i <= v@.len(),
            copy@ == v@.take(i as int),
        decreases v@.len() - i,
    {
        copy.push(v[i]);
        assert(copy@ =~= v@.take(i + 1));
        i = i + 1;
    }
    assert(v@.take(i as int) =~= v@);
    copy
}

/// The blocks of the cells, sorted and without repeats.
fn block_list(voxels: &Vec<AssembledVoxelCell>, factor: u32) -> (list: Vec<[i64; 3]>)
    requires
        factor > 0,
    ensures
        sorted_by_loc(list@),
        listed(list@) == blocks(voxels@, factor as int),
{
    let mut list: Vec<[i64; 3]> = Vec::new();
    let mut i: usize = 0;
    while i < voxels.len()
        invariant
            factor > 0,
            i <= voxels@.len(),
            sorted_by_loc(list@),
            listed(list@) == blocks(voxels@.take(i as int), factor as int),
        decreases voxels@.len() - i,
    {
        let b = block_exec(voxels[i].coordinate, factor);
        let ghost before = list@;
        if !contains(&list, b) {
            insert_absent(&mut list, b);
        }
        proof {
            let prev = voxels@.take(i as int);
            let next = voxels@.take(i + 1);
            assert forall|d: [i64; 3]| #[trigger] listed(list@).contains(d) == blocks(next, factor as int).contains(d) by {
                lemma_listed_occupies(list@, d);
                lemma_listed_occupies(before, d);
                if blocks(next, factor as int).contains(d) {
                    let j = choose|j: int| 0 <= j < next.len() && block_of((#[trigger] next[j]).coordinate, factor as int) == d;
                    if j < i {
                        assert(prev[j] == next[j]);
                        assert(blocks(prev, factor as int).contains(d));
                    }
                }
                if blocks(prev, factor as int).contains(d) {
                    let j = choose|j: int| 0 <= j < prev.len() && block_of((#[trigger] prev[j]).coordinate, factor as int) == d;
                    assert(next[j] == prev[j]);
                }
                if d == b {
                    assert(next[i as int] == voxels@[i as int]);
                }
            }
            assert(listed(list@) =~= blocks(next, factor as int));
        }
        i = i + 1;
    }
    assert(voxels@.take(i as int) =~= voxels@);
    list
}

/// The frame coarsened by `factor`: one cell per occupied block of
/// `factor`³ cells, holding the block's majority material (lowest slot on
/// ties), in ascending block order. Per-part provenance and fusion flags do
/// not survive; a factor of at most 1 leaves the frame as it is.
pub fn downsample_rough_frame(frame: &RoughFrame, factor: u32) -> (result: RoughFrame)
    requires
        frame.voxels@.len() <= u32::MAX,
    ensures
        result.time_microseconds == frame.time_microseconds,
        result.duration_microseconds == frame.duration_microseconds,
        factor <= 1 ==> result.voxels@ == frame.voxels@ && result.discarded_overlaps@ == frame.discarded_overlaps@,
        factor > 1 ==> {
            &&& result.discarded_overlaps@.len() == 0
            &&& sorted_by_loc(result.voxels@)
            &&& forall|b: [i64; 3]| #[trigger] located_map(result.voxels@).contains_key(b) <==> blocks(
                frame.voxels@,
                factor as int,
            ).contains(b)
            &&& forall|i: int| 0 <= i < result.voxels@.len() ==> {
                let v = #[trigger] result.voxels@[i];
                &&& v.part_id == 0 && v.source_voxel_index == 0 && !v.needs_fusion
                &&& majority_slot(frame.voxels@, factor as int, v.coordinate, v.material_slot)
            }
        },
{
    if factor <= 1 {
        return RoughFrame {
            time_microseconds: frame.time_microseconds,
            duration_microseconds: frame.duration_microseconds,
            voxels: copy_voxels(&frame.voxels),
            discarded_overlaps: copy_discarded(&frame.discarded_overlaps),
        };
    }
    let list = block_list(&frame.voxels, factor);
    let mut voxels: Vec<AssembledVoxelCell> = Vec::new();
    let mut k: usize = 0;
    while k < list.len()
        invariant
            factor > 1,
            frame.voxels@.len() <= u32::MAX,
            k <= list@.len(),
            sorted_by_loc(list@),
            listed(list@) == blocks(frame.voxels@, factor as int),
            voxels@.len() == k,
            forall|j: int| 0 <= j < k ==> (#[trigger] voxels@[j]).coordinate == list@[j],
            forall|j: int| 0 <= j < k ==> {
                let v = #[trigger] voxels@[j];
                &&& v.part_id == 0 && v.source_voxel_index == 0 && !v.needs_fusion
                &&& majority_slot(frame.voxels@, factor as int, v.coordinate, v.material_slot)
            },
        decreases list@.len() - k,
    {
        let b = list[k];
        proof {
            assert(listed(list@).contains(b)) by {
                assert(list@[k as int] == b);
            }
        }
        let slot = majority(&frame.voxels, factor, b);
        voxels.push(AssembledVoxelCell {
            coordinate: b,
            material_slot: slot,
            part_id: 0,
            source_voxel_index: 0,
            needs_fusion: false,
        });
        k = k + 1;
    }
    proof {
        assert forall|a: int, c: int| 0 <= a < c < voxels@.len() implies crate::voxel::coord_lt(
            #[trigger] voxels@[a].loc(),
            #[trigger] voxels@[c].loc(),
        ) by {
            assert(crate::voxel::coord_lt(list@[a].loc(), list@[c].loc()));
        }
        assert forall|b: [i64; 3]| #[trigger] located_map(voxels@).contains_key(b) <==> blocks(frame.voxels@, factor as int).contains(b) by {
            lemma_listed_occupies(list@, b);
            if located_map(voxels@).contains_key(b) {
                let j = choose|j: int| 0 <= j < voxels@.len() && #[trigger] voxels@[j].loc() == b;
                assert(list@[j] == b);
                assert(listed(list@).contains(b));
            }
            if blocks(frame.voxels@, factor as int).contains(b) {
                assert(listed(list@).contains(b));
                let j = choose|j: int| 0 <= j < list@.len() && #[trigger] list@[j] == b;
                assert(voxels@[j].loc() == b);
                assert(crate::cellmap::occupies(voxels@, b));
            }
        }
    }
    RoughFrame {
        time_microseconds: frame.time_microseconds,
        duration_microseconds: frame.duration_microseconds,
        voxels,
        discarded_overlaps: Vec::new(),
    }
}

} // verus!
