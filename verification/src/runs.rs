//! Sparse-run encoding of a posed frame: cells in scan order (y, then z,
//! then x) grouped into maximal runs of consecutive x sharing a material.

use vstd::prelude::*;
use vstd::string::StringExecFns;

use crate::assemble::{rough_coordinates, AssembledVoxelCell, RoughFrame};
use crate::voxel::spec_bounds;

verus! {

/// `length` cells from `start` along +x, all with one material.
#[derive(Debug, Clone, Copy, PartialEq, Eq)]
pub struct SparseRun {
    pub start: [i64; 3],
    pub length: u32,
    pub material_slot: u16,
}

/// A frame's bounds and its cells as sparse runs.
#[derive(Debug, Clone, PartialEq, Eq)]
pub struct SparseRunFrame {
    pub min: [i64; 3],
    pub max: [i64; 3],
    pub runs: Vec<SparseRun>,
}

/// Scan order: by y, then z, then x.
pub open spec fn scan_lt(a: [i64; 3], b: [i64; 3]) -> bool {
    a[1] < b[1] || (a[1] == b[1] && (a[2] < b[2] || (a[2] == b[2] && a[0] < b[0])))
}

/// `x` placed after the trailing elements of `s` that do not sort after it:
/// one step of a stable insertion sort.
pub open spec fn scan_insert(s: Seq<([i64; 3], u16)>, x: ([i64; 3], u16)) -> Seq<([i64; 3], u16)>
    decreases s.len(),
{
    if s.len() == 0 {
        seq![x]
    } else if scan_lt(x.0, s.last().0) {
        scan_insert(s.drop_last(), x).push(s.last())
    } else {
        s.push(x)
    }
}

/// The cells stably sorted into scan order.
pub open spec fn scan_sorted(s: Seq<([i64; 3], u16)>) -> Seq<([i64; 3], u16)>
    decreases s.len(),
{
    if s.len() == 0 {
        Seq::empty()
    } else {
        scan_insert(scan_sorted(s.drop_last()), s.last())
    }
}

/// A frame's voxels as (coordinate, material) cells, in stored order.
pub open spec fn frame_cells(voxels: Seq<AssembledVoxelCell>) -> Seq<([i64; 3], u16)> {
    Seq::new(voxels.len(), |i: int| (voxels[i].coordinate, voxels[i].material_slot))
}

/// The cells of one run, in +x order.
pub open spec fn run_span(r: SparseRun) -> Seq<([i64; 3], u16)> {
    Seq::new(r.length as nat, |k: int| ([(r.start[0] + k) as i64, r.start[1], r.start[2]], r.material_slot))
}

/// The cells a run list stands for, in order.
pub open spec fn run_cells(runs: Seq<SparseRun>) -> Seq<([i64; 3], u16)>
    decreases runs.len(),
{
    if runs.len() == 0 {
        Seq::empty()
    } else {
        run_cells(runs.drop_last()) + run_span(runs.last())
    }
}

/// `c` continues run `r`: same material and row, right after its end.
pub open spec fn extends(r: SparseRun, c: ([i64; 3], u16)) -> bool {
    r.material_slot == c.1 && r.start[1] == c.0[1] && r.start[2] == c.0[2] && r.start[0] + r.length == c.0[0]
}

/// Every run is non-empty and no run could absorb the first cell of the
/// next: the runs are maximal.
pub open spec fn maximal_runs(runs: Seq<SparseRun>) -> bool {
    &&& forall|i: int| 0 <= i < runs.len() ==> (#[trigger] runs[i]).length >= 1
    &&& forall|i: int| 0 <= i < runs.len() - 1 ==> !extends(#[trigger] runs[i], (runs[i + 1].start, runs[i + 1].material_slot))
}

} // verus!

verus! {

/// The runs a left-to-right scan builds: a cell that continues the last run
/// lengthens it, any other cell starts a run.
pub open spec fn runs_of(cells: Seq<([i64; 3], u16)>) -> Seq<SparseRun>
    decreases cells.len(),
{
    if cells.len() == 0 {
        Seq::empty()
    } else {
        let before = runs_of(cells.drop_last());
        let x = cells.last();
        if before.len() > 0 && extends(before.last(), x) {
            before.drop_last().push(SparseRun { length: (before.last().length + 1) as u32, ..before.last() })
        } else {
            before.push(SparseRun { start: x.0, length: 1, material_slot: x.1 })
        }
    }
}

proof fn lemma_runs_of(cells: Seq<([i64; 3], u16)>)
    requires
        cells.len() <= u32::MAX,
    ensures
        run_cells(runs_of(cells)) == cells,
        maximal_runs(runs_of(cells)),
        forall|i: int| 0 <= i < runs_of(cells).len() ==> (#[trigger] runs_of(cells)[i]).length <= cells.len(),
    decreases cells.len(),
{
    broadcast use vstd::array::group_array_axioms;

    if cells.len() > 0 {
        let rest = cells.drop_last();
        lemma_runs_of(rest);
        let before = runs_of(rest);
        let x = cells.last();
        if before.len() > 0 && extends(before.last(), x) {
            let last = before.last();
            let grown = SparseRun { length: (last.length + 1) as u32, ..last };
            let runs = before.drop_last().push(grown);
            assert(runs.drop_last() =~= before.drop_last());
            assert(x.0 =~= [(last.start[0] + last.length) as i64, last.start[1], last.start[2]]);
            assert(run_span(grown) =~= run_span(last).push(x));
            assert(run_cells(before) == run_cells(before.drop_last()) + run_span(last));
            assert(run_cells(runs) =~= rest.push(x));
            assert(rest.push(x) =~= cells);
            assert forall|i: int| 0 <= i < runs.len() - 1 implies !extends(
                #[trigger] runs[i],
                (runs[i + 1].start, runs[i + 1].material_slot),
            ) by {
                assert(runs[i] == before[i]);
                if i + 1 < runs.len() - 1 {
                    assert(runs[i + 1] == before[i + 1]);
                }
            }
        } else {
            let fresh = SparseRun { start: x.0, length: 1, material_slot: x.1 };
            let runs = before.push(fresh);
            assert(runs.drop_last() =~= before);
            assert(run_span(fresh)[0].0 =~= x.0);
            assert(run_span(fresh) =~= seq![x]);
            assert(run_cells(runs) =~= rest.push(x));
            assert(rest.push(x) =~= cells);
            assert forall|i: int| 0 <= i < runs.len() - 1 implies !extends(
                #[trigger] runs[i],
                (runs[i + 1].start, runs[i + 1].material_slot),
            ) by {
                assert(runs[i] == before[i]);
                if i + 1 < runs.len() - 1 {
                    assert(runs[i + 1] == before[i + 1]);
                }
            }
        }
    } else {
        assert(run_cells(runs_of(cells)) =~= cells);
    }
}

fn scan_less(a: [i64; 3], b: [i64; 3]) -> (less: bool)
    ensures
        less == scan_lt(a, b),
{
    a[1] < b[1] || (a[1] == b[1] && (a[2] < b[2] || (a[2] == b[2] && a[0] < b[0])))
}

fn scan_insert_exec(sorted: &mut Vec<([i64; 3], u16)>, x: ([i64; 3], u16))
    ensures
        final(sorted)@ == scan_insert(old(sorted)@, x),
{
    let ghost s = sorted@;
    let mut p: usize = sorted.len();
    assert(s.take(p as int) =~= s);
    assert(s.skip(p as int) =~= Seq::<([i64; 3], u16)>::empty());
    while p > 0 && scan_less(x.0, sorted[p - 1].0)
        invariant
            sorted@ == s,
            p <= s.len(),
            scan_insert(s, x) == scan_insert(s.take(p as int), x) + s.skip(p as int),
        decreases p,
    {
        proof {
            let t = s.take(p as int);
            assert(t.drop_last() =~= s.take(p - 1));
            assert(t.last() == s[p - 1]);
            assert(scan_insert(t, x) == scan_insert(s.take(p - 1), x).push(s[p - 1]));
            assert(seq![s[p - 1]] + s.skip(p as int) =~= s.skip(p - 1));
            assert(scan_insert(s.take(p - 1), x).push(s[p - 1]) + s.skip(p as int) =~= scan_insert(s.take(p - 1), x)
                + s.skip(p - 1));
        }
        p = p - 1;
    }
    proof {
        let t = s.take(p as int);
        if p == 0 {
            assert(t =~= Seq::<([i64; 3], u16)>::empty());
        }
        assert(scan_insert(t, x) == t.push(x));
        assert(t.push(x) + s.skip(p as int) =~= s.insert(p as int, x));
    }
    sorted.insert(p, x);
}

/// The frame's cells, stably sorted into scan order.
fn scan_sort(voxels: &Vec<AssembledVoxelCell>) -> (sorted: Vec<([i64; 3], u16)>)
    ensures
        sorted@ == scan_sorted(frame_cells(voxels@)),
{
    let ghost cells = frame_cells(voxels@);
    let mut sorted: Vec<([i64; 3], u16)> = Vec::new();
    let mut i: usize = 0;
    while i < voxels.len()
        invariant
            cells == frame_cells(voxels@),
            i <= voxels@.len(),
            sorted@ == scan_sorted(cells.take(i as int)),
        decreases voxels@.len() - i,
    {
        proof {
            assert(cells.take(i + 1).drop_last() =~= cells.take(i as int));
            assert(cells.take(i + 1).last() == (voxels@[i as int].coordinate, voxels@[i as int].material_slot));
        }
        scan_insert_exec(&mut sorted, (voxels[i].coordinate, voxels[i].material_slot));
        i = i + 1;
    }
    assert(cells.take(i as int) =~= cells);
    sorted
}

} // verus!

verus! {

fn continues(run: &SparseRun, cell: ([i64; 3], u16)) -> (more: bool)
    ensures
        more == extends(*run, cell),
{
    run.material_slot == cell.1 && run.start[1] == cell.0[1] && run.start[2] == cell.0[2] && (run.start[0] as i128)
        + (run.length as i128) == (cell.0[0] as i128)
}

fn build_runs(cells: &Vec<([i64; 3], u16)>) -> (runs: Vec<SparseRun>)
    requires
        cells@.len() <= u32::MAX,
    ensures
        runs@ == runs_of(cells@),
{
    let mut runs: Vec<SparseRun> = Vec::new();
    let mut i: usize = 0;
    while i < cells.len()
        invariant
            cells@.len() <= u32::MAX,
            i <= cells@.len(),
            runs@ == runs_of(cells@.take(i as int)),
        decreases cells@.len() - i,
    {
        let x = cells[i];
        proof {
            assert(cells@.take(i + 1).drop_last() =~= cells@.take(i as int));
            lemma_runs_of(cells@.take(i as int));
        }
        let n = runs.len();
        if n > 0 && continues(&runs[n - 1], x) {
            let last = runs[n - 1];
            proof {
                assert(runs@[n - 1].length <= i);
            }
            runs.set(n - 1, SparseRun { start: last.start, length: last.length + 1, material_slot: last.material_slot });
            proof {
                assert(runs@ =~= runs_of(cells@.take(i + 1)));
            }
        } else {
            runs.push(SparseRun { start: x.0, length: 1, material_slot: x.1 });
        }
        i = i + 1;
    }
    assert(cells@.take(i as int) =~= cells@);
    runs
}

/// A frame's bounds and its cells, in scan order (y, then z, then x; cells
/// at one position keep their stored order), as maximal runs along +x of
/// one material.
pub fn voxel_frame_runs(frame: &RoughFrame) -> (result: Result<SparseRunFrame, String>)
    requires
        frame.voxels@.len() <= u32::MAX,
    ensures
        spec_bounds(rough_coordinates(frame.voxels@)) is None <==> result is Err,
        result matches Err(m) ==> m@ == "posed flipbook frame contains no voxels"@,
        result matches Ok(f) ==> {
            &&& spec_bounds(rough_coordinates(frame.voxels@)) == Some((f.min, f.max))
            &&& run_cells(f.runs@) == scan_sorted(frame_cells(frame.voxels@))
            &&& maximal_runs(f.runs@)
        },
{
    let (min, max) = match frame.bounds() {
        Some(b) => b,
        None => {
            return Err(String::from_str("posed flipbook frame contains no voxels"));
        },
    };
    let sorted = scan_sort(&frame.voxels);
    proof {
        lemma_scan_sorted_len(frame_cells(frame.voxels@));
        lemma_runs_of(sorted@);
    }
    let runs = build_runs(&sorted);
    Ok(SparseRunFrame { min, max, runs })
}

proof fn lemma_scan_insert_len(s: Seq<([i64; 3], u16)>, x: ([i64; 3], u16))
    ensures
        scan_insert(s, x).len() == s.len() + 1,
    decreases s.len(),
{
    if s.len() > 0 && scan_lt(x.0, s.last().0) {
        lemma_scan_insert_len(s.drop_last(), x);
    }
}

proof fn lemma_scan_sorted_len(s: Seq<([i64; 3], u16)>)
    ensures
        scan_sorted(s).len() == s.len(),
    decreases s.len(),
{
    if s.len() > 0 {
        lemma_scan_sorted_len(s.drop_last());
        lemma_scan_insert_len(scan_sorted(s.drop_last()), s.last());
    }
}

} // verus!

verus! {

/// No cell sorts before an earlier one in scan order.
pub open spec fn scan_ordered(s: Seq<([i64; 3], u16)>) -> bool {
    forall|i: int, j: int| 0 <= i < j < s.len() ==> !scan_lt(#[trigger] s[j].0, #[trigger] s[i].0)
}

proof fn lemma_scan_insert(s: Seq<([i64; 3], u16)>, x: ([i64; 3], u16))
    ensures
        scan_insert(s, x).to_multiset() == s.to_multiset().insert(x),
        scan_ordered(s) ==> scan_ordered(scan_insert(s, x)),
    decreases s.len(),
{
    broadcast use vstd::seq_lib::group_to_multiset_ensures;

    if s.len() == 0 {
        assert(seq![x] =~= Seq::<([i64; 3], u16)>::empty().push(x));
        assert(Seq::<([i64; 3], u16)>::empty().to_multiset() =~= s.to_multiset());
    } else if scan_lt(x.0, s.last().0) {
        let t = s.drop_last();
        lemma_scan_insert(t, x);
        let r = scan_insert(t, x);
        assert(s =~= t.push(s.last()));
        assert(r.push(s.last()).to_multiset() =~= s.to_multiset().insert(x));
        if scan_ordered(s) {
            assert(scan_ordered(t));
            assert forall|i: int, j: int| 0 <= i < j < r.push(s.last()).len() implies !scan_lt(
                #[trigger] r.push(s.last())[j].0,
                #[trigger] r.push(s.last())[i].0,
            ) by {
                if j == r.len() {
                    let e = r[i];
                    assert(r.to_multiset().contains(e));
                    assert(t.to_multiset().insert(x).contains(e));
                    if e != x {
                        assert(t.to_multiset().contains(e));
                        assert(t.contains(e));
                        let k = choose|k: int| 0 <= k < t.len() && t[k] == e;
                        assert(s[k] == e);
                        assert(!scan_lt(s[s.len() - 1].0, s[k].0));
                    }
                }
            }
        }
    } else {
        assert(scan_insert(s, x) == s.push(x));
        if scan_ordered(s) {
            assert forall|i: int, j: int| 0 <= i < j < s.push(x).len() implies !scan_lt(
                #[trigger] s.push(x)[j].0,
                #[trigger] s.push(x)[i].0,
            ) by {
                if j == s.len() && i < s.len() - 1 {
                    assert(!scan_lt(s[s.len() - 1].0, s[i].0));
                }
            }
        }
    }
}

/// Sorting into scan order keeps exactly the frame's cells and leaves them
/// in scan order.
pub proof fn law_scan_sort_is_a_sorted_permutation(s: Seq<([i64; 3], u16)>)
    ensures
        scan_sorted(s).to_multiset() == s.to_multiset(),
        scan_ordered(scan_sorted(s)),
    decreases s.len(),
{
    broadcast use vstd::seq_lib::group_to_multiset_ensures;

    if s.len() == 0 {
        assert(scan_sorted(s).to_multiset() =~= s.to_multiset());
    } else {
        law_scan_sort_is_a_sorted_permutation(s.drop_last());
        lemma_scan_insert(scan_sorted(s.drop_last()), s.last());
        assert(s =~= s.drop_last().push(s.last()));
    }
}

} // verus!
