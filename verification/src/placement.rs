//! Placing a rigid part's voxels in a posed frame once its samples are
//! binned: every source voxel gets a cell of its own, and cells below the
//! coverage threshold are added back until the body is one face-connected
//! piece.

use vstd::prelude::*;
use vstd::string::StringExecFns;

use crate::cellmap::{contains, index_at, insert_absent, lemma_map_at, located_map, occupies, sorted_by_loc, Located};
use crate::cellstore::listed;
use crate::cleanup::{neighbor, spec_neighbor};
use crate::components::{components, connected_components};
use crate::kit::KitCell;
use crate::shell::{nearest_free_cell, SEARCH_BOUND};
use crate::voxel::coord_lt;

verus! {

/// One rasterized cell with the source voxel it came from.
#[derive(Debug, Clone, Copy, PartialEq, Eq)]
pub struct RasterCell {
    pub coordinate: [i64; 3],
    pub material_slot: u16,
    pub source_voxel_index: u32,
}

impl Located for RasterCell {
    open spec fn loc(&self) -> [i64; 3] {
        self.coordinate
    }

    fn location(&self) -> (c: [i64; 3]) {
        self.coordinate
    }
}

/// Why a pose cannot be rasterized.
#[derive(Debug, Clone, PartialEq, Eq)]
pub enum PoseError {
    Validation(String),
    UnknownClip(usize),
    EngineEvaluation(String),
    NonRigidPose { node: u32, reason: String },
}

/// The message of a placement that leaves the search range.
pub open spec fn out_of_range_message() -> Seq<char> {
    "rasterized cell is outside the placement range"@
}

/// Inside the range where the nearest-free search cannot overflow.
pub open spec fn in_search_range(c: [i64; 3]) -> bool {
    -SEARCH_BOUND < c[0] < SEARCH_BOUND && -SEARCH_BOUND < c[1] < SEARCH_BOUND && -SEARCH_BOUND < c[2] < SEARCH_BOUND
}

/// `x` is one of the binned votes.
pub open spec fn is_vote(votes: Seq<RasterCell>, x: RasterCell) -> bool {
    exists|j: int| 0 <= j < votes.len() && votes[j] == x
}

/// `x` stands for source voxel `i` with that voxel's own material slot.
pub open spec fn placed_from_source(source: Seq<KitCell>, x: RasterCell) -> bool {
    x.source_voxel_index < source.len() && x.material_slot == source[x.source_voxel_index as int].material_slot
}

/// Some cell of `m` stands for source voxel `i`.
pub open spec fn represents(m: Map<[i64; 3], RasterCell>, i: int) -> bool {
    exists|c: [i64; 3]| m.contains_key(c) && #[trigger] m[c].source_voxel_index == i
}

/// Some face neighbour of `c` is a cell of `m`.
pub open spec fn touches(m: Map<[i64; 3], RasterCell>, c: [i64; 3]) -> bool {
    exists|k: int| 0 <= k < 6 && m.contains_key(#[trigger] spec_neighbor(c, k))
}

/// No vote below the threshold that is not yet a cell touches the cells.
pub open spec fn stalled(votes: Seq<RasterCell>, passed: Seq<bool>, m: Map<[i64; 3], RasterCell>) -> bool {
    forall|j: int|
        0 <= j < votes.len() && !passed[j] && !m.contains_key(#[trigger] votes[j].coordinate) ==> !touches(
            m,
            votes[j].coordinate,
        )
}

/// The cells of `m` that sit where a vote fell below the threshold.
pub open spec fn below_threshold_cells(votes: Seq<RasterCell>, passed: Seq<bool>, m: Map<[i64; 3], RasterCell>) -> Set<[i64; 3]> {
    Set::new(|c: [i64; 3]| m.contains_key(c) && exists|j: int| 0 <= j < votes.len() && !passed[j] && votes[j].coordinate == c)
}

/// What every placement keeps: each cell is a vote or one source voxel's
/// own cell, and voxels `0..upto` are represented.
pub open spec fn placement_holds(
    source: Seq<KitCell>,
    votes: Seq<RasterCell>,
    m: Map<[i64; 3], RasterCell>,
    upto: int,
) -> bool {
    &&& forall|c: [i64; 3]| #[trigger] m.contains_key(c) ==> m[c].coordinate == c && (is_vote(votes, m[c])
        || placed_from_source(source, m[c]))
    &&& forall|i: int| 0 <= i < upto ==> represents(m, i)
}

fn coords_of(cells: &Vec<RasterCell>) -> (coords: Vec<[i64; 3]>)
    requires
        sorted_by_loc(cells@),
    ensures
        sorted_by_loc(coords@),
        listed(coords@) == located_map(cells@).dom(),
        coords@.len() == cells@.len(),
{
    let mut coords: Vec<[i64; 3]> = Vec::new();
    let mut i: usize = 0;
    while i < cells.len()
        invariant
            sorted_by_loc(cells@),
            i <= cells@.len(),
            coords@.len() == i,
            forall|j: int| 0 <= j < i ==> #[trigger] coords@[j] == cells@[j].coordinate,
        decreases cells@.len() - i,
    {
        coords.push(cells[i].coordinate);
        i = i + 1;
    }
    assert forall|a: int, b: int| 0 <= a < b < coords@.len() implies coord_lt(
        #[trigger] coords@[a].loc(),
        #[trigger] coords@[b].loc(),
    ) by {
        assert(coord_lt(cells@[a].loc(), cells@[b].loc()));
    }
    assert forall|c: [i64; 3]| listed(coords@).contains(c) <==> located_map(cells@).dom().contains(c) by {
        if listed(coords@).contains(c) {
            let j = choose|j: int| 0 <= j < coords@.len() && coords@[j] == c;
            assert(cells@[j].loc() == c);
        }
        if located_map(cells@).dom().contains(c) {
            let j = index_at(cells@, c);
            assert(coords@[j] == c);
        }
    }
    assert(listed(coords@) =~= located_map(cells@).dom());
    coords
}

/// How many of the face neighbours `k..6` of `c` are cells of `m`.
pub open spec fn faces_from(m: Map<[i64; 3], RasterCell>, c: [i64; 3], k: int) -> nat
    decreases 6 - k,
{
    if k < 0 || k >= 6 {
        0
    } else {
        (if m.contains_key(spec_neighbor(c, k)) { 1nat } else { 0nat }) + faces_from(m, c, k + 1)
    }
}

/// How many of the six face neighbours of `c` are cells of `m`.
pub open spec fn faces(m: Map<[i64; 3], RasterCell>, c: [i64; 3]) -> nat {
    faces_from(m, c, 0)
}

proof fn lemma_faces_touch(m: Map<[i64; 3], RasterCell>, c: [i64; 3], k: int)
    requires
        0 <= k <= 6,
    ensures
        faces_from(m, c, k) > 0 <==> exists|q: int| k <= q < 6 && m.contains_key(#[trigger] spec_neighbor(c, q)),
    decreases 6 - k,
{
    if k < 6 {
        lemma_faces_touch(m, c, k + 1);
        if faces_from(m, c, k + 1) > 0 {
            let q = choose|q: int| k + 1 <= q < 6 && m.contains_key(#[trigger] spec_neighbor(c, q));
            assert(k <= q < 6);
        }
    }
}

/// Touching and a positive face count are the same.
proof fn lemma_faces_positive(m: Map<[i64; 3], RasterCell>, c: [i64; 3])
    ensures
        faces(m, c) > 0 <==> touches(m, c),
{
    lemma_faces_touch(m, c, 0);
}

fn touch_count(cells: &Vec<RasterCell>, c: [i64; 3]) -> (count: usize)
    requires
        sorted_by_loc(cells@),
    ensures
        count <= 6,
        count == faces(located_map(cells@), c),
        count > 0 <==> touches(located_map(cells@), c),
{
    proof {
        lemma_faces_positive(located_map(cells@), c);
    }
    let mut count: usize = 0;
    let mut k: usize = 0;
    while k < 6
        invariant
            sorted_by_loc(cells@),
            k <= 6,
            count <= k,
            count + faces_from(located_map(cells@), c, k as int) == faces(located_map(cells@), c),
        decreases 6 - k,
    {
        if contains(cells, neighbor(c, k)) {
            count = count + 1;
        }
        k = k + 1;
    }
    count
}

} // verus!

verus! {

/// `c` is where the shell search around `origin` settles in the body `m`
/// (the nearest free cell, as `nearest_free` states it over a cell list).
pub open spec fn nearest_in(m: Map<[i64; 3], RasterCell>, origin: [i64; 3], c: [i64; 3]) -> bool {
    let d = crate::shell::offset_of(origin, c);
    &&& crate::shell::cheb(d) >= 1
    &&& !m.contains_key(c)
    &&& forall|e: [i64; 3]| 1 <= crate::shell::cheb(#[trigger] crate::shell::offset_of(origin, e)) < crate::shell::cheb(d)
        ==> m.contains_key(e)
    &&& forall|e: [i64; 3]| crate::shell::cheb(#[trigger] crate::shell::offset_of(origin, e)) == crate::shell::cheb(d)
        && !m.contains_key(e) ==> !crate::shell::offset_before(crate::shell::offset_of(origin, e), d)
}

/// The cell the shell search around `origin` settles on in the body `m`.
#[verifier::opaque]
pub open spec fn nearest_cell(m: Map<[i64; 3], RasterCell>, origin: [i64; 3]) -> [i64; 3] {
    choose|c: [i64; 3]| nearest_in(m, origin, c)
}

proof fn lemma_nearest_unique(m: Map<[i64; 3], RasterCell>, origin: [i64; 3], c: [i64; 3])
    requires
        nearest_in(m, origin, c),
    ensures
        nearest_cell(m, origin) == c,
{
    reveal(nearest_cell);
    let b = nearest_cell(m, origin);
    assert(nearest_in(m, origin, b));
    let db = crate::shell::offset_of(origin, b);
    let dc = crate::shell::offset_of(origin, c);
    if crate::shell::cheb(db) < crate::shell::cheb(dc) {
        assert(m.contains_key(b));
    } else if crate::shell::cheb(dc) < crate::shell::cheb(db) {
        assert(m.contains_key(c));
    } else {
        assert(!crate::shell::offset_before(db, dc));
        assert(!crate::shell::offset_before(dc, db));
        assert(db == dc);
        crate::voxel::lemma_coord_eq(b, c);
    }
}

/// The cell source voxel `i` claims in the body `m`: the cell its centre
/// bins to when free, else the nearest free cell around that one.
pub open spec fn placed_cell(source: Seq<KitCell>, primary: Seq<[i64; 3]>, m: Map<[i64; 3], RasterCell>, i: int) -> RasterCell {
    let p = primary[i];
    let t = if !m.contains_key(p) { p } else { nearest_cell(m, p) };
    RasterCell { coordinate: t, material_slot: source[i].material_slot, source_voxel_index: i as u32 }
}

/// The body after placing source voxels `0..i` on top of `start`; a voxel
/// some cell of `start` already stands for keeps it.
pub open spec fn place_upto(
    source: Seq<KitCell>,
    primary: Seq<[i64; 3]>,
    start: Map<[i64; 3], RasterCell>,
    i: nat,
) -> Map<[i64; 3], RasterCell>
    decreases i,
{
    if i == 0 {
        start
    } else {
        let m = place_upto(source, primary, start, (i - 1) as nat);
        if represents(start, i - 1) {
            m
        } else {
            let x = placed_cell(source, primary, m, i - 1);
            m.insert(x.coordinate, x)
        }
    }
}

/// The votes that reach the threshold, by coordinate.
pub open spec fn passed_map(votes: Seq<RasterCell>, passed: Seq<bool>) -> Map<[i64; 3], RasterCell> {
    Map::new(
        |c: [i64; 3]| exists|j: int| 0 <= j < votes.len() && passed[j] && votes[j].coordinate == c,
        |c: [i64; 3]| votes[choose|j: int| 0 <= j < votes.len() && passed[j] && votes[j].coordinate == c],
    )
}

/// The votes below the threshold whose cells the body `m` lacks, by
/// coordinate.
pub open spec fn candidate_map(votes: Seq<RasterCell>, passed: Seq<bool>, m: Map<[i64; 3], RasterCell>) -> Map<[i64; 3], RasterCell> {
    Map::new(
        |c: [i64; 3]| !m.contains_key(c) && exists|j: int| 0 <= j < votes.len() && !passed[j] && votes[j].coordinate == c,
        |c: [i64; 3]| votes[choose|j: int| 0 <= j < votes.len() && !passed[j] && votes[j].coordinate == c],
    )
}

/// The cells of a placed and repaired part.
pub open spec fn spec_place_and_connect(
    source: Seq<KitCell>,
    votes: Seq<RasterCell>,
    passed: Seq<bool>,
    primary: Seq<[i64; 3]>,
) -> Map<[i64; 3], RasterCell> {
    let start = passed_map(votes, passed);
    let placed = place_upto(source, primary, start, source.len());
    repair_run(placed, candidate_map(votes, passed, placed), 4096)
}

proof fn lemma_candidate_map(votes: Seq<RasterCell>, passed: Seq<bool>, m: Map<[i64; 3], RasterCell>, cm: Map<[i64; 3], RasterCell>)
    requires
        sorted_by_loc(votes),
        candidates_match(votes, passed, m, cm),
    ensures
        cm == candidate_map(votes, passed, m),
{
    let spec_cm = candidate_map(votes, passed, m);
    assert forall|c: [i64; 3]| cm.contains_key(c) <==> spec_cm.contains_key(c) by {
        if cm.contains_key(c) {
            let j = choose|j: int| 0 <= j < votes.len() && !passed[j] && votes[j] == cm[c];
            assert(votes[j].coordinate == c);
        }
        if spec_cm.contains_key(c) {
            let j = choose|j: int| 0 <= j < votes.len() && !passed[j] && votes[j].coordinate == c;
            assert(!m.contains_key(votes[j].coordinate));
        }
    }
    assert forall|c: [i64; 3]| #[trigger] cm.contains_key(c) implies cm[c] == spec_cm[c] by {
        let j = choose|j: int| 0 <= j < votes.len() && !passed[j] && votes[j] == cm[c];
        let q = choose|q: int| 0 <= q < votes.len() && !passed[q] && votes[q].coordinate == c;
        if j != q {
            crate::cellmap::lemma_sorted_unique(votes, j, q);
        }
    }
    assert(cm =~= spec_cm);
}

/// Source voxels in strictly ascending coordinate order, as a validated
/// kit part lists them.
pub open spec fn source_sorted(source: Seq<KitCell>) -> bool {
    forall|i: int, j: int| 0 <= i < j < source.len() ==> coord_lt(source[i].coordinate, source[j].coordinate)
}

/// The cells of the votes that reached the threshold.
fn passed_cells(source: &Vec<KitCell>, votes: &Vec<RasterCell>, passed: &Vec<bool>) -> (live: Vec<RasterCell>)
    requires
        sorted_by_loc(votes@),
        passed@.len() == votes@.len(),
    ensures
        sorted_by_loc(live@),
        located_map(live@) == passed_map(votes@, passed@),
        live@.len() <= votes@.len(),
        placement_holds(source@, votes@, located_map(live@), 0),
        forall|j: int| 0 <= j < votes@.len() && passed@[j] ==> located_map(live@).contains_key(
            (#[trigger] votes@[j]).coordinate,
        ) && located_map(live@)[votes@[j].coordinate] == votes@[j],
{
    let mut live: Vec<RasterCell> = Vec::new();
    let mut j: usize = 0;
    while j < votes.len()
        invariant
            sorted_by_loc(votes@),
            passed@.len() == votes@.len(),
            j <= votes@.len(),
            live@.len() <= j,
            sorted_by_loc(live@),
            placement_holds(source@, votes@, located_map(live@), 0),
            forall|c: [i64; 3]| #[trigger] located_map(live@).contains_key(c) ==> exists|q: int|
                0 <= q < j && passed@[q] && votes@[q].coordinate == c,
            forall|q: int| 0 <= q < j && passed@[q] ==> located_map(live@).contains_key(
                (#[trigger] votes@[q]).coordinate,
            ) && located_map(live@)[votes@[q].coordinate] == votes@[q],
        decreases votes@.len() - j,
    {
        if passed[j] {
            let x = votes[j];
            let ghost m0 = located_map(live@);
            proof {
                if occupies(live@, x.coordinate) {
                    assert(m0.contains_key(x.coordinate));
                    let q = choose|q: int| 0 <= q < j && passed@[q] && votes@[q].coordinate == x.coordinate;
                    assert(coord_lt(votes@[q].loc(), votes@[j as int].loc()));
                    crate::voxel::lemma_coord_lt_total(x.coordinate, x.coordinate);
                }
            }
            insert_absent(&mut live, x);
            proof {
                let m1 = located_map(live@);
                assert(is_vote(votes@, x));
                assert forall|c: [i64; 3]| #[trigger] m1.contains_key(c) implies exists|q: int|
                    0 <= q < j + 1 && passed@[q] && votes@[q].coordinate == c by {
                    if c != x.coordinate {
                        assert(m0.contains_key(c));
                        let q = choose|q: int| 0 <= q < j && passed@[q] && votes@[q].coordinate == c;
                        assert(0 <= q < j + 1 && passed@[q] && votes@[q].coordinate == c);
                    } else {
                        assert(votes@[j as int].coordinate == c);
                    }
                }
                assert forall|q: int| 0 <= q < j + 1 && passed@[q] implies m1.contains_key(
                    (#[trigger] votes@[q]).coordinate,
                ) && m1[votes@[q].coordinate] == votes@[q] by {
                    if q == j {
                        assert(m1 == m0.insert(x.coordinate, x));
                        assert(votes@[q] == x);
                    } else {
                        assert(m0.contains_key(votes@[q].coordinate));
                        assert(coord_lt(votes@[q].loc(), votes@[j as int].loc()));
                        crate::voxel::lemma_coord_lt_total(votes@[q].coordinate, x.coordinate);
                    }
                }
            }
        }
        j = j + 1;
    }
    proof {
        let m = located_map(live@);
        let pm = passed_map(votes@, passed@);
        assert forall|c: [i64; 3]| m.contains_key(c) <==> pm.contains_key(c) by {
            if pm.contains_key(c) {
                let j = choose|j: int| 0 <= j < votes@.len() && passed@[j] && votes@[j].coordinate == c;
                assert(m.contains_key(votes@[j].coordinate));
            }
        }
        assert forall|c: [i64; 3]| #[trigger] m.contains_key(c) implies m[c] == pm[c] by {
            let q = choose|q: int| 0 <= q < votes@.len() && passed@[q] && votes@[q].coordinate == c;
            assert(m.contains_key(votes@[q].coordinate) && m[votes@[q].coordinate] == votes@[q]);
            let j = choose|j: int| 0 <= j < votes@.len() && passed@[j] && votes@[j].coordinate == c;
            if j != q {
                crate::cellmap::lemma_sorted_unique(votes@, j, q);
            }
        }
        assert(m =~= pm);
    }
    live
}

} // verus!

verus! {

fn represented_flags(live: &Vec<RasterCell>, n: usize) -> (rep: Vec<bool>)
    requires
        sorted_by_loc(live@),
    ensures
        rep@.len() == n,
        forall|q: int| 0 <= q < n ==> (#[trigger] rep@[q] <==> represents(located_map(live@), q)),
{
    let mut rep: Vec<bool> = Vec::new();
    let mut i: usize = 0;
    while i < n
        invariant
            i <= n,
            rep@.len() == i,
            forall|q: int| 0 <= q < i ==> !#[trigger] rep@[q],
        decreases n - i,
    {
        rep.push(false);
        i = i + 1;
    }
    let mut k: usize = 0;
    while k < live.len()
        invariant
            sorted_by_loc(live@),
            k <= live@.len(),
            rep@.len() == n,
            forall|q: int| 0 <= q < n ==> (#[trigger] rep@[q] <==> exists|k2: int|
                0 <= k2 < k && live@[k2].source_voxel_index == q),
        decreases live@.len() - k,
    {
        let idx = live[k].source_voxel_index as usize;
        if idx < n {
            rep.set(idx, true);
        }
        proof {
            assert forall|q: int| 0 <= q < n implies (#[trigger] rep@[q] <==> exists|k2: int|
                0 <= k2 < k + 1 && live@[k2].source_voxel_index == q) by {
                if live@[k as int].source_voxel_index == q {
                    assert(0 <= k < k + 1);
                }
                if exists|k2: int| 0 <= k2 < k + 1 && live@[k2].source_voxel_index == q {
                    let k2 = choose|k2: int| 0 <= k2 < k + 1 && live@[k2].source_voxel_index == q;
                    if k2 < k {
                        assert(exists|k3: int| 0 <= k3 < k && live@[k3].source_voxel_index == q);
                    }
                }
            }
        }
        k = k + 1;
    }
    proof {
        let m = located_map(live@);
        assert forall|q: int| 0 <= q < n implies (#[trigger] rep@[q] <==> represents(m, q)) by {
            if rep@[q] {
                let k2 = choose|k2: int| 0 <= k2 < live@.len() && live@[k2].source_voxel_index == q;
                lemma_map_at(live@, k2);
                let c = live@[k2].coordinate;
                assert(m.contains_key(c) && m[c].source_voxel_index == q);
            }
            if represents(m, q) {
                let c = choose|c: [i64; 3]| m.contains_key(c) && #[trigger] m[c].source_voxel_index == q;
                let k2 = index_at(live@, c);
                assert(0 <= k2 < live@.len() && live@[k2].source_voxel_index == q);
            }
        }
    }
    rep
}

/// Gives every source voxel that no cell stands for yet a cell of its own:
/// the cell its centre bins to when that is free, else the nearest free
/// cell around it.
fn place_voxels(
    source: &Vec<KitCell>,
    primary: &Vec<[i64; 3]>,
    live: &mut Vec<RasterCell>,
    Ghost(votes): Ghost<Seq<RasterCell>>,
) -> (result: Result<(), PoseError>)
    requires
        sorted_by_loc(old(live)@),
        placement_holds(source@, votes, located_map(old(live)@), 0),
        primary@.len() == source@.len(),
        source@.len() <= 0x1_0000_0000,
    ensures
        sorted_by_loc(final(live)@),
        forall|c: [i64; 3]| located_map(old(live)@).contains_key(c) ==> #[trigger] located_map(final(live)@).contains_key(c)
            && located_map(final(live)@)[c] == located_map(old(live)@)[c],
        result is Ok ==> placement_holds(source@, votes, located_map(final(live)@), source@.len() as int),
        result is Ok ==> located_map(final(live)@) == place_upto(source@, primary@, located_map(old(live)@), source@.len()),
        result matches Err(e) ==> e == PoseError::Validation(e->Validation_0) && e->Validation_0@ == out_of_range_message()
            && ((exists|i: int| 0 <= i < primary@.len() && !in_search_range(#[trigger] primary@[i])) || old(live)@.len()
            + source@.len() >= SEARCH_BOUND - 1),
{
    let n = source.len();
    let mut rep = represented_flags(live, n);
    let ghost m_start = located_map(live@);
    let mut i: usize = 0;
    while i < n
        invariant
            n == source@.len(),
            primary@.len() == n,
            n <= 0x1_0000_0000,
            i <= n,
            rep@.len() == n,
            sorted_by_loc(live@),
            placement_holds(source@, votes, located_map(live@), 0),
            forall|q: int| 0 <= q < n && #[trigger] rep@[q] ==> represents(located_map(live@), q),
            forall|q: int| 0 <= q < i ==> #[trigger] rep@[q],
            m_start == located_map(old(live)@),
            located_map(live@) == place_upto(source@, primary@, m_start, i as nat),
            forall|q: int| i <= q < n ==> (#[trigger] rep@[q] <==> represents(m_start, q)),
            live@.len() <= old(live)@.len() + i,
            forall|c: [i64; 3]| m_start.contains_key(c) ==> #[trigger] located_map(live@).contains_key(c)
                && located_map(live@)[c] == m_start[c],
        decreases n - i,
    {
        if !rep[i] {
            let p = primary[i];
            let target = if !contains(live, p) {
                p
            } else {
                if !(-SEARCH_BOUND < p[0] && p[0] < SEARCH_BOUND && -SEARCH_BOUND < p[1] && p[1] < SEARCH_BOUND
                    && -SEARCH_BOUND < p[2] && p[2] < SEARCH_BOUND) || live.len() as u64 >= (SEARCH_BOUND - 1) as u64 {
                    proof {
                        if in_search_range(p) {
                            assert(old(live)@.len() + source@.len() >= SEARCH_BOUND - 1);
                        } else {
                            assert(!in_search_range(primary@[i as int]));
                        }
                    }
                    return Err(PoseError::Validation(String::from_str("rasterized cell is outside the placement range")));
                }
                let coords = coords_of(live);
                let t = nearest_free_cell(p, &coords);
                proof {
                    let m = located_map(live@);
                    assert forall|e: [i64; 3]| occupies(coords@, e) <==> #[trigger] m.contains_key(e) by {
                        if m.contains_key(e) {
                            assert(listed(coords@).contains(e));
                            let j = choose|j: int| 0 <= j < coords@.len() && coords@[j] == e;
                            assert(coords@[j].loc() == e);
                        }
                        if occupies(coords@, e) {
                            let j = choose|j: int| 0 <= j < coords@.len() && coords@[j].loc() == e;
                            assert(coords@[j] == e);
                            assert(listed(coords@).contains(e));
                        }
                    }
                    assert(nearest_in(m, p, t));
                    lemma_nearest_unique(m, p, t);
                }
                t
            };
            let cell = RasterCell { coordinate: target, material_slot: source[i].material_slot, source_voxel_index: i as u32 };
            let ghost m0 = located_map(live@);
            assert(!occupies(live@, target));
            assert(cell == placed_cell(source@, primary@, m0, i as int));
            insert_absent(live, cell);
            proof {
                let m1 = located_map(live@);
                assert(m1 == m0.insert(target, cell));
                assert(!represents(m_start, i as int));
                assert(placed_from_source(source@, cell));
                assert forall|q: int| 0 <= q < n && #[trigger] rep@[q] implies represents(m1, q) by {
                    let c = choose|c: [i64; 3]| m0.contains_key(c) && #[trigger] m0[c].source_voxel_index == q;
                    assert(m1.contains_key(c) && m1[c] == m0[c]);
                }
                assert(m1.contains_key(target) && m1[target].source_voxel_index == i);
            }
            rep.set(i, true);
        }
        i = i + 1;
    }
    proof {
        assert forall|q: int| 0 <= q < n implies represents(located_map(live@), q) by {
            assert(rep@[q]);
        }
    }
    Ok(())
}

} // verus!

verus! {

/// `cm` holds exactly the votes below the threshold whose cells `m` does
/// not have yet.
pub open spec fn candidates_match(
    votes: Seq<RasterCell>,
    passed: Seq<bool>,
    m: Map<[i64; 3], RasterCell>,
    cm: Map<[i64; 3], RasterCell>,
) -> bool {
    &&& forall|c: [i64; 3]| #[trigger] cm.contains_key(c) ==> !m.contains_key(c) && cm[c].coordinate == c && exists|j: int|
        0 <= j < votes.len() && !passed[j] && votes[j] == cm[c]
    &&& forall|j: int| 0 <= j < votes.len() && !passed[j] && !m.contains_key(#[trigger] votes[j].coordinate)
        ==> cm.contains_key(votes[j].coordinate)
}

fn below_threshold(votes: &Vec<RasterCell>, passed: &Vec<bool>, live: &Vec<RasterCell>) -> (cands: Vec<RasterCell>)
    requires
        sorted_by_loc(votes@),
        sorted_by_loc(live@),
        passed@.len() == votes@.len(),
    ensures
        sorted_by_loc(cands@),
        candidates_match(votes@, passed@, located_map(live@), located_map(cands@)),
{
    let ghost m = located_map(live@);
    let mut cands: Vec<RasterCell> = Vec::new();
    let mut j: usize = 0;
    while j < votes.len()
        invariant
            sorted_by_loc(votes@),
            sorted_by_loc(live@),
            m == located_map(live@),
            passed@.len() == votes@.len(),
            j <= votes@.len(),
            sorted_by_loc(cands@),
            forall|c: [i64; 3]| #[trigger] located_map(cands@).contains_key(c) ==> !m.contains_key(c)
                && located_map(cands@)[c].coordinate == c && exists|q: int|
                0 <= q < j && !passed@[q] && votes@[q] == located_map(cands@)[c],
            forall|q: int| 0 <= q < j && !passed@[q] && !m.contains_key(#[trigger] votes@[q].coordinate)
                ==> located_map(cands@).contains_key(votes@[q].coordinate),
        decreases votes@.len() - j,
    {
        let x = votes[j];
        if !passed[j] && !contains(live, x.coordinate) {
            let ghost c0 = located_map(cands@);
            proof {
                if occupies(cands@, x.coordinate) {
                    assert(c0.contains_key(x.coordinate));
                    let q = choose|q: int| 0 <= q < j && !passed@[q] && votes@[q] == c0[x.coordinate];
                    assert(coord_lt(votes@[q].loc(), votes@[j as int].loc()));
                    crate::voxel::lemma_coord_lt_total(x.coordinate, x.coordinate);
                }
            }
            insert_absent(&mut cands, x);
            proof {
                let c1 = located_map(cands@);
                assert(c1 == c0.insert(x.coordinate, x));
                assert forall|c: [i64; 3]| #[trigger] c1.contains_key(c) implies !m.contains_key(c) && c1[c].coordinate == c
                    && exists|q: int| 0 <= q < j + 1 && !passed@[q] && votes@[q] == c1[c] by {
                    if c != x.coordinate {
                        let q = choose|q: int| 0 <= q < j && !passed@[q] && votes@[q] == c0[c];
                        assert(0 <= q < j + 1 && !passed@[q] && votes@[q] == c1[c]);
                    } else {
                        assert(votes@[j as int] == c1[c]);
                    }
                }
            }
        }
        j = j + 1;
    }
    cands
}

/// The component count of no cells is zero.
proof fn lemma_no_components()
    ensures
        components(Set::<[i64; 3]>::empty()).len() == 0,
{
    assert(components(Set::<[i64; 3]>::empty()) =~= Set::empty());
}

/// The body after placement is one face-connected piece, or no vote below
/// the threshold can join it, or at least 4096 cells were added back from
/// such votes.
pub open spec fn repair_settled(votes: Seq<RasterCell>, passed: Seq<bool>, m: Map<[i64; 3], RasterCell>) -> bool {
    ||| components(m.dom()).len() <= 1
    ||| stalled(votes, passed, m)
    ||| exists|s: Set<[i64; 3]>| s.finite() && s.len() >= 4096 && s.subset_of(below_threshold_cells(votes, passed, m))
}

} // verus!

verus! {

/// Moves candidate `x` (at position `t`) into the body.
fn take_candidate(
    live: &mut Vec<RasterCell>,
    cands: &mut Vec<RasterCell>,
    t: usize,
    Ghost(source): Ghost<Seq<KitCell>>,
    Ghost(votes): Ghost<Seq<RasterCell>>,
    Ghost(passed): Ghost<Seq<bool>>,
    Ghost(n): Ghost<int>,
) -> (x: RasterCell)
    requires
        sorted_by_loc(old(live)@),
        sorted_by_loc(old(cands)@),
        t < old(cands)@.len(),
        candidates_match(votes, passed, located_map(old(live)@), located_map(old(cands)@)),
        placement_holds(source, votes, located_map(old(live)@), n),
    ensures
        sorted_by_loc(final(live)@),
        sorted_by_loc(final(cands)@),
        candidates_match(votes, passed, located_map(final(live)@), located_map(final(cands)@)),
        placement_holds(source, votes, located_map(final(live)@), n),
        !located_map(old(live)@).contains_key(x.coordinate),
        located_map(final(live)@) == located_map(old(live)@).insert(x.coordinate, x),
        exists|j: int| 0 <= j < votes.len() && !passed[j] && votes[j].coordinate == x.coordinate,
        x == old(cands)@[t as int],
        located_map(old(cands)@).contains_key(x.coordinate) && located_map(old(cands)@)[x.coordinate] == x,
        located_map(final(cands)@) == located_map(old(cands)@).remove(x.coordinate),
{
    let x = cands[t];
    let ghost m0 = located_map(live@);
    let ghost c0 = located_map(cands@);
    proof {
        lemma_map_at(cands@, t as int);
        assert(c0.contains_key(x.coordinate) && c0[x.coordinate] == x);
    }
    let _ = crate::cellmap::remove_at(cands, x.coordinate);
    assert(!occupies(live@, x.coordinate));
    insert_absent(live, x);
    proof {
        let m1 = located_map(live@);
        let c1 = located_map(cands@);
        assert(m1 == m0.insert(x.coordinate, x));
        assert(c1 == c0.remove(x.coordinate));
        let j = choose|j: int| 0 <= j < votes.len() && !passed[j] && votes[j] == c0[x.coordinate];
        assert(votes[j].coordinate == x.coordinate);
        assert(is_vote(votes, x));
        assert forall|i: int| 0 <= i < n implies represents(m1, i) by {
            assert(represents(m0, i));
            let c = choose|c: [i64; 3]| m0.contains_key(c) && #[trigger] m0[c].source_voxel_index == i;
            assert(c != x.coordinate);
            assert(m1.contains_key(c) && m1[c] == m0[c]);
        }
        assert forall|q: int| 0 <= q < votes.len() && !passed[q] && !m1.contains_key(#[trigger] votes[q].coordinate)
            implies c1.contains_key(votes[q].coordinate) by {
            assert(!m0.contains_key(votes[q].coordinate));
        }
    }
    x
}

/// The candidate with the most face contacts with the body (the first, so
/// the lowest coordinate, among equals) and its contact count; a count of
/// zero means no candidate touches the body.
fn best_candidate(live: &Vec<RasterCell>, cands: &Vec<RasterCell>) -> (found: (usize, usize))
    requires
        sorted_by_loc(live@),
    ensures
        found.1 > 0 ==> found.0 < cands@.len() && faces(located_map(live@), cands@[found.0 as int].coordinate) == found.1,
        forall|u: int| 0 <= u < cands@.len() ==> faces(located_map(live@), (#[trigger] cands@[u]).coordinate) <= found.1,
        forall|u: int| 0 <= u < found.0 && found.1 > 0 ==> faces(located_map(live@), (#[trigger] cands@[u]).coordinate) < found.1,
{
    let mut best: usize = 0;
    let mut best_count: usize = 0;
    let mut t: usize = 0;
    while t < cands.len()
        invariant
            sorted_by_loc(live@),
            t <= cands@.len(),
            best_count > 0 ==> best < t && faces(located_map(live@), cands@[best as int].coordinate) == best_count,
            forall|u: int| 0 <= u < t ==> faces(located_map(live@), (#[trigger] cands@[u]).coordinate) <= best_count,
            forall|u: int| 0 <= u < best && best_count > 0 ==> faces(located_map(live@), (#[trigger] cands@[u]).coordinate) < best_count,
        decreases cands@.len() - t,
    {
        let count = touch_count(live, cands[t].coordinate);
        if count > best_count {
            best = t;
            best_count = count;
        }
        t = t + 1;
    }
    (best, best_count)
}

/// Takes candidate `t` into the body when one was picked; otherwise leaves
/// both lists as they are.
fn take_picked(
    live: &mut Vec<RasterCell>,
    cands: &mut Vec<RasterCell>,
    pick: Option<usize>,
    Ghost(source): Ghost<Seq<KitCell>>,
    Ghost(votes): Ghost<Seq<RasterCell>>,
    Ghost(passed): Ghost<Seq<bool>>,
    Ghost(n): Ghost<int>,
) -> (x: Option<RasterCell>)
    requires
        sorted_by_loc(old(live)@),
        sorted_by_loc(old(cands)@),
        pick matches Some(t) ==> t < old(cands)@.len(),
        candidates_match(votes, passed, located_map(old(live)@), located_map(old(cands)@)),
        placement_holds(source, votes, located_map(old(live)@), n),
    ensures
        sorted_by_loc(final(live)@),
        sorted_by_loc(final(cands)@),
        candidates_match(votes, passed, located_map(final(live)@), located_map(final(cands)@)),
        placement_holds(source, votes, located_map(final(live)@), n),
        pick is None <==> x is None,
        x is None ==> final(live)@ == old(live)@,
        x is None ==> final(cands)@ == old(cands)@,
        x matches Some(y) ==> !located_map(old(live)@).contains_key(y.coordinate) && located_map(final(live)@)
            == located_map(old(live)@).insert(y.coordinate, y) && exists|j: int|
            0 <= j < votes.len() && !passed[j] && votes[j].coordinate == y.coordinate,
        x matches Some(y) ==> y == old(cands)@[pick.unwrap() as int] && located_map(old(cands)@)[y.coordinate] == y
            && located_map(final(cands)@) == located_map(old(cands)@).remove(y.coordinate),
{
    match pick {
        Some(t) => Some(take_candidate(live, cands, t, Ghost(source), Ghost(votes), Ghost(passed), Ghost(n))),
        None => None,
    }
}

proof fn lemma_empty_body(live: Seq<RasterCell>)
    requires
        live.len() == 0,
    ensures
        located_map(live).dom() == Set::<[i64; 3]>::empty(),
        components(located_map(live).dom()).len() <= 1,
{
    assert(located_map(live).dom() =~= Set::<[i64; 3]>::empty());
    lemma_no_components();
}

/// `c` is the candidate to add next: it touches the body, and no candidate
/// touches more faces or, touching as many, has a lower coordinate.
pub open spec fn is_best(m: Map<[i64; 3], RasterCell>, cm: Map<[i64; 3], RasterCell>, c: [i64; 3]) -> bool {
    &&& cm.contains_key(c)
    &&& faces(m, c) > 0
    &&& forall|d: [i64; 3]| #[trigger] cm.contains_key(d) ==> faces(m, d) <= faces(m, c) && (faces(m, d) == faces(m, c)
        ==> !coord_lt(d, c))
}

/// The candidate to add next.
#[verifier::opaque]
pub open spec fn best_coord(m: Map<[i64; 3], RasterCell>, cm: Map<[i64; 3], RasterCell>) -> [i64; 3] {
    choose|c: [i64; 3]| is_best(m, cm, c)
}

proof fn lemma_best_coord(m: Map<[i64; 3], RasterCell>, cm: Map<[i64; 3], RasterCell>, c: [i64; 3])
    requires
        is_best(m, cm, c),
    ensures
        best_coord(m, cm) == c,
{
    reveal(best_coord);
    let b = best_coord(m, cm);
    assert(is_best(m, cm, b));
    assert(cm.contains_key(b) && cm.contains_key(c));
    crate::voxel::lemma_coord_lt_total(b, c);
}

/// The repair, with `rounds` rounds left: an empty body takes the lowest
/// candidate; a body in one piece, or one no candidate touches, stays; else
/// the best candidate joins it.
pub open spec fn repair_run(m: Map<[i64; 3], RasterCell>, cm: Map<[i64; 3], RasterCell>, rounds: nat) -> Map<[i64; 3], RasterCell>
    decreases rounds,
{
    if rounds == 0 {
        m
    } else if m.dom() == Set::<[i64; 3]>::empty() {
        if cm.dom() == Set::<[i64; 3]>::empty() {
            m
        } else {
            let c = crate::connect::least(cm.dom());
            repair_run(m.insert(c, cm[c]), cm.remove(c), (rounds - 1) as nat)
        }
    } else if components(m.dom()).len() <= 1 {
        m
    } else if forall|c: [i64; 3]| #[trigger] cm.contains_key(c) ==> faces(m, c) == 0 {
        m
    } else {
        let c = best_coord(m, cm);
        repair_run(m.insert(c, cm[c]), cm.remove(c), (rounds - 1) as nat)
    }
}

proof fn lemma_least_cands(cands: Seq<RasterCell>)
    requires
        sorted_by_loc(cands),
        cands.len() > 0,
    ensures
        crate::connect::least(located_map(cands).dom()) == cands[0].coordinate,
        located_map(cands).dom() != Set::<[i64; 3]>::empty(),
{
    let set = located_map(cands).dom();
    lemma_map_at(cands, 0);
    assert(set.contains(cands[0].coordinate));
    assert forall|d: [i64; 3]| #[trigger] set.contains(d) implies !coord_lt(d, cands[0].coordinate) by {
        let j = index_at(cands, d);
        if j > 0 {
            assert(coord_lt(cands[0].loc(), cands[j].loc()));
        }
        crate::voxel::lemma_coord_lt_total(d, cands[0].coordinate);
    }
    reveal(crate::connect::least);
    let c = crate::connect::least(set);
    crate::voxel::lemma_coord_lt_total(c, cands[0].coordinate);
}

/// Adds votes below the threshold back, most face contacts first (lowest
/// coordinate among equals), until the body is one piece, no vote can join
/// it, or 4096 rounds have passed; an empty body is seeded with the lowest
/// such vote.
fn repair(
    live: &mut Vec<RasterCell>,
    cands: &mut Vec<RasterCell>,
    Ghost(source): Ghost<Seq<KitCell>>,
    Ghost(votes): Ghost<Seq<RasterCell>>,
    Ghost(passed): Ghost<Seq<bool>>,
    Ghost(n): Ghost<int>,
)
    requires
        sorted_by_loc(old(live)@),
        sorted_by_loc(old(cands)@),
        candidates_match(votes, passed, located_map(old(live)@), located_map(old(cands)@)),
        placement_holds(source, votes, located_map(old(live)@), n),
    ensures
        sorted_by_loc(final(live)@),
        placement_holds(source, votes, located_map(final(live)@), n),
        repair_settled(votes, passed, located_map(final(live)@)),
        located_map(final(live)@) == repair_run(located_map(old(live)@), located_map(old(cands)@), 4096),
        forall|c: [i64; 3]| located_map(old(live)@).contains_key(c) ==> #[trigger] located_map(final(live)@).contains_key(c)
            && located_map(final(live)@)[c] == located_map(old(live)@)[c],
{
    let ghost start = located_map(live@);
    let ghost target = repair_run(located_map(live@), located_map(cands@), 4096);
    let mut rounds: usize = 0;
    let mut done = false;
    let ghost mut added: Set<[i64; 3]> = Set::empty();
    while !done && rounds < 4096
        invariant
            sorted_by_loc(live@),
            sorted_by_loc(cands@),
            candidates_match(votes, passed, located_map(live@), located_map(cands@)),
            placement_holds(source, votes, located_map(live@), n),
            rounds <= 4096,
            start == located_map(old(live)@),
            target == repair_run(located_map(old(live)@), located_map(old(cands)@), 4096),
            forall|c: [i64; 3]| #[trigger] start.contains_key(c) ==> located_map(live@).contains_key(c)
                && located_map(live@)[c] == start[c],
            added.finite(),
            added.len() == rounds,
            added.subset_of(below_threshold_cells(votes, passed, located_map(live@))),
            done ==> components(located_map(live@).dom()).len() <= 1 || stalled(votes, passed, located_map(live@)),
            done ==> located_map(live@) == target,
            !done ==> repair_run(located_map(live@), located_map(cands@), (4096 - rounds) as nat) == target,
        decreases 4096 - rounds + if done { 0int } else { 1int },
    {
        let ghost m0 = located_map(live@);
        let ghost cm0 = located_map(cands@);
        let ghost k: nat = (4096 - rounds) as nat;
        let ghost mut next_c: [i64; 3] = [0, 0, 0];
        let mut pick: Option<usize> = None;
        if live.len() == 0 {
            proof {
                lemma_empty_body(live@);
            }
            if cands.len() == 0 {
                proof {
                    assert(cm0.dom() =~= Set::<[i64; 3]>::empty());
                    assert(repair_run(m0, cm0, k) == m0);
                }
                done = true;
            } else {
                proof {
                    lemma_least_cands(cands@);
                    next_c = cands@[0].coordinate;
                    lemma_map_at(cands@, 0);
                }
                pick = Some(0);
            }
        } else {
            proof {
                lemma_map_at(live@, 0);
                assert(m0.dom().contains(live@[0].coordinate));
            }
            let coords = coords_of(live);
            let comps = connected_components(&coords);
            if comps <= 1 {
                done = true;
            } else {
                let (best, best_count) = best_candidate(live, cands);
                if best_count == 0 {
                    proof {
                        assert forall|c: [i64; 3]| #[trigger] cm0.contains_key(c) implies faces(m0, c) == 0 by {
                            let u = index_at(cands@, c);
                            assert(cands@[u].loc() == c);
                        }
                        assert forall|j: int|
                            0 <= j < votes.len() && !passed[j] && !m0.contains_key(#[trigger] votes[j].coordinate) implies !touches(
                            m0,
                            votes[j].coordinate,
                        ) by {
                            let c = votes[j].coordinate;
                            assert(cm0.contains_key(c));
                            lemma_faces_positive(m0, c);
                        }
                    }
                    done = true;
                } else {
                    proof {
                        let c = cands@[best as int].coordinate;
                        lemma_map_at(cands@, best as int);
                        assert forall|d: [i64; 3]| #[trigger] cm0.contains_key(d) implies faces(m0, d) <= faces(m0, c) && (
                        faces(m0, d) == faces(m0, c) ==> !coord_lt(d, c)) by {
                            let u = index_at(cands@, d);
                            assert(cands@[u].loc() == d);
                            if u > best {
                                assert(coord_lt(cands@[best as int].loc(), cands@[u].loc()));
                            }
                            crate::voxel::lemma_coord_lt_total(d, c);
                        }
                        assert(is_best(m0, cm0, c));
                        lemma_best_coord(m0, cm0, c);
                        assert(!(forall|e: [i64; 3]| #[trigger] cm0.contains_key(e) ==> faces(m0, e) == 0));
                        next_c = c;
                    }
                    pick = Some(best);
                }
            }
        }
        let took = take_picked(live, cands, pick, Ghost(source), Ghost(votes), Ghost(passed), Ghost(n));
        proof {
            let m1 = located_map(live@);
            if let Some(x) = took {
                assert(x.coordinate == next_c);
                assert(repair_run(m0, cm0, k) == repair_run(m1, located_map(cands@), (k - 1) as nat));
                assert forall|c: [i64; 3]| #[trigger] start.contains_key(c) implies m1.contains_key(c)
                    && m1[c] == start[c] by {
                    assert(m0.contains_key(c));
                    assert(c != x.coordinate);
                }
                assert(!added.contains(x.coordinate));
                assert forall|c: [i64; 3]| added.insert(x.coordinate).contains(c) implies below_threshold_cells(
                    votes,
                    passed,
                    m1,
                ).contains(c) by {
                    if c != x.coordinate {
                        assert(below_threshold_cells(votes, passed, m0).contains(c));
                        assert(m1.contains_key(c));
                    }
                }
                added = added.insert(x.coordinate);
            }
        }
        if took.is_some() {
            rounds = rounds + 1;
        }
    }
    proof {
        if !done {
            assert(added.len() >= 4096);
            assert(repair_run(located_map(live@), located_map(cands@), 0) == located_map(live@));
        }
    }
}

} // verus!

verus! {

/// Places a rigid part's cells once its samples are binned. `votes` holds,
/// per covered frame cell in ascending order, the winning source voxel and
/// slot; `passed[j]` says whether vote `j` reached the coverage threshold;
/// `primary[i]` is the cell source voxel `i`'s centre bins to. The
/// threshold-passing votes come first; then every source voxel no cell
/// stands for, in source order, claims its primary cell or, when that is
/// taken, the nearest free cell around it; then votes below the threshold
/// are added back to keep the body in one face-connected piece.
pub fn place_and_connect(
    source: &Vec<KitCell>,
    votes: &Vec<RasterCell>,
    passed: &Vec<bool>,
    primary: &Vec<[i64; 3]>,
) -> (result: Result<Vec<RasterCell>, PoseError>)
    requires
        source_sorted(source@),
        source@.len() <= 0x1_0000_0000,
        sorted_by_loc(votes@),
        passed@.len() == votes@.len(),
        primary@.len() == source@.len(),
    ensures
        match result {
            Ok(cells) => {
                &&& sorted_by_loc(cells@)
                &&& placement_holds(source@, votes@, located_map(cells@), source@.len() as int)
                &&& forall|j: int| 0 <= j < votes@.len() && passed@[j] ==> located_map(cells@).contains_key(
                    (#[trigger] votes@[j]).coordinate,
                ) && located_map(cells@)[votes@[j].coordinate] == votes@[j]
                &&& repair_settled(votes@, passed@, located_map(cells@))
                &&& located_map(cells@) == spec_place_and_connect(source@, votes@, passed@, primary@)
            },
            Err(e) => e == PoseError::Validation(e->Validation_0) && e->Validation_0@ == out_of_range_message() && (
            (exists|i: int| 0 <= i < primary@.len() && !in_search_range(#[trigger] primary@[i]))
                || source@.len() + votes@.len() >= SEARCH_BOUND - 1),
        },
        (forall|i: int| 0 <= i < primary@.len() ==> in_search_range(#[trigger] primary@[i])) && source@.len()
            + votes@.len() < SEARCH_BOUND - 1 ==> result is Ok,
{
    let mut live = passed_cells(source, votes, passed);
    let ghost m_a = located_map(live@);
    let placed = place_voxels(source, primary, &mut live, Ghost(votes@));
    if let Err(e) = placed {
        return Err(e);
    }
    let ghost m_b = located_map(live@);
    let mut cands = below_threshold(votes, passed, &live);
    proof {
        lemma_candidate_map(votes@, passed@, located_map(live@), located_map(cands@));
    }
    repair(&mut live, &mut cands, Ghost(source@), Ghost(votes@), Ghost(passed@), Ghost(source@.len() as int));
    proof {
        let m_c = located_map(live@);
        assert forall|j: int| 0 <= j < votes@.len() && passed@[j] implies m_c.contains_key(
            (#[trigger] votes@[j]).coordinate,
        ) && m_c[votes@[j].coordinate] == votes@[j] by {
            let c = votes@[j].coordinate;
            assert(m_a.contains_key(c));
            assert(m_b.contains_key(c));
        }
    }
    Ok(live)
}

} // verus!
