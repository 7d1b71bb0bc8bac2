//! The evidence bundle a cleanup agent receives for one frame: part
//! summaries, metrics, structural warnings, orthographic diagnostic views,
//! difference overlays against neighbouring frames, and the temporal window.

use vstd::prelude::*;
use vstd::string::StringExecFns;

use crate::cellmap::{contains, get_at, insert_absent, located_map, put, sorted_by_loc, Located};
use crate::cellstore::listed;
use crate::fusion::{cell_coordinates, FusedFrame, FusedVoxelCell, FusedVoxelOrigin};
use crate::project::{sha256, sha256_text};
use crate::region::lemma_listed_occupies;
use crate::cleanup::{fault, EditBounds, EditError, Fault};
use crate::edit::{copy_frame, same_cells, same_frame_meta};
use crate::kit::KitError;
use crate::origins::{origin_index, origins_distinct, repeat_fault};
use crate::structural::FusionKit;
use crate::components::{components, connected_components};
use crate::edit::noncanonical_count;
use crate::structural::{half_range, part_coordinates, part_coordinates_exec};
use crate::text::{coord_string, coord_text, decimal_i64, decimal_text, decimal_u64};
use crate::cleanup::signed_delta;
use crate::edit::EditedFrame;
use crate::voxel::{bounds_of, spec_bounds};

verus! {

#[derive(Debug, Clone, Copy, PartialEq, Eq, Structural)]
pub enum DiagnosticViewKind {
    Front,
    Side,
    Top,
}

/// One pixel of an orthographic diagnostic view.
#[derive(Debug, Clone, Copy, PartialEq, Eq)]
pub struct DiagnosticPixel {
    pub coordinate: [i64; 2],
    pub depth: i64,
    pub material_slot: u16,
    pub part_index: Option<u32>,
}

impl Located for DiagnosticPixel {
    open spec fn loc(&self) -> [i64; 3] {
        [self.coordinate[0], self.coordinate[1], 0]
    }

    fn location(&self) -> (c: [i64; 3]) {
        [self.coordinate[0], self.coordinate[1], 0]
    }
}

#[derive(Debug, Clone, PartialEq, Eq)]
pub struct DiagnosticView {
    pub view: DiagnosticViewKind,
    /// Pixels in ascending image-coordinate order, one per position.
    pub pixels: Vec<DiagnosticPixel>,
}

#[derive(Debug, Clone, Copy, PartialEq, Eq, Structural)]
pub enum DifferenceKind {
    Removed,
    Added,
    Retained,
}

#[derive(Debug, Clone, Copy, PartialEq, Eq)]
pub struct DifferenceCell {
    pub coordinate: [i64; 3],
    pub kind: DifferenceKind,
}

impl Located for DifferenceCell {
    open spec fn loc(&self) -> [i64; 3] {
        self.coordinate
    }

    fn location(&self) -> (c: [i64; 3]) {
        self.coordinate
    }
}

#[derive(Debug, Clone, PartialEq, Eq)]
pub struct DifferenceOverlay {
    pub neighbor: String,
    /// Every coordinate occupied in either frame, in ascending order.
    pub cells: Vec<DifferenceCell>,
}

/// Where a cell lands in a view: its image position and its depth.
pub open spec fn projection(c: [i64; 3], view: DiagnosticViewKind) -> ([i64; 2], i64) {
    match view {
        DiagnosticViewKind::Front => ([c[0], c[1]], c[2]),
        DiagnosticViewKind::Side => ([c[2], c[1]], c[0]),
        DiagnosticViewKind::Top => ([c[0], c[2]], c[1]),
    }
}

pub open spec fn canonical_part(origin: FusedVoxelOrigin) -> Option<u32> {
    match origin {
        FusedVoxelOrigin::Canonical { part_id, .. } => Some(part_id),
        _ => None,
    }
}

/// The pixel a cell would draw.
pub open spec fn candidate_pixel(cell: FusedVoxelCell, view: DiagnosticViewKind) -> DiagnosticPixel {
    DiagnosticPixel {
        coordinate: projection(cell.coordinate, view).0,
        depth: projection(cell.coordinate, view).1,
        material_slot: cell.material_slot,
        part_index: canonical_part(cell.origin),
    }
}

/// `None` sorts before every part index.
pub open spec fn part_before(a: Option<u32>, b: Option<u32>) -> bool {
    match (a, b) {
        (None, Some(_)) => true,
        (Some(x), Some(y)) => x < y,
        _ => false,
    }
}

/// `a` replaces `b` at a shared position: nearer (in an id pass, a lower
/// part index first, then nearer).
pub open spec fn beats(a: DiagnosticPixel, b: DiagnosticPixel, id_pass: bool) -> bool {
    if id_pass {
        part_before(a.part_index, b.part_index) || (a.part_index == b.part_index && a.depth < b.depth)
    } else {
        a.depth < b.depth
    }
}

/// The pixels the cells draw, in cell order: each position keeps its first
/// pixel unless a later one beats it.
pub open spec fn drawn(cells: Seq<FusedVoxelCell>, view: DiagnosticViewKind, id_pass: bool) -> Map<[i64; 3], DiagnosticPixel>
    decreases cells.len(),
{
    if cells.len() == 0 {
        Map::empty()
    } else {
        let m = drawn(cells.drop_last(), view, id_pass);
        let p = candidate_pixel(cells.last(), view);
        if !m.contains_key(p.loc()) || beats(p, m[p.loc()], id_pass) {
            m.insert(p.loc(), p)
        } else {
            m
        }
    }
}

fn candidate_exec(cell: &FusedVoxelCell, view: DiagnosticViewKind) -> (p: DiagnosticPixel)
    ensures
        p == candidate_pixel(*cell, view),
{
    let c = cell.coordinate;
    let (coordinate, depth) = match view {
        DiagnosticViewKind::Front => ([c[0], c[1]], c[2]),
        DiagnosticViewKind::Side => ([c[2], c[1]], c[0]),
        DiagnosticViewKind::Top => ([c[0], c[2]], c[1]),
    };
    let part_index = match &cell.origin {
        FusedVoxelOrigin::Canonical { part_id, .. } => Some(*part_id),
        _ => None,
    };
    DiagnosticPixel { coordinate, depth, material_slot: cell.material_slot, part_index }
}

fn beats_exec(a: &DiagnosticPixel, b: &DiagnosticPixel, id_pass: bool) -> (wins: bool)
    ensures
        wins == beats(*a, *b, id_pass),
{
    if id_pass {
        let before = match (a.part_index, b.part_index) {
            (None, Some(_)) => true,
            (Some(x), Some(y)) => x < y,
            _ => false,
        };
        let same = match (a.part_index, b.part_index) {
            (None, None) => true,
            (Some(x), Some(y)) => x == y,
            _ => false,
        };
        before || (same && a.depth < b.depth)
    } else {
        a.depth < b.depth
    }
}

/// The orthographic projection of a frame: one pixel per image position,
/// the nearest cell's (in an id pass, the lowest part index's, then the
/// nearest), the earliest cell winning ties.
pub fn project_view(frame: &FusedFrame, view: DiagnosticViewKind, id_pass: bool) -> (result: DiagnosticView)
    ensures
        result.view == view,
        sorted_by_loc(result.pixels@),
        located_map(result.pixels@) == drawn(frame.voxels@, view, id_pass),
{
    let cells = &frame.voxels;
    let mut pixels: Vec<DiagnosticPixel> = Vec::new();
    let mut i: usize = 0;
    while i < cells.len()
        invariant
            i <= cells@.len(),
            sorted_by_loc(pixels@),
            located_map(pixels@) == drawn(cells@.take(i as int), view, id_pass),
        decreases cells@.len() - i,
    {
        let p = candidate_exec(&cells[i], view);
        let key = p.location();
        let ghost before = located_map(pixels@);
        proof {
            assert(cells@.take(i + 1).drop_last() =~= cells@.take(i as int));
            assert(cells@.take(i + 1).last() == cells@[i as int]);
        }
        let replace = match get_at(&pixels, key) {
            None => true,
            Some(existing) => beats_exec(&p, existing, id_pass),
        };
        if replace {
            put(&mut pixels, p);
        }
        i = i + 1;
    }
    proof {
        assert(cells@.take(i as int) =~= cells@);
    }
    DiagnosticView { view, pixels }
}


/// The coordinates a frame occupies.
pub open spec fn occupied(frame: FusedFrame) -> Set<[i64; 3]> {
    listed(cell_coordinates(frame.voxels@))
}

pub open spec fn overlay_kind(from: Set<[i64; 3]>, to: Set<[i64; 3]>, c: [i64; 3]) -> DifferenceKind {
    if !to.contains(c) {
        DifferenceKind::Removed
    } else if !from.contains(c) {
        DifferenceKind::Added
    } else {
        DifferenceKind::Retained
    }
}

/// Every coordinate occupied in either frame, marked removed, added or
/// retained going from `from` to `to`.
pub open spec fn overlay_map(from: Set<[i64; 3]>, to: Set<[i64; 3]>) -> Map<[i64; 3], DifferenceCell> {
    Map::new(
        |c: [i64; 3]| from.contains(c) || to.contains(c),
        |c: [i64; 3]| DifferenceCell { coordinate: c, kind: overlay_kind(from, to, c) },
    )
}

/// How occupancy changes from one frame to the next.
pub fn difference_overlay(neighbor: &str, from: &FusedFrame, to: &FusedFrame) -> (overlay: DifferenceOverlay)
    ensures
        overlay.neighbor@ == neighbor@,
        sorted_by_loc(overlay.cells@),
        located_map(overlay.cells@) == overlay_map(occupied(*from), occupied(*to)),
{
    let a = crate::structural::occupied_of(&from.voxels);
    let b = crate::structural::occupied_of(&to.voxels);
    let ghost fs = occupied(*from);
    let ghost ts = occupied(*to);
    let mut cells: Vec<DifferenceCell> = Vec::new();
    let mut i: usize = 0;
    while i < a.len()
        invariant
            i <= a@.len(),
            sorted_by_loc(a@),
            sorted_by_loc(b@),
            listed(a@) == fs,
            listed(b@) == ts,
            sorted_by_loc(cells@),
            located_map(cells@) == overlay_map(fs, ts).restrict(listed(a@.take(i as int))),
        decreases a@.len() - i,
    {
        let c = a[i];
        proof {
            lemma_listed_occupies(b@, c);
            assert(listed(a@).contains(c)) by {
                assert(a@[i as int] == c);
            }
        }
        let kind = if contains(&b, c) {
            DifferenceKind::Retained
        } else {
            DifferenceKind::Removed
        };
        let ghost before = located_map(cells@);
        put(&mut cells, DifferenceCell { coordinate: c, kind });
        proof {
            assert(a@.take(i + 1) =~= a@.take(i as int).push(c));
            crate::cellstore::lemma_listed_push(a@.take(i as int), c);
            assert(located_map(cells@) =~= overlay_map(fs, ts).restrict(listed(a@.take(i + 1))));
        }
        i = i + 1;
    }
    proof {
        assert(a@.take(i as int) =~= a@);
    }
    let mut j: usize = 0;
    while j < b.len()
        invariant
            j <= b@.len(),
            sorted_by_loc(a@),
            sorted_by_loc(b@),
            listed(a@) == fs,
            listed(b@) == ts,
            sorted_by_loc(cells@),
            located_map(cells@) == overlay_map(fs, ts).restrict(fs.union(listed(b@.take(j as int)))),
        decreases b@.len() - j,
    {
        let c = b[j];
        proof {
            lemma_listed_occupies(a@, c);
            assert(listed(b@).contains(c)) by {
                assert(b@[j as int] == c);
            }
            assert(b@.take(j + 1) =~= b@.take(j as int).push(c));
            crate::cellstore::lemma_listed_push(b@.take(j as int), c);
        }
        if !contains(&a, c) {
            put(&mut cells, DifferenceCell { coordinate: c, kind: DifferenceKind::Added });
        }
        proof {
            assert(located_map(cells@) =~= overlay_map(fs, ts).restrict(fs.union(listed(b@.take(j + 1)))));
        }
        j = j + 1;
    }
    proof {
        assert(b@.take(j as int) =~= b@);
        assert(overlay_map(fs, ts).restrict(fs.union(ts)) =~= overlay_map(fs, ts));
    }
    DifferenceOverlay { neighbor: String::from_str(neighbor), cells }
}


#[derive(Debug, Clone, PartialEq, Eq)]
pub struct CanonicalPartSummary {
    pub part_id: String,
    pub part_index: u32,
    pub retained_voxels: usize,
    pub bounds: Option<EditBounds>,
}

#[derive(Debug, Clone, Copy, PartialEq, Eq)]
pub struct FrameMetrics {
    pub occupied_voxels: usize,
    pub generated_or_edited_voxels: usize,
    pub connected_components: usize,
    pub bounds: Option<EditBounds>,
}

#[derive(Debug, Clone, PartialEq, Eq)]
pub struct StructuralWarning {
    pub code: String,
    pub part_id: Option<String>,
    pub message: String,
}

/// A warning's text: code, part, message.
pub open spec fn warning_view(w: StructuralWarning) -> (Seq<char>, Option<Seq<char>>, Seq<char>) {
    (
        w.code@,
        match w.part_id {
            Some(id) => Some(id@),
            None => None,
        },
        w.message@,
    )
}

pub open spec fn warnings_view(ws: Seq<StructuralWarning>) -> Seq<(Seq<char>, Option<Seq<char>>, Seq<char>)> {
    Seq::new(ws.len(), |i: int| warning_view(ws[i]))
}

pub open spec fn edit_bounds_of(s: Seq<[i64; 3]>) -> Option<EditBounds> {
    match spec_bounds(s) {
        Some((lo, hi)) => Some(EditBounds { min: lo, max: hi }),
        None => None,
    }
}

/// The coordinates the canonical cells of part `p` occupy.
pub open spec fn part_set(cells: Seq<FusedVoxelCell>, p: int) -> Set<[i64; 3]> {
    listed(part_coordinates(cells, p))
}

pub open spec fn summary_of(summary: CanonicalPartSummary, id: String, cells: Seq<FusedVoxelCell>, p: int) -> bool {
    &&& summary.part_id == id
    &&& summary.part_index == p
    &&& summary.retained_voxels == part_set(cells, p).len()
    &&& summary.bounds == edit_bounds_of(part_coordinates(cells, p))
}

pub open spec fn extents(b: EditBounds) -> [i64; 3] {
    [(b.max[0] - b.min[0] + 1) as i64, (b.max[1] - b.min[1] + 1) as i64, (b.max[2] - b.min[2] + 1) as i64]
}

/// The warnings raised for part `p`: missing, else one voxel thick and
/// split into several components.
pub open spec fn part_warnings(id: Seq<char>, cells: Seq<FusedVoxelCell>, p: int) -> Seq<(Seq<char>, Option<Seq<char>>, Seq<char>)> {
    match edit_bounds_of(part_coordinates(cells, p)) {
        None => seq![("frame.part_missing"@, Some(id), "no canonical voxels remain for this part"@)],
        Some(b) => {
            let e = extents(b);
            (if e[0] == 1 || e[1] == 1 || e[2] == 1 {
                seq![("frame.part_one_voxel_thick"@, Some(id), "part has one-voxel thickness within "@ + coord_text(e))]
            } else {
                Seq::empty()
            }) + if components(part_set(cells, p)).len() > 1 {
                seq![
                    ("frame.part_disconnected"@, Some(id), "canonical part occupies multiple face-connected components"@),
                ]
            } else {
                Seq::empty()
            }
        },
    }
}

pub open spec fn warnings_upto(ids: Seq<String>, cells: Seq<FusedVoxelCell>, n: int) -> Seq<(Seq<char>, Option<Seq<char>>, Seq<char>)>
    decreases n,
{
    if n <= 0 {
        seq![]
    } else {
        warnings_upto(ids, cells, n - 1) + part_warnings(ids[n - 1]@, cells, n - 1)
    }
}

/// Every coordinate of the list, sorted and without repeats.
pub(crate) fn sorted_set(coords: &Vec<[i64; 3]>) -> (set: Vec<[i64; 3]>)
    ensures
        sorted_by_loc(set@),
        listed(set@) == listed(coords@),
{
    let mut set: Vec<[i64; 3]> = Vec::new();
    let mut i: usize = 0;
    while i < coords.len()
        invariant
            i <= coords@.len(),
            sorted_by_loc(set@),
            listed(set@) == listed(coords@.take(i as int)),
        decreases coords@.len() - i,
    {
        let c = coords[i];
        let ghost before = set@;
        if !contains(&set, c) {
            insert_absent(&mut set, c);
        }
        proof {
            assert(coords@.take(i + 1) =~= coords@.take(i as int).push(c));
            crate::cellstore::lemma_listed_push(coords@.take(i as int), c);
            assert forall|d: [i64; 3]| #[trigger] listed(set@).contains(d) == listed(coords@.take(i + 1)).contains(d) by {
                lemma_listed_occupies(set@, d);
                lemma_listed_occupies(before, d);
            }
            assert(listed(set@) =~= listed(coords@.take(i + 1)));
        }
        i = i + 1;
    }
    assert(coords@.take(i as int) =~= coords@);
    set
}

fn warning(code: &str, id: &String, message: String) -> (w: StructuralWarning)
    ensures
        warning_view(w) == (code@, Some(id@), message@),
{
    StructuralWarning { code: String::from_str(code), part_id: Some(id.clone()), message }
}

/// Summaries of every kit part's canonical cells in the frame, and the
/// structural warnings they raise, part by part.
fn summarize_parts(part_ids: &Vec<String>, cells: &Vec<FusedVoxelCell>) -> (result: (Vec<CanonicalPartSummary>, Vec<StructuralWarning>))
    requires
        part_ids@.len() <= u32::MAX,
        forall|i: int| 0 <= i < cells@.len() ==> half_range(#[trigger] cells@[i].coordinate),
    ensures
        result.0@.len() == part_ids@.len(),
        forall|p: int| 0 <= p < part_ids@.len() ==> #[trigger] summary_of(result.0@[p], part_ids@[p], cells@, p),
        warnings_view(result.1@) == warnings_upto(part_ids@, cells@, part_ids@.len() as int),
{
    let mut summaries: Vec<CanonicalPartSummary> = Vec::new();
    let mut warnings: Vec<StructuralWarning> = Vec::new();
    let mut p: usize = 0;
    while p < part_ids.len()
        invariant
            p <= part_ids@.len() <= u32::MAX,
            forall|i: int| 0 <= i < cells@.len() ==> half_range(#[trigger] cells@[i].coordinate),
            summaries@.len() == p,
            forall|q: int| 0 <= q < p ==> #[trigger] summary_of(summaries@[q], part_ids@[q], cells@, q),
            warnings_view(warnings@) == warnings_upto(part_ids@, cells@, p as int),
        decreases part_ids@.len() - p,
    {
        let id = &part_ids[p];
        let coords = part_coordinates_exec(cells, p as u32);
        let set = sorted_set(&coords);
        let bounds = bounds_of(&coords);
        proof {
            crate::candidate::lemma_listed_len(set@);
        }
        let ghost before = warnings_view(warnings@);
        let edit_bounds = match bounds {
            Some((lo, hi)) => Some(EditBounds { min: lo, max: hi }),
            None => None,
        };
        summaries.push(CanonicalPartSummary {
            part_id: id.clone(),
            part_index: p as u32,
            retained_voxels: set.len(),
            bounds: edit_bounds,
        });
        match bounds {
            None => {
                warnings.push(warning("frame.part_missing", id, String::from_str("no canonical voxels remain for this part")));
            },
            Some((lo, hi)) => {
                proof {
                    assert forall|j: int| 0 <= j < coords@.len() implies half_range(#[trigger] coords@[j]) by {
                        let i = choose|i: int| 0 <= i < cells@.len() && #[trigger] coords@[j] == cells@[i].coordinate;
                        assert(half_range(cells@[i].coordinate));
                    }
                    crate::structural::lemma_bounds_half_range(coords@);
                }
                let e = [hi[0] - lo[0] + 1, hi[1] - lo[1] + 1, hi[2] - lo[2] + 1];
                if e[0] == 1 || e[1] == 1 || e[2] == 1 {
                    let mut message = String::from_str("part has one-voxel thickness within ");
                    message.append(coord_string(e).as_str());
                    warnings.push(warning("frame.part_one_voxel_thick", id, message));
                }
                if connected_components(&set) > 1 {
                    warnings.push(
                        warning(
                            "frame.part_disconnected",
                            id,
                            String::from_str("canonical part occupies multiple face-connected components"),
                        ),
                    );
                }
                proof {
                    crate::voxel::lemma_coord_eq(e, extents(EditBounds { min: lo, max: hi }));
                }
            },
        }
        proof {
            assert(warnings_view(warnings@) =~= before + part_warnings(id@, cells@, p as int));
            assert(summary_of(summaries@[p as int], part_ids@[p as int], cells@, p as int));
        }
        p = p + 1;
    }
    (summaries, warnings)
}

/// The frame's occupancy metrics.
pub open spec fn metrics_of(m: FrameMetrics, frame: FusedFrame) -> bool {
    &&& m.occupied_voxels == frame.voxels@.len()
    &&& m.generated_or_edited_voxels == noncanonical_count(frame.voxels@)
    &&& m.connected_components == components(occupied(frame)).len()
    &&& m.bounds == edit_bounds_of(cell_coordinates(frame.voxels@))
}

fn frame_metrics(frame: &FusedFrame) -> (m: FrameMetrics)
    ensures
        metrics_of(m, *frame),
{
    let occupied = crate::structural::occupied_of(&frame.voxels);
    let coordinates = crate::repair::coordinates_of(&frame.voxels);
    let bounds = match bounds_of(&coordinates) {
        Some((lo, hi)) => Some(EditBounds { min: lo, max: hi }),
        None => None,
    };
    FrameMetrics {
        occupied_voxels: frame.voxels.len(),
        generated_or_edited_voxels: crate::edit::count_noncanonical(&frame.voxels),
        connected_components: connected_components(&occupied),
        bounds,
    }
}


#[derive(Debug, Clone, PartialEq, Eq)]
pub struct FrameWindowSummary {
    pub time_microseconds: u64,
    pub duration_microseconds: u64,
    pub frame_sha256: String,
    pub occupied_voxels: usize,
}

#[derive(Debug, Clone, PartialEq, Eq)]
pub struct TemporalWindow {
    pub previous: Option<FrameWindowSummary>,
    pub current: FrameWindowSummary,
    pub next: Option<FrameWindowSummary>,
}

/// Everything a cleanup agent sees of one frame.
#[derive(Debug, Clone, PartialEq, Eq)]
pub struct AgentInputBundle {
    pub frame: FusedFrame,
    pub frame_sha256: String,
    pub canonical_parts: Vec<CanonicalPartSummary>,
    pub metrics: FrameMetrics,
    pub structural_warnings: Vec<StructuralWarning>,
    pub style_rules: Vec<String>,
    pub multiview: Vec<DiagnosticView>,
    pub id_passes: Vec<DiagnosticView>,
    pub difference_overlays: Vec<DifferenceOverlay>,
    pub temporal_window: TemporalWindow,
    pub anchors: Vec<(String, [i64; 3])>,
}

/// A frame's place in time, with the hash of its encoding.
pub open spec fn window_of(w: FrameWindowSummary, frame: FusedFrame, encoding: Seq<u8>) -> bool {
    &&& w.time_microseconds == frame.time_microseconds
    &&& w.duration_microseconds == frame.duration_microseconds
    &&& w.frame_sha256@ == sha256_text(encoding)
    &&& w.occupied_voxels == frame.voxels@.len()
}

/// The window summary of a frame, hashed from its encoding.
pub fn frame_window_summary(frame: &FusedFrame, encoding: &[u8]) -> (w: FrameWindowSummary)
    ensures
        window_of(w, *frame, encoding@),
{
    FrameWindowSummary {
        time_microseconds: frame.time_microseconds,
        duration_microseconds: frame.duration_microseconds,
        frame_sha256: sha256(encoding),
        occupied_voxels: frame.voxels.len(),
    }
}

pub open spec fn kit_error_text(e: KitError) -> Seq<char> {
    match e {
        KitError::Validation(m) => "kit validation: "@ + m@,
        KitError::Assembly(m) => "kit assembly: "@ + m@,
    }
}

pub open spec fn part_ids(kit: FusionKit) -> Seq<String> {
    Seq::new(kit.parts@.len(), |i: int| kit.parts@[i].id)
}

/// The three orthographic views, front, side and top, drawn by depth or
/// (in an id pass) by part.
pub open spec fn views_of(views: Seq<DiagnosticView>, frame: FusedFrame, id_pass: bool) -> bool {
    &&& views.len() == 3
    &&& views[0].view == DiagnosticViewKind::Front
    &&& views[1].view == DiagnosticViewKind::Side
    &&& views[2].view == DiagnosticViewKind::Top
    &&& forall|k: int| 0 <= k < 3 ==> sorted_by_loc(#[trigger] views[k].pixels@) && located_map(views[k].pixels@) == drawn(
        frame.voxels@,
        views[k].view,
        id_pass,
    )
}

pub open spec fn overlay_of(o: DifferenceOverlay, neighbor: Seq<char>, from: FusedFrame, to: FusedFrame) -> bool {
    &&& o.neighbor@ == neighbor
    &&& sorted_by_loc(o.cells@)
    &&& located_map(o.cells@) == overlay_map(occupied(from), occupied(to))
}

/// The bundle describes `current`, with its neighbours where given.
pub open spec fn bundle_of(
    b: AgentInputBundle,
    kit: FusionKit,
    previous: Option<(FusedFrame, Seq<u8>)>,
    current: FusedFrame,
    encoding: Seq<u8>,
    next: Option<(FusedFrame, Seq<u8>)>,
    style_rules: Seq<String>,
    anchors: Seq<(String, [i64; 3])>,
) -> bool {
    let cells = current.voxels@;
    let ids = part_ids(kit);
    &&& same_frame_meta(b.frame, current) && same_cells(b.frame.voxels@, cells)
    &&& b.frame.generated_voxels == current.generated_voxels
    &&& b.frame_sha256@ == sha256_text(encoding)
    &&& b.canonical_parts@.len() == ids.len()
    &&& forall|p: int| 0 <= p < ids.len() ==> #[trigger] summary_of(b.canonical_parts@[p], ids[p], cells, p)
    &&& metrics_of(b.metrics, current)
    &&& warnings_view(b.structural_warnings@) == warnings_upto(ids, cells, ids.len() as int)
    &&& b.style_rules@ == style_rules
    &&& views_of(b.multiview@, current, false)
    &&& views_of(b.id_passes@, current, true)
    &&& b.difference_overlays@.len() == (if previous is Some { 1int } else { 0int }) + (if next is Some { 1int } else { 0int })
    &&& previous matches Some((f, _)) ==> overlay_of(b.difference_overlays@[0], "previous"@, f, current)
    &&& next matches Some((f, _)) ==> overlay_of(b.difference_overlays@.last(), "next"@, current, f)
    &&& window_of(b.temporal_window.current, current, encoding)
    &&& match previous {
        Some((f, e)) => b.temporal_window.previous matches Some(w) && window_of(w, f, e),
        None => b.temporal_window.previous is None,
    }
    &&& match next {
        Some((f, e)) => b.temporal_window.next matches Some(w) && window_of(w, f, e),
        None => b.temporal_window.next is None,
    }
    &&& b.anchors@ == anchors
}

pub open spec fn frame_and_bytes(entry: Option<(&FusedFrame, &[u8])>) -> Option<(FusedFrame, Seq<u8>)> {
    match entry {
        Some((f, e)) => Some((*f, e@)),
        None => None,
    }
}

fn three_views(frame: &FusedFrame, id_pass: bool) -> (views: Vec<DiagnosticView>)
    ensures
        views_of(views@, *frame, id_pass),
{
    let mut views: Vec<DiagnosticView> = Vec::new();
    views.push(project_view(frame, DiagnosticViewKind::Front, id_pass));
    views.push(project_view(frame, DiagnosticViewKind::Side, id_pass));
    views.push(project_view(frame, DiagnosticViewKind::Top, id_pass));
    views
}

/// The cleanup agent's evidence for `current`: its kit-part summaries, metrics,
/// structural warnings, diagnostic views, overlays against the given
/// neighbours and its temporal window. Each frame comes with its encoding,
/// from which its hash is taken; `kit_check` is the outcome of validating
/// the kit.
pub fn build_agent_input_bundle(
    kit: &FusionKit,
    kit_check: Result<(), KitError>,
    previous: Option<(&FusedFrame, &[u8])>,
    current: &FusedFrame,
    current_encoding: &[u8],
    next: Option<(&FusedFrame, &[u8])>,
    style_rules: Vec<String>,
    anchors: Vec<(String, [i64; 3])>,
) -> (result: Result<AgentInputBundle, EditError>)
    requires
        kit.parts@.len() <= u32::MAX,
        forall|i: int| 0 <= i < current.voxels@.len() ==> half_range(#[trigger] current.voxels@[i].coordinate),
    ensures
        kit_check matches Err(e) ==> result matches Err(r) && r.is_fault(fault("edit.invalidKit", "kit"@, kit_error_text(e)))
            && r.spec_operation_index() is None,
        (kit_check is Ok && !origins_distinct(current.voxels@)) ==> (result matches Err(r) && r.is_fault(
            repeat_fault(current.voxels@),
        ) && r.spec_operation_index() is None),
        (kit_check is Ok && origins_distinct(current.voxels@)) ==> (result matches Ok(b) && bundle_of(
            b,
            *kit,
            frame_and_bytes(previous),
            *current,
            current_encoding@,
            frame_and_bytes(next),
            style_rules@,
            anchors@,
        )),
{
    match kit_check {
        Ok(()) => {},
        Err(e) => {
            return Err(EditError::new("edit.invalidKit", "kit", e.to_text()));
        },
    }
    match origin_index(&current.voxels) {
        Ok(_) => {},
        Err(e) => {
            return Err(e);
        },
    }
    let mut ids: Vec<String> = Vec::new();
    let mut i: usize = 0;
    while i < kit.parts.len()
        invariant
            i <= kit.parts@.len(),
            ids@ == part_ids(*kit).take(i as int),
        decreases kit.parts@.len() - i,
    {
        ids.push(kit.parts[i].id.clone());
        assert(ids@ =~= part_ids(*kit).take(i + 1));
        i = i + 1;
    }
    assert(ids@ =~= part_ids(*kit));
    let (canonical_parts, structural_warnings) = summarize_parts(&ids, &current.voxels);
    let metrics = frame_metrics(current);
    let multiview = three_views(current, false);
    let id_passes = three_views(current, true);
    let mut difference_overlays: Vec<DifferenceOverlay> = Vec::new();
    if let Some((p, _)) = previous {
        difference_overlays.push(difference_overlay("previous", p, current));
    }
    if let Some((n, _)) = next {
        difference_overlays.push(difference_overlay("next", current, n));
    }
    let previous_window = match previous {
        Some((f, e)) => Some(frame_window_summary(f, e)),
        None => None,
    };
    let next_window = match next {
        Some((f, e)) => Some(frame_window_summary(f, e)),
        None => None,
    };
    let temporal_window = TemporalWindow {
        previous: previous_window,
        current: frame_window_summary(current, current_encoding),
        next: next_window,
    };
    Ok(AgentInputBundle {
        frame: copy_frame(current),
        frame_sha256: sha256(current_encoding),
        canonical_parts,
        metrics,
        structural_warnings,
        style_rules,
        multiview,
        id_passes,
        difference_overlays,
        temporal_window,
        anchors,
    })
}


/// Limits a proposed cleanup must stay within to be accepted.
#[derive(Debug, Clone, Copy, PartialEq, Eq)]
pub struct CleanupMetricGates {
    pub max_occupied_voxel_increase: usize,
    pub max_component_increase: usize,
    pub allow_additional_warnings: bool,
}

impl Default for CleanupMetricGates {
    fn default() -> (gates: Self)
        ensures
            gates.max_occupied_voxel_increase == 8192,
            gates.max_component_increase == 0,
            !gates.allow_additional_warnings,
    {
        CleanupMetricGates { max_occupied_voxel_increase: 8192, max_component_increase: 0, allow_additional_warnings: false }
    }
}

#[derive(Debug, Clone, PartialEq, Eq)]
pub enum CleanupDecision {
    Accept,
    Revise { reasons: Vec<String> },
}

/// A proposed diff's outcome: the replayed candidate, the evidence before
/// and after it, and the metric changes.
#[derive(Debug, Clone, PartialEq, Eq)]
pub struct CleanupEvaluation {
    pub decision: CleanupDecision,
    pub candidate: EditedFrame,
    pub before: AgentInputBundle,
    pub after: AgentInputBundle,
    pub occupied_voxel_delta: i64,
    pub connected_component_delta: i64,
}

/// A gate as a signed limit (limits beyond i64 never bind).
pub open spec fn gate_limit(max: usize) -> int {
    if max <= i64::MAX {
        max as int
    } else {
        i64::MAX as int
    }
}

/// Why a cleanup must be revised, in gate order.
pub open spec fn revision_reasons(
    occupied_delta: int,
    component_delta: int,
    warnings_before: nat,
    warnings_after: nat,
    gates: CleanupMetricGates,
) -> Seq<Seq<char>> {
    (if occupied_delta > gate_limit(gates.max_occupied_voxel_increase) {
        seq![
            "occupied voxel increase "@ + decimal_text(occupied_delta) + " exceeds "@ + decimal_text(
                gates.max_occupied_voxel_increase as int,
            ),
        ]
    } else {
        Seq::empty()
    }) + (if component_delta > gate_limit(gates.max_component_increase) {
        seq![
            "connected component increase "@ + decimal_text(component_delta) + " exceeds "@ + decimal_text(
                gates.max_component_increase as int,
            ),
        ]
    } else {
        Seq::empty()
    }) + (if !gates.allow_additional_warnings && warnings_after > warnings_before {
        seq![
            "structural warnings increased from "@ + decimal_text(warnings_before as int) + " to "@ + decimal_text(
                warnings_after as int,
            ),
        ]
    } else {
        Seq::empty()
    })
}

pub open spec fn texts(v: Seq<String>) -> Seq<Seq<char>> {
    Seq::new(v.len(), |i: int| v[i]@)
}

fn push_text(reasons: &mut Vec<String>, text: String)
    ensures
        texts(final(reasons)@) == texts(old(reasons)@).push(text@),
{
    reasons.push(text);
    assert(texts(reasons@) =~= texts(old(reasons)@).push(text@));
}

/// Judge a candidate by the metric gates, from the evidence before and
/// after it.
pub fn cleanup_evaluation(
    candidate: EditedFrame,
    before: AgentInputBundle,
    after: AgentInputBundle,
    metric_gates: CleanupMetricGates,
) -> (result: Result<CleanupEvaluation, EditError>)
    ensures
        ({
            let a = after.metrics;
            let b = before.metrics;
            &&& !(a.occupied_voxels <= i64::MAX && b.occupied_voxels <= i64::MAX) ==> (result matches Err(e)
                && e.spec_code() == "edit.metricOverflow")
            &&& (a.occupied_voxels <= i64::MAX && b.occupied_voxels <= i64::MAX && !(a.connected_components <= i64::MAX
                && b.connected_components <= i64::MAX)) ==> (result matches Err(e) && e.spec_code() == "edit.metricOverflow")
            &&& (a.occupied_voxels <= i64::MAX && b.occupied_voxels <= i64::MAX && a.connected_components <= i64::MAX
                && b.connected_components <= i64::MAX) ==> (result matches Ok(ev) && {
                let occ = a.occupied_voxels - b.occupied_voxels;
                let comp = a.connected_components - b.connected_components;
                let reasons = revision_reasons(
                    occ,
                    comp,
                    before.structural_warnings@.len(),
                    after.structural_warnings@.len(),
                    metric_gates,
                );
                &&& ev.occupied_voxel_delta == occ
                &&& ev.connected_component_delta == comp
                &&& reasons.len() == 0 ==> ev.decision is Accept
                &&& reasons.len() > 0 ==> (ev.decision matches CleanupDecision::Revise { reasons: r } && texts(r@) == reasons)
                &&& ev.candidate == candidate
                &&& ev.before == before
                &&& ev.after == after
            })
        }),
{
    let occupied_voxel_delta = match signed_delta(after.metrics.occupied_voxels, before.metrics.occupied_voxels) {
        Ok(d) => d,
        Err(e) => {
            return Err(e);
        },
    };
    let connected_component_delta = match signed_delta(
        after.metrics.connected_components,
        before.metrics.connected_components,
    ) {
        Ok(d) => d,
        Err(e) => {
            return Err(e);
        },
    };
    let occupied_limit: i64 = if metric_gates.max_occupied_voxel_increase as u128 <= i64::MAX as u128 {
        metric_gates.max_occupied_voxel_increase as i64
    } else {
        i64::MAX
    };
    let component_limit: i64 = if metric_gates.max_component_increase as u128 <= i64::MAX as u128 {
        metric_gates.max_component_increase as i64
    } else {
        i64::MAX
    };
    let mut reasons: Vec<String> = Vec::new();
    if occupied_voxel_delta > occupied_limit {
        let mut text = String::from_str("occupied voxel increase ");
        text.append(decimal_i64(occupied_voxel_delta).as_str());
        text.append(" exceeds ");
        text.append(decimal_u64(metric_gates.max_occupied_voxel_increase as u64).as_str());
        push_text(&mut reasons, text);
    }
    if connected_component_delta > component_limit {
        let mut text = String::from_str("connected component increase ");
        text.append(decimal_i64(connected_component_delta).as_str());
        text.append(" exceeds ");
        text.append(decimal_u64(metric_gates.max_component_increase as u64).as_str());
        push_text(&mut reasons, text);
    }
    let warnings_before = before.structural_warnings.len();
    let warnings_after = after.structural_warnings.len();
    if !metric_gates.allow_additional_warnings && warnings_after > warnings_before {
        let mut text = String::from_str("structural warnings increased from ");
        text.append(decimal_u64(warnings_before as u64).as_str());
        text.append(" to ");
        text.append(decimal_u64(warnings_after as u64).as_str());
        push_text(&mut reasons, text);
    }
    proof {
        assert(texts(reasons@) =~= revision_reasons(
            occupied_voxel_delta as int,
            connected_component_delta as int,
            before.structural_warnings@.len(),
            after.structural_warnings@.len(),
            metric_gates,
        ));
    }
    let decision = if reasons.len() == 0 {
        CleanupDecision::Accept
    } else {
        CleanupDecision::Revise { reasons }
    };
    Ok(CleanupEvaluation {
        decision,
        candidate,
        before,
        after,
        occupied_voxel_delta,
        connected_component_delta,
    })
}

} // verus!
