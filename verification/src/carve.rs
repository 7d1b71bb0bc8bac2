//! Visual-hull carving of one directional sprite frame: every lattice cell
//! that enough of the front, right, back and left silhouettes cover becomes
//! a voxel of a rough frame.

use vstd::prelude::*;
use vstd::string::StringExecFns;

use crate::assemble::{rough_coordinates, AssembledVoxelCell, RoughFrame};
use crate::directional::{DirectionalSpriteAction, DirectionalSpriteFrame, DirectionalSpriteLayout, DirectionalSpriteView, SpriteAnchor, SpriteRect};
use crate::raster::RgbaImage;
use crate::text::{decimal_text, decimal_u64, text_equals};
use crate::voxel::spec_bounds;

verus! {

/// The fewest voxels a carved frame may hold.
pub const MIN_CARVED_VOXELS: usize = 3000;

/// The most voxels a carved frame may hold.
pub const MAX_CARVED_VOXELS: usize = 100000;

/// Where one direction's silhouette sits on the sheet: its rectangle and the
/// anchor (the ground point under the body) inside that rectangle.
#[derive(Clone, Copy, Debug, PartialEq, Eq)]
pub struct CarveView {
    pub rect: SpriteRect,
    pub anchor: SpriteAnchor,
}

/// The first frame named `id`, searching the actions in order and each
/// action's frames in order, from action `a` on.
pub open spec fn frame_in_frames(frames: Seq<DirectionalSpriteFrame>, id: Seq<char>, f: int) -> Option<DirectionalSpriteFrame>
    decreases frames.len() - f,
{
    if f < 0 || f >= frames.len() {
        None
    } else if frames[f].id@ == id {
        Some(frames[f])
    } else {
        frame_in_frames(frames, id, f + 1)
    }
}

pub open spec fn frame_in_actions(actions: Seq<DirectionalSpriteAction>, id: Seq<char>, a: int) -> Option<DirectionalSpriteFrame>
    decreases actions.len() - a,
{
    if a < 0 || a >= actions.len() {
        None
    } else if frame_in_frames(actions[a].frames@, id, 0) is Some {
        frame_in_frames(actions[a].frames@, id, 0)
    } else {
        frame_in_actions(actions, id, a + 1)
    }
}

/// The first view of a frame for direction `dir`, from view `k` on.
pub open spec fn view_for(views: Seq<DirectionalSpriteView>, dir: Seq<char>, k: int) -> Option<DirectionalSpriteView>
    decreases views.len() - k,
{
    if k < 0 || k >= views.len() {
        None
    } else if views[k].direction@ == dir {
        Some(views[k])
    } else {
        view_for(views, dir, k + 1)
    }
}

/// The derived `Debug` text of a rectangle.
pub open spec fn rect_debug(r: SpriteRect) -> Seq<char> {
    "SpriteRect { x: "@ + decimal_text(r.x as int) + ", y: "@ + decimal_text(r.y as int) + ", width: "@
        + decimal_text(r.width as int) + ", height: "@ + decimal_text(r.height as int) + " }"@
}

/// The frame's views for the layout's directions `k..`, each with its
/// direction, or the first reason one cannot be used.
pub open spec fn gather_views(
    frame: DirectionalSpriteFrame,
    dirs: Seq<String>,
    width: u32,
    height: u32,
    k: int,
) -> Result<Seq<(Seq<char>, CarveView)>, Seq<char>>
    decreases dirs.len() - k,
{
    if k < 0 || k >= dirs.len() {
        Ok(Seq::empty())
    } else {
        let dir = dirs[k]@;
        let head = "frame "@ + frame.id@ + " direction "@ + dir;
        match view_for(frame.views@, dir, 0) {
            None => Err("frame "@ + frame.id@ + " missing direction "@ + dir),
            Some(v) => if v.rect is None {
                Err(head + " is explicitly missing"@)
            } else if v.anchor is None {
                Err(head + " missing anchor"@)
            } else if v.rect.unwrap().x + v.rect.unwrap().width > width || v.rect.unwrap().y + v.rect.unwrap().height
                > height {
                Err("rect "@ + rect_debug(v.rect.unwrap()) + " outside "@ + decimal_text(width as int) + "x"@
                    + decimal_text(height as int))
            } else {
                match gather_views(frame, dirs, width, height, k + 1) {
                    Err(e) => Err(e),
                    Ok(rest) => Ok(seq![(dir, CarveView { rect: v.rect.unwrap(), anchor: v.anchor.unwrap() })] + rest),
                }
            },
        }
    }
}

/// The first gathered view for direction `name`, from `k` on.
pub open spec fn pick(views: Seq<(Seq<char>, CarveView)>, name: Seq<char>, k: int) -> Option<CarveView>
    decreases views.len() - k,
{
    if k < 0 || k >= views.len() {
        None
    } else if views[k].0 == name {
        Some(views[k].1)
    } else {
        pick(views, name, k + 1)
    }
}

/// The sheet pixel a view shows at `lateral` across and `y` above its
/// anchor, when that point falls inside the view's rectangle.
pub open spec fn sample(sheet: Seq<u8>, sheet_width: u32, v: CarveView, lateral: int, y: int) -> Option<[u8; 4]> {
    let u = lateral + v.anchor.x;
    let r = v.anchor.y - y;
    if u < 0 || r < 0 || u >= v.rect.width || r >= v.rect.height {
        None
    } else {
        let o = ((v.rect.y + r) * sheet_width + v.rect.x + u) * 4;
        Some([sheet[o], sheet[o + 1], sheet[o + 2], sheet[o + 3]])
    }
}

/// The sample, kept when it is present and not transparent.
pub open spec fn opaque(p: Option<[u8; 4]>) -> Seq<[u8; 4]> {
    match p {
        Some(px) => if px[3] != 0 { seq![px] } else { Seq::empty() },
        None => Seq::empty(),
    }
}

/// The four views that carve a body, in the order they are sampled.
pub struct CarveViews {
    pub front: CarveView,
    pub right: CarveView,
    pub back: CarveView,
    pub left: CarveView,
}

/// The opaque samples over lattice cell `(x, y, z)`: the front sees `x`, the
/// right `-z`, the back `-x` and the left `z`.
pub open spec fn cell_samples(sheet: Seq<u8>, w: u32, views: CarveViews, x: int, y: int, z: int) -> Seq<[u8; 4]> {
    opaque(sample(sheet, w, views.front, x, y)) + opaque(sample(sheet, w, views.right, -z, y)) + opaque(
        sample(sheet, w, views.back, -x, y),
    ) + opaque(sample(sheet, w, views.left, z, y))
}

/// Red dominates the other two channels by more than 32.
pub open spec fn reddish(p: [u8; 4]) -> bool {
    p[0] > p[1] + 32 && p[0] > p[2] + 32
}

pub open spec fn red_count(ps: Seq<[u8; 4]>) -> nat
    decreases ps.len(),
{
    if ps.len() == 0 {
        0
    } else {
        red_count(ps.drop_last()) + if reddish(ps.last()) { 1nat } else { 0nat }
    }
}

/// Slot 3 where at least half the samples are reddish, else slot 2 in the
/// lowest quarter of the height and slot 1 above it (and with no samples).
pub open spec fn slot_of(ps: Seq<[u8; 4]>, y: int, height: int) -> u16 {
    if ps.len() == 0 {
        1
    } else if red_count(ps) * 2 >= ps.len() {
        3
    } else if y * 4 < height {
        2
    } else {
        1
    }
}

/// The voxels carved so far, after visiting cell `(x, y, z)` if enough of
/// its samples are opaque.
pub open spec fn carve_step(
    acc: Seq<AssembledVoxelCell>,
    sheet: Seq<u8>,
    w: u32,
    views: CarveViews,
    threshold: u32,
    height: int,
    x: int,
    y: int,
    z: int,
) -> Seq<AssembledVoxelCell> {
    let ps = cell_samples(sheet, w, views, x, y, z);
    if ps.len() >= threshold {
        acc.push(
            AssembledVoxelCell {
                coordinate: [x as i64, y as i64, z as i64],
                material_slot: slot_of(ps, y, height),
                part_id: 0,
                source_voxel_index: (acc.len() % 0x1_0000_0000) as u32,
                needs_fusion: false,
            },
        )
    } else {
        acc
    }
}

/// The carve walks `y` up from `0` below `height`, then `x` and `z` from
/// `-half` to `half`, appending each carved cell.
pub open spec fn carve_walk(
    sheet: Seq<u8>,
    w: u32,
    views: CarveViews,
    threshold: u32,
    height: int,
    half: int,
    y: int,
    x: int,
    z: int,
    acc: Seq<AssembledVoxelCell>,
) -> Seq<AssembledVoxelCell>
    decreases height - y, half + 1 - x, half + 1 - z,
    when y <= height && x <= half + 1 && z <= half + 1
{
    if y >= height {
        acc
    } else if x > half {
        carve_walk(sheet, w, views, threshold, height, half, y + 1, -half, -half, acc)
    } else if z > half {
        carve_walk(sheet, w, views, threshold, height, half, y, x + 1, -half, acc)
    } else {
        carve_walk(
            sheet,
            w,
            views,
            threshold,
            height,
            half,
            y,
            x,
            z + 1,
            carve_step(acc, sheet, w, views, threshold, height, x, y, z),
        )
    }
}

pub open spec fn max_width(views: CarveViews) -> int {
    let a = if views.front.rect.width >= views.right.rect.width { views.front.rect.width } else { views.right.rect.width };
    let b = if views.back.rect.width >= views.left.rect.width { views.back.rect.width } else { views.left.rect.width };
    if a >= b { a as int } else { b as int }
}

pub open spec fn max_height(views: CarveViews) -> int {
    let a = if views.front.rect.height >= views.right.rect.height { views.front.rect.height } else { views.right.rect.height };
    let b = if views.back.rect.height >= views.left.rect.height { views.back.rect.height } else { views.left.rect.height };
    if a >= b { a as int } else { b as int }
}

/// The carved voxels of a body seen through four views.
pub open spec fn carved(sheet: Seq<u8>, w: u32, views: CarveViews, threshold: u32) -> Seq<AssembledVoxelCell> {
    let half = max_width(views) / 2 + 2;
    carve_walk(sheet, w, views, threshold, max_height(views), half, 0, -half, -half, Seq::empty())
}

/// The four carving views picked from the gathered ones, or which is missing.
pub open spec fn carve_views(gathered: Seq<(Seq<char>, CarveView)>) -> Result<CarveViews, Seq<char>> {
    if pick(gathered, "front"@, 0) is None {
        Err("missing front"@)
    } else if pick(gathered, "right"@, 0) is None {
        Err("missing right"@)
    } else if pick(gathered, "back"@, 0) is None {
        Err("missing back"@)
    } else if pick(gathered, "left"@, 0) is None {
        Err("missing left"@)
    } else {
        Ok(
            CarveViews {
                front: pick(gathered, "front"@, 0).unwrap(),
                right: pick(gathered, "right"@, 0).unwrap(),
                back: pick(gathered, "back"@, 0).unwrap(),
                left: pick(gathered, "left"@, 0).unwrap(),
            },
        )
    }
}

/// Checks of a carved voxel list: not empty, within the count bounds, and
/// resting on `y = 0`.
pub open spec fn carved_fault(voxels: Seq<AssembledVoxelCell>) -> Option<Seq<char>> {
    if voxels.len() == 0 {
        Some("carved hull is empty — threshold too high or views misaligned"@)
    } else if voxels.len() < MIN_CARVED_VOXELS || voxels.len() > MAX_CARVED_VOXELS {
        Some("carved frame has "@ + decimal_text(voxels.len() as int) + " voxels; expected 3000..=100000"@)
    } else if spec_bounds(rough_coordinates(voxels)).unwrap().0[1] != 0 {
        Some("carved frame not grounded at y=0; min y is "@ + decimal_text(
            spec_bounds(rough_coordinates(voxels)).unwrap().0[1] as int,
        ))
    } else {
        None
    }
}

/// The whole carve of frame `id` on a `width` x `height` sheet: the carved
/// voxels, or the first reason the frame cannot be carved.
pub open spec fn spec_carve(
    layout: DirectionalSpriteLayout,
    sheet: Seq<u8>,
    width: u32,
    height: u32,
    id: Seq<char>,
    threshold: u32,
) -> Result<Seq<AssembledVoxelCell>, Seq<char>> {
    match frame_in_actions(layout.actions@, id, 0) {
        None => Err("frameId "@ + id + " not found in layout"@),
        Some(frame) => match gather_views(frame, layout.directions@, width, height, 0) {
            Err(e) => Err(e),
            Ok(gathered) => if gathered.len() != 4 {
                Err("expected 4 directions for carve, got "@ + decimal_text(gathered.len() as int))
            } else {
                match carve_views(gathered) {
                    Err(e) => Err(e),
                    Ok(views) => {
                        let voxels = carved(sheet, width, views, threshold);
                        match carved_fault(voxels) {
                            Some(e) => Err(e),
                            None => Ok(voxels),
                        }
                    },
                }
            },
        },
    }
}

} // verus!

verus! {

fn find_frame<'a>(actions: &'a Vec<DirectionalSpriteAction>, id: &str) -> (found: Option<&'a DirectionalSpriteFrame>)
    ensures
        match frame_in_actions(actions@, id@, 0) {
            None => found is None,
            Some(f) => found matches Some(g) && *g == f,
        },
{
    let mut a: usize = 0;
    while a < actions.len()
        invariant
            a <= actions@.len(),
            frame_in_actions(actions@, id@, 0) == frame_in_actions(actions@, id@, a as int),
        decreases actions@.len() - a,
    {
        let frames = &actions[a].frames;
        let mut f: usize = 0;
        while f < frames.len()
            invariant
                a < actions@.len(),
                *frames == actions@[a as int].frames,
                frame_in_actions(actions@, id@, 0) == frame_in_actions(actions@, id@, a as int),
                f <= frames@.len(),
                frame_in_frames(frames@, id@, 0) == frame_in_frames(frames@, id@, f as int),
            decreases frames@.len() - f,
        {
            if text_equals(frames[f].id.as_str(), id) {
                return Some(&frames[f]);
            }
            f = f + 1;
        }
        a = a + 1;
    }
    None
}

fn find_view<'a>(views: &'a Vec<DirectionalSpriteView>, dir: &str) -> (found: Option<&'a DirectionalSpriteView>)
    ensures
        match view_for(views@, dir@, 0) {
            None => found is None,
            Some(v) => found matches Some(g) && *g == v,
        },
{
    let mut k: usize = 0;
    while k < views.len()
        invariant
            k <= views@.len(),
            view_for(views@, dir@, 0) == view_for(views@, dir@, k as int),
        decreases views@.len() - k,
    {
        if text_equals(views[k].direction.as_str(), dir) {
            return Some(&views[k]);
        }
        k = k + 1;
    }
    None
}

fn rect_debug_string(r: SpriteRect) -> (text: String)
    ensures
        text@ == rect_debug(r),
{
    let mut text = String::from_str("SpriteRect { x: ");
    text.append(decimal_u64(r.x as u64).as_str());
    text.append(", y: ");
    text.append(decimal_u64(r.y as u64).as_str());
    text.append(", width: ");
    text.append(decimal_u64(r.width as u64).as_str());
    text.append(", height: ");
    text.append(decimal_u64(r.height as u64).as_str());
    text.append(" }");
    text
}

/// The gathered views of directions `k..` line up with the directions.
pub open spec fn lined_up(g: Seq<(Seq<char>, CarveView)>, dirs: Seq<String>, vs: Seq<CarveView>, k: int) -> bool {
    &&& g.len() == vs.len()
    &&& k + vs.len() == dirs.len()
    &&& forall|i: int| 0 <= i < vs.len() ==> #[trigger] g[i] == (dirs[k + i]@, vs[i])
}

fn gather(frame: &DirectionalSpriteFrame, dirs: &Vec<String>, w: u32, h: u32, k: usize) -> (result: Result<Vec<CarveView>, String>)
    requires
        k <= dirs@.len(),
    ensures
        match gather_views(*frame, dirs@, w, h, k as int) {
            Err(e) => result matches Err(m) && m@ == e,
            Ok(g) => result matches Ok(vs) && lined_up(g, dirs@, vs@, k as int),
        },
    decreases dirs@.len() - k,
{
    if k >= dirs.len() {
        return Ok(Vec::new());
    }
    let dir = dirs[k].as_str();
    let view = match find_view(&frame.views, dir) {
        None => {
            let mut m = String::from_str("frame ");
            m.append(frame.id.as_str());
            m.append(" missing direction ");
            m.append(dir);
            return Err(m);
        },
        Some(v) => v,
    };
    let mut head = String::from_str("frame ");
    head.append(frame.id.as_str());
    head.append(" direction ");
    head.append(dir);
    let rect = match view.rect {
        None => {
            head.append(" is explicitly missing");
            return Err(head);
        },
        Some(r) => r,
    };
    let anchor = match view.anchor {
        None => {
            head.append(" missing anchor");
            return Err(head);
        },
        Some(a) => a,
    };
    if rect.x as u64 + rect.width as u64 > w as u64 || rect.y as u64 + rect.height as u64 > h as u64 {
        let mut m = String::from_str("rect ");
        m.append(rect_debug_string(rect).as_str());
        m.append(" outside ");
        m.append(decimal_u64(w as u64).as_str());
        m.append("x");
        m.append(decimal_u64(h as u64).as_str());
        return Err(m);
    }
    let mut rest = gather(frame, dirs, w, h, k + 1)?;
    let cv = CarveView { rect, anchor };
    let ghost tail = rest@;
    rest.insert(0, cv);
    proof {
        let g = gather_views(*frame, dirs@, w, h, k as int)->Ok_0;
        let gt = gather_views(*frame, dirs@, w, h, k + 1)->Ok_0;
        assert(g == seq![(dirs@[k as int]@, cv)] + gt);
        assert forall|i: int| 0 <= i < rest@.len() implies #[trigger] g[i] == (dirs@[k + i]@, rest@[i]) by {
            if i > 0 {
                assert(rest@[i] == tail[i - 1]);
                assert(gt[i - 1] == (dirs@[k + 1 + (i - 1)]@, tail[i - 1]));
            }
        }
    }
    Ok(rest)
}

} // verus!

verus! {

fn pick_view(dirs: &Vec<String>, vs: &Vec<CarveView>, name: &str, Ghost(g): Ghost<Seq<(Seq<char>, CarveView)>>) -> (found: Option<CarveView>)
    requires
        lined_up(g, dirs@, vs@, 0),
    ensures
        found == pick(g, name@, 0),
{
    let mut i: usize = 0;
    while i < vs.len()
        invariant
            lined_up(g, dirs@, vs@, 0),
            i <= vs@.len(),
            pick(g, name@, 0) == pick(g, name@, i as int),
        decreases vs@.len() - i,
    {
        assert(g[i as int] == (dirs@[0 + i]@, vs@[i as int]));
        if text_equals(dirs[i].as_str(), name) {
            return Some(vs[i]);
        }
        i = i + 1;
    }
    None
}

/// A sheet whose pixel buffer holds `width * height` RGBA pixels, small
/// enough that byte offsets fit in `u32` and sizes in `i32`.
pub open spec fn sheet_ok(sheet: &RgbaImage) -> bool {
    &&& sheet.pixels@.len() == sheet.width * sheet.height * 4
    &&& sheet.width * sheet.height * 4 <= u32::MAX
    &&& sheet.width < 0x8000_0000
    &&& sheet.height < 0x8000_0000
}

pub open spec fn view_inside(v: CarveView, width: u32, height: u32) -> bool {
    v.rect.x + v.rect.width <= width && v.rect.y + v.rect.height <= height
}

fn sample_exec(sheet: &RgbaImage, v: CarveView, lateral: i64, y: i64) -> (p: Option<[u8; 4]>)
    requires
        sheet_ok(sheet),
        view_inside(v, sheet.width, sheet.height),
        -0x1_0000_0000 < lateral < 0x1_0000_0000,
        -0x1_0000_0000 < y < 0x1_0000_0000,
    ensures
        p == sample(sheet.pixels@, sheet.width, v, lateral as int, y as int),
{
    let u: i64 = lateral + v.anchor.x as i64;
    let r: i64 = v.anchor.y as i64 - y;
    if u < 0 || r < 0 || u >= v.rect.width as i64 || r >= v.rect.height as i64 {
        return None;
    }
    let row: u64 = v.rect.y as u64 + r as u64;
    let col: u64 = v.rect.x as u64 + u as u64;
    let w: u64 = sheet.width as u64;
    let hh: u64 = sheet.height as u64;
    assert(row * w + col < w * hh) by (nonlinear_arith)
        requires
            row < hh,
            col < w,
    ;
    assert((row * w + col) * 4 + 4 <= w * hh * 4) by (nonlinear_arith)
        requires
            row * w + col < w * hh,
    ;
    let o: usize = ((row * w + col) * 4) as usize;
    Some([sheet.pixels[o], sheet.pixels[o + 1], sheet.pixels[o + 2], sheet.pixels[o + 3]])
}

fn push_opaque(out: &mut Vec<[u8; 4]>, p: Option<[u8; 4]>)
    ensures
        final(out)@ == old(out)@ + opaque(p),
{
    if let Some(px) = p {
        if px[3] != 0 {
            out.push(px);
            assert(final(out)@ =~= old(out)@ + seq![px]);
            return;
        }
    }
    assert(old(out)@ + Seq::<[u8; 4]>::empty() =~= old(out)@);
}

pub open spec fn views_inside(views: CarveViews, width: u32, height: u32) -> bool {
    view_inside(views.front, width, height) && view_inside(views.right, width, height) && view_inside(
        views.back,
        width,
        height,
    ) && view_inside(views.left, width, height)
}

fn cell_samples_exec(sheet: &RgbaImage, views: &CarveViews, x: i64, y: i64, z: i64) -> (ps: Vec<[u8; 4]>)
    requires
        sheet_ok(sheet),
        views_inside(*views, sheet.width, sheet.height),
        -0x1_0000_0000 < x < 0x1_0000_0000,
        -0x1_0000_0000 < y < 0x1_0000_0000,
        -0x1_0000_0000 < z < 0x1_0000_0000,
    ensures
        ps@ == cell_samples(sheet.pixels@, sheet.width, *views, x as int, y as int, z as int),
{
    let mut ps: Vec<[u8; 4]> = Vec::new();
    push_opaque(&mut ps, sample_exec(sheet, views.front, x, y));
    push_opaque(&mut ps, sample_exec(sheet, views.right, -z, y));
    push_opaque(&mut ps, sample_exec(sheet, views.back, -x, y));
    push_opaque(&mut ps, sample_exec(sheet, views.left, z, y));
    assert(ps@ =~= cell_samples(sheet.pixels@, sheet.width, *views, x as int, y as int, z as int));
    ps
}

fn slot_exec(ps: &Vec<[u8; 4]>, y: u32, height: u32) -> (slot: u16)
    ensures
        slot == slot_of(ps@, y as int, height as int),
{
    if ps.len() == 0 {
        return 1;
    }
    let mut red: usize = 0;
    let mut i: usize = 0;
    while i < ps.len()
        invariant
            i <= ps@.len(),
            red == red_count(ps@.take(i as int)),
            red <= i,
        decreases ps@.len() - i,
    {
        assert(ps@.take(i + 1).drop_last() =~= ps@.take(i as int));
        let p = ps[i];
        if (p[0] as u16) > (p[1] as u16) + 32 && (p[0] as u16) > (p[2] as u16) + 32 {
            red = red + 1;
        }
        i = i + 1;
    }
    assert(ps@.take(ps@.len() as int) =~= ps@);
    if red >= ps.len() - red {
        3
    } else if (y as u64) * 4 < height as u64 {
        2
    } else {
        1
    }
}

} // verus!

verus! {

fn max_u32(a: u32, b: u32) -> (m: u32)
    ensures
        m == if a >= b { a } else { b },
{
    if a >= b { a } else { b }
}

fn carve_cells(sheet: &RgbaImage, views: &CarveViews, threshold: u32) -> (voxels: Vec<AssembledVoxelCell>)
    requires
        sheet_ok(sheet),
        views_inside(*views, sheet.width, sheet.height),
    ensures
        voxels@ == carved(sheet.pixels@, sheet.width, *views, threshold),
{
    let mw = max_u32(
        max_u32(views.front.rect.width, views.right.rect.width),
        max_u32(views.back.rect.width, views.left.rect.width),
    );
    let mh = max_u32(
        max_u32(views.front.rect.height, views.right.rect.height),
        max_u32(views.back.rect.height, views.left.rect.height),
    );
    assert(mw as int == max_width(*views) && mh as int == max_height(*views));
    assert(mw <= sheet.width && mh <= sheet.height);
    let half: i64 = (mw as i64) / 2 + 2;
    let height: i64 = mh as i64;
    let ghost w = sheet.width;
    let ghost px = sheet.pixels@;
    let mut voxels: Vec<AssembledVoxelCell> = Vec::new();
    let mut y: i64 = 0;
    let mut x: i64 = -half;
    let mut z: i64 = -half;
    while y < height
        invariant
            sheet_ok(sheet),
            views_inside(*views, sheet.width, sheet.height),
            w == sheet.width,
            px == sheet.pixels@,
            height == max_height(*views),
            mh as int == height,
            half == max_width(*views) / 2 + 2,
            0 < half < 0x8000_0000,
            0 <= height < 0x8000_0000,
            0 <= y <= height,
            -half <= x <= half + 1,
            -half <= z <= half + 1,
            carve_walk(px, w, *views, threshold, height as int, half as int, y as int, x as int, z as int, voxels@)
                == carved(px, w, *views, threshold),
        decreases height - y, half + 1 - x, half + 1 - z,
    {
        if x > half {
            y = y + 1;
            x = -half;
            z = -half;
        } else if z > half {
            x = x + 1;
            z = -half;
        } else {
            let ps = cell_samples_exec(sheet, views, x, y, z);
            let ghost before = voxels@;
            if ps.len() >= threshold as usize {
                let slot = slot_exec(&ps, y as u32, mh);
                let index = (voxels.len() as u64 % 0x1_0000_0000) as u32;
                voxels.push(
                    AssembledVoxelCell {
                        coordinate: [x, y, z],
                        material_slot: slot,
                        part_id: 0,
                        source_voxel_index: index,
                        needs_fusion: false,
                    },
                );
            }
            assert(voxels@ == carve_step(before, px, w, *views, threshold, height as int, x as int, y as int, z as int));
            z = z + 1;
        }
    }
    voxels
}

fn frame_not_found(id: &str) -> (m: String)
    ensures
        m@ == "frameId "@ + id@ + " not found in layout"@,
{
    let mut m = String::from_str("frameId ");
    m.append(id);
    m.append(" not found in layout");
    m
}

/// Carves frame `frame_id` of a directional layout out of its decoded sheet:
/// the frame's four views (front, right, back, left) are gathered in the
/// layout's direction order, each lattice cell that at least
/// `carve_threshold` opaque samples cover becomes a voxel, and the result
/// must hold 3000..=100000 voxels resting on `y = 0`.
pub fn carve_visual_hull(
    layout: &DirectionalSpriteLayout,
    sheet: &RgbaImage,
    frame_id: &str,
    carve_threshold: u32,
    frame_duration_microseconds: u64,
) -> (result: Result<RoughFrame, String>)
    requires
        sheet_ok(sheet),
    ensures
        match spec_carve(*layout, sheet.pixels@, sheet.width, sheet.height, frame_id@, carve_threshold) {
            Err(e) => result matches Err(m) && m@ == e,
            Ok(voxels) => result matches Ok(f) && f.voxels@ == voxels && f.time_microseconds == 0
                && f.duration_microseconds == frame_duration_microseconds && f.discarded_overlaps@.len() == 0,
        },
{
    let frame = match find_frame(&layout.actions, frame_id) {
        None => {
            return Err(frame_not_found(frame_id));
        },
        Some(f) => f,
    };
    let vs = gather(frame, &layout.directions, sheet.width, sheet.height, 0)?;
    let ghost g = gather_views(*frame, layout.directions@, sheet.width, sheet.height, 0)->Ok_0;
    if vs.len() != 4 {
        let mut m = String::from_str("expected 4 directions for carve, got ");
        m.append(decimal_u64(vs.len() as u64).as_str());
        return Err(m);
    }
    let front = match pick_view(&layout.directions, &vs, "front", Ghost(g)) {
        None => {
            return Err(String::from_str("missing front"));
        },
        Some(v) => v,
    };
    let right = match pick_view(&layout.directions, &vs, "right", Ghost(g)) {
        None => {
            return Err(String::from_str("missing right"));
        },
        Some(v) => v,
    };
    let back = match pick_view(&layout.directions, &vs, "back", Ghost(g)) {
        None => {
            return Err(String::from_str("missing back"));
        },
        Some(v) => v,
    };
    let left = match pick_view(&layout.directions, &vs, "left", Ghost(g)) {
        None => {
            return Err(String::from_str("missing left"));
        },
        Some(v) => v,
    };
    let views = CarveViews { front, right, back, left };
    proof {
        lemma_picked_inside(*frame, layout.directions@, sheet.width, sheet.height, "front"@);
        lemma_picked_inside(*frame, layout.directions@, sheet.width, sheet.height, "right"@);
        lemma_picked_inside(*frame, layout.directions@, sheet.width, sheet.height, "back"@);
        lemma_picked_inside(*frame, layout.directions@, sheet.width, sheet.height, "left"@);
    }
    let voxels = carve_cells(sheet, &views, carve_threshold);
    let rough = RoughFrame {
        time_microseconds: 0,
        duration_microseconds: frame_duration_microseconds,
        voxels,
        discarded_overlaps: Vec::new(),
    };
    let n = rough.len();
    if n == 0 {
        return Err(String::from_str("carved hull is empty — threshold too high or views misaligned"));
    }
    if n < MIN_CARVED_VOXELS || n > MAX_CARVED_VOXELS {
        let mut m = String::from_str("carved frame has ");
        m.append(decimal_u64(n as u64).as_str());
        m.append(" voxels; expected 3000..=100000");
        return Err(m);
    }
    let bounds = rough.bounds();
    let lo = match bounds {
        Some((lo, _)) => lo,
        None => {
            return Err(String::from_str("carved frame has no voxels"));
        },
    };
    if lo[1] != 0 {
        let mut m = String::from_str("carved frame not grounded at y=0; min y is ");
        m.append(crate::text::decimal_i64(lo[1]).as_str());
        return Err(m);
    }
    Ok(rough)
}

proof fn lemma_gathered_inside(frame: DirectionalSpriteFrame, dirs: Seq<String>, w: u32, h: u32, k: int)
    requires
        0 <= k <= dirs.len(),
        gather_views(frame, dirs, w, h, k) is Ok,
    ensures
        forall|i: int| 0 <= i < (gather_views(frame, dirs, w, h, k)->Ok_0).len() ==> view_inside(
            (#[trigger] (gather_views(frame, dirs, w, h, k)->Ok_0)[i]).1,
            w,
            h,
        ),
    decreases dirs.len() - k,
{
    if k < dirs.len() {
        lemma_gathered_inside(frame, dirs, w, h, k + 1);
        let g = gather_views(frame, dirs, w, h, k)->Ok_0;
        let rest = gather_views(frame, dirs, w, h, k + 1)->Ok_0;
        assert forall|i: int| 0 <= i < g.len() implies view_inside((#[trigger] g[i]).1, w, h) by {
            if i > 0 {
                assert(g[i] == rest[i - 1]);
            }
        }
    }
}

proof fn lemma_pick_inside(g: Seq<(Seq<char>, CarveView)>, name: Seq<char>, j: int, w: u32, h: u32)
    requires
        0 <= j,
        forall|i: int| 0 <= i < g.len() ==> view_inside((#[trigger] g[i]).1, w, h),
    ensures
        pick(g, name, j) matches Some(v) ==> view_inside(v, w, h),
    decreases g.len() - j,
{
    if j < g.len() {
        lemma_pick_inside(g, name, j + 1, w, h);
    }
}

proof fn lemma_picked_inside(frame: DirectionalSpriteFrame, dirs: Seq<String>, w: u32, h: u32, name: Seq<char>)
    requires
        gather_views(frame, dirs, w, h, 0) is Ok,
    ensures
        pick(gather_views(frame, dirs, w, h, 0)->Ok_0, name, 0) matches Some(v) ==> view_inside(v, w, h),
{
    lemma_gathered_inside(frame, dirs, w, h, 0);
    lemma_pick_inside(gather_views(frame, dirs, w, h, 0)->Ok_0, name, 0, w, h);
}

} // verus!

verus! {

pub const DIRECTIONAL_CARVE_SCHEMA_VERSION: u32 = 1;

/// A directional carve spec; the cell size is held as whether it is finite
/// and positive.
#[derive(Clone, Debug, PartialEq)]
pub struct DirectionalCarveSpec {
    pub schema_version: u32,
    pub id: String,
    pub kit: String,
    pub layout: String,
    pub source_image: String,
    pub expected_source_sha256: String,
    pub output_asset_id: String,
    pub clip_id: String,
    pub clip_name: String,
    pub cell_size_positive: bool,
    pub frame_id: String,
    pub frame_duration_microseconds: u64,
    pub carve_threshold: usize,
}

impl DirectionalCarveSpec {
    /// The labelled text fields, in the order they are checked.
    pub open spec fn texts(&self) -> Seq<(Seq<char>, Seq<char>)> {
        seq![
            (self.id@, "id"@),
            (self.kit@, "kit"@),
            (self.layout@, "layout"@),
            (self.source_image@, "sourceImage"@),
            (self.expected_source_sha256@, "expectedSourceSha256"@),
            (self.output_asset_id@, "outputAssetId"@),
            (self.clip_id@, "clipId"@),
            (self.clip_name@, "clipName"@),
            (self.frame_id@, "frameId"@),
        ]
    }

    /// The first rule the spec breaks, or `None`.
    pub open spec fn fault(&self) -> Option<Seq<char>> {
        if self.schema_version != DIRECTIONAL_CARVE_SCHEMA_VERSION {
            Some("directional carve schema "@ + decimal_text(self.schema_version as int) + " is unsupported; expected "@
                + decimal_text(DIRECTIONAL_CARVE_SCHEMA_VERSION as int))
        } else if text_fault_from(self.texts(), 0) is Some {
            text_fault_from(self.texts(), 0)
        } else if !crate::text::starts_with(self.output_asset_id@, "voxel-object/"@) {
            Some("outputAssetId must start with voxel-object/"@)
        } else if !crate::text::starts_with(self.clip_id@, "clip/"@) {
            Some("clipId must start with clip/"@)
        } else if !self.cell_size_positive {
            Some("cellSizeMeters must be finite and positive"@)
        } else if self.frame_duration_microseconds == 0 {
            Some("frameDurationMicroseconds must be positive"@)
        } else if self.carve_threshold == 0 || self.carve_threshold > 4 {
            Some("carveThreshold must be 1..=4"@)
        } else {
            None
        }
    }
}

/// The first labelled text, from `k` on, that is not non-empty canonical
/// text.
pub open spec fn text_fault_from(texts: Seq<(Seq<char>, Seq<char>)>, k: int) -> Option<Seq<char>>
    decreases texts.len() - k,
{
    if k < 0 || k >= texts.len() {
        None
    } else if !crate::text::canonical_text(texts[k].0) {
        Some(texts[k].1 + " must be non-empty canonical text"@)
    } else {
        text_fault_from(texts, k + 1)
    }
}

fn check_text(value: &str, label: &str) -> (result: Result<(), String>)
    ensures
        result is Ok <==> crate::text::canonical_text(value@),
        result matches Err(m) ==> m@ == label@ + " must be non-empty canonical text"@,
{
    if !crate::text::is_canonical_text(value) {
        let mut m = String::from_str(label);
        m.append(" must be non-empty canonical text");
        return Err(m);
    }
    Ok(())
}

impl DirectionalCarveSpec {
    pub fn validate(&self) -> (result: Result<(), String>)
        ensures
            result is Ok <==> self.fault() is None,
            result matches Err(m) ==> Some(m@) == self.fault(),
    {
        proof {
            reveal_strlit("voxel-object/");
            reveal_strlit("clip/");
            reveal_with_fuel(text_fault_from, 10);
        }
        if self.schema_version != DIRECTIONAL_CARVE_SCHEMA_VERSION {
            let mut m = String::from_str("directional carve schema ");
            m.append(decimal_u64(self.schema_version as u64).as_str());
            m.append(" is unsupported; expected ");
            m.append(decimal_u64(DIRECTIONAL_CARVE_SCHEMA_VERSION as u64).as_str());
            return Err(m);
        }
        check_text(self.id.as_str(), "id")?;
        check_text(self.kit.as_str(), "kit")?;
        check_text(self.layout.as_str(), "layout")?;
        check_text(self.source_image.as_str(), "sourceImage")?;
        check_text(self.expected_source_sha256.as_str(), "expectedSourceSha256")?;
        check_text(self.output_asset_id.as_str(), "outputAssetId")?;
        check_text(self.clip_id.as_str(), "clipId")?;
        check_text(self.clip_name.as_str(), "clipName")?;
        check_text(self.frame_id.as_str(), "frameId")?;
        if !crate::text::text_starts_with(self.output_asset_id.as_str(), "voxel-object/") {
            return Err(String::from_str("outputAssetId must start with voxel-object/"));
        }
        if !crate::text::text_starts_with(self.clip_id.as_str(), "clip/") {
            return Err(String::from_str("clipId must start with clip/"));
        }
        if !self.cell_size_positive {
            return Err(String::from_str("cellSizeMeters must be finite and positive"));
        }
        if self.frame_duration_microseconds == 0 {
            return Err(String::from_str("frameDurationMicroseconds must be positive"));
        }
        if self.carve_threshold == 0 || self.carve_threshold > 4 {
            return Err(String::from_str("carveThreshold must be 1..=4"));
        }
        Ok(())
    }
}

} // verus!

verus! {

/// Hashes the carve's source bytes and checks them against the identity the
/// spec expects; `Ok` holds the computed hash.
pub fn check_source_identity(bytes: &[u8], expected: &str) -> (result: Result<String, String>)
    ensures
        match result {
            Ok(h) => h@ == crate::project::sha256_text(bytes@) && h@ == expected@,
            Err(m) => crate::project::sha256_text(bytes@) != expected@ && m@ == "directional carve source identity drift: expected "@
                + expected@ + ", computed "@ + crate::project::sha256_text(bytes@),
        },
{
    let actual = crate::project::sha256(bytes);
    if !text_equals(actual.as_str(), expected) {
        let mut m = String::from_str("directional carve source identity drift: expected ");
        m.append(expected);
        m.append(", computed ");
        m.append(actual.as_str());
        return Err(m);
    }
    Ok(actual)
}

} // verus!

verus! {

/// Whether the sheet pixel a view shows `lateral` columns right of its
/// anchor and `up` rows above it lies inside the view's rectangle and is
/// not transparent: the pixel at column `rect.x + anchor.x + lateral`, row
/// `rect.y + anchor.y - up` of a sheet `w` pixels wide, RGBA bytes.
pub open spec fn covers(sheet: Seq<u8>, w: u32, v: CarveView, lateral: int, up: int) -> bool {
    let col = v.anchor.x + lateral;
    let row = v.anchor.y - up;
    &&& 0 <= col < v.rect.width
    &&& 0 <= row < v.rect.height
    &&& sheet[((v.rect.y + row) * w + v.rect.x + col) * 4 + 3] != 0
}

pub open spec fn count_if(b: bool) -> int {
    if b { 1 } else { 0 }
}

/// The samples over lattice cell `(x, y, z)` are the views that cover it,
/// each looking along its own axis: the front view sees the cell at
/// column `x`, the right view at `-z`, the back view at `-x` and the left
/// view at `z`, all at height `y`. A cell is covered by as many views as
/// it has samples.
pub proof fn law_carve_reads_each_view_on_its_axis(sheet: Seq<u8>, w: u32, views: CarveViews, x: int, y: int, z: int)
    ensures
        cell_samples(sheet, w, views, x, y, z).len() == count_if(covers(sheet, w, views.front, x, y)) + count_if(
            covers(sheet, w, views.right, -z, y),
        ) + count_if(covers(sheet, w, views.back, -x, y)) + count_if(covers(sheet, w, views.left, z, y)),
{
}

/// A carved cell takes the accent slot 3 exactly when at least half of its
/// samples have red above both green and blue by more than 32.
pub proof fn law_carve_red_needs_both_channels(p: [u8; 4], ps: Seq<[u8; 4]>)
    ensures
        reddish(p) <==> (p[0] as int > p[1] as int + 32 && p[0] as int > p[2] as int + 32),
        red_count(ps.push(p)) == red_count(ps) + count_if(p[0] as int > p[1] as int + 32 && p[0] as int > p[2] as int + 32),
        red_count(ps) <= ps.len(),
    decreases ps.len(),
{
    assert(ps.push(p).drop_last() =~= ps);
    if ps.len() > 0 {
        law_carve_red_needs_both_channels(ps.last(), ps.drop_last());
        assert(ps.drop_last().push(ps.last()) =~= ps);
    }
}

} // verus!
