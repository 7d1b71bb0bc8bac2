//! Authored directional sprite-sheet layouts: the rectangles an author chose
//! for each action, frame and viewing direction, and the rules such a layout
//! must meet before anything is cropped from the sheet.

use vstd::prelude::*;
use crate::text::{decimal_text, decimal_u64, debug_text, debug_string, canonical_text, is_canonical_text};
use crate::project::{sha256, sha256_text};

verus! {

pub const DIRECTIONAL_LAYOUT_SCHEMA_VERSION: u32 = 1;

/// The most sprite cells one layout may name.
pub const MAX_CELLS: usize = 256;

/// Exact RGBA colours that stand for the sheet background.
#[derive(Clone, Debug, PartialEq, Eq)]
pub struct SpriteBackground {
    pub color_key: Option<[u8; 4]>,
    /// Additional exact RGBA keys; no tolerance or palette inference.
    pub color_keys: Vec<[u8; 4]>,
}

impl Default for SpriteBackground {
    fn default() -> (background: Self)
        ensures
            background.color_key is None,
            background.color_keys@.len() == 0,
    {
        SpriteBackground { color_key: None, color_keys: Vec::new() }
    }
}

/// A pixel equals a key exactly.
pub open spec fn same_pixel(pixel: Seq<u8>, key: [u8; 4]) -> bool {
    pixel == key@
}

fn matches_key(pixel: &[u8], key: &[u8; 4]) -> (same: bool)
    ensures
        same == same_pixel(pixel@, *key),
{
    if pixel.len() != 4 {
        return false;
    }
    let mut i: usize = 0;
    while i < 4
        invariant
            pixel@.len() == 4,
            i <= 4,
            forall|j: int| 0 <= j < i ==> pixel@[j] == key@[j],
        decreases 4 - i,
    {
        if pixel[i] != key[i] {
            return false;
        }
        i = i + 1;
    }
    assert(pixel@ =~= key@);
    true
}

impl SpriteBackground {
    /// The pixel is one of the background keys.
    pub open spec fn keyed(&self, pixel: Seq<u8>) -> bool {
        ||| (self.color_key matches Some(k) && same_pixel(pixel, k))
        ||| exists|i: int| 0 <= i < self.color_keys@.len() && same_pixel(pixel, #[trigger] self.color_keys@[i])
    }

    pub fn is_key(&self, pixel: &[u8]) -> (keyed: bool)
        ensures
            keyed == self.keyed(pixel@),
    {
        if let Some(key) = &self.color_key {
            if matches_key(pixel, key) {
                return true;
            }
        }
        let mut i: usize = 0;
        while i < self.color_keys.len()
            invariant
                i <= self.color_keys@.len(),
                !(self.color_key matches Some(k) && same_pixel(pixel@, k)),
                forall|j: int| 0 <= j < i ==> !same_pixel(pixel@, #[trigger] self.color_keys@[j]),
            decreases self.color_keys@.len() - i,
        {
            if matches_key(pixel, &self.color_keys[i]) {
                return true;
            }
            i = i + 1;
        }
        false
    }
}

#[derive(Clone, Copy, Debug, PartialEq, Eq, Structural)]
pub struct SpriteRect {
    pub x: u32,
    pub y: u32,
    pub width: u32,
    pub height: u32,
}

#[derive(Clone, Copy, Debug, PartialEq, Eq, Structural)]
pub struct SpriteAnchor {
    pub x: i32,
    pub y: i32,
}

#[derive(Clone, Debug, PartialEq, Eq)]
pub struct DirectionalSpriteView {
    pub direction: String,
    /// `None` marks a direction the author left out on purpose.
    pub rect: Option<SpriteRect>,
    pub anchor: Option<SpriteAnchor>,
}

#[derive(Clone, Debug, PartialEq, Eq)]
pub struct DirectionalSpriteFrame {
    pub id: String,
    pub name: String,
    pub views: Vec<DirectionalSpriteView>,
}

#[derive(Clone, Debug, PartialEq, Eq)]
pub struct DirectionalSpriteAction {
    pub id: String,
    pub name: String,
    pub frames: Vec<DirectionalSpriteFrame>,
}

#[derive(Clone, Debug, PartialEq, Eq)]
pub struct DirectionalSpriteSource {
    pub path: String,
    pub background: SpriteBackground,
}

#[derive(Clone, Debug, PartialEq, Eq)]
pub struct DirectionalSpriteLayout {
    pub schema_version: u32,
    pub id: String,
    pub source: DirectionalSpriteSource,
    pub directions: Vec<String>,
    pub actions: Vec<DirectionalSpriteAction>,
}

/// A view that a frame leaves out explicitly.
#[derive(Clone, Debug, PartialEq, Eq)]
pub struct MissingView {
    pub action: String,
    pub frame: String,
    pub direction: String,
}

/// Two rectangles share at least one pixel.
pub open spec fn rects_overlap(left: SpriteRect, right: SpriteRect) -> bool {
    &&& left.x < right.x + right.width
    &&& right.x < left.x + left.width
    &&& left.y < right.y + right.height
    &&& right.y < left.y + left.height
}

pub fn rectangles_overlap(left: &SpriteRect, right: &SpriteRect) -> (overlap: bool)
    ensures
        overlap == rects_overlap(*left, *right),
{
    (left.x as u64) < (right.x as u64) + (right.width as u64) && (right.x as u64) < (left.x as u64)
        + (left.width as u64) && (left.y as u64) < (right.y as u64) + (right.height as u64) && (right.y as u64)
        < (left.y as u64) + (left.height as u64)
}

/// `action/frame/direction`, the name of one cell in messages.
pub open spec fn cell_label(action: Seq<char>, frame: Seq<char>, direction: Seq<char>) -> Seq<char> {
    action + "/"@ + frame + "/"@ + direction
}

/// Why a rectangle cannot stand in a `width` x `height` sheet, if it cannot.
pub open spec fn rect_fault(
    rect: SpriteRect,
    width: u32,
    height: u32,
    action: Seq<char>,
    frame: Seq<char>,
    direction: Seq<char>,
) -> Option<Seq<char>> {
    if rect.width == 0 || rect.height == 0 {
        Some(cell_label(action, frame, direction) + " has an empty rectangle"@)
    } else if rect.x + rect.width > width || rect.y + rect.height > height {
        Some(cell_label(action, frame, direction) + " rectangle is outside source bounds"@)
    } else {
        None
    }
}

fn cell_text(action: &str, frame: &str, direction: &str) -> (text: String)
    ensures
        text@ == cell_label(action@, frame@, direction@),
{
    let mut text = String::from_str(action);
    text.append("/");
    text.append(frame);
    text.append("/");
    text.append(direction);
    text
}

pub fn validate_rect(
    rect: &SpriteRect,
    width: u32,
    height: u32,
    action: &str,
    frame: &str,
    direction: &str,
) -> (result: Result<(), String>)
    ensures
        result is Ok <==> rect_fault(*rect, width, height, action@, frame@, direction@) is None,
        result matches Err(m) ==> Some(m@) == rect_fault(*rect, width, height, action@, frame@, direction@),
{
    if rect.width == 0 || rect.height == 0 {
        let mut message = cell_text(action, frame, direction);
        message.append(" has an empty rectangle");
        return Err(message);
    }
    if (rect.x as u64) + (rect.width as u64) > width as u64 || (rect.y as u64) + (rect.height as u64) > height as u64 {
        let mut message = cell_text(action, frame, direction);
        message.append(" rectangle is outside source bounds");
        return Err(message);
    }
    Ok(())
}

/// Short canonical text: no surrounding white space, at most 64 bytes of
/// UTF-8, no `/`.
pub open spec fn short_identity(value: Seq<char>) -> bool {
    &&& canonical_text(value)
    &&& vstd::utf8::encode_utf8(value).len() <= 64
    &&& !value.contains('/')
}

pub open spec fn identity_fault(value: Seq<char>, path: Seq<char>) -> Option<Seq<char>> {
    if short_identity(value) {
        None
    } else {
        Some(path + " must be short canonical text without '/': "@ + debug_text(value))
    }
}

fn has_slash(value: &str) -> (found: bool)
    ensures
        found == value@.contains('/'),
{
    let n = value.unicode_len();
    let mut i: usize = 0;
    while i < n
        invariant
            n == value@.len(),
            i <= n,
            forall|j: int| 0 <= j < i ==> value@[j] != '/',
        decreases n - i,
    {
        if value.get_char(i) == '/' {
            return true;
        }
        i = i + 1;
    }
    false
}

/// `Err` unless the value is a short canonical identity.
pub fn require_identity(value: &str, path: &str) -> (result: Result<(), String>)
    ensures
        result is Ok <==> identity_fault(value@, path@) is None,
        result matches Err(m) ==> Some(m@) == identity_fault(value@, path@),
{
    let bytes = value.as_bytes();
    if !is_canonical_text(value) || bytes.len() > 64 || has_slash(value) {
        let mut message = String::from_str(path);
        message.append(" must be short canonical text without '/': ");
        let quoted = debug_string(value);
        message.append(quoted.as_str());
        return Err(message);
    }
    Ok(())
}


/// `text` is one of the first `k` labels.
pub open spec fn label_in(labels: Seq<String>, k: int, text: Seq<char>) -> bool {
    exists|j: int| 0 <= j < k && (#[trigger] labels[j])@ == text
}

/// The first direction label that is not a short identity or repeats an
/// earlier one.
pub open spec fn direction_fault_from(dirs: Seq<String>, k: int) -> Option<Seq<char>>
    decreases dirs.len() - k,
{
    if k < 0 || k >= dirs.len() {
        None
    } else if identity_fault(dirs[k]@, "directions[]"@) is Some {
        identity_fault(dirs[k]@, "directions[]"@)
    } else if label_in(dirs, k, dirs[k]@) {
        Some("direction "@ + dirs[k]@ + " is repeated"@)
    } else {
        direction_fault_from(dirs, k + 1)
    }
}

/// The rectangles of the present views, in order.
pub open spec fn view_rects(views: Seq<DirectionalSpriteView>) -> Seq<SpriteRect>
    decreases views.len(),
{
    if views.len() == 0 {
        seq![]
    } else {
        view_rects(views.drop_last()) + match views.last().rect {
            Some(r) => seq![r],
            None => Seq::<SpriteRect>::empty(),
        }
    }
}

pub open spec fn frame_rects(frames: Seq<DirectionalSpriteFrame>) -> Seq<SpriteRect>
    decreases frames.len(),
{
    if frames.len() == 0 {
        seq![]
    } else {
        frame_rects(frames.drop_last()) + view_rects(frames.last().views@)
    }
}

/// Every rectangle of the layout, action by action, frame by frame, view by
/// view.
pub open spec fn layout_rects(actions: Seq<DirectionalSpriteAction>) -> Seq<SpriteRect>
    decreases actions.len(),
{
    if actions.len() == 0 {
        seq![]
    } else {
        layout_rects(actions.drop_last()) + frame_rects(actions.last().frames@)
    }
}

/// `frame X in action Y`, the prefix of frame messages.
pub open spec fn frame_label(action: Seq<char>, frame: Seq<char>) -> Seq<char> {
    "frame "@ + frame + " in action "@ + action
}

pub open spec fn direction_in_views(views: Seq<DirectionalSpriteView>, m: int, direction: Seq<char>) -> bool {
    exists|j: int| 0 <= j < m && (#[trigger] views[j]).direction@ == direction
}

pub open spec fn view_rect_fault(
    view: DirectionalSpriteView,
    width: u32,
    height: u32,
    action: Seq<char>,
    frame: Seq<char>,
) -> Option<Seq<char>> {
    match view.rect {
        Some(r) => rect_fault(r, width, height, action, frame, view.direction@),
        None => None,
    }
}

/// The first view of the frame, from `m` on, that names an unknown or
/// repeated direction or holds a rectangle that does not fit.
pub open spec fn view_fault_from(
    dirs: Seq<String>,
    width: u32,
    height: u32,
    action: Seq<char>,
    frame: DirectionalSpriteFrame,
    m: int,
) -> Option<Seq<char>>
    decreases frame.views@.len() - m,
{
    if m < 0 || m >= frame.views@.len() {
        None
    } else {
        let v = frame.views@[m];
        if !label_in(dirs, dirs.len() as int, v.direction@) {
            Some(frame_label(action, frame.id@) + " names unknown direction "@ + v.direction@)
        } else if direction_in_views(frame.views@, m, v.direction@) {
            Some(frame_label(action, frame.id@) + " repeats direction "@ + v.direction@)
        } else if view_rect_fault(v, width, height, action, frame.id@) is Some {
            view_rect_fault(v, width, height, action, frame.id@)
        } else {
            view_fault_from(dirs, width, height, action, frame, m + 1)
        }
    }
}

pub open spec fn frame_id_in(frames: Seq<DirectionalSpriteFrame>, j: int, id: Seq<char>) -> bool {
    exists|i: int| 0 <= i < j && (#[trigger] frames[i]).id@ == id
}

/// What is wrong with frame `j` of an action, if anything.
pub open spec fn frame_fault(
    dirs: Seq<String>,
    width: u32,
    height: u32,
    action: Seq<char>,
    frames: Seq<DirectionalSpriteFrame>,
    j: int,
) -> Option<Seq<char>> {
    let f = frames[j];
    if identity_fault(f.id@, "frames.id"@) is Some {
        identity_fault(f.id@, "frames.id"@)
    } else if identity_fault(f.name@, "frames.name"@) is Some {
        identity_fault(f.name@, "frames.name"@)
    } else if frame_id_in(frames, j, f.id@) {
        Some("frame "@ + f.id@ + " is repeated in action "@ + action)
    } else if f.views@.len() != dirs.len() {
        Some(frame_label(action, f.id@) + " must contain exactly one view per direction"@)
    } else if view_fault_from(dirs, width, height, action, f, 0) is Some {
        view_fault_from(dirs, width, height, action, f, 0)
    } else if view_rects(f.views@).len() == 0 {
        Some(frame_label(action, f.id@) + " must have at least one present view"@)
    } else {
        None
    }
}

pub open spec fn frames_fault_from(
    dirs: Seq<String>,
    width: u32,
    height: u32,
    action: Seq<char>,
    frames: Seq<DirectionalSpriteFrame>,
    j: int,
) -> Option<Seq<char>>
    decreases frames.len() - j,
{
    if j < 0 || j >= frames.len() {
        None
    } else if frame_fault(dirs, width, height, action, frames, j) is Some {
        frame_fault(dirs, width, height, action, frames, j)
    } else {
        frames_fault_from(dirs, width, height, action, frames, j + 1)
    }
}

pub open spec fn action_id_in(actions: Seq<DirectionalSpriteAction>, i: int, id: Seq<char>) -> bool {
    exists|k: int| 0 <= k < i && (#[trigger] actions[k]).id@ == id
}

/// What is wrong with action `i`, if anything.
pub open spec fn action_fault(
    dirs: Seq<String>,
    width: u32,
    height: u32,
    actions: Seq<DirectionalSpriteAction>,
    i: int,
) -> Option<Seq<char>> {
    let a = actions[i];
    if identity_fault(a.id@, "actions.id"@) is Some {
        identity_fault(a.id@, "actions.id"@)
    } else if identity_fault(a.name@, "actions.name"@) is Some {
        identity_fault(a.name@, "actions.name"@)
    } else if action_id_in(actions, i, a.id@) {
        Some("action "@ + a.id@ + " is repeated"@)
    } else if a.frames@.len() == 0 || a.frames@.len() > 64 {
        Some("action "@ + a.id@ + " frames must contain 1..=64 entries"@)
    } else {
        frames_fault_from(dirs, width, height, a.id@, a.frames@, 0)
    }
}

pub open spec fn actions_fault_from(
    dirs: Seq<String>,
    width: u32,
    height: u32,
    actions: Seq<DirectionalSpriteAction>,
    i: int,
) -> Option<Seq<char>>
    decreases actions.len() - i,
{
    if i < 0 || i >= actions.len() {
        None
    } else if action_fault(dirs, width, height, actions, i) is Some {
        action_fault(dirs, width, height, actions, i)
    } else {
        actions_fault_from(dirs, width, height, actions, i + 1)
    }
}

/// The first rectangle after `j` (inclusive) that overlaps rectangle `i`.
pub open spec fn overlap_partner(rects: Seq<SpriteRect>, i: int, j: int) -> Option<int>
    decreases rects.len() - j,
{
    if j < 0 || j >= rects.len() {
        None
    } else if rects_overlap(rects[i], rects[j]) {
        Some(j)
    } else {
        overlap_partner(rects, i, j + 1)
    }
}

/// The first overlapping pair `(i, j)`, `i < j`, in the order of the list.
pub open spec fn first_overlap_from(rects: Seq<SpriteRect>, i: int) -> Option<(int, int)>
    decreases rects.len() - i,
{
    if i < 0 || i >= rects.len() {
        None
    } else {
        match overlap_partner(rects, i, i + 1) {
            Some(j) => Some((i, j)),
            None => first_overlap_from(rects, i + 1),
        }
    }
}

/// `(x,y,width,height)`.
pub open spec fn rect_text(r: SpriteRect) -> Seq<char> {
    "("@ + decimal_text(r.x as int) + ","@ + decimal_text(r.y as int) + ","@ + decimal_text(r.width as int) + ","@
        + decimal_text(r.height as int) + ")"@
}

impl DirectionalSpriteLayout {
    /// The message of the first rule the layout breaks against a
    /// `width` x `height` sheet, or `None` when it is valid.
    pub open spec fn fault(&self, width: u32, height: u32) -> Option<Seq<char>> {
        let dirs = self.directions@;
        let actions = self.actions@;
        let rects = layout_rects(actions);
        if self.schema_version != DIRECTIONAL_LAYOUT_SCHEMA_VERSION {
            Some("layout schema "@ + decimal_text(self.schema_version as int) + " is unsupported; expected 1"@)
        } else if identity_fault(self.id@, "id"@) is Some {
            identity_fault(self.id@, "id"@)
        } else if dirs.len() < 2 || dirs.len() > 8 {
            Some("directions must contain 2..=8 labels"@)
        } else if direction_fault_from(dirs, 0) is Some {
            direction_fault_from(dirs, 0)
        } else if actions.len() == 0 || actions.len() > 32 {
            Some("actions must contain 1..=32 entries"@)
        } else if actions_fault_from(dirs, width, height, actions, 0) is Some {
            actions_fault_from(dirs, width, height, actions, 0)
        } else if rects.len() > MAX_CELLS {
            Some("layout contains "@ + decimal_text(rects.len() as int) + " cells; maximum is 256"@)
        } else {
            match first_overlap_from(rects, 0) {
                Some((i, j)) => Some("sprite rectangles overlap: "@ + rect_text(rects[i]) + " and "@ + rect_text(rects[j])),
                None => None,
            }
        }
    }
}


fn label_in_prefix(labels: &Vec<String>, k: usize, text: &String) -> (found: bool)
    requires
        k <= labels@.len(),
    ensures
        found == label_in(labels@, k as int, text@),
{
    let mut j: usize = 0;
    while j < k
        invariant
            j <= k <= labels@.len(),
            forall|i: int| 0 <= i < j ==> (#[trigger] labels@[i])@ != text@,
        decreases k - j,
    {
        if labels[j] == *text {
            assert((labels@[j as int])@ == text@);
            return true;
        }
        j = j + 1;
    }
    false
}

fn check_directions(dirs: &Vec<String>) -> (result: Result<(), String>)
    ensures
        result is Ok <==> direction_fault_from(dirs@, 0) is None,
        result matches Err(m) ==> Some(m@) == direction_fault_from(dirs@, 0),
{
    let mut k: usize = 0;
    while k < dirs.len()
        invariant
            k <= dirs@.len(),
            direction_fault_from(dirs@, 0) == direction_fault_from(dirs@, k as int),
        decreases dirs@.len() - k,
    {
        match require_identity(dirs[k].as_str(), "directions[]") {
            Ok(()) => {},
            Err(message) => {
                return Err(message);
            },
        }
        if label_in_prefix(dirs, k, &dirs[k]) {
            let mut message = String::from_str("direction ");
            message.append(dirs[k].as_str());
            message.append(" is repeated");
            return Err(message);
        }
        k = k + 1;
    }
    Ok(())
}

fn frame_text(action: &str, frame: &str) -> (text: String)
    ensures
        text@ == frame_label(action@, frame@),
{
    let mut text = String::from_str("frame ");
    text.append(frame);
    text.append(" in action ");
    text.append(action);
    text
}

fn direction_in_prefix(views: &Vec<DirectionalSpriteView>, m: usize, direction: &String) -> (found: bool)
    requires
        m <= views@.len(),
    ensures
        found == direction_in_views(views@, m as int, direction@),
{
    let mut j: usize = 0;
    while j < m
        invariant
            j <= m <= views@.len(),
            forall|i: int| 0 <= i < j ==> (#[trigger] views@[i]).direction@ != direction@,
        decreases m - j,
    {
        if views[j].direction == *direction {
            assert(views@[j as int].direction@ == direction@);
            return true;
        }
        j = j + 1;
    }
    false
}

proof fn lemma_view_rects_step(views: Seq<DirectionalSpriteView>, m: int)
    requires
        0 <= m < views.len(),
    ensures
        view_rects(views.take(m + 1)) == view_rects(views.take(m)) + match views[m].rect {
            Some(r) => seq![r],
            None => Seq::<SpriteRect>::empty(),
        },
{
    assert(views.take(m + 1).drop_last() =~= views.take(m));
}

/// Checks the views of one frame; on success appends their rectangles.
fn check_views(
    dirs: &Vec<String>,
    width: u32,
    height: u32,
    action: &String,
    frame: &DirectionalSpriteFrame,
    rects: &mut Vec<SpriteRect>,
) -> (result: Result<(), String>)
    ensures
        result is Ok <==> view_fault_from(dirs@, width, height, action@, *frame, 0) is None,
        result matches Err(m) ==> Some(m@) == view_fault_from(dirs@, width, height, action@, *frame, 0),
        result is Ok ==> final(rects)@ == old(rects)@ + view_rects(frame.views@),
{
    let ghost start = rects@;
    let mut m: usize = 0;
    while m < frame.views.len()
        invariant
            m <= frame.views@.len(),
            view_fault_from(dirs@, width, height, action@, *frame, 0) == view_fault_from(
                dirs@,
                width,
                height,
                action@,
                *frame,
                m as int,
            ),
            rects@ == start + view_rects(frame.views@.take(m as int)),
        decreases frame.views@.len() - m,
    {
        let view = &frame.views[m];
        if !label_in_prefix(dirs, dirs.len(), &view.direction) {
            let mut message = frame_text(action.as_str(), frame.id.as_str());
            message.append(" names unknown direction ");
            message.append(view.direction.as_str());
            return Err(message);
        }
        if direction_in_prefix(&frame.views, m, &view.direction) {
            let mut message = frame_text(action.as_str(), frame.id.as_str());
            message.append(" repeats direction ");
            message.append(view.direction.as_str());
            return Err(message);
        }
        proof {
            lemma_view_rects_step(frame.views@, m as int);
        }
        if let Some(rect) = &view.rect {
            match validate_rect(rect, width, height, action.as_str(), frame.id.as_str(), view.direction.as_str()) {
                Ok(()) => {},
                Err(message) => {
                    return Err(message);
                },
            }
            rects.push(*rect);
        }
        proof {
            assert(rects@ =~= start + view_rects(frame.views@.take(m + 1)));
        }
        m = m + 1;
    }
    proof {
        assert(frame.views@.take(m as int) =~= frame.views@);
    }
    Ok(())
}


fn frame_id_in_prefix(frames: &Vec<DirectionalSpriteFrame>, j: usize, id: &String) -> (found: bool)
    requires
        j <= frames@.len(),
    ensures
        found == frame_id_in(frames@, j as int, id@),
{
    let mut i: usize = 0;
    while i < j
        invariant
            i <= j <= frames@.len(),
            forall|k: int| 0 <= k < i ==> (#[trigger] frames@[k]).id@ != id@,
        decreases j - i,
    {
        if frames[i].id == *id {
            assert(frames@[i as int].id@ == id@);
            return true;
        }
        i = i + 1;
    }
    false
}

proof fn lemma_frame_rects_step(frames: Seq<DirectionalSpriteFrame>, j: int)
    requires
        0 <= j < frames.len(),
    ensures
        frame_rects(frames.take(j + 1)) == frame_rects(frames.take(j)) + view_rects(frames[j].views@),
{
    assert(frames.take(j + 1).drop_last() =~= frames.take(j));
}

/// Checks the frames of one action; on success appends their rectangles.
fn check_frames(
    dirs: &Vec<String>,
    width: u32,
    height: u32,
    action: &DirectionalSpriteAction,
    rects: &mut Vec<SpriteRect>,
) -> (result: Result<(), String>)
    ensures
        result is Ok <==> frames_fault_from(dirs@, width, height, action.id@, action.frames@, 0) is None,
        result matches Err(m) ==> Some(m@) == frames_fault_from(dirs@, width, height, action.id@, action.frames@, 0),
        result is Ok ==> final(rects)@ == old(rects)@ + frame_rects(action.frames@),
{
    let ghost start = rects@;
    let frames = &action.frames;
    let mut j: usize = 0;
    while j < frames.len()
        invariant
            frames == &action.frames,
            j <= frames@.len(),
            frames_fault_from(dirs@, width, height, action.id@, frames@, 0) == frames_fault_from(
                dirs@,
                width,
                height,
                action.id@,
                frames@,
                j as int,
            ),
            rects@ == start + frame_rects(frames@.take(j as int)),
        decreases frames@.len() - j,
    {
        let frame = &frames[j];
        match require_identity(frame.id.as_str(), "frames.id") {
            Ok(()) => {},
            Err(message) => {
                return Err(message);
            },
        }
        match require_identity(frame.name.as_str(), "frames.name") {
            Ok(()) => {},
            Err(message) => {
                return Err(message);
            },
        }
        if frame_id_in_prefix(frames, j, &frame.id) {
            let mut message = String::from_str("frame ");
            message.append(frame.id.as_str());
            message.append(" is repeated in action ");
            message.append(action.id.as_str());
            return Err(message);
        }
        if frame.views.len() != dirs.len() {
            let mut message = frame_text(action.id.as_str(), frame.id.as_str());
            message.append(" must contain exactly one view per direction");
            return Err(message);
        }
        let before = rects.len();
        match check_views(dirs, width, height, &action.id, frame, rects) {
            Ok(()) => {},
            Err(message) => {
                return Err(message);
            },
        }
        if rects.len() == before {
            let mut message = frame_text(action.id.as_str(), frame.id.as_str());
            message.append(" must have at least one present view");
            return Err(message);
        }
        proof {
            lemma_frame_rects_step(frames@, j as int);
            assert(rects@ =~= start + frame_rects(frames@.take(j + 1)));
        }
        j = j + 1;
    }
    proof {
        assert(frames@.take(j as int) =~= frames@);
    }
    Ok(())
}

fn action_id_in_prefix(actions: &Vec<DirectionalSpriteAction>, i: usize, id: &String) -> (found: bool)
    requires
        i <= actions@.len(),
    ensures
        found == action_id_in(actions@, i as int, id@),
{
    let mut k: usize = 0;
    while k < i
        invariant
            k <= i <= actions@.len(),
            forall|x: int| 0 <= x < k ==> (#[trigger] actions@[x]).id@ != id@,
        decreases i - k,
    {
        if actions[k].id == *id {
            assert(actions@[k as int].id@ == id@);
            return true;
        }
        k = k + 1;
    }
    false
}

proof fn lemma_layout_rects_step(actions: Seq<DirectionalSpriteAction>, i: int)
    requires
        0 <= i < actions.len(),
    ensures
        layout_rects(actions.take(i + 1)) == layout_rects(actions.take(i)) + frame_rects(actions[i].frames@),
{
    assert(actions.take(i + 1).drop_last() =~= actions.take(i));
}

/// Checks every action in order and collects the layout's rectangles.
fn check_actions(
    dirs: &Vec<String>,
    width: u32,
    height: u32,
    actions: &Vec<DirectionalSpriteAction>,
) -> (result: Result<Vec<SpriteRect>, String>)
    ensures
        result is Ok <==> actions_fault_from(dirs@, width, height, actions@, 0) is None,
        result matches Err(m) ==> Some(m@) == actions_fault_from(dirs@, width, height, actions@, 0),
        result matches Ok(rects) ==> rects@ == layout_rects(actions@),
{
    let mut rects: Vec<SpriteRect> = Vec::new();
    let mut i: usize = 0;
    while i < actions.len()
        invariant
            i <= actions@.len(),
            actions_fault_from(dirs@, width, height, actions@, 0) == actions_fault_from(
                dirs@,
                width,
                height,
                actions@,
                i as int,
            ),
            rects@ == layout_rects(actions@.take(i as int)),
        decreases actions@.len() - i,
    {
        let action = &actions[i];
        match require_identity(action.id.as_str(), "actions.id") {
            Ok(()) => {},
            Err(message) => {
                return Err(message);
            },
        }
        match require_identity(action.name.as_str(), "actions.name") {
            Ok(()) => {},
            Err(message) => {
                return Err(message);
            },
        }
        if action_id_in_prefix(actions, i, &action.id) {
            let mut message = String::from_str("action ");
            message.append(action.id.as_str());
            message.append(" is repeated");
            return Err(message);
        }
        if action.frames.len() == 0 || action.frames.len() > 64 {
            let mut message = String::from_str("action ");
            message.append(action.id.as_str());
            message.append(" frames must contain 1..=64 entries");
            return Err(message);
        }
        match check_frames(dirs, width, height, action, &mut rects) {
            Ok(()) => {},
            Err(message) => {
                return Err(message);
            },
        }
        proof {
            lemma_layout_rects_step(actions@, i as int);
        }
        i = i + 1;
    }
    proof {
        assert(actions@.take(i as int) =~= actions@);
    }
    Ok(rects)
}

/// The first overlapping pair of rectangles, in list order.
fn first_overlap(rects: &Vec<SpriteRect>) -> (pair: Option<(usize, usize)>)
    ensures
        match pair {
            Some((i, j)) => i < j < rects@.len() && first_overlap_from(rects@, 0) == Some((i as int, j as int)),
            None => first_overlap_from(rects@, 0) is None,
        },
{
    let mut i: usize = 0;
    while i < rects.len()
        invariant
            i <= rects@.len(),
            first_overlap_from(rects@, 0) == first_overlap_from(rects@, i as int),
        decreases rects@.len() - i,
    {
        let mut j: usize = i + 1;
        while j < rects.len()
            invariant
                i < rects@.len(),
                i + 1 <= j <= rects@.len(),
                first_overlap_from(rects@, 0) == first_overlap_from(rects@, i as int),
                overlap_partner(rects@, i as int, i + 1) == overlap_partner(rects@, i as int, j as int),
            decreases rects@.len() - j,
        {
            if rectangles_overlap(&rects[i], &rects[j]) {
                assert(overlap_partner(rects@, i as int, j as int) == Some(j as int));
                return Some((i, j));
            }
            j = j + 1;
        }
        i = i + 1;
    }
    None
}

fn rect_string(r: &SpriteRect) -> (text: String)
    ensures
        text@ == rect_text(*r),
{
    let mut text = String::from_str("(");
    text.append(decimal_u64(r.x as u64).as_str());
    text.append(",");
    text.append(decimal_u64(r.y as u64).as_str());
    text.append(",");
    text.append(decimal_u64(r.width as u64).as_str());
    text.append(",");
    text.append(decimal_u64(r.height as u64).as_str());
    text.append(")");
    text
}

impl DirectionalSpriteLayout {
    /// Checks the layout against a sheet of `image_width` x `image_height`
    /// pixels and names the first rule it breaks.
    pub fn validate(&self, image_width: u32, image_height: u32) -> (result: Result<(), String>)
        ensures
            result is Ok <==> self.fault(image_width, image_height) is None,
            result matches Err(m) ==> Some(m@) == self.fault(image_width, image_height),
    {
        if self.schema_version != DIRECTIONAL_LAYOUT_SCHEMA_VERSION {
            let mut message = String::from_str("layout schema ");
            message.append(decimal_u64(self.schema_version as u64).as_str());
            message.append(" is unsupported; expected 1");
            return Err(message);
        }
        match require_identity(self.id.as_str(), "id") {
            Ok(()) => {},
            Err(message) => {
                return Err(message);
            },
        }
        if self.directions.len() < 2 || self.directions.len() > 8 {
            return Err(String::from_str("directions must contain 2..=8 labels"));
        }
        match check_directions(&self.directions) {
            Ok(()) => {},
            Err(message) => {
                return Err(message);
            },
        }
        if self.actions.len() == 0 || self.actions.len() > 32 {
            return Err(String::from_str("actions must contain 1..=32 entries"));
        }
        let rects = match check_actions(&self.directions, image_width, image_height, &self.actions) {
            Ok(rects) => rects,
            Err(message) => {
                return Err(message);
            },
        };
        if rects.len() > MAX_CELLS {
            let mut message = String::from_str("layout contains ");
            message.append(decimal_u64(rects.len() as u64).as_str());
            message.append(" cells; maximum is 256");
            return Err(message);
        }
        match first_overlap(&rects) {
            Some((i, j)) => {
                let mut message = String::from_str("sprite rectangles overlap: ");
                message.append(rect_string(&rects[i]).as_str());
                message.append(" and ");
                message.append(rect_string(&rects[j]).as_str());
                Err(message)
            },
            None => Ok(()),
        }
    }
}


/// The index of the first label equal to `text`, or the label count when
/// there is none (so unknown directions sort last).
pub open spec fn label_position_from(labels: Seq<String>, text: Seq<char>, k: int) -> int
    decreases labels.len() - k,
{
    if k < 0 || k >= labels.len() {
        labels.len() as int
    } else if labels[k]@ == text {
        k
    } else {
        label_position_from(labels, text, k + 1)
    }
}

pub open spec fn view_key(dirs: Seq<String>, view: DirectionalSpriteView) -> int {
    label_position_from(dirs, view.direction@, 0)
}

proof fn lemma_key_range(dirs: Seq<String>, text: Seq<char>, k: int)
    requires
        0 <= k <= dirs.len(),
    ensures
        k <= label_position_from(dirs, text, k) <= dirs.len(),
    decreases dirs.len() - k,
{
    if k < dirs.len() {
        lemma_key_range(dirs, text, k + 1);
    }
}

/// The views whose direction has position `key`, in their given order.
pub open spec fn views_with_key(views: Seq<DirectionalSpriteView>, dirs: Seq<String>, key: int) -> Seq<DirectionalSpriteView>
    decreases views.len(),
{
    if views.len() == 0 {
        seq![]
    } else {
        views_with_key(views.drop_last(), dirs, key) + if view_key(dirs, views.last()) == key {
            seq![views.last()]
        } else {
            Seq::<DirectionalSpriteView>::empty()
        }
    }
}

/// The views in stable order of their direction's position: all views of the
/// first direction, then the second, and so on, unknown directions last.
pub open spec fn views_in_direction_order_upto(
    views: Seq<DirectionalSpriteView>,
    dirs: Seq<String>,
    upto: int,
) -> Seq<DirectionalSpriteView>
    decreases upto,
{
    if upto <= 0 {
        seq![]
    } else {
        views_in_direction_order_upto(views, dirs, upto - 1) + views_with_key(views, dirs, upto - 1)
    }
}

pub open spec fn views_in_direction_order(views: Seq<DirectionalSpriteView>, dirs: Seq<String>) -> Seq<DirectionalSpriteView> {
    views_in_direction_order_upto(views, dirs, dirs.len() + 1int)
}

fn label_position(labels: &Vec<String>, text: &String) -> (position: usize)
    ensures
        position == label_position_from(labels@, text@, 0),
{
    let mut k: usize = 0;
    while k < labels.len()
        invariant
            k <= labels@.len(),
            label_position_from(labels@, text@, 0) == label_position_from(labels@, text@, k as int),
        decreases labels@.len() - k,
    {
        if labels[k] == *text {
            return k;
        }
        k = k + 1;
    }
    labels.len()
}

fn copy_view(view: &DirectionalSpriteView) -> (copy: DirectionalSpriteView)
    ensures
        copy == *view,
{
    DirectionalSpriteView { direction: view.direction.clone(), rect: view.rect, anchor: view.anchor }
}

/// Append the views whose key is `key`, in order.
fn append_bucket(
    views: &Vec<DirectionalSpriteView>,
    dirs: &Vec<String>,
    keys: &Vec<usize>,
    key: usize,
    ordered: &mut Vec<DirectionalSpriteView>,
)
    requires
        keys@.len() == views@.len(),
        forall|j: int| 0 <= j < views@.len() ==> #[trigger] keys@[j] == view_key(dirs@, views@[j]),
    ensures
        final(ordered)@ == old(ordered)@ + views_with_key(views@, dirs@, key as int),
{
    let ghost start = ordered@;
    let mut j: usize = 0;
    while j < views.len()
        invariant
            j <= views@.len(),
            keys@.len() == views@.len(),
            forall|t: int| 0 <= t < views@.len() ==> #[trigger] keys@[t] == view_key(dirs@, views@[t]),
            ordered@ == start + views_with_key(views@.take(j as int), dirs@, key as int),
        decreases views@.len() - j,
    {
        assert(views@.take(j + 1).drop_last() =~= views@.take(j as int));
        if keys[j] == key {
            ordered.push(copy_view(&views[j]));
        }
        assert(ordered@ =~= start + views_with_key(views@.take(j + 1), dirs@, key as int));
        j = j + 1;
    }
    assert(views@.take(j as int) =~= views@);
}

/// The views reordered by the position of their direction label, stably.
fn order_views(views: &Vec<DirectionalSpriteView>, dirs: &Vec<String>) -> (ordered: Vec<DirectionalSpriteView>)
    ensures
        ordered@ == views_in_direction_order(views@, dirs@),
{
    let mut keys: Vec<usize> = Vec::new();
    let mut i: usize = 0;
    while i < views.len()
        invariant
            i <= views@.len(),
            keys@.len() == i,
            forall|j: int| 0 <= j < i ==> #[trigger] keys@[j] == view_key(dirs@, views@[j]),
        decreases views@.len() - i,
    {
        keys.push(label_position(dirs, &views[i].direction));
        i = i + 1;
    }
    let mut ordered: Vec<DirectionalSpriteView> = Vec::new();
    let n = dirs.len();
    let mut key: usize = 0;
    while key < n
        invariant
            key <= n == dirs@.len(),
            keys@.len() == views@.len(),
            forall|j: int| 0 <= j < views@.len() ==> #[trigger] keys@[j] == view_key(dirs@, views@[j]),
            ordered@ == views_in_direction_order_upto(views@, dirs@, key as int),
        decreases n - key,
    {
        append_bucket(views, dirs, &keys, key, &mut ordered);
        key = key + 1;
    }
    append_bucket(views, dirs, &keys, n, &mut ordered);
    ordered
}


pub open spec fn rect_area(r: SpriteRect) -> nat {
    (r.width * r.height) as nat
}

/// The summed area of the rectangles.
pub open spec fn area_sum(rects: Seq<SpriteRect>) -> nat
    decreases rects.len(),
{
    if rects.len() == 0 {
        0
    } else {
        area_sum(rects.drop_last()) + rect_area(rects.last())
    }
}

proof fn lemma_area_concat(a: Seq<SpriteRect>, b: Seq<SpriteRect>)
    ensures
        area_sum(a + b) == area_sum(a) + area_sum(b),
    decreases b.len(),
{
    if b.len() == 0 {
        assert(a + b =~= a);
    } else {
        assert((a + b).drop_last() =~= a + b.drop_last());
        lemma_area_concat(a, b.drop_last());
    }
}

proof fn lemma_view_rects_concat(a: Seq<DirectionalSpriteView>, b: Seq<DirectionalSpriteView>)
    ensures
        view_rects(a + b) == view_rects(a) + view_rects(b),
    decreases b.len(),
{
    if b.len() == 0 {
        assert(a + b =~= a);
        assert(view_rects(b) =~= Seq::<SpriteRect>::empty());
        assert(view_rects(a) + view_rects(b) =~= view_rects(a));
    } else {
        assert((a + b).drop_last() =~= a + b.drop_last());
        lemma_view_rects_concat(a, b.drop_last());
        assert(view_rects(a + b) =~= view_rects(a) + view_rects(b));
    }
}

pub open spec fn view_area(views: Seq<DirectionalSpriteView>) -> nat {
    area_sum(view_rects(views))
}

proof fn lemma_view_area_concat(a: Seq<DirectionalSpriteView>, b: Seq<DirectionalSpriteView>)
    ensures
        view_area(a + b) == view_area(a) + view_area(b),
{
    lemma_view_rects_concat(a, b);
    lemma_area_concat(view_rects(a), view_rects(b));
}

proof fn lemma_order_upto_push(views: Seq<DirectionalSpriteView>, v: DirectionalSpriteView, dirs: Seq<String>, upto: int)
    requires
        upto >= 0,
    ensures
        view_area(views_in_direction_order_upto(views.push(v), dirs, upto)) == view_area(
            views_in_direction_order_upto(views, dirs, upto),
        ) + if view_key(dirs, v) < upto {
            view_area(seq![v])
        } else {
            0
        },
    decreases upto,
{
    lemma_key_range(dirs, v.direction@, 0);
    if upto > 0 {
        lemma_order_upto_push(views, v, dirs, upto - 1);
        let key = upto - 1;
        assert(views.push(v).drop_last() =~= views);
        let with_new = views_with_key(views.push(v), dirs, key);
        let with_old = views_with_key(views, dirs, key);
        lemma_view_area_concat(views_in_direction_order_upto(views.push(v), dirs, key), with_new);
        lemma_view_area_concat(views_in_direction_order_upto(views, dirs, key), with_old);
        if view_key(dirs, v) == key {
            assert(with_new =~= with_old + seq![v]);
            lemma_view_area_concat(with_old, seq![v]);
        } else {
            assert(with_new =~= with_old + Seq::<DirectionalSpriteView>::empty());
            assert(with_new =~= with_old);
        }
    }
}

/// Reordering views by direction keeps their total rectangle area.
proof fn lemma_order_keeps_area(views: Seq<DirectionalSpriteView>, dirs: Seq<String>)
    ensures
        view_area(views_in_direction_order(views, dirs)) == view_area(views),
    decreases views.len(),
{
    if views.len() == 0 {
        assert(views =~= Seq::<DirectionalSpriteView>::empty());
        lemma_order_empty(dirs, dirs.len() + 1int);
        assert(view_rects(views_in_direction_order(views, dirs)) =~= Seq::<SpriteRect>::empty());
    } else {
        let rest = views.drop_last();
        let v = views.last();
        assert(rest.push(v) =~= views);
        lemma_order_keeps_area(rest, dirs);
        lemma_key_range(dirs, v.direction@, 0);
        lemma_order_upto_push(rest, v, dirs, dirs.len() + 1int);
        lemma_view_area_concat(rest, seq![v]);
        assert(rest + seq![v] =~= views);
        assert(view_area(views_in_direction_order(rest.push(v), dirs)) == view_area(views_in_direction_order(rest, dirs)) + view_area(seq![v]));
        assert(view_area(views_in_direction_order(views, dirs)) == view_area(rest + seq![v]));
    }
}

proof fn lemma_order_empty(dirs: Seq<String>, upto: int)
    ensures
        views_in_direction_order_upto(Seq::<DirectionalSpriteView>::empty(), dirs, upto).len() == 0,
    decreases upto,
{
    if upto > 0 {
        lemma_order_empty(dirs, upto - 1);
        assert(views_with_key(Seq::<DirectionalSpriteView>::empty(), dirs, upto - 1).len() == 0);
    }
}

/// A frame whose views are those of `source`, in direction order.
pub open spec fn frame_normalized(frame: DirectionalSpriteFrame, source: DirectionalSpriteFrame, dirs: Seq<String>) -> bool {
    &&& frame.id == source.id
    &&& frame.name == source.name
    &&& frame.views@ == views_in_direction_order(source.views@, dirs)
}

/// An action whose frames are those of `source`, each normalized.
pub open spec fn action_normalized(action: DirectionalSpriteAction, source: DirectionalSpriteAction, dirs: Seq<String>) -> bool {
    &&& action.id == source.id
    &&& action.name == source.name
    &&& action.frames@.len() == source.frames@.len()
    &&& forall|j: int| 0 <= j < action.frames@.len() ==> #[trigger] frame_normalized(action.frames@[j], source.frames@[j], dirs)
}

pub open spec fn actions_normalized(
    actions: Seq<DirectionalSpriteAction>,
    source: Seq<DirectionalSpriteAction>,
    dirs: Seq<String>,
) -> bool {
    &&& actions.len() == source.len()
    &&& forall|i: int| 0 <= i < actions.len() ==> #[trigger] action_normalized(actions[i], source[i], dirs)
}

proof fn lemma_frames_area(frames: Seq<DirectionalSpriteFrame>, source: Seq<DirectionalSpriteFrame>, dirs: Seq<String>)
    requires
        frames.len() == source.len(),
        forall|j: int| 0 <= j < frames.len() ==> #[trigger] frame_normalized(frames[j], source[j], dirs),
    ensures
        area_sum(frame_rects(frames)) == area_sum(frame_rects(source)),
    decreases frames.len(),
{
    if frames.len() > 0 {
        let f = frames.drop_last();
        let g = source.drop_last();
        assert forall|j: int| 0 <= j < f.len() implies #[trigger] frame_normalized(f[j], g[j], dirs) by {
            assert(frame_normalized(frames[j], source[j], dirs));
        }
        lemma_frames_area(f, g, dirs);
        assert(frame_normalized(frames[frames.len() - 1], source[source.len() - 1], dirs));
        lemma_order_keeps_area(source.last().views@, dirs);
        lemma_area_concat(frame_rects(f), view_rects(frames.last().views@));
        lemma_area_concat(frame_rects(g), view_rects(source.last().views@));
    }
}

/// Normalizing keeps the layout's total rectangle area.
proof fn lemma_actions_area(actions: Seq<DirectionalSpriteAction>, source: Seq<DirectionalSpriteAction>, dirs: Seq<String>)
    requires
        actions_normalized(actions, source, dirs),
    ensures
        area_sum(layout_rects(actions)) == area_sum(layout_rects(source)),
    decreases actions.len(),
{
    if actions.len() > 0 {
        let a = actions.drop_last();
        let b = source.drop_last();
        assert forall|i: int| 0 <= i < a.len() implies #[trigger] action_normalized(a[i], b[i], dirs) by {
            assert(action_normalized(actions[i], source[i], dirs));
        }
        lemma_actions_area(a, b, dirs);
        let last = actions.last();
        let src = source.last();
        assert(action_normalized(actions[actions.len() - 1], source[source.len() - 1], dirs));
        assert forall|j: int| 0 <= j < last.frames@.len() implies #[trigger] frame_normalized(last.frames@[j], src.frames@[j], dirs) by {
            assert(frame_normalized(actions[actions.len() - 1].frames@[j], source[source.len() - 1].frames@[j], dirs));
        }
        lemma_frames_area(last.frames@, src.frames@, dirs);
        lemma_area_concat(layout_rects(a), frame_rects(last.frames@));
        lemma_area_concat(layout_rects(b), frame_rects(src.frames@));
    }
}

fn normalize_frames(frames: &Vec<DirectionalSpriteFrame>, dirs: &Vec<String>) -> (out: Vec<DirectionalSpriteFrame>)
    ensures
        out@.len() == frames@.len(),
        forall|j: int| 0 <= j < out@.len() ==> #[trigger] frame_normalized(out@[j], frames@[j], dirs@),
{
    let mut out: Vec<DirectionalSpriteFrame> = Vec::new();
    let mut j: usize = 0;
    while j < frames.len()
        invariant
            j <= frames@.len(),
            out@.len() == j,
            forall|t: int| 0 <= t < j ==> #[trigger] frame_normalized(out@[t], frames@[t], dirs@),
        decreases frames@.len() - j,
    {
        let frame = &frames[j];
        let views = order_views(&frame.views, dirs);
        out.push(DirectionalSpriteFrame { id: frame.id.clone(), name: frame.name.clone(), views });
        j = j + 1;
    }
    out
}

fn normalize_actions(actions: &Vec<DirectionalSpriteAction>, dirs: &Vec<String>) -> (out: Vec<DirectionalSpriteAction>)
    ensures
        actions_normalized(out@, actions@, dirs@),
{
    let mut out: Vec<DirectionalSpriteAction> = Vec::new();
    let mut i: usize = 0;
    while i < actions.len()
        invariant
            i <= actions@.len(),
            out@.len() == i,
            forall|t: int| 0 <= t < i ==> #[trigger] action_normalized(out@[t], actions@[t], dirs@),
        decreases actions@.len() - i,
    {
        let action = &actions[i];
        let frames = normalize_frames(&action.frames, dirs);
        out.push(DirectionalSpriteAction { id: action.id.clone(), name: action.name.clone(), frames });
        i = i + 1;
    }
    out
}


/// The explicitly missing views of one frame, in view order.
pub open spec fn missing_in_views(action: String, frame: String, views: Seq<DirectionalSpriteView>) -> Seq<MissingView>
    decreases views.len(),
{
    if views.len() == 0 {
        seq![]
    } else {
        missing_in_views(action, frame, views.drop_last()) + if views.last().rect is None {
            seq![MissingView { action, frame, direction: views.last().direction }]
        } else {
            Seq::<MissingView>::empty()
        }
    }
}

pub open spec fn missing_in_frames(action: String, frames: Seq<DirectionalSpriteFrame>) -> Seq<MissingView>
    decreases frames.len(),
{
    if frames.len() == 0 {
        seq![]
    } else {
        missing_in_frames(action, frames.drop_last()) + missing_in_views(action, frames.last().id, frames.last().views@)
    }
}

/// Every explicitly missing view of the layout, action by action, frame by
/// frame, view by view.
pub open spec fn missing_in_actions(actions: Seq<DirectionalSpriteAction>) -> Seq<MissingView>
    decreases actions.len(),
{
    if actions.len() == 0 {
        seq![]
    } else {
        missing_in_actions(actions.drop_last()) + missing_in_frames(actions.last().id, actions.last().frames@)
    }
}

pub open spec fn saturated(value: nat) -> u64 {
    if value > u64::MAX {
        u64::MAX
    } else {
        value as u64
    }
}

/// The missing views and the (saturating) covered area of the actions.
fn survey_actions(actions: &Vec<DirectionalSpriteAction>) -> (survey: (Vec<MissingView>, u64))
    ensures
        survey.0@ == missing_in_actions(actions@),
        survey.1 == saturated(area_sum(layout_rects(actions@))),
{
    let mut missing: Vec<MissingView> = Vec::new();
    let mut covered: u64 = 0;
    let ghost mut seen: Seq<SpriteRect> = Seq::empty();
    let mut i: usize = 0;
    while i < actions.len()
        invariant
            i <= actions@.len(),
            missing@ == missing_in_actions(actions@.take(i as int)),
            seen == layout_rects(actions@.take(i as int)),
            covered == saturated(area_sum(seen)),
        decreases actions@.len() - i,
    {
        let action = &actions[i];
        let ghost missing_before = missing@;
        let ghost seen_before = seen;
        let mut j: usize = 0;
        while j < action.frames.len()
            invariant
                i < actions@.len(),
                action == &actions@[i as int],
                j <= action.frames@.len(),
                missing@ == missing_before + missing_in_frames(action.id, action.frames@.take(j as int)),
                seen == seen_before + frame_rects(action.frames@.take(j as int)),
                covered == saturated(area_sum(seen)),
            decreases action.frames@.len() - j,
        {
            let frame = &action.frames[j];
            let ghost missing_mid = missing@;
            let ghost seen_mid = seen;
            let mut m: usize = 0;
            while m < frame.views.len()
                invariant
                    j < action.frames@.len(),
                    frame == &action.frames@[j as int],
                    m <= frame.views@.len(),
                    missing@ == missing_mid + missing_in_views(action.id, frame.id, frame.views@.take(m as int)),
                    seen == seen_mid + view_rects(frame.views@.take(m as int)),
                    covered == saturated(area_sum(seen)),
                decreases frame.views@.len() - m,
            {
                let view = &frame.views[m];
                assert(frame.views@.take(m + 1).drop_last() =~= frame.views@.take(m as int));
                match view.rect {
                    Some(r) => {
                        assert(r.width * r.height <= u64::MAX) by (nonlinear_arith)
                            requires
                                r.width <= u32::MAX,
                                r.height <= u32::MAX,
                        ;
                        let area = (r.width as u64) * (r.height as u64);
                        proof {
                            assert((seen + seq![r]).drop_last() =~= seen);
                            seen = seen + seq![r];
                        }
                        covered = covered.saturating_add(area);
                    },
                    None => {
                        missing.push(
                            MissingView {
                                action: action.id.clone(),
                                frame: frame.id.clone(),
                                direction: view.direction.clone(),
                            },
                        );
                    },
                }
                proof {
                    assert(missing@ =~= missing_mid + missing_in_views(action.id, frame.id, frame.views@.take(m + 1)));
                    assert(seen =~= seen_mid + view_rects(frame.views@.take(m + 1)));
                }
                m = m + 1;
            }
            proof {
                assert(frame.views@.take(m as int) =~= frame.views@);
                assert(action.frames@.take(j + 1).drop_last() =~= action.frames@.take(j as int));
                assert(missing@ =~= missing_before + missing_in_frames(action.id, action.frames@.take(j + 1)));
                assert(seen =~= seen_before + frame_rects(action.frames@.take(j + 1)));
            }
            j = j + 1;
        }
        proof {
            assert(action.frames@.take(j as int) =~= action.frames@);
            assert(actions@.take(i + 1).drop_last() =~= actions@.take(i as int));
            assert(missing@ =~= missing_in_actions(actions@.take(i + 1)));
            assert(seen =~= layout_rects(actions@.take(i + 1)));
        }
        i = i + 1;
    }
    proof {
        assert(actions@.take(i as int) =~= actions@);
    }
    (missing, covered)
}

/// The sheet a layout was normalized against.
#[derive(Clone, Debug, PartialEq, Eq)]
pub struct NormalizedSpriteSource {
    pub path: String,
    pub width: u32,
    pub height: u32,
    pub byte_count: usize,
    pub sha256: String,
    pub background: SpriteBackground,
}

/// A validated layout with views in direction order and coverage figures.
#[derive(Clone, Debug, PartialEq, Eq)]
pub struct NormalizedDirectionalLayout {
    pub schema_version: u32,
    pub id: String,
    pub source: NormalizedSpriteSource,
    pub directions: Vec<String>,
    pub actions: Vec<DirectionalSpriteAction>,
    pub source_area: u64,
    pub covered_area: u64,
    pub unused_area: u64,
    pub missing_views: Vec<MissingView>,
}

fn copy_background(background: &SpriteBackground) -> (copy: SpriteBackground)
    ensures
        copy.color_key == background.color_key,
        copy.color_keys@ == background.color_keys@,
{
    let mut keys: Vec<[u8; 4]> = Vec::new();
    let mut i: usize = 0;
    while i < background.color_keys.len()
        invariant
            i <= background.color_keys@.len(),
            keys@ == background.color_keys@.take(i as int),
        decreases background.color_keys@.len() - i,
    {
        keys.push(background.color_keys[i]);
        assert(keys@ =~= background.color_keys@.take(i + 1));
        i = i + 1;
    }
    assert(background.color_keys@.take(i as int) =~= background.color_keys@);
    SpriteBackground { color_key: background.color_key, color_keys: keys }
}

fn copy_labels(labels: &Vec<String>) -> (copy: Vec<String>)
    ensures
        copy@ == labels@,
{
    let mut copy: Vec<String> = Vec::new();
    let mut i: usize = 0;
    while i < labels.len()
        invariant
            i <= labels@.len(),
            copy@ == labels@.take(i as int),
        decreases labels@.len() - i,
    {
        copy.push(labels[i].clone());
        assert(copy@ =~= labels@.take(i + 1));
        i = i + 1;
    }
    assert(labels@.take(i as int) =~= labels@);
    copy
}

/// The normalized record of a validated layout against its source sheet:
/// views in direction order, explicit missing views, the source hash, and
/// the covered and unused areas. `requires` holds what validation of the
/// layout guarantees: its rectangles fit in the sheet without overlapping,
/// so their areas sum to at most the sheet's.
pub fn normalize_layout(
    layout: &DirectionalSpriteLayout,
    source_bytes: &[u8],
    width: u32,
    height: u32,
) -> (result: Result<NormalizedDirectionalLayout, String>)
    requires
        area_sum(layout_rects(layout.actions@)) <= width * height,
    ensures
        result matches Ok(n) && {
            &&& n.schema_version == layout.schema_version
            &&& n.id == layout.id
            &&& n.source.path == layout.source.path
            &&& n.source.width == width && n.source.height == height
            &&& n.source.byte_count == source_bytes@.len()
            &&& n.source.sha256@ == sha256_text(source_bytes@)
            &&& n.source.background.color_key == layout.source.background.color_key
            &&& n.source.background.color_keys@ == layout.source.background.color_keys@
            &&& n.directions@ == layout.directions@
            &&& actions_normalized(n.actions@, layout.actions@, layout.directions@)
            &&& n.source_area == width * height
            &&& n.covered_area == area_sum(layout_rects(layout.actions@))
            &&& n.unused_area == width * height - area_sum(layout_rects(layout.actions@))
            &&& n.missing_views@ == missing_in_actions(n.actions@)
        },
{
    let actions = normalize_actions(&layout.actions, &layout.directions);
    let (missing_views, covered_area) = survey_actions(&actions);
    proof {
        lemma_actions_area(actions@, layout.actions@, layout.directions@);
        assert(width * height <= u64::MAX) by (nonlinear_arith)
            requires
                width <= u32::MAX,
                height <= u32::MAX,
        ;
    }
    let source_area = (width as u64) * (height as u64);
    Ok(NormalizedDirectionalLayout {
        schema_version: layout.schema_version,
        id: layout.id.clone(),
        source: NormalizedSpriteSource {
            path: layout.source.path.clone(),
            width,
            height,
            byte_count: source_bytes.len(),
            sha256: sha256(source_bytes),
            background: copy_background(&layout.source.background),
        },
        directions: copy_labels(&layout.directions),
        actions,
        source_area,
        covered_area,
        unused_area: source_area - covered_area,
        missing_views,
    })
}

} // verus!
