//! The inspection contact sheet: one card per selected frame and direction,
//! showing the authored crop, its rectangle and anchor, or an explicit
//! missing marker.

use vstd::prelude::*;
use vstd::string::StringExecFns;

use crate::directional::{DirectionalSpriteAction, DirectionalSpriteView, NormalizedDirectionalLayout};
use crate::raster::{data_uri, escape_xml, escaped, media_type};
use crate::text::{ascii_chars, decimal_i64, decimal_text, decimal_u64, text_equals};

verus! {

/// Widest and tallest contact sheet, in pixels.
pub const MAX_CONTACT_DIMENSION: u32 = 4096;

/// A filter passes `id` when it is absent or names it.
pub open spec fn passes(filter: Option<&str>, id: Seq<char>) -> bool {
    match filter {
        None => true,
        Some(f) => f@ == id,
    }
}

/// The selected frames of action `a` among its first `f`, as (action,
/// frame) index pairs.
pub open spec fn frame_rows(actions: Seq<DirectionalSpriteAction>, a: int, f: int, frame_filter: Option<&str>) -> Seq<
    (int, int),
>
    decreases f,
{
    if f <= 0 {
        Seq::empty()
    } else if passes(frame_filter, actions[a].frames@[f - 1].id@) {
        frame_rows(actions, a, f - 1, frame_filter).push((a, f - 1))
    } else {
        frame_rows(actions, a, f - 1, frame_filter)
    }
}

/// The selected (action, frame) rows among the first `a` actions.
pub open spec fn sheet_rows(
    actions: Seq<DirectionalSpriteAction>,
    a: int,
    action_filter: Option<&str>,
    frame_filter: Option<&str>,
) -> Seq<(int, int)>
    decreases a,
{
    if a <= 0 {
        Seq::empty()
    } else if passes(action_filter, actions[a - 1].id@) {
        sheet_rows(actions, a - 1, action_filter, frame_filter) + frame_rows(
            actions,
            a - 1,
            actions[a - 1].frames@.len() as int,
            frame_filter,
        )
    } else {
        sheet_rows(actions, a - 1, action_filter, frame_filter)
    }
}

/// `action--frame--direction`, the name a crop is stored under.
pub open spec fn crop_key(action: Seq<char>, frame: Seq<char>, direction: Seq<char>) -> Seq<char> {
    action + "--"@ + frame + "--"@ + direction
}

/// The bytes stored under `key`; a later entry replaces an earlier one.
pub open spec fn crop_for(crops: Seq<(String, Vec<u8>)>, key: Seq<char>) -> Option<Seq<u8>>
    decreases crops.len(),
{
    if crops.len() == 0 {
        None
    } else if crops.last().0@ == key {
        Some(crops.last().1@)
    } else {
        crop_for(crops.drop_last(), key)
    }
}

/// The index of the first view facing `direction`.
pub open spec fn first_view(views: Seq<DirectionalSpriteView>, direction: Seq<char>, k: int) -> Option<int>
    decreases views.len() - k,
{
    if k < 0 || k >= views.len() {
        None
    } else if views[k].direction@ == direction {
        Some(k)
    } else {
        first_view(views, direction, k + 1)
    }
}

pub open spec fn clamp_card(v: i32) -> int {
    if v < 0 {
        0
    } else if v > 128 {
        128
    } else {
        v as int
    }
}

pub open spec fn min_card(v: u32) -> int {
    if v < 128 {
        v as int
    } else {
        128
    }
}

/// The crop image of a present view, with its rectangle figures.
pub open spec fn crop_text(uri: Seq<char>, x: u32, y: u32, width: u32, height: u32) -> Seq<char> {
    "<image x=\""@ + decimal_text(18 + (128 - min_card(width)) / 2) + "\" y=\""@ + decimal_text(
        30 + (128 - min_card(height)) / 2,
    ) + "\" width=\""@ + decimal_text(min_card(width)) + "\" height=\""@ + decimal_text(min_card(height))
        + "\" href=\""@ + uri
        + "\" preserveAspectRatio=\"none\" style=\"image-rendering:pixelated\"/><line x1=\"18\" y1=\"164\" x2=\"146\" y2=\"164\" stroke=\"#e6c453\" stroke-dasharray=\"3 2\"/><line x1=\"82\" y1=\"30\" x2=\"82\" y2=\"158\" stroke=\"#e6c453\" stroke-dasharray=\"3 2\"/><text x=\"151\" y=\"52\" fill=\"#cbd5e1\" font-family=\"monospace\" font-size=\"9\">rect</text><text x=\"151\" y=\"65\" fill=\"#cbd5e1\" font-family=\"monospace\" font-size=\"9\">"@
        + decimal_text(x as int) + ","@ + decimal_text(y as int)
        + "</text><text x=\"151\" y=\"78\" fill=\"#cbd5e1\" font-family=\"monospace\" font-size=\"9\">"@ + decimal_text(
        width as int,
    ) + "x"@ + decimal_text(height as int) + "</text>"@
}

/// The anchor marker of a present view.
pub open spec fn anchor_text(x: i32, y: i32) -> Seq<char> {
    "<circle cx=\""@ + decimal_text(18 + clamp_card(x)) + "\" cy=\""@ + decimal_text(30 + clamp_card(y))
        + "\" r=\"4\" fill=\"#ff6b6b\"/><text x=\"151\" y=\"103\" fill=\"#ff9b9b\" font-family=\"monospace\" font-size=\"9\">anchor "@
        + decimal_text(x as int) + ","@ + decimal_text(y as int) + "</text>"@
}

pub open spec fn missing_text() -> Seq<char> {
    "<text x=\"28\" y=\"104\" fill=\"#ffca73\" font-family=\"monospace\" font-size=\"14\">MISSING (explicit)</text>"@
}

pub open spec fn render_text(uri: Seq<char>) -> Seq<char> {
    "<image x=\"151\" y=\"110\" width=\"54\" height=\"54\" href=\""@ + uri
        + "\" preserveAspectRatio=\"xMidYMid meet\"/><text x=\"151\" y=\"176\" fill=\"#9fe3b1\" font-family=\"monospace\" font-size=\"8\">voxel compare</text>"@
}

/// What a card shows of the frame's view in one direction.
pub open spec fn view_text(
    action: DirectionalSpriteAction,
    f: int,
    direction: Seq<char>,
    crops: Seq<(String, Vec<u8>)>,
) -> Seq<char> {
    let frame = action.frames@[f];
    match first_view(frame.views@, direction, 0) {
        Some(v) if frame.views@[v].rect is Some => {
            let view = frame.views@[v];
            let rect = view.rect.unwrap();
            let image = match crop_for(crops, crop_key(action.id@, frame.id@, direction)) {
                Some(bytes) => crop_text(
                    "data:"@ + media_type("crop.png"@) + ";base64,"@ + ascii_chars(crate::base64::spec_encode(bytes)),
                    rect.x,
                    rect.y,
                    rect.width,
                    rect.height,
                ),
                None => Seq::empty(),
            };
            let anchor = match view.anchor {
                Some(a) => anchor_text(a.x, a.y),
                None => Seq::empty(),
            };
            image + anchor
        },
        _ => missing_text(),
    }
}

/// One card: the frame's view in direction `c`, at row `row` of the sheet.
pub open spec fn card_text(
    layout: NormalizedDirectionalLayout,
    crops: Seq<(String, Vec<u8>)>,
    cell: (int, int),
    row: int,
    c: int,
    render: Option<Seq<char>>,
) -> Seq<char> {
    let action = layout.actions@[cell.0];
    let frame = action.frames@[cell.1];
    let direction = layout.directions@[c]@;
    "<g transform=\"translate("@ + decimal_text(c * 220) + " "@ + decimal_text(48 + row * 190)
        + ")\"><rect x=\"4\" y=\"4\" width=\"212\" height=\"182\" rx=\"5\" fill=\"#242831\" stroke=\"#4a5260\"/><text x=\"10\" y=\"20\" fill=\"#ffffff\" font-family=\"monospace\" font-size=\"12\">"@
        + escaped(action.name@ + " / "@ + frame.name@ + " / "@ + direction) + "</text>"@ + view_text(
        action,
        cell.1,
        direction,
        crops,
    ) + match render {
        Some(uri) => render_text(uri),
        None => Seq::empty(),
    } + "</g>"@
}

/// The cards of row `row` for the first `c` directions.
pub open spec fn row_cards(
    layout: NormalizedDirectionalLayout,
    crops: Seq<(String, Vec<u8>)>,
    rows: Seq<(int, int)>,
    row: int,
    c: int,
    render: Option<Seq<char>>,
) -> Seq<char>
    decreases c,
{
    if c <= 0 {
        Seq::empty()
    } else {
        row_cards(layout, crops, rows, row, c - 1, render) + card_text(layout, crops, rows[row], row, c - 1, render)
    }
}

/// The cards of the first `r` rows.
pub open spec fn sheet_cards(
    layout: NormalizedDirectionalLayout,
    crops: Seq<(String, Vec<u8>)>,
    rows: Seq<(int, int)>,
    r: int,
    render: Option<Seq<char>>,
) -> Seq<char>
    decreases r,
{
    if r <= 0 {
        Seq::empty()
    } else {
        sheet_cards(layout, crops, rows, r - 1, render) + row_cards(
            layout,
            crops,
            rows,
            r - 1,
            layout.directions@.len() as int,
            render,
        )
    }
}

pub open spec fn sheet_header(width: int, height: int, id: Seq<char>) -> Seq<char> {
    "<svg xmlns=\"http://www.w3.org/2000/svg\" width=\""@ + decimal_text(width) + "\" height=\""@ + decimal_text(height)
        + "\" viewBox=\"0 0 "@ + decimal_text(width) + " "@ + decimal_text(height)
        + "\"><rect width=\"100%\" height=\"100%\" fill=\"#16181d\"/><text x=\"12\" y=\"22\" fill=\"#f5f7fa\" font-family=\"monospace\" font-size=\"14\">"@
        + escaped(id + " — explicit sprite layout; missing views are not synthesized"@) + "</text>"@
}

/// The contact sheet of the selected rows, or why none can be drawn.
pub open spec fn contact_sheet(
    layout: NormalizedDirectionalLayout,
    crops: Seq<(String, Vec<u8>)>,
    action_filter: Option<&str>,
    frame_filter: Option<&str>,
    comparison: Option<(String, Vec<u8>)>,
) -> Result<Seq<char>, Seq<char>> {
    let rows = sheet_rows(layout.actions@, layout.actions@.len() as int, action_filter, frame_filter);
    let width = 220 * layout.directions@.len();
    let height = 190 * rows.len() + 48;
    if rows.len() == 0 {
        Err("the selected action/frame has no matching views"@)
    } else if layout.directions@.len() > u32::MAX {
        Err("direction count"@)
    } else if width > u32::MAX {
        Err("contact sheet width overflow"@)
    } else if rows.len() > u32::MAX {
        Err("row count"@)
    } else if height > u32::MAX {
        Err("contact sheet height overflow"@)
    } else if width > MAX_CONTACT_DIMENSION || height > MAX_CONTACT_DIMENSION {
        Err("contact sheet dimensions exceed bound"@)
    } else {
        let render = match comparison {
            Some(c) => Some(
                "data:"@ + media_type(c.0@) + ";base64,"@ + ascii_chars(crate::base64::spec_encode(c.1@)),
            ),
            None => None,
        };
        Ok(
            sheet_header(width as int, height as int, layout.id@) + sheet_cards(
                layout,
                crops,
                rows,
                rows.len() as int,
                render,
            ) + "</svg>\n"@,
        )
    }
}

pub open spec fn sheet_view(sheet: Result<String, String>) -> Result<Seq<char>, Seq<char>> {
    match sheet {
        Ok(s) => Ok(s@),
        Err(e) => Err(e@),
    }
}

} // verus!

verus! {

fn passes_exec(filter: Option<&str>, id: &str) -> (pass: bool)
    ensures
        pass == passes(filter, id@),
{
    match filter {
        None => true,
        Some(f) => text_equals(f, id),
    }
}

fn rows_exec(actions: &Vec<DirectionalSpriteAction>, action_filter: Option<&str>, frame_filter: Option<&str>) -> (rows: Vec<(usize, usize)>)
    ensures
        rows@.len() == sheet_rows(actions@, actions@.len() as int, action_filter, frame_filter).len(),
        forall|i: int| 0 <= i < rows@.len() ==> (rows@[i].0 as int, rows@[i].1 as int) == #[trigger] sheet_rows(
            actions@,
            actions@.len() as int,
            action_filter,
            frame_filter,
        )[i],
{
    let mut rows: Vec<(usize, usize)> = Vec::new();
    let mut a: usize = 0;
    while a < actions.len()
        invariant
            a <= actions@.len(),
            rows@.len() == sheet_rows(actions@, a as int, action_filter, frame_filter).len(),
            forall|i: int| 0 <= i < rows@.len() ==> (rows@[i].0 as int, rows@[i].1 as int) == #[trigger] sheet_rows(
                actions@,
                a as int,
                action_filter,
                frame_filter,
            )[i],
        decreases actions@.len() - a,
    {
        let ghost before = sheet_rows(actions@, a as int, action_filter, frame_filter);
        if passes_exec(action_filter, actions[a].id.as_str()) {
            let frames = &actions[a].frames;
            let mut f: usize = 0;
            while f < frames.len()
                invariant
                    a < actions@.len(),
                    *frames == actions@[a as int].frames,
                    f <= frames@.len(),
                    rows@.len() == before.len() + frame_rows(actions@, a as int, f as int, frame_filter).len(),
                    forall|i: int| 0 <= i < rows@.len() ==> (rows@[i].0 as int, rows@[i].1 as int) == #[trigger] (before
                        + frame_rows(actions@, a as int, f as int, frame_filter))[i],
                decreases frames@.len() - f,
            {
                if passes_exec(frame_filter, frames[f].id.as_str()) {
                    rows.push((a, f));
                    proof {
                        assert(before + frame_rows(actions@, a as int, f + 1, frame_filter) =~= (before + frame_rows(
                            actions@,
                            a as int,
                            f as int,
                            frame_filter,
                        )).push((a as int, f as int)));
                    }
                }
                f = f + 1;
            }
        }
        a = a + 1;
    }
    rows
}

fn find_view(views: &Vec<DirectionalSpriteView>, direction: &str) -> (found: Option<usize>)
    ensures
        found matches Some(v) ==> first_view(views@, direction@, 0) == Some(v as int) && v < views@.len(),
        found is None ==> first_view(views@, direction@, 0) is None,
{
    let mut k: usize = 0;
    while k < views.len()
        invariant
            k <= views@.len(),
            first_view(views@, direction@, 0) == first_view(views@, direction@, k as int),
        decreases views@.len() - k,
    {
        if text_equals(views[k].direction.as_str(), direction) {
            return Some(k);
        }
        k = k + 1;
    }
    None
}

fn crop_lookup<'a>(crops: &'a Vec<(String, Vec<u8>)>, key: &str) -> (found: Option<&'a Vec<u8>>)
    ensures
        found matches Some(b) ==> crop_for(crops@, key@) == Some(b@),
        found is None ==> crop_for(crops@, key@) is None,
{
    let mut k: usize = crops.len();
    assert(crops@.take(k as int) =~= crops@);
    while k > 0
        invariant
            k <= crops@.len(),
            crop_for(crops@, key@) == crop_for(crops@.take(k as int), key@),
        decreases k,
    {
        proof {
            assert(crops@.take(k as int).drop_last() =~= crops@.take(k - 1));
        }
        if text_equals(crops[k - 1].0.as_str(), key) {
            return Some(&crops[k - 1].1);
        }
        k = k - 1;
    }
    None
}

fn crop_string(uri: &str, x: u32, y: u32, width: u32, height: u32) -> (text: String)
    ensures
        text@ == crop_text(uri@, x, y, width, height),
{
    let image_width: u64 = if width < 128 { width as u64 } else { 128 };
    let image_height: u64 = if height < 128 { height as u64 } else { 128 };
    let mut text = String::from_str("<image x=\"");
    text.append(decimal_u64(18 + (128 - image_width) / 2).as_str());
    text.append("\" y=\"");
    text.append(decimal_u64(30 + (128 - image_height) / 2).as_str());
    text.append("\" width=\"");
    text.append(decimal_u64(image_width).as_str());
    text.append("\" height=\"");
    text.append(decimal_u64(image_height).as_str());
    text.append("\" href=\"");
    text.append(uri);
    text.append(
        "\" preserveAspectRatio=\"none\" style=\"image-rendering:pixelated\"/><line x1=\"18\" y1=\"164\" x2=\"146\" y2=\"164\" stroke=\"#e6c453\" stroke-dasharray=\"3 2\"/><line x1=\"82\" y1=\"30\" x2=\"82\" y2=\"158\" stroke=\"#e6c453\" stroke-dasharray=\"3 2\"/><text x=\"151\" y=\"52\" fill=\"#cbd5e1\" font-family=\"monospace\" font-size=\"9\">rect</text><text x=\"151\" y=\"65\" fill=\"#cbd5e1\" font-family=\"monospace\" font-size=\"9\">",
    );
    text.append(decimal_u64(x as u64).as_str());
    text.append(",");
    text.append(decimal_u64(y as u64).as_str());
    text.append("</text><text x=\"151\" y=\"78\" fill=\"#cbd5e1\" font-family=\"monospace\" font-size=\"9\">");
    text.append(decimal_u64(width as u64).as_str());
    text.append("x");
    text.append(decimal_u64(height as u64).as_str());
    text.append("</text>");
    text
}

fn anchor_string(x: i32, y: i32) -> (text: String)
    ensures
        text@ == anchor_text(x, y),
{
    let cx: i64 = if x < 0 { 0 } else if x > 128 { 128 } else { x as i64 };
    let cy: i64 = if y < 0 { 0 } else if y > 128 { 128 } else { y as i64 };
    let mut text = String::from_str("<circle cx=\"");
    text.append(decimal_i64(18 + cx).as_str());
    text.append("\" cy=\"");
    text.append(decimal_i64(30 + cy).as_str());
    text.append(
        "\" r=\"4\" fill=\"#ff6b6b\"/><text x=\"151\" y=\"103\" fill=\"#ff9b9b\" font-family=\"monospace\" font-size=\"9\">anchor ",
    );
    text.append(decimal_i64(x as i64).as_str());
    text.append(",");
    text.append(decimal_i64(y as i64).as_str());
    text.append("</text>");
    text
}

fn view_string(action: &DirectionalSpriteAction, f: usize, direction: &str, crops: &Vec<(String, Vec<u8>)>) -> (text: String)
    requires
        f < action.frames@.len(),
    ensures
        text@ == view_text(*action, f as int, direction@, crops@),
{
    let frame = &action.frames[f];
    match find_view(&frame.views, direction) {
        Some(v) => {
            let view = &frame.views[v];
            match view.rect {
                Some(rect) => {
                    let mut key = String::from_str(action.id.as_str());
                    key.append("--");
                    key.append(frame.id.as_str());
                    key.append("--");
                    key.append(direction);
                    let mut text = String::new();
                    match crop_lookup(crops, key.as_str()) {
                        Some(bytes) => {
                            proof {
                                reveal_strlit("crop.png");
                                reveal_strlit(".svg");
                                assert("crop.png"@.subrange(4, 8) != ".svg"@) by {
                                    assert("crop.png"@.subrange(4, 8)[1] != ".svg"@[1]);
                                }
                            }
                            let uri = data_uri("crop.png", bytes.as_slice());
                            text.append(crop_string(uri.as_str(), rect.x, rect.y, rect.width, rect.height).as_str());
                        },
                        None => {},
                    }
                    match view.anchor {
                        Some(anchor) => {
                            text.append(anchor_string(anchor.x, anchor.y).as_str());
                        },
                        None => {},
                    }
                    text
                },
                None => String::from_str(
                    "<text x=\"28\" y=\"104\" fill=\"#ffca73\" font-family=\"monospace\" font-size=\"14\">MISSING (explicit)</text>",
                ),
            }
        },
        None => String::from_str(
            "<text x=\"28\" y=\"104\" fill=\"#ffca73\" font-family=\"monospace\" font-size=\"14\">MISSING (explicit)</text>",
        ),
    }
}

} // verus!

verus! {

fn card_string(
    layout: &NormalizedDirectionalLayout,
    crops: &Vec<(String, Vec<u8>)>,
    a: usize,
    f: usize,
    row: usize,
    c: usize,
    render: &Option<String>,
) -> (text: String)
    requires
        a < layout.actions@.len(),
        f < layout.actions@[a as int].frames@.len(),
        c < layout.directions@.len(),
        c * 220 <= u64::MAX,
        48 + row * 190 <= u64::MAX,
    ensures
        text@ == card_text(
            *layout,
            crops@,
            (a as int, f as int),
            row as int,
            c as int,
            match render {
                Some(r) => Some(r@),
                None => None,
            },
        ),
{
    let action = &layout.actions[a];
    let frame = &action.frames[f];
    let direction = layout.directions[c].as_str();
    let mut text = String::from_str("<g transform=\"translate(");
    text.append(decimal_u64((c as u64) * 220).as_str());
    text.append(" ");
    text.append(decimal_u64(48 + (row as u64) * 190).as_str());
    text.append(
        ")\"><rect x=\"4\" y=\"4\" width=\"212\" height=\"182\" rx=\"5\" fill=\"#242831\" stroke=\"#4a5260\"/><text x=\"10\" y=\"20\" fill=\"#ffffff\" font-family=\"monospace\" font-size=\"12\">",
    );
    let mut title = String::from_str(action.name.as_str());
    title.append(" / ");
    title.append(frame.name.as_str());
    title.append(" / ");
    title.append(direction);
    text.append(escape_xml(title.as_str()).as_str());
    text.append("</text>");
    text.append(view_string(action, f, direction, crops).as_str());
    match render {
        Some(uri) => {
            let mut extra = String::from_str("<image x=\"151\" y=\"110\" width=\"54\" height=\"54\" href=\"");
            extra.append(uri.as_str());
            extra.append(
                "\" preserveAspectRatio=\"xMidYMid meet\"/><text x=\"151\" y=\"176\" fill=\"#9fe3b1\" font-family=\"monospace\" font-size=\"8\">voxel compare</text>",
            );
            text.append(extra.as_str());
        },
        None => {
            proof {
                assert(text@ + Seq::<char>::empty() =~= text@);
            }
        },
    }
    text.append("</g>");
    text
}

fn header_string(width: u32, height: u32, id: &str) -> (text: String)
    ensures
        text@ == sheet_header(width as int, height as int, id@),
{
    let mut text = String::from_str("<svg xmlns=\"http://www.w3.org/2000/svg\" width=\"");
    text.append(decimal_u64(width as u64).as_str());
    text.append("\" height=\"");
    text.append(decimal_u64(height as u64).as_str());
    text.append("\" viewBox=\"0 0 ");
    text.append(decimal_u64(width as u64).as_str());
    text.append(" ");
    text.append(decimal_u64(height as u64).as_str());
    text.append(
        "\"><rect width=\"100%\" height=\"100%\" fill=\"#16181d\"/><text x=\"12\" y=\"22\" fill=\"#f5f7fa\" font-family=\"monospace\" font-size=\"14\">",
    );
    let mut title = String::from_str(id);
    title.append(" — explicit sprite layout; missing views are not synthesized");
    text.append(escape_xml(title.as_str()).as_str());
    text.append("</text>");
    text
}

/// The contact sheet of the selected frames: a card per frame and
/// direction with its crop (looked up as `action--frame--direction`),
/// rectangle, anchor or an explicit missing marker, and the optional
/// comparison render.
pub fn contact_sheet_svg(
    layout: &NormalizedDirectionalLayout,
    crops: &Vec<(String, Vec<u8>)>,
    action_filter: Option<&str>,
    frame_filter: Option<&str>,
    comparison: &Option<(String, Vec<u8>)>,
) -> (sheet: Result<String, String>)
    ensures
        sheet_view(sheet) == contact_sheet(*layout, crops@, action_filter, frame_filter, *comparison),
{
    let rows = rows_exec(&layout.actions, action_filter, frame_filter);
    let ghost spec_rows = sheet_rows(layout.actions@, layout.actions@.len() as int, action_filter, frame_filter);
    if rows.len() == 0 {
        return Err(String::from_str("the selected action/frame has no matching views"));
    }
    let directions = layout.directions.len();
    if directions > 0xffff_ffff {
        return Err(String::from_str("direction count"));
    }
    if (directions as u64) * 220 > 0xffff_ffff {
        return Err(String::from_str("contact sheet width overflow"));
    }
    if rows.len() > 0xffff_ffff {
        return Err(String::from_str("row count"));
    }
    if (rows.len() as u64) * 190 + 48 > 0xffff_ffff {
        return Err(String::from_str("contact sheet height overflow"));
    }
    let width = (directions as u64 * 220) as u32;
    let height = ((rows.len() as u64) * 190 + 48) as u32;
    if width > MAX_CONTACT_DIMENSION || height > MAX_CONTACT_DIMENSION {
        return Err(String::from_str("contact sheet dimensions exceed bound"));
    }
    let render: Option<String> = match comparison {
        Some((path, bytes)) => Some(data_uri(path.as_str(), bytes.as_slice())),
        None => None,
    };
    let ghost render_view = match &render {
        Some(r) => Some(r@),
        None => None::<Seq<char>>,
    };
    let mut body = String::new();
    let mut r: usize = 0;
    while r < rows.len()
        invariant
            rows@.len() == spec_rows.len(),
            spec_rows == sheet_rows(layout.actions@, layout.actions@.len() as int, action_filter, frame_filter),
            forall|i: int| 0 <= i < rows@.len() ==> (rows@[i].0 as int, rows@[i].1 as int) == #[trigger] spec_rows[i],
            directions == layout.directions@.len(),
            directions * 220 <= MAX_CONTACT_DIMENSION,
            rows@.len() * 190 + 48 <= MAX_CONTACT_DIMENSION,
            render_view == (match render {
                Some(r) => Some(r@),
                None => None::<Seq<char>>,
            }),
            r <= rows@.len(),
            body@ == sheet_cards(*layout, crops@, spec_rows, r as int, render_view),
        decreases rows@.len() - r,
    {
        let (a, f) = rows[r];
        proof {
            assert((a as int, f as int) == spec_rows[r as int]);
            lemma_row_in_range(layout.actions@, layout.actions@.len() as int, action_filter, frame_filter, r as int);
        }
        let mut line = String::new();
        let mut c: usize = 0;
        while c < directions
            invariant
                directions == layout.directions@.len(),
                directions * 220 <= MAX_CONTACT_DIMENSION,
                r < rows@.len(),
                rows@.len() * 190 + 48 <= MAX_CONTACT_DIMENSION,
                (a as int, f as int) == spec_rows[r as int],
                a < layout.actions@.len(),
                f < layout.actions@[a as int].frames@.len(),
                render_view == (match render {
                    Some(r) => Some(r@),
                    None => None::<Seq<char>>,
                }),
                c <= directions,
                line@ == row_cards(*layout, crops@, spec_rows, r as int, c as int, render_view),
            decreases directions - c,
        {
            line.append(card_string(layout, crops, a, f, r, c, &render).as_str());
            c = c + 1;
        }
        body.append(line.as_str());
        r = r + 1;
    }
    let mut svg = header_string(width, height, layout.id.as_str());
    svg.append(body.as_str());
    svg.append("</svg>\n");
    Ok(svg)
}

proof fn lemma_row_in_range(
    actions: Seq<DirectionalSpriteAction>,
    a: int,
    action_filter: Option<&str>,
    frame_filter: Option<&str>,
    i: int,
)
    requires
        0 <= a <= actions.len(),
        0 <= i < sheet_rows(actions, a, action_filter, frame_filter).len(),
    ensures
        0 <= sheet_rows(actions, a, action_filter, frame_filter)[i].0 < a,
        0 <= sheet_rows(actions, a, action_filter, frame_filter)[i].1 < actions[sheet_rows(
            actions,
            a,
            action_filter,
            frame_filter,
        )[i].0].frames@.len(),
    decreases a,
{
    let before = sheet_rows(actions, a - 1, action_filter, frame_filter);
    if i < before.len() {
        lemma_row_in_range(actions, a - 1, action_filter, frame_filter, i);
    } else {
        lemma_frame_row_in_range(actions, a - 1, actions[a - 1].frames@.len() as int, frame_filter, i - before.len());
    }
}

proof fn lemma_frame_row_in_range(actions: Seq<DirectionalSpriteAction>, a: int, f: int, frame_filter: Option<&str>, i: int)
    requires
        0 <= a < actions.len(),
        0 <= f <= actions[a].frames@.len(),
        0 <= i < frame_rows(actions, a, f, frame_filter).len(),
    ensures
        frame_rows(actions, a, f, frame_filter)[i].0 == a,
        0 <= frame_rows(actions, a, f, frame_filter)[i].1 < f,
    decreases f,
{
    if f > 0 {
        let before = frame_rows(actions, a, f - 1, frame_filter);
        if i < before.len() {
            lemma_frame_row_in_range(actions, a, f - 1, frame_filter, i);
        }
    }
}

} // verus!
