use voxel_lab::directional::{
    normalize_layout, DirectionalSpriteAction, DirectionalSpriteFrame, DirectionalSpriteLayout, DirectionalSpriteSource,
    DirectionalSpriteView, SpriteAnchor, SpriteBackground, SpriteRect,
};
use voxel_lab::sheet::contact_sheet_svg;

fn sheet_layout(directions: usize) -> DirectionalSpriteLayout {
    let labels: Vec<String> = (0..directions).map(|d| format!("d{d}")).collect();
    let views = labels
        .iter()
        .enumerate()
        .map(|(index, direction)| DirectionalSpriteView {
            direction: direction.clone(),
            rect: if index == 0 { Some(SpriteRect { x: 0, y: 0, width: 4, height: 2 }) } else { None },
            anchor: if index == 0 { Some(SpriteAnchor { x: -3, y: 200 }) } else { None },
        })
        .collect();
    DirectionalSpriteLayout {
        schema_version: 1,
        id: "hero<sheet>".to_owned(),
        source: DirectionalSpriteSource { path: "local/hero.png".to_owned(), background: SpriteBackground::default() },
        directions: labels,
        actions: vec![DirectionalSpriteAction {
            id: "walk".to_owned(),
            name: "Walk & run".to_owned(),
            frames: vec![DirectionalSpriteFrame { id: "f0".to_owned(), name: "Step".to_owned(), views }],
        }],
    }
}

#[test]
fn contact_sheet_draws_a_card_per_direction() {
    let layout = sheet_layout(2);
    let normalized = normalize_layout(&layout, &[1, 2, 3], 8, 8).expect("normalized");
    let crops = vec![("walk--f0--d0".to_owned(), vec![1u8, 2, 3])];
    let svg = contact_sheet_svg(&normalized, &crops, None, None, &None).expect("sheet");
    assert!(svg.starts_with(
        "<svg xmlns=\"http://www.w3.org/2000/svg\" width=\"440\" height=\"238\" viewBox=\"0 0 440 238\">"
    ));
    assert!(svg.contains("hero&lt;sheet&gt; — explicit sprite layout; missing views are not synthesized</text>"));
    assert_eq!(svg.matches("<g transform=").count(), 2);
    assert!(svg.contains("<g transform=\"translate(220 48)\">"));
    assert!(svg.contains("Walk &amp; run / Step / d0"));
    assert!(svg.contains("<image x=\"80\" y=\"93\" width=\"4\" height=\"2\" href=\"data:image/png;base64,AQID\""));
    assert!(svg.contains("<circle cx=\"18\" cy=\"158\" r=\"4\""));
    assert!(svg.contains(">anchor -3,200</text>"));
    assert!(svg.contains("MISSING (explicit)"));
    assert!(!svg.contains("voxel compare"));
    assert!(svg.ends_with("</svg>\n"));

    let compared = contact_sheet_svg(&normalized, &crops, None, None, &Some(("render.svg".to_owned(), b"<svg/>".to_vec())))
        .expect("sheet");
    assert_eq!(compared.matches("href=\"data:image/svg+xml;base64,PHN2Zy8+\"").count(), 2);
}

#[test]
fn contact_sheet_refuses_empty_selections_and_oversized_sheets() {
    let normalized = normalize_layout(&sheet_layout(2), &[], 8, 8).expect("normalized");
    assert_eq!(
        contact_sheet_svg(&normalized, &vec![], Some("jump"), None, &None),
        Err("the selected action/frame has no matching views".to_owned())
    );
    assert_eq!(
        contact_sheet_svg(&normalized, &vec![], Some("walk"), Some("f9"), &None),
        Err("the selected action/frame has no matching views".to_owned())
    );
    let wide = normalize_layout(&sheet_layout(19), &[], 8, 8).expect("normalized");
    assert_eq!(
        contact_sheet_svg(&wide, &vec![], None, None, &None),
        Err("contact sheet dimensions exceed bound".to_owned())
    );
}
