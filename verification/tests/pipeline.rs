use markup_pdf::assets::{Assets, ImageInfo};
use markup_pdf::document::Document;
use markup_pdf::dom::parse;
use markup_pdf::error::Error;
use markup_pdf::hex_color::Rgb;
use markup_pdf::layout::{LayoutNode, LayoutTree, LayoutTreeBuilder, RectTree};
use markup_pdf::page::Page;
use markup_pdf::rect::Rect;
use markup_pdf::render::{Cmd, WidthTree};
use markup_pdf::style::{DimSize, Dimension, Style};

/// A rect tree of the same shape as the layout tree, rects supplied in
/// depth-first pre-order.
fn rects_like(node: &LayoutNode, rects: &mut Vec<Rect>) -> RectTree {
    let rect = rects.remove(0);
    let children = node
        .children
        .iter()
        .map(|c| rects_like(c, rects))
        .collect();
    RectTree { rect, children }
}

/// A width tree of the same shape as the layout tree; `widths` maps a text
/// run's content to its per-character advances.
fn widths_like(node: &LayoutNode, per_char: i64) -> WidthTree {
    let widths = match &node.text {
        Some(t) => t.chars().map(|_| per_char).collect(),
        None => Vec::new(),
    };
    let children = node
        .children
        .iter()
        .map(|c| widths_like(c, per_char))
        .collect();
    WidthTree { widths, children }
}

fn page_style(width: Dimension, height: Dimension) -> Style {
    let mut s = Style::default();
    s.size = DimSize { width, height };
    s
}

fn build_page(
    markup: &str,
    assets: &Assets,
    rects: Vec<Rect>,
    per_char: i64,
) -> Result<markup_pdf::page::PagePlan, Error> {
    let root = parse(markup).unwrap();
    Page::new(&root)?;
    let builder = LayoutTreeBuilder::new();
    let node = builder.build(&assets.styles, &root);
    let mut rs = rects;
    let rect_tree = rects_like(&node, &mut rs);
    let widths = widths_like(&node, per_char);
    let tree = LayoutTree::new(node, rect_tree);
    Page::build(&tree, &widths, assets)
}

#[test]
fn a_page_with_a_fixed_style_and_no_children_draws_nothing() {
    let mut assets = Assets::new();
    assets
        .styles
        .add("page", page_style(Dimension::Points(210), Dimension::Points(297)));
    let plan = build_page(
        "<Page style=\"page\"/>",
        &assets,
        vec![Rect::new(0, 0, 210, 297)],
        0,
    )
    .unwrap();
    assert_eq!(plan.width, 210);
    assert_eq!(plan.height, 297);
    assert!(plan.cmds.is_empty());
}

#[test]
fn a_page_whose_style_leaves_width_auto_fails_before_any_drawing() {
    let mut assets = Assets::new();
    assets
        .styles
        .add("page", page_style(Dimension::Auto, Dimension::Points(297)));
    let err = build_page(
        "<Page style=\"page\"/>",
        &assets,
        vec![Rect::new(0, 0, 210, 297)],
        0,
    )
    .unwrap_err();
    assert_eq!(err, Error::UndefinedPageSize());
}

#[test]
fn an_unstyled_page_falls_back_to_the_default_and_fails() {
    // The default style leaves both axes automatic.
    let assets = Assets::new();
    let err = build_page("<Page/>", &assets, vec![Rect::new(0, 0, 1, 1)], 0).unwrap_err();
    assert_eq!(err, Error::UndefinedPageSize());
}

#[test]
fn an_unknown_child_of_a_layer_fails_by_name() {
    let mut assets = Assets::new();
    assets
        .styles
        .add("page", page_style(Dimension::Points(210), Dimension::Points(297)));
    let err = build_page(
        "<Page style=\"page\"><Layer><Foo /></Layer></Page>",
        &assets,
        vec![
            Rect::new(0, 0, 210, 297),
            Rect::new(0, 0, 210, 297),
            Rect::new(0, 0, 10, 10),
        ],
        0,
    )
    .unwrap_err();
    assert_eq!(err, Error::UnknownChild("Foo".to_string()));
}

#[test]
fn a_page_child_that_is_not_a_layer_fails() {
    let mut assets = Assets::new();
    assets
        .styles
        .add("page", page_style(Dimension::Points(210), Dimension::Points(297)));
    let err = build_page(
        "<Page style=\"page\"><Text>x</Text></Page>",
        &assets,
        vec![Rect::new(0, 0, 210, 297), Rect::new(0, 0, 10, 10)],
        1,
    )
    .unwrap_err();
    assert_eq!(
        err,
        Error::NotSupportElement("Text".to_string(), "Layer".to_string())
    );
}

#[test]
fn a_text_run_that_fits_its_box_exactly_is_one_line() {
    let mut assets = Assets::new();
    assets
        .styles
        .add("page", page_style(Dimension::Points(210), Dimension::Points(297)));
    assets.styles.add("s", Style::default());
    assets.fonts.add("default");
    let plan = build_page(
        "<Page style=\"page\"><Layer><Text style=\"s\">Hello</Text></Layer></Page>",
        &assets,
        vec![
            Rect::new(0, 0, 210, 297),
            Rect::new(0, 0, 210, 297),
            Rect::new(0, 0, 25, 16),
        ],
        5,
    )
    .unwrap();
    assert_eq!(plan.cmds.len(), 1);
    // The default style: font size 14 points, line height 16. The first
    // line's box is the text rect with the height of the font size in
    // length units (14 * 127 / 360 = 4), flipped against the page height.
    assert_eq!(
        plan.cmds[0],
        Cmd::TextBlock {
            x: 0,
            y: 297 - 4,
            font_family: "default".to_string(),
            font_size: 14,
            line_height: 16,
            lines: vec!["Hello".to_string()],
        }
    );
}

#[test]
fn a_text_with_element_children_fails() {
    let mut assets = Assets::new();
    assets
        .styles
        .add("page", page_style(Dimension::Points(210), Dimension::Points(297)));
    assets.fonts.add("default");
    let err = build_page(
        "<Page style=\"page\"><Layer><Text><B/></Text></Layer></Page>",
        &assets,
        vec![
            Rect::new(0, 0, 210, 297),
            Rect::new(0, 0, 210, 297),
            Rect::new(0, 0, 25, 16),
            Rect::new(0, 0, 5, 5),
        ],
        0,
    )
    .unwrap_err();
    assert_eq!(err, Error::InvalidChildren("Text".to_string()));
}

#[test]
fn a_text_whose_font_family_is_unregistered_fails() {
    let mut assets = Assets::new();
    assets
        .styles
        .add("page", page_style(Dimension::Points(210), Dimension::Points(297)));
    let err = build_page(
        "<Page style=\"page\"><Layer><Text>x</Text></Layer></Page>",
        &assets,
        vec![
            Rect::new(0, 0, 210, 297),
            Rect::new(0, 0, 210, 297),
            Rect::new(0, 0, 25, 16),
        ],
        1,
    )
    .unwrap_err();
    assert_eq!(err, Error::FontAssetNotFound("default".to_string()));
}

#[test]
fn an_image_without_src_fails() {
    let mut assets = Assets::new();
    assets
        .styles
        .add("page", page_style(Dimension::Points(210), Dimension::Points(297)));
    let err = build_page(
        "<Page style=\"page\"><Layer><Image /></Layer></Page>",
        &assets,
        vec![
            Rect::new(0, 0, 210, 297),
            Rect::new(0, 0, 210, 297),
            Rect::new(0, 0, 25, 16),
        ],
        0,
    )
    .unwrap_err();
    assert_eq!(
        err,
        Error::RequiredAttribute("Image".to_string(), "src".to_string())
    );
}

#[test]
fn an_unregistered_image_key_fails() {
    let mut assets = Assets::new();
    assets
        .styles
        .add("page", page_style(Dimension::Points(210), Dimension::Points(297)));
    let err = build_page(
        "<Page style=\"page\"><Layer><Image src=\"pic\"/></Layer></Page>",
        &assets,
        vec![
            Rect::new(0, 0, 210, 297),
            Rect::new(0, 0, 210, 297),
            Rect::new(0, 0, 25, 16),
        ],
        0,
    )
    .unwrap_err();
    assert_eq!(err, Error::ImageAssetNotFound("pic".to_string()));
}

#[test]
fn an_image_is_scaled_by_the_smaller_axis_ratio() {
    let mut assets = Assets::new();
    assets.styles.add(
        "page",
        page_style(Dimension::Points(297000), Dimension::Points(297000)),
    );
    assets.images.add(
        "pic",
        ImageInfo { width_px: 300, height_px: 300 },
    );
    // A 300-pixel axis at the fixed density is 300 * 254 / 3 = 25400
    // units. The box is wider than tall, so the height ratio wins.
    let plan = build_page(
        "<Page style=\"page\"><Layer><Image src=\"pic\"/></Layer></Page>",
        &assets,
        vec![
            Rect::new(0, 0, 297000, 297000),
            Rect::new(0, 0, 297000, 297000),
            Rect::new(0, 0, 50800, 25400),
        ],
        0,
    )
    .unwrap();
    assert_eq!(plan.cmds.len(), 1);
    assert_eq!(
        plan.cmds[0],
        Cmd::PlaceImage {
            key: "pic".to_string(),
            x: 0,
            y: 297000 - 25400,
            scale_num: 25400,
            scale_den: 25400,
        }
    );
}

#[test]
fn a_layer_paints_background_then_border_edges() {
    let mut assets = Assets::new();
    assets
        .styles
        .add("page", page_style(Dimension::Points(210), Dimension::Points(297)));
    let mut boxed = Style::default();
    boxed.background_color = Some("#ff0000".to_string());
    boxed.border_color = Some("#00ff00".to_string());
    boxed.border.left = Dimension::Points(2);
    assets.styles.add("boxed", boxed);
    let plan = build_page(
        "<Page style=\"page\"><Layer style=\"boxed\"/></Page>",
        &assets,
        vec![Rect::new(0, 0, 210, 297), Rect::new(10, 20, 100, 50)],
        0,
    )
    .unwrap();
    let bl = Rect::new(10, 297 - 20 - 50, 100, 50);
    assert_eq!(
        plan.cmds,
        vec![
            Cmd::Poly { rect: bl, color: Rgb { r: 255, g: 0, b: 0 } },
            Cmd::Poly {
                rect: Rect::new(10, 227, 2, 50),
                color: Rgb { r: 0, g: 255, b: 0 },
            },
        ]
    );
}

#[test]
fn a_document_without_a_title_is_untitled() {
    let root = parse("<Document><Page style=\"page\"/></Document>").unwrap();
    let doc = Document::new(root).unwrap();
    assert_eq!(doc.title(), "Untitled");
    assert_eq!(doc.page_count(), 1);
    assert_eq!(doc.page(0).name, "Page");
}

#[test]
fn a_document_title_attribute_is_kept() {
    let root = parse("<Document title=\"recipes\"></Document>").unwrap();
    let doc = Document::new(root).unwrap();
    assert_eq!(doc.title(), "recipes");
    assert_eq!(doc.page_count(), 0);
}

#[test]
fn a_root_that_is_not_a_document_fails() {
    let root = parse("<Page/>").unwrap();
    let err = Document::new(root).unwrap_err();
    assert_eq!(
        err,
        Error::NotSupportElement("Page".to_string(), "Document".to_string())
    );
}

#[test]
fn a_page_element_must_be_named_page() {
    let root = parse("<Layer/>").unwrap();
    let err = Page::new(&root).unwrap_err();
    assert_eq!(
        err,
        Error::NotSupportElement("Layer".to_string(), "Page".to_string())
    );
}

#[test]
fn style_lookup_finds_registered_styles_and_misses_others() {
    let mut assets = Assets::new();
    let mut s = Style::default();
    s.font_size = 9;
    assets.styles.add("a", s);
    assert_eq!(assets.styles.get("a").unwrap().font_size, 9);
    assert!(assets.styles.get("b").is_none());
    // A repeated key replaces the old value.
    let mut s2 = Style::default();
    s2.font_size = 11;
    assets.styles.add("a", s2);
    assert_eq!(assets.styles.get("a").unwrap().font_size, 11);
    // Looking the same key up twice gives the same value both times.
    assert_eq!(
        assets.styles.get("a").unwrap().font_size,
        assets.styles.get("a").unwrap().font_size
    );
}

#[test]
fn font_and_image_registries_answer_by_key() {
    let mut assets = Assets::new();
    assets.fonts.add("serif");
    assert!(assets.fonts.contains("serif"));
    assert!(!assets.fonts.contains("mono"));
    assets
        .images
        .add("logo", ImageInfo { width_px: 10, height_px: 20 });
    assert_eq!(
        assets.images.get("logo"),
        Some(&ImageInfo { width_px: 10, height_px: 20 })
    );
    assert!(assets.images.get("photo").is_none());
}

#[test]
fn attribute_order_does_not_affect_the_output() {
    let mut assets = Assets::new();
    assets
        .styles
        .add("page", page_style(Dimension::Points(210), Dimension::Points(297)));
    let rects = || vec![Rect::new(0, 0, 210, 297)];
    let a = build_page(
        "<Page style=\"page\" n=\"1\"/>",
        &assets,
        rects(),
        0,
    )
    .unwrap();
    let b = build_page(
        "<Page n=\"1\" style=\"page\"/>",
        &assets,
        rects(),
        0,
    )
    .unwrap();
    assert_eq!(a.width, b.width);
    assert_eq!(a.height, b.height);
    assert_eq!(a.cmds, b.cmds);
}

#[test]
fn a_tall_image_in_a_narrow_box_is_scaled_by_the_width_ratio() {
    let mut assets = Assets::new();
    assets.styles.add(
        "page",
        page_style(Dimension::Points(297000), Dimension::Points(297000)),
    );
    assets.images.add(
        "pic",
        ImageInfo { width_px: 300, height_px: 600 },
    );
    // Intrinsic: 25400 by 50800 units. The box is 25400 wide and 101600
    // high, so the width ratio (one) wins and the drawn height is the
    // intrinsic height.
    let plan = build_page(
        "<Page style=\"page\"><Layer><Image src=\"pic\"/></Layer></Page>",
        &assets,
        vec![
            Rect::new(0, 0, 297000, 297000),
            Rect::new(0, 0, 297000, 297000),
            Rect::new(0, 0, 25400, 101600),
        ],
        0,
    )
    .unwrap();
    assert_eq!(
        plan.cmds,
        vec![Cmd::PlaceImage {
            key: "pic".to_string(),
            x: 0,
            y: 297000 - 50800,
            scale_num: 25400,
            scale_den: 25400,
        }]
    );
}
