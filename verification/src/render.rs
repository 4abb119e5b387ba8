//! The render walk: from a solved layout tree to drawing commands.
//!
//! Rendering decides everything — which rectangle each node paints, in
//! which order, with which colours, how text wraps, how an image is scaled
//! — and returns it as a list of [`Cmd`] values in paint order. The driver
//! replays the list against the document writer; it adds no decisions of
//! its own. Dispatch is a closed set: a `Layer` may hold `Layer`, `Text`
//! and `Image` children, any other child name is a typed error.

use vstd::prelude::*;

use crate::assets::{FontAsset, ImageInfo};
use crate::error::Error;
use crate::hex_color::{spec_rgb, HexColor, Rgb};
use crate::border::Border;
use crate::layout::{
    height_le, node_wf, rtree_wf, same_shape, LayoutNode, RectTree,
};
use crate::rect::{Rect, ABS_LIMIT, DEPTH_LIMIT, RECT_LIMIT};
use crate::strutil::str_eq;
use crate::style::Style;
use crate::text::{spec_split, to_mm_size, MultiLine, MAX_ADVANCE, MAX_TEXT_LEN};

verus! {

/// One drawing command, in the page's bottom-left basis.
#[derive(Debug, PartialEq)]
pub enum Cmd {
    /// A filled rectangle (a background or one border edge).
    Poly { rect: Rect, color: Rgb },
    /// A registered image placed at `(x, y)` with the uniform scale
    /// `scale_num / scale_den` on both axes.
    PlaceImage { key: String, x: i64, y: i64, scale_num: i64, scale_den: i64 },
    /// Wrapped text: the cursor starts at `(x, y)` and each line advances
    /// by `line_height`.
    TextBlock {
        x: i64,
        y: i64,
        font_family: String,
        font_size: i64,
        line_height: i64,
        lines: Vec<String>,
    },
}

/// The mathematical value of a command.
pub enum CmdV {
    Poly { rect: Rect, color: Rgb },
    PlaceImage { key: Seq<char>, x: i64, y: i64, scale_num: i64, scale_den: i64 },
    TextBlock {
        x: i64,
        y: i64,
        font_family: Seq<char>,
        font_size: i64,
        line_height: i64,
        lines: Seq<Seq<char>>,
    },
}

impl View for Cmd {
    type V = CmdV;

    open spec fn view(&self) -> CmdV {
        match self {
            Cmd::Poly { rect, color } => CmdV::Poly { rect: *rect, color: *color },
            Cmd::PlaceImage { key, x, y, scale_num, scale_den } => CmdV::PlaceImage {
                key: key@,
                x: *x,
                y: *y,
                scale_num: *scale_num,
                scale_den: *scale_den,
            },
            Cmd::TextBlock { x, y, font_family, font_size, line_height, lines } =>
                CmdV::TextBlock {
                x: *x,
                y: *y,
                font_family: font_family@,
                font_size: *font_size,
                line_height: *line_height,
                lines: Seq::new(lines@.len(), |i: int| lines@[i]@),
            },
        }
    }
}

/// The values of a command list.
pub open spec fn cmds_view(s: Seq<Cmd>) -> Seq<CmdV> {
    Seq::new(s.len(), |i: int| s[i]@)
}

/// The mathematical value of an error.
pub enum ErrV {
    NotSupportElement(Seq<char>, Seq<char>),
    UnknownChild(Seq<char>),
    UndefinedPageSize,
    RequiredAttribute(Seq<char>, Seq<char>),
    ImageAssetNotFound(Seq<char>),
    FontAssetNotFound(Seq<char>),
    InvalidChildren(Seq<char>),
}

pub open spec fn err_view(e: Error) -> ErrV {
    match e {
        Error::NotSupportElement(a, b) => ErrV::NotSupportElement(a@, b@),
        Error::UnknownChild(a) => ErrV::UnknownChild(a@),
        Error::UndefinedPageSize() => ErrV::UndefinedPageSize,
        Error::RequiredAttribute(a, b) => ErrV::RequiredAttribute(a@, b@),
        Error::ImageAssetNotFound(a) => ErrV::ImageAssetNotFound(a@),
        Error::FontAssetNotFound(a) => ErrV::FontAssetNotFound(a@),
        Error::InvalidChildren(a) => ErrV::InvalidChildren(a@),
    }
}

/// Per-character advance widths for every text run of the tree, same shape
/// as the layout tree; nodes without a text run carry an empty list.
#[derive(Debug)]
pub struct WidthTree {
    pub widths: Vec<i64>,
    pub children: Vec<WidthTree>,
}

/// The width tree mirrors the layout tree and carries one bounded advance
/// per character of each node's text run.
pub open spec fn widths_ok(n: LayoutNode, w: WidthTree) -> bool
    decreases n,
{
    &&& w.children@.len() == n.children@.len()
    &&& match n.text {
        Option::Some(t) => {
            &&& w.widths@.len() == t@.len()
            &&& t@.len() <= MAX_TEXT_LEN
            &&& forall|k: int|
                0 <= k < w.widths@.len() ==> 0 <= #[trigger] w.widths@[k] <= MAX_ADVANCE
        },
        Option::None => true,
    }
    &&& forall|i: int|
        0 <= i < n.children@.len() ==> widths_ok(
            #[trigger] n.children@[i],
            w.children@[i],
        )
}

/// Whether a width tree fits the layout tree as [`widths_ok`] asks.
pub fn check_widths(n: &LayoutNode, w: &WidthTree) -> (b: bool)
    ensures
        b == widths_ok(*n, *w),
    decreases *n,
{
    let len = n.children.len();
    if len != w.children.len() {
        return false;
    }
    match &n.text {
        Option::Some(t) => {
            let tlen = t.as_str().unicode_len();
            if w.widths.len() != tlen || tlen > MAX_TEXT_LEN {
                return false;
            }
            let mut k: usize = 0;
            let wn = w.widths.len();
            while k < wn
                invariant
                    n.text matches Option::Some(t2) && w.widths@.len() == t2@.len(),
                    wn == w.widths@.len(),
                    k <= wn,
                    forall|j: int| 0 <= j < k ==> 0 <= #[trigger] w.widths@[j] <= MAX_ADVANCE,
                decreases wn - k,
            {
                if w.widths[k] < 0 || w.widths[k] > MAX_ADVANCE {
                    return false;
                }
                k += 1;
            }
        },
        Option::None => {},
    }
    let mut i: usize = 0;
    while i < len
        invariant
            len == n.children@.len(),
            len == w.children@.len(),
            i <= len,
            n.text matches Option::Some(t) ==> w.widths@.len() == t@.len() && t@.len()
                <= MAX_TEXT_LEN && forall|k: int|
                0 <= k < w.widths@.len() ==> 0 <= #[trigger] w.widths@[k] <= MAX_ADVANCE,
            forall|j: int| 0 <= j < i ==> widths_ok(#[trigger] n.children@[j], w.children@[j]),
        decreases len - i,
    {
        if !check_widths(&n.children[i], &w.children[i]) {
            return false;
        }
        i += 1;
    }
    true
}

/// A local rect translated by its parent's absolute position; the root's
/// local rect is already absolute.
pub open spec fn abs_rect(local: Rect, parent: Option<Rect>) -> Rect {
    match parent {
        Option::Some(p) => Rect {
            x: (local.x + p.x) as i64,
            y: (local.y + p.y) as i64,
            width: local.width,
            height: local.height,
        },
        Option::None => local,
    }
}

/// A top-left rect flipped against the page height.
pub open spec fn bl_rect(r: Rect, page_h: int) -> Rect {
    Rect { x: r.x, y: (page_h - r.y - r.height) as i64, width: r.width, height: r.height }
}

/// Geometry: a node's absolute rect is its parent's absolute rect
/// translated by the node's local rect, the size kept; the root's local
/// rect is already absolute.
pub proof fn lemma_absolute_rect(local: Rect, p: Rect)
    requires
        i64::MIN <= local.x + p.x <= i64::MAX,
        i64::MIN <= local.y + p.y <= i64::MAX,
    ensures
        abs_rect(local, Option::Some(p)).x == p.x + local.x,
        abs_rect(local, Option::Some(p)).y == p.y + local.y,
        abs_rect(local, Option::Some(p)).width == local.width,
        abs_rect(local, Option::Some(p)).height == local.height,
        abs_rect(local, Option::None) == local,
{
}

/// Geometry: flipping into the bottom-left basis satisfies
/// `flipped.y + rect.y + rect.height == page_height`, everything else
/// kept, and flipping twice gives the rect back.
pub proof fn lemma_bottom_left_flip(r: Rect, page_h: int)
    requires
        i64::MIN <= page_h - r.y - r.height <= i64::MAX,
    ensures
        bl_rect(r, page_h).y + r.y + r.height == page_h,
        bl_rect(r, page_h).x == r.x,
        bl_rect(r, page_h).width == r.width,
        bl_rect(r, page_h).height == r.height,
        bl_rect(bl_rect(r, page_h), page_h) == r,
{
}

/// The border edges painted for a bottom-left-based rect: left, right,
/// bottom and top, each a thin filled rectangle, only for sides whose
/// thickness resolves to a positive number of points.
pub open spec fn spec_border(b: crate::style::DimRect, c: Rgb, r: Rect) -> Seq<CmdV> {
    let s0 = Seq::<CmdV>::empty();
    let s1 = match b.left {
        crate::style::Dimension::Points(v) => if v > 0 {
            s0.push(
                CmdV::Poly {
                    rect: Rect { x: r.x, y: r.y, width: v, height: r.height },
                    color: c,
                },
            )
        } else {
            s0
        },
        _ => s0,
    };
    let s2 = match b.right {
        crate::style::Dimension::Points(v) => if v > 0 {
            s1.push(
                CmdV::Poly {
                    rect: Rect {
                        x: (r.x + r.width - v) as i64,
                        y: r.y,
                        width: v,
                        height: r.height,
                    },
                    color: c,
                },
            )
        } else {
            s1
        },
        _ => s1,
    };
    let s3 = match b.bottom {
        crate::style::Dimension::Points(v) => if v > 0 {
            s2.push(
                CmdV::Poly {
                    rect: Rect { x: r.x, y: r.y, width: r.width, height: v },
                    color: c,
                },
            )
        } else {
            s2
        },
        _ => s2,
    };
    match b.top {
        crate::style::Dimension::Points(v) => if v > 0 {
            s3.push(
                CmdV::Poly {
                    rect: Rect {
                        x: r.x,
                        y: (r.y + r.height - v) as i64,
                        width: r.width,
                        height: v,
                    },
                    color: c,
                },
            )
        } else {
            s3
        },
        _ => s3,
    }
}

/// What a layer paints for itself: its background fill, then its border
/// edges, each only where the style sets the colour.
pub open spec fn spec_layer_own(style: Style, bl: Rect) -> Seq<CmdV> {
    let bg = match style.background_color {
        Option::Some(c) => seq![CmdV::Poly { rect: bl, color: spec_rgb(c@) }],
        Option::None => Seq::empty(),
    };
    let bd = match style.border_color {
        Option::Some(c) => spec_border(style.border, spec_rgb(c@), bl),
        Option::None => Seq::empty(),
    };
    bg + bd
}

/// Intrinsic pixels at the fixed raster density, in length units.
pub open spec fn spec_px_units(px: int) -> int {
    px * 254 / 3
}

/// The commands of an `Image` node: resolve `src`, fit the image into the
/// box aspect-locked (the smaller axis ratio wins), re-derive the drawn
/// height from the chosen scale, and place bottom-left-based.
pub open spec fn spec_image_build(
    c: LayoutNode,
    crt: RectTree,
    parent_abs: Rect,
    page_h: int,
    images: Map<Seq<char>, ImageInfo>,
) -> Result<Seq<CmdV>, ErrV> {
    let abs = abs_rect(crt.rect, Option::Some(parent_abs));
    let attrs = crate::dom::attrs_map(c.attributes@);
    if !attrs.contains_key("src"@) {
        Result::Err(ErrV::RequiredAttribute(c.name@, "src"@))
    } else {
        let key = attrs["src"@];
        if !images.contains_key(key) {
            Result::Err(ErrV::ImageAssetNotFound(key))
        } else {
            let info = images[key];
            let iw = spec_px_units(info.width_px as int);
            let ih = spec_px_units(info.height_px as int);
            let wide = abs.width * ih <= abs.height * iw;
            let num = if wide { abs.width as int } else { abs.height as int };
            let den = if wide { iw } else { ih };
            let drawn_h = ih * num / den;
            let r2 = Rect { x: abs.x, y: abs.y, width: abs.width, height: drawn_h as i64 };
            let bl = bl_rect(r2, page_h);
            Result::Ok(
                seq![
                    CmdV::PlaceImage {
                        key,
                        x: bl.x,
                        y: bl.y,
                        scale_num: num as i64,
                        scale_den: den as i64,
                    },
                ],
            )
        }
    }
}

/// The commands of a `Text` node: its border edges, then one text block
/// whose cursor sits at the bottom-left of the first line's box and whose
/// lines are the greedy wrap of the run at the box width.
pub open spec fn spec_text_build(
    c: LayoutNode,
    crt: RectTree,
    cwt: WidthTree,
    parent_abs: Rect,
    page_h: int,
    fonts: FontAsset,
) -> Result<Seq<CmdV>, ErrV> {
    let abs = abs_rect(crt.rect, Option::Some(parent_abs));
    match c.text {
        Option::None => Result::Err(ErrV::InvalidChildren("Text"@)),
        Option::Some(t) => {
            let bl = bl_rect(abs, page_h);
            let bd = match c.style.border_color {
                Option::Some(col) => spec_border(c.style.border, spec_rgb(col@), bl),
                Option::None => Seq::empty(),
            };
            if !fonts.spec_has(c.style.font_family@) {
                Result::Err(ErrV::FontAssetNotFound(c.style.font_family@))
            } else {
                let r2 = Rect {
                    x: abs.x,
                    y: abs.y,
                    width: abs.width,
                    height: (c.style.font_size * 127 / 360) as i64,
                };
                let bl2 = bl_rect(r2, page_h);
                let ranges = spec_split(t@, cwt.widths@, bl2.width as int);
                let lines = Seq::new(
                    ranges.len(),
                    |i: int| t@.subrange(ranges[i].0, ranges[i].1),
                );
                Result::Ok(
                    bd + seq![
                        CmdV::TextBlock {
                            x: bl2.x,
                            y: bl2.y,
                            font_family: c.style.font_family@,
                            font_size: c.style.font_size,
                            line_height: c.style.line_height,
                            lines,
                        },
                    ],
                )
            }
        },
    }
}

/// The commands of a `Layer` node: its own paint, then its children in
/// document order — later siblings composite over earlier ones.
pub open spec fn spec_layer_build(
    n: LayoutNode,
    rt: RectTree,
    wt: WidthTree,
    parent: Option<Rect>,
    page_h: int,
    images: Map<Seq<char>, ImageInfo>,
    fonts: FontAsset,
) -> Result<Seq<CmdV>, ErrV>
    decreases n, 1int, 0int,
{
    let abs = abs_rect(rt.rect, parent);
    let own = spec_layer_own(n.style, bl_rect(abs, page_h));
    match spec_children_build(n, rt, wt, abs, page_h, images, fonts, 0) {
        Result::Ok(cs) => Result::Ok(own + cs),
        Result::Err(e) => Result::Err(e),
    }
}

/// The commands of a layer's children from index `i` on, concatenated in
/// document order; the first failing child aborts the whole build.
pub open spec fn spec_children_build(
    n: LayoutNode,
    rt: RectTree,
    wt: WidthTree,
    abs: Rect,
    page_h: int,
    images: Map<Seq<char>, ImageInfo>,
    fonts: FontAsset,
    i: int,
) -> Result<Seq<CmdV>, ErrV>
    decreases n, 0int, n.children@.len() - i,
    when 0 <= i <= n.children@.len() && rt.children@.len() == n.children@.len()
        && wt.children@.len() == n.children@.len()
{
    if i == n.children@.len() {
        Result::Ok(Seq::empty())
    } else {
        match spec_child_build(
            n.children@[i],
            rt.children@[i],
            wt.children@[i],
            abs,
            page_h,
            images,
            fonts,
        ) {
            Result::Err(e) => Result::Err(e),
            Result::Ok(cs) => match spec_children_build(
                n,
                rt,
                wt,
                abs,
                page_h,
                images,
                fonts,
                i + 1,
            ) {
                Result::Err(e) => Result::Err(e),
                Result::Ok(rest) => Result::Ok(cs + rest),
            },
        }
    }
}

/// The spec value of an optional borrowed rect.
pub open spec fn opt_rect(p: Option<&Rect>) -> Option<Rect> {
    match p {
        Option::Some(r) => Option::Some(*r),
        Option::None => Option::None,
    }
}

/// A parent's absolute rect, `k` levels of budget still unspent: small
/// enough that adding `k` more bounded local rects cannot overflow.
pub open spec fn parent_ok(p: Rect, k: int) -> bool {
    &&& -(DEPTH_LIMIT - k) * RECT_LIMIT <= p.x <= (DEPTH_LIMIT - k) * RECT_LIMIT
    &&& -(DEPTH_LIMIT - k) * RECT_LIMIT <= p.y <= (DEPTH_LIMIT - k) * RECT_LIMIT
}

/// Dispatch of one child over the closed renderable set; any other name is
/// an `UnknownChild` error.
pub open spec fn spec_child_build(
    c: LayoutNode,
    crt: RectTree,
    cwt: WidthTree,
    parent_abs: Rect,
    page_h: int,
    images: Map<Seq<char>, ImageInfo>,
    fonts: FontAsset,
) -> Result<Seq<CmdV>, ErrV>
    decreases c, 2int, 0int,
{
    if c.name@ == "Layer"@ {
        spec_layer_build(c, crt, cwt, Option::Some(parent_abs), page_h, images, fonts)
    } else if c.name@ == "Image"@ {
        spec_image_build(c, crt, parent_abs, page_h, images)
    } else if c.name@ == "Text"@ {
        spec_text_build(c, crt, cwt, parent_abs, page_h, fonts)
    } else {
        Result::Err(ErrV::UnknownChild(c.name@))
    }
}

/// Two layout trees that agree on everything the renderer can observe:
/// names, attribute maps (attribute order abstracted away), text, styles
/// up to string content, and children pairwise. Their rects and widths are
/// shared, so the comparison is purely about the trees.
pub open spec fn nodes_equiv(a: LayoutNode, b: LayoutNode) -> bool
    decreases a,
{
    &&& a.name@ == b.name@
    &&& crate::dom::attrs_map(a.attributes@) == crate::dom::attrs_map(b.attributes@)
    &&& match (a.text, b.text) {
        (Option::Some(t1), Option::Some(t2)) => t1@ == t2@,
        (Option::None, Option::None) => true,
        _ => false,
    }
    &&& crate::style::style_eq(a.style, b.style)
    &&& a.children@.len() == b.children@.len()
    &&& forall|i: int|
        0 <= i < a.children@.len() ==> nodes_equiv(#[trigger] a.children@[i], b.children@[i])
}

/// Rendering is deterministic in what it can observe: two equivalent
/// trees — in particular, trees differing only in attribute order —
/// produce the same commands, or the same error.
pub proof fn lemma_render_equiv(
    a: LayoutNode,
    b: LayoutNode,
    rt: RectTree,
    wt: WidthTree,
    parent: Option<Rect>,
    page_h: int,
    images: Map<Seq<char>, ImageInfo>,
    fonts: FontAsset,
)
    requires
        nodes_equiv(a, b),
        same_shape(a, rt),
        widths_ok(a, wt),
    ensures
        spec_layer_build(a, rt, wt, parent, page_h, images, fonts) == spec_layer_build(
            b,
            rt,
            wt,
            parent,
            page_h,
            images,
            fonts,
        ),
    decreases a, 1int, 0int,
{
    let abs = abs_rect(rt.rect, parent);
    let bl = bl_rect(abs, page_h);
    assert(spec_layer_own(a.style, bl) == spec_layer_own(b.style, bl)) by {
        match (a.style.background_color, b.style.background_color) {
            (Option::Some(c1), Option::Some(c2)) => {
                assert(c1@ == c2@);
            },
            _ => {},
        }
        match (a.style.border_color, b.style.border_color) {
            (Option::Some(c1), Option::Some(c2)) => {
                assert(c1@ == c2@);
                assert(a.style.border == b.style.border);
            },
            _ => {},
        }
    }
    lemma_children_equiv(a, b, rt, wt, abs, page_h, images, fonts, 0);
}

/// The child folds of two equivalent trees agree from any index on.
proof fn lemma_children_equiv(
    a: LayoutNode,
    b: LayoutNode,
    rt: RectTree,
    wt: WidthTree,
    abs: Rect,
    page_h: int,
    images: Map<Seq<char>, ImageInfo>,
    fonts: FontAsset,
    i: int,
)
    requires
        nodes_equiv(a, b),
        same_shape(a, rt),
        widths_ok(a, wt),
        0 <= i <= a.children@.len(),
    ensures
        spec_children_build(a, rt, wt, abs, page_h, images, fonts, i) == spec_children_build(
            b,
            rt,
            wt,
            abs,
            page_h,
            images,
            fonts,
            i,
        ),
    decreases a, 0int, a.children@.len() - i,
{
    if rt.children@.len() == a.children@.len() && wt.children@.len() == a.children@.len()
        && i < a.children@.len() {
        lemma_child_equiv(
            a.children@[i],
            b.children@[i],
            rt.children@[i],
            wt.children@[i],
            abs,
            page_h,
            images,
            fonts,
        );
        lemma_children_equiv(a, b, rt, wt, abs, page_h, images, fonts, i + 1);
    }
}

/// The dispatch of two equivalent children agrees.
proof fn lemma_child_equiv(
    c: LayoutNode,
    d: LayoutNode,
    crt: RectTree,
    cwt: WidthTree,
    parent_abs: Rect,
    page_h: int,
    images: Map<Seq<char>, ImageInfo>,
    fonts: FontAsset,
)
    requires
        nodes_equiv(c, d),
        same_shape(c, crt),
        widths_ok(c, cwt),
    ensures
        spec_child_build(c, crt, cwt, parent_abs, page_h, images, fonts) == spec_child_build(
            d,
            crt,
            cwt,
            parent_abs,
            page_h,
            images,
            fonts,
        ),
    decreases c, 2int, 0int,
{
    if c.name@ == "Layer"@ {
        lemma_render_equiv(c, d, crt, cwt, Option::Some(parent_abs), page_h, images, fonts);
    }
}

/// Look an attribute up on a layout node, as `get_attr` does on an element.
pub fn node_get_attr(n: &LayoutNode, key: &str) -> (r: Option<String>)
    requires
        crate::dom::attr_keys_unique(n.attributes@),
    ensures
        match r {
            Option::Some(v) => crate::dom::attrs_map(n.attributes@).contains_key(key@)
                && v@ == crate::dom::attrs_map(n.attributes@)[key@],
            Option::None => !crate::dom::attrs_map(n.attributes@).contains_key(key@),
        },
{
    let len = n.attributes.len();
    let mut i: usize = 0;
    while i < len
        invariant
            crate::dom::attr_keys_unique(n.attributes@),
            len == n.attributes@.len(),
            i <= len,
            forall|j: int| 0 <= j < i ==> #[trigger] n.attributes@[j].0@ != key@,
        decreases len - i,
    {
        if crate::strutil::string_eq_str(&n.attributes[i].0, key) {
            let v = n.attributes[i].1.clone();
            proof {
                crate::dom::lemma_attrs_map_present(n.attributes@, i as int);
            }
            return Option::Some(v);
        }
        i += 1;
    }
    proof {
        crate::dom::lemma_attrs_map_absent(n.attributes@, key@);
    }
    Option::None
}

/// Intrinsic pixels at the fixed raster density (300 per inch), in length
/// units of a thousandth of a millimetre.
pub fn to_mm(px: i64) -> (r: i64)
    requires
        0 < px <= crate::assets::IMAGE_PX_LIMIT,
    ensures
        r == spec_px_units(px as int),
        84 <= r <= 2_540_000,
{
    proof {
        assert(254 <= px * 254 <= 7_620_000);
    }
    px * 254 / 3
}

/// Copy a width list.
fn clone_widths(v: &Vec<i64>) -> (r: Vec<i64>)
    ensures
        r@ =~= v@,
{
    let len = v.len();
    let mut r: Vec<i64> = Vec::new();
    let mut i: usize = 0;
    while i < len
        invariant
            len == v@.len(),
            i <= len,
            r@.len() == i,
            forall|j: int| 0 <= j < i ==> #[trigger] r@[j] == v@[j],
        decreases len - i,
    {
        r.push(v[i]);
        i += 1;
    }
    r
}

/// Render an `Image` node: place the registered image fitted into the box.
fn image_build(
    c: &LayoutNode,
    crt: &RectTree,
    parent_abs: &Rect,
    page_h: i64,
    images: &crate::assets::ImageAsset,
    cmds: &mut Vec<Cmd>,
) -> (r: Result<(), Error>)
    requires
        node_wf(*c),
        rtree_wf(*crt),
        -ABS_LIMIT <= parent_abs.x <= ABS_LIMIT,
        -ABS_LIMIT <= parent_abs.y <= ABS_LIMIT,
        -RECT_LIMIT <= page_h <= RECT_LIMIT,
        images.wf(),
    ensures
        ({
            let s = spec_image_build(*c, *crt, *parent_abs, page_h as int, images@);
            match r {
                Result::Ok(()) => s matches Result::Ok(cs) && cmds_view(final(cmds)@)
                    =~= cmds_view(old(cmds)@) + cs,
                Result::Err(e) => s matches Result::Err(ev) && ev == err_view(e),
            }
        }),
{
    let abs = crt.rect.add_position(parent_abs);
    let key = match node_get_attr(c, "src") {
        Option::Some(k) => k,
        Option::None => {
            return Result::Err(
                Error::RequiredAttribute(c.name.clone(), "src".to_owned()),
            );
        },
    };
    let info = match images.get(key.as_str()) {
        Option::Some(info) => *info,
        Option::None => {
            return Result::Err(Error::ImageAssetNotFound(key));
        },
    };
    let iw = to_mm(info.width_px);
    let ih = to_mm(info.height_px);
    proof {
        assert(abs == abs_rect(crt.rect, Option::Some(*parent_abs)));
        assert(0 <= abs.width * ih <= 3_000_000_000_000_000_000) by (nonlinear_arith)
            requires
                0 <= abs.width <= RECT_LIMIT,
                0 <= ih <= 2_540_000,
        ;
        assert(0 <= abs.height * iw <= 3_000_000_000_000_000_000) by (nonlinear_arith)
            requires
                0 <= abs.height <= RECT_LIMIT,
                0 <= iw <= 2_540_000,
        ;
    }
    let wide = abs.width * ih <= abs.height * iw;
    let num = if wide {
        abs.width
    } else {
        abs.height
    };
    let den = if wide {
        iw
    } else {
        ih
    };
    proof {
        assert(0 <= ih * num <= 3_000_000_000_000_000_000) by (nonlinear_arith)
            requires
                0 <= ih <= 2_540_000,
                0 <= num <= RECT_LIMIT,
        ;
        assert(0 <= ih * num / (den as int) <= ih * num) by (nonlinear_arith)
            requires
                0 <= ih * num,
                1 <= den,
        ;
    }
    let drawn_h = ih * num / den;
    let r2 = abs.set_height(drawn_h);
    let bl = r2.to_bottom_left_base(page_h);
    cmds.push(
        Cmd::PlaceImage { key, x: bl.x, y: bl.y, scale_num: num, scale_den: den },
    );
    proof {
        assert(cmds_view(cmds@) =~= cmds_view(old(cmds)@) + spec_image_build(
            *c,
            *crt,
            *parent_abs,
            page_h as int,
            images@,
        )->Ok_0);
    }
    Result::Ok(())
}

/// Render a `Text` node: its border edges, then its wrapped lines.
fn text_build(
    c: &LayoutNode,
    crt: &RectTree,
    cwt: &WidthTree,
    parent_abs: &Rect,
    page_h: i64,
    fonts: &FontAsset,
    cmds: &mut Vec<Cmd>,
) -> (r: Result<(), Error>)
    requires
        node_wf(*c),
        rtree_wf(*crt),
        widths_ok(*c, *cwt),
        -ABS_LIMIT <= parent_abs.x <= ABS_LIMIT,
        -ABS_LIMIT <= parent_abs.y <= ABS_LIMIT,
        -RECT_LIMIT <= page_h <= RECT_LIMIT,
    ensures
        ({
            let s = spec_text_build(*c, *crt, *cwt, *parent_abs, page_h as int, *fonts);
            match r {
                Result::Ok(()) => s matches Result::Ok(cs) && cmds_view(final(cmds)@)
                    =~= cmds_view(old(cmds)@) + cs,
                Result::Err(e) => s matches Result::Err(ev) && ev == err_view(e),
            }
        }),
{
    let abs = crt.rect.add_position(parent_abs);
    proof {
        assert(abs == abs_rect(crt.rect, Option::Some(*parent_abs)));
    }
    let t = match &c.text {
        Option::Some(t) => t,
        Option::None => {
            return Result::Err(Error::InvalidChildren("Text".to_owned()));
        },
    };
    let bl = abs.to_bottom_left_base(page_h);
    let ghost bdv: Seq<CmdV> = match &c.style.border_color {
        Option::Some(col) => spec_border(
            c.style.border,
            spec_rgb(col@),
            bl_rect(abs, page_h as int),
        ),
        Option::None => Seq::empty(),
    };
    if let Option::Some(bc) = &c.style.border_color {
        let border = Border {
            border: c.style.border,
            border_color: HexColor::new(bc.as_str()).to_rgb(),
            rect: bl,
        };
        border.draw(cmds);
    }
    proof {
        assert(cmds_view(cmds@) =~= cmds_view(old(cmds)@) + bdv);
    }
    let ghost pre = cmds@;
    if !fonts.contains(c.style.font_family.as_str()) {
        return Result::Err(Error::FontAssetNotFound(c.style.font_family.clone()));
    }
    let h2 = to_mm_size(c.style.font_size);
    let r2 = abs.set_height(h2);
    let bl2 = r2.to_bottom_left_base(page_h);
    let ml = MultiLine {
        text: t.clone(),
        widths: clone_widths(&cwt.widths),
        max_width: bl2.width,
    };
    let lines = ml.split_text_to_multi_lines();
    let cmd = Cmd::TextBlock {
        x: bl2.x,
        y: bl2.y,
        font_family: c.style.font_family.clone(),
        font_size: c.style.font_size,
        line_height: c.style.line_height,
        lines,
    };
    cmds.push(cmd);
    proof {
        let s = spec_text_build(*c, *crt, *cwt, *parent_abs, page_h as int, *fonts);
        let ranges = spec_split(t@, cwt.widths@, bl2.width as int);
        let linesv = Seq::new(ranges.len(), |i: int| t@.subrange(ranges[i].0, ranges[i].1));
        assert(cmds@.last()@ matches CmdV::TextBlock { lines: ls, .. } && ls =~= linesv);
        let cv = CmdV::TextBlock {
            x: bl2.x,
            y: bl2.y,
            font_family: c.style.font_family@,
            font_size: c.style.font_size,
            line_height: c.style.line_height,
            lines: linesv,
        };
        assert(cmds@.last()@ == cv);
        assert(cmds@ =~= pre.push(cmds@.last()));
        assert(cmds_view(cmds@) =~= cmds_view(pre).push(cv));
        assert(s matches Result::Ok(cs) && cs =~= bdv + seq![cv]);
        assert(cmds_view(cmds@) =~= cmds_view(old(cmds)@) + s->Ok_0);
    }
    Result::Ok(())
}

/// Render a `Layer` node: its own paint, then its children in document
/// order.
pub(crate) fn layer_build(
    n: &LayoutNode,
    rt: &RectTree,
    wt: &WidthTree,
    parent_rect: Option<&Rect>,
    page_h: i64,
    images: &crate::assets::ImageAsset,
    fonts: &FontAsset,
    cmds: &mut Vec<Cmd>,
    Ghost(depth): Ghost<int>,
) -> (r: Result<(), Error>)
    requires
        node_wf(*n),
        rtree_wf(*rt),
        same_shape(*n, *rt),
        widths_ok(*n, *wt),
        height_le(*n, depth),
        1 <= depth <= DEPTH_LIMIT,
        -RECT_LIMIT <= page_h <= RECT_LIMIT,
        images.wf(),
        match parent_rect {
            Option::Some(p) => parent_ok(*p, depth),
            Option::None => true,
        },
    ensures
        ({
            let s = spec_layer_build(
                *n,
                *rt,
                *wt,
                opt_rect(parent_rect),
                page_h as int,
                images@,
                *fonts,
            );
            match r {
                Result::Ok(()) => s matches Result::Ok(cs) && cmds_view(final(cmds)@)
                    =~= cmds_view(old(cmds)@) + cs,
                Result::Err(e) => s matches Result::Err(ev) && ev == err_view(e),
            }
        }),
    decreases *n, 1int,
{
    let ghost base = cmds_view(cmds@);
    let abs = match parent_rect {
        Option::Some(p) => rt.rect.add_position(p),
        Option::None => rt.rect,
    };
    proof {
        assert(abs == abs_rect(rt.rect, opt_rect(parent_rect)));
        assert(-ABS_LIMIT <= abs.x <= ABS_LIMIT && -ABS_LIMIT <= abs.y <= ABS_LIMIT);
    }
    let bl = abs.to_bottom_left_base(page_h);
    if let Option::Some(bg) = &n.style.background_color {
        let rgb = HexColor::new(bg.as_str()).to_rgb();
        cmds.push(Cmd::Poly { rect: bl, color: rgb });
    }
    if let Option::Some(bc) = &n.style.border_color {
        let border = Border {
            border: n.style.border,
            border_color: HexColor::new(bc.as_str()).to_rgb(),
            rect: bl,
        };
        border.draw(cmds);
    }
    let ghost own = spec_layer_own(n.style, bl_rect(abs, page_h as int));
    proof {
        assert(cmds_view(cmds@) =~= base + own);
    }
    let len = n.children.len();
    let mut i: usize = 0;
    let ghost mut acc: Seq<CmdV> = Seq::empty();
    while i < len
        invariant
            node_wf(*n),
            rtree_wf(*rt),
            same_shape(*n, *rt),
            widths_ok(*n, *wt),
            height_le(*n, depth),
            1 <= depth <= DEPTH_LIMIT,
            -RECT_LIMIT <= page_h <= RECT_LIMIT,
            images.wf(),
            len == n.children@.len(),
            i <= len,
            abs == abs_rect(rt.rect, opt_rect(parent_rect)),
            -ABS_LIMIT <= abs.x <= ABS_LIMIT,
            -ABS_LIMIT <= abs.y <= ABS_LIMIT,
            parent_ok(abs, depth - 1),
            own == spec_layer_own(n.style, bl_rect(abs, page_h as int)),
            cmds_view(cmds@) =~= base + own + acc,
            base == cmds_view(old(cmds)@),
            ({
                let whole = spec_children_build(
                    *n,
                    *rt,
                    *wt,
                    abs,
                    page_h as int,
                    images@,
                    *fonts,
                    0,
                );
                match spec_children_build(
                    *n,
                    *rt,
                    *wt,
                    abs,
                    page_h as int,
                    images@,
                    *fonts,
                    i as int,
                ) {
                    Result::Ok(rest) => whole matches Result::Ok(all) && all =~= acc + rest,
                    Result::Err(e) => whole matches Result::Err(e2) && e2 == e,
                }
            }),
        decreases len - i,
    {
        proof {
            assert(height_le(n.children@[i as int], depth - 1));
            assert(depth - 1 >= 1);
        }
        let res = child_build(
            &n.children[i],
            &rt.children[i],
            &wt.children[i],
            &abs,
            page_h,
            images,
            fonts,
            cmds,
            Ghost(depth - 1),
        );
        match res {
            Result::Ok(()) => {
                proof {
                    let cs = spec_child_build(
                        n.children@[i as int],
                        rt.children@[i as int],
                        wt.children@[i as int],
                        abs,
                        page_h as int,
                        images@,
                        *fonts,
                    )->Ok_0;
                    acc = acc + cs;
                }
            },
            Result::Err(e) => {
                return Result::Err(e);
            },
        }
        i += 1;
    }
    proof {
        assert(spec_children_build(
            *n,
            *rt,
            *wt,
            abs,
            page_h as int,
            images@,
            *fonts,
            len as int,
        ) matches Result::Ok(r0) && r0 =~= Seq::<CmdV>::empty());
        let whole = spec_children_build(
            *n,
            *rt,
            *wt,
            abs,
            page_h as int,
            images@,
            *fonts,
            0,
        );
        assert(whole matches Result::Ok(all) && all =~= acc);
        assert(cmds_view(cmds@) =~= base + (own + acc));
    }
    Result::Ok(())
}

/// Render one child of a layer, dispatching on its name over the closed
/// set {Layer, Text, Image}.
pub(crate) fn child_build(
    c: &LayoutNode,
    crt: &RectTree,
    cwt: &WidthTree,
    parent_abs: &Rect,
    page_h: i64,
    images: &crate::assets::ImageAsset,
    fonts: &FontAsset,
    cmds: &mut Vec<Cmd>,
    Ghost(depth): Ghost<int>,
) -> (r: Result<(), Error>)
    requires
        node_wf(*c),
        rtree_wf(*crt),
        same_shape(*c, *crt),
        widths_ok(*c, *cwt),
        height_le(*c, depth),
        1 <= depth <= DEPTH_LIMIT,
        -RECT_LIMIT <= page_h <= RECT_LIMIT,
        images.wf(),
        parent_ok(*parent_abs, depth),
    ensures
        ({
            let s = spec_child_build(
                *c,
                *crt,
                *cwt,
                *parent_abs,
                page_h as int,
                images@,
                *fonts,
            );
            match r {
                Result::Ok(()) => s matches Result::Ok(cs) && cmds_view(final(cmds)@)
                    =~= cmds_view(old(cmds)@) + cs,
                Result::Err(e) => s matches Result::Err(ev) && ev == err_view(e),
            }
        }),
    decreases *c, 2int,
{
    proof {
        assert(-ABS_LIMIT <= parent_abs.x <= ABS_LIMIT && -ABS_LIMIT <= parent_abs.y
            <= ABS_LIMIT);
    }
    if str_eq(c.name.as_str(), "Layer") {
        layer_build(
            c,
            crt,
            cwt,
            Option::Some(parent_abs),
            page_h,
            images,
            fonts,
            cmds,
            Ghost(depth),
        )
    } else if str_eq(c.name.as_str(), "Image") {
        image_build(c, crt, parent_abs, page_h, images, cmds)
    } else if str_eq(c.name.as_str(), "Text") {
        text_build(c, crt, cwt, parent_abs, page_h, fonts, cmds)
    } else {
        Result::Err(Error::UnknownChild(c.name.clone()))
    }
}

} // verus!
