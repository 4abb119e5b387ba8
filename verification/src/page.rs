//! One page: its fixed extent and its drawing commands.
//!
//! A page's style must resolve both width and height to points before
//! anything is drawn; its children must all be `Layer` elements, rendered
//! in document order with the page itself as origin.

use vstd::prelude::*;

use crate::assets::{Assets, FontAsset, ImageInfo};
use crate::dom::{validate_name, Element};
use crate::error::Error;
use crate::layout::{height_le, node_wf, rtree_wf, same_shape, LayoutNode, LayoutTree, RectTree};
use crate::rect::{DEPTH_LIMIT, RECT_LIMIT};
use crate::render::{
    cmds_view, err_view, layer_build, spec_layer_build, widths_ok, Cmd, CmdV, ErrV, WidthTree,
};
use crate::strutil::str_eq;
use crate::style::Dimension;

verus! {

/// A rendered page: its extent and its commands in paint order.
#[derive(Debug)]
pub struct PagePlan {
    pub width: i64,
    pub height: i64,
    pub cmds: Vec<Cmd>,
}

/// The commands of the page's children from index `i` on: each must be a
/// `Layer`, rendered with no parent rect, in document order.
pub open spec fn spec_page_children(
    n: LayoutNode,
    rt: RectTree,
    wt: WidthTree,
    page_h: int,
    images: Map<Seq<char>, ImageInfo>,
    fonts: FontAsset,
    i: int,
) -> Result<Seq<CmdV>, ErrV>
    decreases n.children@.len() - i,
    when 0 <= i <= n.children@.len() && rt.children@.len() == n.children@.len()
        && wt.children@.len() == n.children@.len()
{
    if i == n.children@.len() {
        Result::Ok(Seq::empty())
    } else {
        let c = n.children@[i];
        if c.name@ != "Layer"@ {
            Result::Err(ErrV::NotSupportElement(c.name@, "Layer"@))
        } else {
            match spec_layer_build(
                c,
                rt.children@[i],
                wt.children@[i],
                Option::None,
                page_h,
                images,
                fonts,
            ) {
                Result::Err(e) => Result::Err(e),
                Result::Ok(cs) => match spec_page_children(
                    n,
                    rt,
                    wt,
                    page_h,
                    images,
                    fonts,
                    i + 1,
                ) {
                    Result::Err(e) => Result::Err(e),
                    Result::Ok(rest) => Result::Ok(cs + rest),
                },
            }
        }
    }
}

/// The whole page: its fixed extent, or `UndefinedPageSize` where the root
/// style leaves an axis unresolved, and its children's commands.
pub open spec fn spec_page_build(
    n: LayoutNode,
    rt: RectTree,
    wt: WidthTree,
    images: Map<Seq<char>, ImageInfo>,
    fonts: FontAsset,
) -> Result<(i64, i64, Seq<CmdV>), ErrV> {
    match (n.style.size.width, n.style.size.height) {
        (Dimension::Points(w), Dimension::Points(h)) => match spec_page_children(
            n,
            rt,
            wt,
            h as int,
            images,
            fonts,
            0,
        ) {
            Result::Ok(cs) => Result::Ok((w, h, cs)),
            Result::Err(e) => Result::Err(e),
        },
        _ => Result::Err(ErrV::UndefinedPageSize),
    }
}

/// Determinism of the page build: two page trees the renderer cannot tell
/// apart — identical but for attribute order and string identity — build
/// the same extent and the same command list, or the same error. The
/// driver replays the command list verbatim, so identical input yields
/// identical output.
pub proof fn lemma_page_build_equiv(
    a: LayoutNode,
    b: LayoutNode,
    rt: RectTree,
    wt: WidthTree,
    images: Map<Seq<char>, crate::assets::ImageInfo>,
    fonts: FontAsset,
)
    requires
        crate::render::nodes_equiv(a, b),
        same_shape(a, rt),
        crate::render::widths_ok(a, wt),
    ensures
        spec_page_build(a, rt, wt, images, fonts) == spec_page_build(b, rt, wt, images, fonts),
{
    assert(crate::style::style_eq(a.style, b.style));
    assert(a.style.size == b.style.size);
    match (a.style.size.width, a.style.size.height) {
        (Dimension::Points(w), Dimension::Points(h)) => {
            lemma_page_children_equiv(a, b, rt, wt, h as int, images, fonts, 0);
            assert(spec_page_children(a, rt, wt, h as int, images, fonts, 0)
                == spec_page_children(b, rt, wt, h as int, images, fonts, 0));
        },
        _ => {},
    }
}

/// The page-children folds of two equivalent trees agree from any index.
proof fn lemma_page_children_equiv(
    a: LayoutNode,
    b: LayoutNode,
    rt: RectTree,
    wt: WidthTree,
    page_h: int,
    images: Map<Seq<char>, crate::assets::ImageInfo>,
    fonts: FontAsset,
    i: int,
)
    requires
        crate::render::nodes_equiv(a, b),
        same_shape(a, rt),
        crate::render::widths_ok(a, wt),
        0 <= i <= a.children@.len(),
    ensures
        spec_page_children(a, rt, wt, page_h, images, fonts, i) == spec_page_children(
            b,
            rt,
            wt,
            page_h,
            images,
            fonts,
            i,
        ),
    decreases a.children@.len() - i,
{
    if i < a.children@.len() {
        assert(crate::render::nodes_equiv(a.children@[i], b.children@[i]));
        assert(same_shape(a.children@[i], rt.children@[i]));
        assert(crate::render::widths_ok(a.children@[i], wt.children@[i]));
        assert(a.children@[i].name@ == b.children@[i].name@);
        crate::render::lemma_render_equiv(
            a.children@[i],
            b.children@[i],
            rt.children@[i],
            wt.children@[i],
            Option::None,
            page_h,
            images,
            fonts,
        );
        lemma_page_children_equiv(a, b, rt, wt, page_h, images, fonts, i + 1);
        assert(spec_page_children(a, rt, wt, page_h, images, fonts, i + 1)
            == spec_page_children(b, rt, wt, page_h, images, fonts, i + 1));
    }
}

/// Marker for an element accepted as a page.
#[derive(Debug)]
pub struct Page {}

impl Page {
    /// Accept only an element named `Page`.
    pub fn new(element: &Element) -> (r: Result<Page, Error>)
        ensures
            match r {
                Result::Ok(_) => element.name@ == "Page"@,
                Result::Err(e) => element.name@ != "Page"@ && (e
                    matches Error::NotSupportElement(n, x) && n@ == element.name@ && x@
                    == "Page"@),
            },
    {
        match validate_name(element, "Page") {
            Result::Ok(()) => Result::Ok(Page {}),
            Result::Err(e) => Result::Err(e),
        }
    }

    /// Render a solved page: derive the page size from the root style,
    /// then render each top-level `Layer` in document order.
    pub fn build(tree: &LayoutTree, widths: &WidthTree, assets: &Assets) -> (r: Result<
        PagePlan,
        Error,
    >)
        requires
            tree.wf(),
            widths_ok(tree.root, *widths),
            assets.wf(),
        ensures
            ({
                let s = spec_page_build(
                    tree.root,
                    tree.rects,
                    *widths,
                    assets.images@,
                    assets.fonts,
                );
                match r {
                    Result::Ok(p) => s matches Result::Ok(v) && v.0 == p.width && v.1
                        == p.height && v.2 =~= cmds_view(p.cmds@),
                    Result::Err(e) => s matches Result::Err(ev) && ev == err_view(e),
                }
            }),
    {
        let (w, h) = match tree.get_root_size() {
            Result::Ok(wh) => wh,
            Result::Err(e) => {
                return Result::Err(e);
            },
        };
        let len = tree.root.children.len();
        let mut cmds: Vec<Cmd> = Vec::new();
        let mut i: usize = 0;
        let ghost mut acc: Seq<CmdV> = Seq::empty();
        while i < len
            invariant
                tree.wf(),
                widths_ok(tree.root, *widths),
                assets.wf(),
                len == tree.root.children@.len(),
                i <= len,
                tree.root.style.size.width == Dimension::Points(w),
                tree.root.style.size.height == Dimension::Points(h),
                -RECT_LIMIT <= h <= RECT_LIMIT,
                cmds_view(cmds@) =~= acc,
                ({
                    let whole = spec_page_children(
                        tree.root,
                        tree.rects,
                        *widths,
                        h as int,
                        assets.images@,
                        assets.fonts,
                        0,
                    );
                    match spec_page_children(
                        tree.root,
                        tree.rects,
                        *widths,
                        h as int,
                        assets.images@,
                        assets.fonts,
                        i as int,
                    ) {
                        Result::Ok(rest) => whole matches Result::Ok(all) && all =~= acc
                            + rest,
                        Result::Err(e) => whole matches Result::Err(e2) && e2 == e,
                    }
                }),
            decreases len - i,
        {
            if !str_eq(tree.root.children[i].name.as_str(), "Layer") {
                return Result::Err(
                    Error::NotSupportElement(
                        tree.root.children[i].name.clone(),
                        "Layer".to_owned(),
                    ),
                );
            }
            proof {
                assert(height_le(tree.root.children@[i as int], DEPTH_LIMIT - 1));
                assert(DEPTH_LIMIT - 1 >= 1);
            }
            let res = layer_build(
                &tree.root.children[i],
                &tree.rects.children[i],
                &widths.children[i],
                Option::None,
                h,
                &assets.images,
                &assets.fonts,
                &mut cmds,
                Ghost(DEPTH_LIMIT as int - 1),
            );
            match res {
                Result::Ok(()) => {
                    proof {
                        let cs = spec_layer_build(
                            tree.root.children@[i as int],
                            tree.rects.children@[i as int],
                            widths.children@[i as int],
                            Option::None,
                            h as int,
                            assets.images@,
                            assets.fonts,
                        )->Ok_0;
                        acc = acc + cs;
                    }
                },
                Result::Err(e) => {
                    return Result::Err(e);
                },
            }
            i += 1;
        }
        proof {
            let whole = spec_page_children(
                tree.root,
                tree.rects,
                *widths,
                h as int,
                assets.images@,
                assets.fonts,
                0,
            );
            assert(whole matches Result::Ok(all) && all =~= acc);
        }
        Result::Ok(PagePlan { width: w, height: h, cmds })
    }
}

} // verus!
