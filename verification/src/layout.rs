//! The layout tree: one node per element, each with its resolved style,
//! isomorphic to the element tree.
//!
//! The box-constraint solving itself is the driver's: it reads each node's
//! box-model fields, solves, and hands back one local rectangle per node as
//! a [`RectTree`] of the same shape. The library validates and consumes
//! that shape; it never trusts it without checking.

use vstd::prelude::*;

use crate::assets::StyleAsset;
use crate::dom::{attr_keys_unique, attrs_map, Children, Element};
use crate::error::Error;
use crate::rect::{Rect, ABS_LIMIT, DEPTH_LIMIT, RECT_LIMIT};
use crate::strutil::str_eq;
use crate::style::{is_default_style, style_bounded, style_eq, Dimension, Style};

verus! {

/// One layout node: the element's data, its resolved style, and its
/// children in document order. `text` is `Some` exactly when the element
/// held a text run.
#[derive(Debug)]
pub struct LayoutNode {
    pub name: String,
    pub attributes: Vec<(String, String)>,
    pub text: Option<String>,
    pub style: Style,
    pub children: Vec<LayoutNode>,
}

/// The solver's output: one local rectangle per node, same shape as the
/// layout tree.
#[derive(Debug)]
pub struct RectTree {
    pub rect: Rect,
    pub children: Vec<RectTree>,
}

/// The rect tree mirrors the layout tree node for node.
pub open spec fn same_shape(n: LayoutNode, r: RectTree) -> bool
    decreases n,
{
    &&& n.children@.len() == r.children@.len()
    &&& forall|i: int|
        0 <= i < n.children@.len() ==> same_shape(
            #[trigger] n.children@[i],
            r.children@[i],
        )
}

/// Every rect of the tree has bounded position and non-negative bounded
/// extent.
pub open spec fn rtree_wf(r: RectTree) -> bool
    decreases r,
{
    &&& -RECT_LIMIT <= r.rect.x <= RECT_LIMIT
    &&& -RECT_LIMIT <= r.rect.y <= RECT_LIMIT
    &&& 0 <= r.rect.width <= RECT_LIMIT
    &&& 0 <= r.rect.height <= RECT_LIMIT
    &&& forall|i: int| 0 <= i < r.children@.len() ==> rtree_wf(#[trigger] r.children@[i])
}

/// The tree is at most `k` nodes deep.
pub open spec fn height_le(n: LayoutNode, k: int) -> bool
    decreases n,
{
    &&& k >= 1
    &&& forall|i: int| 0 <= i < n.children@.len() ==> height_le(#[trigger] n.children@[i], k - 1)
}

/// Every node of the tree has a key-unique attribute list and a bounded
/// style.
pub open spec fn node_wf(n: LayoutNode) -> bool
    decreases n,
{
    &&& attr_keys_unique(n.attributes@)
    &&& style_bounded(n.style)
    &&& forall|i: int| 0 <= i < n.children@.len() ==> node_wf(#[trigger] n.children@[i])
}

/// `s` is the style the registry resolves for an element with attribute
/// map `attrs`: the style named by the `style` attribute where it is
/// registered, the fixed default otherwise.
pub open spec fn resolved_style(
    styles: Map<Seq<char>, Style>,
    attrs: Map<Seq<char>, Seq<char>>,
    s: Style,
) -> bool {
    if attrs.contains_key("style"@) && styles.contains_key(attrs["style"@]) {
        style_eq(s, styles[attrs["style"@]])
    } else {
        is_default_style(s)
    }
}

/// Style lookup is idempotent: any two styles the registry resolves for
/// the same attribute map agree in every observable field.
pub proof fn lemma_style_resolution_idempotent(
    styles: Map<Seq<char>, Style>,
    attrs: Map<Seq<char>, Seq<char>>,
    s1: Style,
    s2: Style,
)
    requires
        resolved_style(styles, attrs, s1),
        resolved_style(styles, attrs, s2),
    ensures
        style_eq(s1, s2),
{
}

/// The layout node faithfully mirrors the element: same name, same
/// attribute map, same children structure, and the style the registry
/// resolves for it.
pub open spec fn built(styles: Map<Seq<char>, Style>, e: Element, n: LayoutNode) -> bool
    decreases e,
{
    &&& n.name@ == e.name@
    &&& attr_keys_unique(n.attributes@)
    &&& attrs_map(n.attributes@) == attrs_map(e.attributes@)
    &&& resolved_style(styles, attrs_map(e.attributes@), n.style)
    &&& match e.children {
        Children::Text(t) => {
            &&& n.text matches Option::Some(t2) && t2@ == t@
            &&& n.children@.len() == 0
        },
        Children::Elements(es) => {
            &&& n.text is None
            &&& n.children@.len() == es@.len()
            &&& forall|i: int|
                0 <= i < es@.len() ==> built(styles, #[trigger] es@[i], n.children@[i])
        },
    }
}

impl LayoutNode {
    /// The style's fixed extent, when both axes resolve to points.
    pub fn get_fixed_size(&self) -> (r: Option<(i64, i64)>)
        ensures
            match r {
                Option::Some((w, h)) => self.style.size.width == Dimension::Points(w)
                    && self.style.size.height == Dimension::Points(h),
                Option::None => !(self.style.size.width is Points
                    && self.style.size.height is Points),
            },
    {
        if let (Dimension::Points(w), Dimension::Points(h)) = (
            self.style.size.width,
            self.style.size.height,
        ) {
            Option::Some((w, h))
        } else {
            Option::None
        }
    }

    /// Whether the tree is at most `k` nodes deep.
    pub fn height_within(&self, k: i64) -> (r: bool)
        ensures
            r == height_le(*self, k as int),
        decreases *self,
    {
        if k < 1 {
            return false;
        }
        let n = self.children.len();
        let mut i: usize = 0;
        while i < n
            invariant
                n == self.children@.len(),
                i <= n,
                k >= 1,
                forall|j: int| 0 <= j < i ==> height_le(#[trigger] self.children@[j], k - 1),
            decreases n - i,
        {
            if !self.children[i].height_within(k - 1) {
                return false;
            }
            i += 1;
        }
        true
    }
}

impl RectTree {
    /// Whether every rect of the tree is bounded as [`rtree_wf`] asks.
    pub fn check(&self) -> (r: bool)
        ensures
            r == rtree_wf(*self),
        decreases *self,
    {
        if !(-RECT_LIMIT <= self.rect.x && self.rect.x <= RECT_LIMIT
            && -RECT_LIMIT <= self.rect.y && self.rect.y <= RECT_LIMIT
            && 0 <= self.rect.width && self.rect.width <= RECT_LIMIT
            && 0 <= self.rect.height && self.rect.height <= RECT_LIMIT) {
            return false;
        }
        let n = self.children.len();
        let mut i: usize = 0;
        while i < n
            invariant
                n == self.children@.len(),
                i <= n,
                -RECT_LIMIT <= self.rect.x <= RECT_LIMIT,
                -RECT_LIMIT <= self.rect.y <= RECT_LIMIT,
                0 <= self.rect.width <= RECT_LIMIT,
                0 <= self.rect.height <= RECT_LIMIT,
                forall|j: int| 0 <= j < i ==> rtree_wf(#[trigger] self.children@[j]),
            decreases n - i,
        {
            if !self.children[i].check() {
                return false;
            }
            i += 1;
        }
        true
    }
}

/// Whether the rect tree has the same shape as the layout tree.
pub fn check_same_shape(n: &LayoutNode, r: &RectTree) -> (b: bool)
    ensures
        b == same_shape(*n, *r),
    decreases *n,
{
    let len = n.children.len();
    if len != r.children.len() {
        return false;
    }
    let mut i: usize = 0;
    while i < len
        invariant
            len == n.children@.len(),
            len == r.children@.len(),
            i <= len,
            forall|j: int|
                0 <= j < i ==> same_shape(#[trigger] n.children@[j], r.children@[j]),
        decreases len - i,
    {
        if !check_same_shape(&n.children[i], &r.children[i]) {
            return false;
        }
        i += 1;
    }
    true
}

/// The layout tree paired with the solver's per-node local rects.
#[derive(Debug)]
pub struct LayoutTree {
    pub root: LayoutNode,
    pub rects: RectTree,
}

impl LayoutTree {
    pub open spec fn wf(&self) -> bool {
        &&& same_shape(self.root, self.rects)
        &&& rtree_wf(self.rects)
        &&& node_wf(self.root)
        &&& height_le(self.root, DEPTH_LIMIT as int)
    }

    /// Pair a layout tree with the solver's output.
    pub fn new(root: LayoutNode, rects: RectTree) -> (t: LayoutTree)
        requires
            same_shape(root, rects),
            rtree_wf(rects),
            node_wf(root),
            height_le(root, DEPTH_LIMIT as int),
        ensures
            t.wf(),
            t.root == root,
            t.rects == rects,
    {
        LayoutTree { root, rects }
    }

    /// The page extent: the root style's fixed size, or the error that a
    /// page without fixed extents cannot be placed on a fixed canvas.
    pub fn get_root_size(&self) -> (r: Result<(i64, i64), Error>)
        ensures
            match r {
                Result::Ok((w, h)) => self.root.style.size.width == Dimension::Points(w)
                    && self.root.style.size.height == Dimension::Points(h),
                Result::Err(e) => !(self.root.style.size.width is Points
                    && self.root.style.size.height is Points)
                    && e == Error::UndefinedPageSize(),
            },
    {
        match self.root.get_fixed_size() {
            Option::Some(wh) => Result::Ok(wh),
            Option::None => Result::Err(Error::UndefinedPageSize()),
        }
    }

    /// A node's absolute top-left rect: its local rect translated by the
    /// parent's absolute rect, or the local rect unchanged at the root.
    pub fn build_absolute_rect(&self, local: &Rect, parent_rect: Option<&Rect>) -> (r: Rect)
        requires
            match parent_rect {
                Option::Some(p) => i64::MIN <= local.x + p.x <= i64::MAX && i64::MIN <= local.y
                    + p.y <= i64::MAX,
                Option::None => true,
            },
        ensures
            match parent_rect {
                Option::Some(p) => r.x == local.x + p.x && r.y == local.y + p.y && r.width
                    == local.width && r.height == local.height,
                Option::None => r == *local,
            },
    {
        match parent_rect {
            Option::Some(p) => local.add_position(p),
            Option::None => *local,
        }
    }

    /// Flip a top-left absolute rect into the bottom-left base of the page,
    /// using the root's fixed height; fails when the page has none.
    pub fn build_bottom_left_base_rect(&self, rect: &Rect) -> (r: Result<Rect, Error>)
        requires
            self.wf(),
            -ABS_LIMIT <= rect.y <= ABS_LIMIT,
            0 <= rect.height <= RECT_LIMIT,
        ensures
            match r {
                Result::Ok(b) => self.root.style.size.height == Dimension::Points(
                    (b.y + rect.y + rect.height) as i64,
                ) && b.x == rect.x && b.width == rect.width && b.height == rect.height
                    && self.root.style.size.width is Points,
                Result::Err(e) => !(self.root.style.size.width is Points
                    && self.root.style.size.height is Points)
                    && e == Error::UndefinedPageSize(),
            },
    {
        let (_w, h) = match self.get_root_size() {
            Result::Ok(wh) => wh,
            Result::Err(e) => {
                return Result::Err(e);
            },
        };
        assert(-RECT_LIMIT <= h <= RECT_LIMIT);
        Result::Ok(rect.to_bottom_left_base(h))
    }
}

/// Builds a [`LayoutNode`] tree from an element tree, resolving each
/// element's style from the registry.
#[derive(Debug)]
pub struct LayoutTreeBuilder {}

impl LayoutTreeBuilder {
    pub fn new() -> (b: LayoutTreeBuilder) {
        LayoutTreeBuilder {}
    }

    /// The style an element resolves to: the one its `style` attribute
    /// names where registered, the fixed default otherwise.
    pub fn find_style(styles: &StyleAsset, element: &Element) -> (s: Style)
        requires
            styles.wf(),
            attr_keys_unique(element.attributes@),
        ensures
            resolved_style(styles@, attrs_map(element.attributes@), s),
            style_bounded(s),
    {
        match crate::dom::get_attr(element, "style") {
            Option::Some(key) => {
                match styles.get(key.as_str()) {
                    Option::Some(st) => st.clone(),
                    Option::None => Style::default(),
                }
            },
            Option::None => Style::default(),
        }
    }

    /// One node per element, same structure, styles resolved.
    pub fn build(&self, styles: &StyleAsset, root: &Element) -> (n: LayoutNode)
        requires
            styles.wf(),
            crate::dom::elem_wf(*root),
        ensures
            built(styles@, *root, n),
            node_wf(n),
    {
        walk(styles, root)
    }
}

/// Depth-first construction of the layout tree.
fn walk(styles: &StyleAsset, current: &Element) -> (n: LayoutNode)
    requires
        styles.wf(),
        crate::dom::elem_wf(*current),
    ensures
        built(styles@, *current, n),
        node_wf(n),
    decreases *current,
{
    let style = LayoutTreeBuilder::find_style(styles, current);
    let name = current.name.clone();
    let attributes = clone_attrs(&current.attributes);
    proof {
        lemma_attrs_map_views(current.attributes@, attributes@);
    }
    match &current.children {
        Children::Text(t) => {
            LayoutNode {
                name,
                attributes,
                text: Option::Some(t.clone()),
                style,
                children: Vec::new(),
            }
        },
        Children::Elements(es) => {
            let len = es.len();
            let mut children: Vec<LayoutNode> = Vec::new();
            let mut i: usize = 0;
            while i < len
                invariant
                    styles.wf(),
                    crate::dom::elem_wf(*current),
                    current.children matches Children::Elements(es2) && es2 == es,
                    len == es@.len(),
                    i <= len,
                    children@.len() == i,
                    forall|j: int|
                        0 <= j < i ==> built(styles@, #[trigger] es@[j], children@[j])
                            && node_wf(children@[j]),
                decreases len - i,
            {
                assert(crate::dom::elem_wf(es@[i as int]));
                let child = walk(styles, &es[i]);
                children.push(child);
                i += 1;
            }
            let node = LayoutNode { name, attributes, text: Option::None, style, children };
            proof {
                assert forall|j: int|
                    0 <= j < node.children@.len() implies node_wf(
                    #[trigger] node.children@[j],
                ) by {
                    assert(built(styles@, es@[j], node.children@[j]));
                }
            }
            node
        },
    }
}

/// Copy an attribute list, keeping each pair's character content.
fn clone_attrs(v: &Vec<(String, String)>) -> (r: Vec<(String, String)>)
    ensures
        r@.len() == v@.len(),
        forall|i: int|
            0 <= i < v@.len() ==> (#[trigger] r@[i]).0@ == v@[i].0@ && r@[i].1@ == v@[i].1@,
{
    let len = v.len();
    let mut r: Vec<(String, String)> = Vec::new();
    let mut i: usize = 0;
    while i < len
        invariant
            len == v@.len(),
            i <= len,
            r@.len() == i,
            forall|j: int|
                0 <= j < i ==> (#[trigger] r@[j]).0@ == v@[j].0@ && r@[j].1@ == v@[j].1@,
        decreases len - i,
    {
        r.push((v[i].0.clone(), v[i].1.clone()));
        i += 1;
    }
    r
}

/// Two pairwise view-equal attribute lists denote the same map and agree
/// on key uniqueness.
proof fn lemma_attrs_map_views(a: Seq<(String, String)>, b: Seq<(String, String)>)
    requires
        a.len() == b.len(),
        forall|i: int| 0 <= i < a.len() ==> (#[trigger] b[i]).0@ == a[i].0@ && b[i].1@ == a[i].1@,
    ensures
        attrs_map(a) =~= attrs_map(b),
        attr_keys_unique(a) ==> attr_keys_unique(b),
    decreases a.len(),
{
    if a.len() > 0 {
        assert(forall|i: int|
            0 <= i < a.drop_last().len() ==> (#[trigger] b.drop_last()[i]).0@
                == a.drop_last()[i].0@ && b.drop_last()[i].1@ == a.drop_last()[i].1@);
        lemma_attrs_map_views(a.drop_last(), b.drop_last());
    }
}

} // verus!
