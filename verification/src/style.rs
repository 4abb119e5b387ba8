//! Named flexbox-style rules.
//!
//! A style carries the box-model fields the layout solver consumes and the
//! visual and typographic fields the renderer consumes. All lengths are in
//! integer length units; fractional factors such as `flex_grow` are carried
//! in thousandths.

use vstd::prelude::*;

verus! {

/// One axis extent: undefined, automatic, or a fixed number of units.
#[derive(Debug, Clone, Copy, PartialEq, Eq, Structural)]
pub enum Dimension {
    Undefined,
    Auto,
    Points(i64),
}

/// Four per-side extents (position offsets, margin, padding, border).
#[derive(Debug, Clone, Copy, PartialEq, Eq, Structural)]
pub struct DimRect {
    pub left: Dimension,
    pub right: Dimension,
    pub top: Dimension,
    pub bottom: Dimension,
}

/// A two-axis extent.
#[derive(Debug, Clone, Copy, PartialEq, Eq, Structural)]
pub struct DimSize {
    pub width: Dimension,
    pub height: Dimension,
}

#[derive(Debug, Clone, Copy, PartialEq, Eq, Structural)]
pub enum Display {
    Flex,
    /// Not laid out and not drawn (the solver's display-none).
    Hidden,
}

#[derive(Debug, Clone, Copy, PartialEq, Eq, Structural)]
pub enum PositionType {
    Relative,
    Absolute,
}

#[derive(Debug, Clone, Copy, PartialEq, Eq, Structural)]
pub enum FlexDirection {
    Row,
    Column,
    RowReverse,
    ColumnReverse,
}

#[derive(Debug, Clone, Copy, PartialEq, Eq, Structural)]
pub enum FlexWrap {
    NoWrap,
    Wrap,
    WrapReverse,
}

#[derive(Debug, Clone, Copy, PartialEq, Eq, Structural)]
pub enum AlignItems {
    FlexStart,
    FlexEnd,
    Center,
    Baseline,
    Stretch,
}

#[derive(Debug, Clone, Copy, PartialEq, Eq, Structural)]
pub enum AlignSelf {
    Auto,
    FlexStart,
    FlexEnd,
    Center,
    Baseline,
    Stretch,
}

#[derive(Debug, Clone, Copy, PartialEq, Eq, Structural)]
pub enum AlignContent {
    FlexStart,
    FlexEnd,
    Center,
    Stretch,
    SpaceBetween,
    SpaceEvenly,
    SpaceAround,
}

#[derive(Debug, Clone, Copy, PartialEq, Eq, Structural)]
pub enum JustifyContent {
    FlexStart,
    FlexEnd,
    Center,
    SpaceBetween,
    SpaceEvenly,
    SpaceAround,
}

/// A resolved style: box-model fields for the solver, visual and
/// typographic fields for the renderer.
#[derive(Debug)]
pub struct Style {
    pub display: Display,
    pub position_type: PositionType,
    pub flex_direction: FlexDirection,
    pub flex_wrap: FlexWrap,
    pub align_items: AlignItems,
    pub align_self: AlignSelf,
    pub align_content: AlignContent,
    pub justify_content: JustifyContent,
    pub position: DimRect,
    pub margin: DimRect,
    pub padding: DimRect,
    pub border: DimRect,
    pub gap: DimSize,
    /// Thousandths: `1000` is a grow factor of one.
    pub flex_grow: i64,
    /// Thousandths: `1000` is a shrink factor of one.
    pub flex_shrink: i64,
    pub flex_basis: Dimension,
    pub size: DimSize,
    pub min_size: DimSize,
    pub max_size: DimSize,
    /// Thousandths of the width-to-height ratio, if constrained.
    pub aspect_ratio: Option<i64>,
    /// A `#RRGGBB` string, painted behind the element when set.
    pub background_color: Option<String>,
    /// A `#RRGGBB` string; border edges are drawn only when set.
    pub border_color: Option<String>,
    pub font_size: i64,
    pub font_family: String,
    pub line_height: i64,
}

/// The four-sided undefined extent.
pub open spec fn dim_rect_undefined() -> DimRect {
    DimRect {
        left: Dimension::Undefined,
        right: Dimension::Undefined,
        top: Dimension::Undefined,
        bottom: Dimension::Undefined,
    }
}

/// The two-axis automatic extent.
pub open spec fn dim_size_auto() -> DimSize {
    DimSize { width: Dimension::Auto, height: Dimension::Auto }
}

/// The single fixed default style substituted on any style-lookup miss.
pub open spec fn is_default_style(s: Style) -> bool {
    &&& s.display == Display::Flex
    &&& s.position_type == PositionType::Relative
    &&& s.flex_direction == FlexDirection::Row
    &&& s.flex_wrap == FlexWrap::NoWrap
    &&& s.align_items == AlignItems::Stretch
    &&& s.align_self == AlignSelf::Auto
    &&& s.align_content == AlignContent::Stretch
    &&& s.justify_content == JustifyContent::FlexStart
    &&& s.position == dim_rect_undefined()
    &&& s.margin == dim_rect_undefined()
    &&& s.padding == dim_rect_undefined()
    &&& s.border == dim_rect_undefined()
    &&& s.gap == (DimSize { width: Dimension::Undefined, height: Dimension::Undefined })
    &&& s.flex_grow == 0
    &&& s.flex_shrink == 1000
    &&& s.flex_basis == Dimension::Auto
    &&& s.size == dim_size_auto()
    &&& s.min_size == dim_size_auto()
    &&& s.max_size == dim_size_auto()
    &&& s.aspect_ratio is None
    &&& s.background_color is None
    &&& s.border_color is None
    &&& s.font_size == 14
    &&& s.font_family@ == "default"@
    &&& s.line_height == 16
}

/// A fixed extent the geometry can sum without overflow.
pub open spec fn dim_bounded(d: Dimension) -> bool {
    match d {
        Dimension::Points(v) => -crate::rect::RECT_LIMIT <= v <= crate::rect::RECT_LIMIT,
        _ => true,
    }
}

pub open spec fn dim_rect_bounded(r: DimRect) -> bool {
    dim_bounded(r.left) && dim_bounded(r.right) && dim_bounded(r.top) && dim_bounded(r.bottom)
}

pub open spec fn dim_size_bounded(s: DimSize) -> bool {
    dim_bounded(s.width) && dim_bounded(s.height)
}

/// Every length a style carries fits the geometry's working range.
pub open spec fn style_bounded(s: Style) -> bool {
    &&& dim_rect_bounded(s.position)
    &&& dim_rect_bounded(s.margin)
    &&& dim_rect_bounded(s.padding)
    &&& dim_rect_bounded(s.border)
    &&& dim_size_bounded(s.gap)
    &&& dim_bounded(s.flex_basis)
    &&& dim_size_bounded(s.size)
    &&& dim_size_bounded(s.min_size)
    &&& dim_size_bounded(s.max_size)
    &&& 0 <= s.font_size <= crate::text::MAX_ADVANCE
    &&& 0 <= s.line_height <= crate::rect::RECT_LIMIT
}

/// Equality of two styles up to the character content of their strings.
pub open spec fn style_eq(a: Style, b: Style) -> bool {
    &&& a.display == b.display
    &&& a.position_type == b.position_type
    &&& a.flex_direction == b.flex_direction
    &&& a.flex_wrap == b.flex_wrap
    &&& a.align_items == b.align_items
    &&& a.align_self == b.align_self
    &&& a.align_content == b.align_content
    &&& a.justify_content == b.justify_content
    &&& a.position == b.position
    &&& a.margin == b.margin
    &&& a.padding == b.padding
    &&& a.border == b.border
    &&& a.gap == b.gap
    &&& a.flex_grow == b.flex_grow
    &&& a.flex_shrink == b.flex_shrink
    &&& a.flex_basis == b.flex_basis
    &&& a.size == b.size
    &&& a.min_size == b.min_size
    &&& a.max_size == b.max_size
    &&& a.aspect_ratio == b.aspect_ratio
    &&& opt_string_eq(a.background_color, b.background_color)
    &&& opt_string_eq(a.border_color, b.border_color)
    &&& a.font_size == b.font_size
    &&& a.font_family@ == b.font_family@
    &&& a.line_height == b.line_height
}

/// View equality of two optional strings.
pub open spec fn opt_string_eq(a: Option<String>, b: Option<String>) -> bool {
    match (a, b) {
        (Option::Some(x), Option::Some(y)) => x@ == y@,
        (Option::None, Option::None) => true,
        _ => false,
    }
}

impl Clone for Style {
    /// A clone keeps every field, up to the character content of strings.
    fn clone(&self) -> (r: Self)
        ensures
            style_eq(*self, r),
    {
        Style {
            display: self.display,
            position_type: self.position_type,
            flex_direction: self.flex_direction,
            flex_wrap: self.flex_wrap,
            align_items: self.align_items,
            align_self: self.align_self,
            align_content: self.align_content,
            justify_content: self.justify_content,
            position: self.position,
            margin: self.margin,
            padding: self.padding,
            border: self.border,
            gap: self.gap,
            flex_grow: self.flex_grow,
            flex_shrink: self.flex_shrink,
            flex_basis: self.flex_basis,
            size: self.size,
            min_size: self.min_size,
            max_size: self.max_size,
            aspect_ratio: self.aspect_ratio,
            background_color: clone_opt_string(&self.background_color),
            border_color: clone_opt_string(&self.border_color),
            font_size: self.font_size,
            font_family: self.font_family.clone(),
            line_height: self.line_height,
        }
    }
}

/// Clone an optional string, keeping its character content.
fn clone_opt_string(s: &Option<String>) -> (r: Option<String>)
    ensures
        opt_string_eq(*s, r),
{
    match s {
        Option::Some(x) => Option::Some(x.clone()),
        Option::None => Option::None,
    }
}

impl Default for Style {
    /// The fixed default style.
    fn default() -> (r: Style)
        ensures
            is_default_style(r),
    {
        Style {
            display: Display::Flex,
            position_type: PositionType::Relative,
            flex_direction: FlexDirection::Row,
            flex_wrap: FlexWrap::NoWrap,
            align_items: AlignItems::Stretch,
            align_self: AlignSelf::Auto,
            align_content: AlignContent::Stretch,
            justify_content: JustifyContent::FlexStart,
            position: DimRect {
                left: Dimension::Undefined,
                right: Dimension::Undefined,
                top: Dimension::Undefined,
                bottom: Dimension::Undefined,
            },
            margin: DimRect {
                left: Dimension::Undefined,
                right: Dimension::Undefined,
                top: Dimension::Undefined,
                bottom: Dimension::Undefined,
            },
            padding: DimRect {
                left: Dimension::Undefined,
                right: Dimension::Undefined,
                top: Dimension::Undefined,
                bottom: Dimension::Undefined,
            },
            border: DimRect {
                left: Dimension::Undefined,
                right: Dimension::Undefined,
                top: Dimension::Undefined,
                bottom: Dimension::Undefined,
            },
            gap: DimSize { width: Dimension::Undefined, height: Dimension::Undefined },
            flex_grow: 0,
            flex_shrink: 1000,
            flex_basis: Dimension::Auto,
            size: DimSize { width: Dimension::Auto, height: Dimension::Auto },
            min_size: DimSize { width: Dimension::Auto, height: Dimension::Auto },
            max_size: DimSize { width: Dimension::Auto, height: Dimension::Auto },
            aspect_ratio: Option::None,
            background_color: Option::None,
            border_color: Option::None,
            font_size: 14,
            font_family: default_font_family(),
            line_height: 16,
        }
    }
}

/// The font-family key substituted when a style names none.
pub fn default_font_family() -> (r: String)
    ensures
        r@ == "default"@,
{
    let s: &str = "default";
    s.to_owned()
}

} // verus!
