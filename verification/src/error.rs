//! The error taxonomy of the pipeline.
//!
//! Every phase stops at its first error; there is no partial output. Each
//! variant carries the offending element name and, where applicable, the
//! missing key or attribute name.

use vstd::prelude::*;

verus! {

#[derive(Debug, Clone, PartialEq)]
pub enum Error {
    /// An element of the first name stood where only the second was allowed.
    NotSupportElement(String, String),
    /// A child name outside the closed renderable set {Layer, Text, Image}.
    UnknownChild(String),
    /// The page style does not resolve both width and height to points.
    UndefinedPageSize(),
    /// The named attribute (second field) is required on the named element.
    RequiredAttribute(String, String),
    /// The `src` key names no registered image.
    ImageAssetNotFound(String),
    /// The style's font family names no registered font.
    FontAssetNotFound(String),
    /// An element required to hold only text holds elements, or vice versa.
    InvalidChildren(String),
}

/// A malformed-markup error; `pos` is a character offset into the input at
/// which parsing could not continue.
#[derive(Debug, Clone, Copy, PartialEq, Eq, Structural)]
pub struct ParseError {
    pub pos: usize,
}

} // verus!
