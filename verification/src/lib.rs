//! A markup-to-document renderer: a small XML-like dialect describing pages,
//! containers, text and images is parsed, laid out with named flexbox-style
//! rules, and turned into a list of drawing commands for a paged output
//! format with a bottom-left origin.
//!
//! All geometry is carried in integer length units; the thin driver that
//! talks to the box-constraint solver and the document writer converts to
//! their native floating-point units at the very edge.

pub mod assets;
pub mod border;
pub mod document;
pub mod dom;
pub mod error;
pub mod hex_color;
pub mod layout;
pub mod page;
pub mod rect;
pub mod render;
pub mod strutil;
pub mod style;
pub mod text;

use vstd::prelude::*;

verus! {

} // verus!
