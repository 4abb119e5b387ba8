//! The document: the markup root and its pages.
//!
//! The root element must be named `Document`; its optional `title`
//! attribute defaults to `"Untitled"`; its children are the pages, each of
//! which must be a `Page` element.

use vstd::prelude::*;

use crate::dom::{attr_keys_unique, attrs_map, get_attr, validate_name, Children, Element};
use crate::error::Error;

verus! {

/// The output title: the `title` attribute, or `"Untitled"`.
pub open spec fn spec_title(attrs: Map<Seq<char>, Seq<char>>) -> Seq<char> {
    if attrs.contains_key("title"@) {
        attrs["title"@]
    } else {
        "Untitled"@
    }
}

/// The page elements: the root's children, in order; none when the root
/// holds a text run.
pub open spec fn spec_pages(e: Element) -> Seq<Element> {
    match e.children {
        Children::Elements(es) => es@,
        Children::Text(_) => Seq::empty(),
    }
}

/// A validated document root.
#[derive(Debug)]
pub struct Document {
    pub root: Element,
}

impl Document {
    /// Accept only a root element named `Document`.
    pub fn new(root: Element) -> (r: Result<Document, Error>)
        ensures
            match r {
                Result::Ok(d) => d.root == root && root.name@ == "Document"@,
                Result::Err(e) => root.name@ != "Document"@ && (e
                    matches Error::NotSupportElement(n, x) && n@ == root.name@ && x@
                    == "Document"@),
            },
    {
        match validate_name(&root, "Document") {
            Result::Ok(()) => Result::Ok(Document { root }),
            Result::Err(e) => Result::Err(e),
        }
    }

    /// The document title, `"Untitled"` where the attribute is absent.
    pub fn title(&self) -> (t: String)
        requires
            attr_keys_unique(self.root.attributes@),
        ensures
            t@ == spec_title(attrs_map(self.root.attributes@)),
    {
        match get_attr(&self.root, "title") {
            Option::Some(t) => t,
            Option::None => {
                let s: &str = "Untitled";
                s.to_owned()
            },
        }
    }

    /// How many page elements the document holds.
    pub fn page_count(&self) -> (c: usize)
        ensures
            c == spec_pages(self.root).len(),
    {
        match &self.root.children {
            Children::Elements(es) => es.len(),
            Children::Text(_) => 0,
        }
    }

    /// The `i`-th page element.
    pub fn page(&self, i: usize) -> (p: &Element)
        requires
            i < spec_pages(self.root).len(),
        ensures
            *p == spec_pages(self.root)[i as int],
    {
        match &self.root.children {
            Children::Elements(es) => &es[i],
            Children::Text(_) => {
                proof {
                    assert(false);
                }
                &self.root
            },
        }
    }
}

} // verus!
