//! The element tree of the markup dialect.
//!
//! An element holds a name, a set of attributes, and either a text run or
//! one or more child elements — never both. Attributes are kept as a
//! key-unique list of pairs; their order is irrelevant, and contracts speak
//! of them through the map view [`attrs_map`].

use vstd::prelude::*;

use crate::error::{Error, ParseError};
use crate::strutil::string_eq_str;

verus! {

/// Exactly one of: an ordered list of child elements, or a text run.
#[derive(Debug, PartialEq)]
pub enum Children {
    Elements(Vec<Element>),
    Text(String),
}

/// A parsed markup node.
#[derive(Debug, PartialEq)]
pub struct Element {
    pub name: String,
    pub attributes: Vec<(String, String)>,
    pub children: Children,
}

/// The mapping an attribute list denotes; a later pair with the same key
/// would win, though well-formed lists have unique keys.
pub open spec fn attrs_map(s: Seq<(String, String)>) -> Map<Seq<char>, Seq<char>>
    decreases s.len(),
{
    if s.len() == 0 {
        Map::empty()
    } else {
        attrs_map(s.drop_last()).insert(s.last().0@, s.last().1@)
    }
}

/// No two pairs share a key.
pub open spec fn attr_keys_unique(s: Seq<(String, String)>) -> bool {
    forall|i: int, j: int| 0 <= i < j < s.len() ==> s[i].0@ != s[j].0@
}

/// Every element of the tree has a key-unique attribute list.
pub open spec fn elem_wf(e: Element) -> bool
    decreases e,
{
    &&& attr_keys_unique(e.attributes@)
    &&& match e.children {
        Children::Elements(es) => forall|i: int|
            0 <= i < es@.len() ==> elem_wf(#[trigger] es@[i]),
        Children::Text(_) => true,
    }
}

/// A key present in the list maps, in the map view, to that pair's value.
pub proof fn lemma_attrs_map_present(s: Seq<(String, String)>, i: int)
    requires
        attr_keys_unique(s),
        0 <= i < s.len(),
    ensures
        attrs_map(s).contains_key(s[i].0@),
        attrs_map(s)[s[i].0@] == s[i].1@,
    decreases s.len(),
{
    if i + 1 < s.len() {
        assert(s.drop_last()[i] == s[i]);
        lemma_attrs_map_present(s.drop_last(), i);
    }
}

/// A key no pair carries is absent from the map view.
pub proof fn lemma_attrs_map_absent(s: Seq<(String, String)>, k: Seq<char>)
    requires
        forall|i: int| 0 <= i < s.len() ==> #[trigger] s[i].0@ != k,
    ensures
        !attrs_map(s).contains_key(k),
    decreases s.len(),
{
    if s.len() > 0 {
        assert(forall|i: int|
            0 <= i < s.drop_last().len() ==> #[trigger] s.drop_last()[i].0@ != k);
        lemma_attrs_map_absent(s.drop_last(), k);
    }
}

/// The mathematical value of a `Children`.
pub enum ChildrenV {
    Elements(Seq<ElementV>),
    Text(Seq<char>),
}

/// The mathematical value of an `Element`: its name and attribute map, and
/// its children. Attribute order is abstracted away.
pub struct ElementV {
    pub name: Seq<char>,
    pub attributes: Map<Seq<char>, Seq<char>>,
    pub children: ChildrenV,
}

/// The element denotes the mathematical value `v`: same name, the same
/// attribute map (attribute order abstracted away), and matching children.
pub open spec fn elem_matches(e: Element, v: ElementV) -> bool
    decreases e,
{
    &&& v.name == e.name@
    &&& v.attributes == attrs_map(e.attributes@)
    &&& match e.children {
        Children::Text(t) => v.children matches ChildrenV::Text(tv) && tv == t@,
        Children::Elements(es) => {
            &&& v.children matches ChildrenV::Elements(vs)
            &&& vs.len() == es@.len()
            &&& forall|i: int|
                0 <= i < es@.len() ==> elem_matches(#[trigger] es@[i], vs[i])
        },
    }
}

/// Whitespace skipped around tags, names and attribute lists.
pub open spec fn is_ws_char(c: char) -> bool {
    c == ' ' || c == '\t' || c == '\n' || c == '\r'
}

/// An ASCII letter: what a name may start with.
pub open spec fn is_alpha_char(c: char) -> bool {
    (97 <= c as u32 <= 122) || (65 <= c as u32 <= 90)
}

/// An ASCII letter or digit: what a name is made of.
pub open spec fn is_alnum_char(c: char) -> bool {
    is_alpha_char(c) || (48 <= c as u32 <= 57)
}

/// What an attribute value is made of: letters, digits and hyphens.
pub open spec fn is_attr_char(c: char) -> bool {
    is_alnum_char(c) || c == '-'
}

/// The first position at or after `i` holding no whitespace.
pub open spec fn skip_ws(s: Seq<char>, i: int) -> int
    decreases s.len() - i,
    when 0 <= i <= s.len()
{
    if i < s.len() && is_ws_char(s[i]) {
        skip_ws(s, i + 1)
    } else {
        i
    }
}

/// The first position at or after `i` holding no letter or digit.
pub open spec fn scan_alnum(s: Seq<char>, i: int) -> int
    decreases s.len() - i,
    when 0 <= i <= s.len()
{
    if i < s.len() && is_alnum_char(s[i]) {
        scan_alnum(s, i + 1)
    } else {
        i
    }
}

/// The first position at or after `i` holding no attribute-value
/// character.
pub open spec fn scan_attr_value(s: Seq<char>, i: int) -> int
    decreases s.len() - i,
    when 0 <= i <= s.len()
{
    if i < s.len() && is_attr_char(s[i]) {
        scan_attr_value(s, i + 1)
    } else {
        i
    }
}

/// The first position at or after `i` holding `<`, or the end.
pub open spec fn scan_text(s: Seq<char>, i: int) -> int
    decreases s.len() - i,
    when 0 <= i <= s.len()
{
    if i < s.len() && s[i] != '<' {
        scan_text(s, i + 1)
    } else {
        i
    }
}

/// All four scanners stay within `[i, s.len()]`.
pub proof fn lemma_scan_bounds(s: Seq<char>, i: int)
    requires
        0 <= i <= s.len(),
    ensures
        i <= skip_ws(s, i) <= s.len(),
        i <= scan_alnum(s, i) <= s.len(),
        i <= scan_attr_value(s, i) <= s.len(),
        i <= scan_text(s, i) <= s.len(),
    decreases s.len() - i,
{
    if i < s.len() {
        lemma_scan_bounds(s, i + 1);
    }
}

/// The characters a scanner ran over are all of its class.
proof fn lemma_scan_alnum_chars(s: Seq<char>, i: int)
    requires
        0 <= i <= s.len(),
    ensures
        forall|k: int| i <= k < scan_alnum(s, i) ==> is_alnum_char(#[trigger] s[k]),
    decreases s.len() - i,
{
    if i < s.len() && is_alnum_char(s[i]) {
        lemma_scan_alnum_chars(s, i + 1);
    }
}

proof fn lemma_scan_attr_chars(s: Seq<char>, i: int)
    requires
        0 <= i <= s.len(),
    ensures
        forall|k: int| i <= k < scan_attr_value(s, i) ==> is_attr_char(#[trigger] s[k]),
    decreases s.len() - i,
{
    if i < s.len() && is_attr_char(s[i]) {
        lemma_scan_attr_chars(s, i + 1);
    }
}

proof fn lemma_scan_text_chars(s: Seq<char>, i: int)
    requires
        0 <= i <= s.len(),
    ensures
        forall|k: int| i <= k < scan_text(s, i) ==> #[trigger] s[k] != '<',
    decreases s.len() - i,
{
    if i < s.len() && s[i] != '<' {
        lemma_scan_text_chars(s, i + 1);
    }
}

/// The whitespace skip stops on a non-whitespace character or at the end.
proof fn lemma_skip_ws_stop(s: Seq<char>, i: int)
    requires
        0 <= i <= s.len(),
    ensures
        skip_ws(s, i) < s.len() ==> !is_ws_char(s[skip_ws(s, i)]),
    decreases s.len() - i,
{
    if i < s.len() && is_ws_char(s[i]) {
        lemma_skip_ws_stop(s, i + 1);
    }
}

/// A tag or attribute name: one or more letters or digits, the first a
/// letter.
pub open spec fn parse_name(s: Seq<char>, i: int) -> Option<(Seq<char>, int)> {
    let j = scan_alnum(s, i);
    if 0 <= i && i < j && is_alpha_char(s[i]) {
        Option::Some((s.subrange(i, j), j))
    } else {
        Option::None
    }
}

/// A double-quoted attribute value, possibly empty.
pub open spec fn parse_quoted(s: Seq<char>, i: int) -> Option<(Seq<char>, int)> {
    if 0 <= i && i < s.len() && s[i] == '"' {
        let j = scan_attr_value(s, i + 1);
        if j < s.len() && s[j] == '"' {
            Option::Some((s.subrange(i + 1, j), j + 1))
        } else {
            Option::None
        }
    } else {
        Option::None
    }
}

/// One `name="value"` attribute.
pub open spec fn parse_attribute(s: Seq<char>, i: int) -> Option<((Seq<char>, Seq<char>), int)> {
    match parse_name(s, i) {
        Option::None => Option::None,
        Option::Some((k, j)) => if j < s.len() && s[j] == '=' {
            match parse_quoted(s, j + 1) {
                Option::None => Option::None,
                Option::Some((v, l)) => Option::Some(((k, v), l)),
            }
        } else {
            Option::None
        },
    }
}

/// A successful attribute parse consumes at least one character.
pub proof fn lemma_parse_attribute_advances(s: Seq<char>, i: int)
    requires
        0 <= i <= s.len(),
    ensures
        match parse_attribute(s, i) {
            Option::Some((_, l)) => i < l <= s.len(),
            Option::None => true,
        },
{
    lemma_scan_bounds(s, i);
    if parse_name(s, i) is Some {
        let j = parse_name(s, i)->Some_0.1;
        if j < s.len() && s[j] == '=' && j + 1 < s.len() && s[j + 1] == '"' {
            lemma_scan_bounds(s, j + 2);
        }
    }
}

/// The attribute list after a tag name: attributes separated by
/// whitespace, each preceded by at least one whitespace character, the
/// trailing whitespace consumed. Later repetitions of a key overwrite
/// earlier ones.
pub open spec fn parse_attrs(
    s: Seq<char>,
    i: int,
    m: Map<Seq<char>, Seq<char>>,
) -> (Map<Seq<char>, Seq<char>>, int)
    decreases s.len() - i,
    when 0 <= i <= s.len()
    via parse_attrs_decreases
{
    let j = skip_ws(s, i);
    if j > i {
        match parse_attribute(s, j) {
            Option::Some(((k, v), l)) => parse_attrs(s, l, m.insert(k, v)),
            Option::None => (m, j),
        }
    } else {
        (m, i)
    }
}

#[via_fn]
proof fn parse_attrs_decreases(s: Seq<char>, i: int, m: Map<Seq<char>, Seq<char>>) {
    if 0 <= i <= s.len() {
        lemma_scan_bounds(s, i);
        lemma_parse_attribute_advances(s, skip_ws(s, i));
    }
}

/// The attribute list ends within the input.
pub proof fn lemma_parse_attrs_bounds(s: Seq<char>, i: int, m: Map<Seq<char>, Seq<char>>)
    requires
        0 <= i <= s.len(),
    ensures
        i <= parse_attrs(s, i, m).1 <= s.len(),
    decreases s.len() - i,
{
    lemma_scan_bounds(s, i);
    let j = skip_ws(s, i);
    if j > i {
        lemma_parse_attribute_advances(s, j);
        match parse_attribute(s, j) {
            Option::Some(((k, v), l)) => {
                lemma_parse_attrs_bounds(s, l, m.insert(k, v));
            },
            Option::None => {},
        }
    }
}

/// An open tag at `i`: surrounding whitespace, `<`, the name, the
/// attribute list, then either `/>` (self-closing, last flag true) or `>`.
/// Returns the position just past the closing delimiter.
pub open spec fn parse_open(s: Seq<char>, i: int) -> Option<
    (Seq<char>, Map<Seq<char>, Seq<char>>, int, bool),
> {
    let a = skip_ws(s, i);
    if a < s.len() && s[a] == '<' {
        match parse_name(s, skip_ws(s, a + 1)) {
            Option::None => Option::None,
            Option::Some((name, c)) => {
                let ad = parse_attrs(s, c, Map::empty());
                let d = ad.1;
                if d + 1 < s.len() && s[d] == '/' && s[d + 1] == '>' {
                    Option::Some((name, ad.0, d + 2, true))
                } else if d < s.len() && s[d] == '>' {
                    Option::Some((name, ad.0, d + 1, false))
                } else {
                    Option::None
                }
            },
        }
    } else {
        Option::None
    }
}

/// A successful open tag consumes at least one character.
pub proof fn lemma_parse_open_advances(s: Seq<char>, i: int)
    requires
        0 <= i <= s.len(),
    ensures
        match parse_open(s, i) {
            Option::Some((_, _, j, _)) => i < j <= s.len(),
            Option::None => true,
        },
{
    lemma_scan_bounds(s, i);
    let a = skip_ws(s, i);
    if a < s.len() && s[a] == '<' {
        lemma_scan_bounds(s, a + 1);
        let b = skip_ws(s, a + 1);
        lemma_scan_bounds(s, b);
        match parse_name(s, b) {
            Option::Some((name, c)) => {
                lemma_parse_attrs_bounds(s, c, Map::empty());
            },
            Option::None => {},
        }
    }
}

/// A close tag for `name` at `i`: whitespace, `</`, whitespace, the exact
/// name, whitespace, `>`. Returns the position just past the `>`.
pub open spec fn parse_close(s: Seq<char>, i: int, name: Seq<char>) -> Option<int> {
    let a = skip_ws(s, i);
    if a + 1 < s.len() && s[a] == '<' && s[a + 1] == '/' {
        let b = skip_ws(s, a + 2);
        if b + name.len() <= s.len() && s.subrange(b, b + name.len() as int) == name {
            let c = skip_ws(s, b + name.len());
            if c < s.len() && s[c] == '>' {
                Option::Some(c + 1)
            } else {
                Option::None
            }
        } else {
            Option::None
        }
    } else {
        Option::None
    }
}

/// A successful close tag consumes at least one character.
pub proof fn lemma_parse_close_advances(s: Seq<char>, i: int, name: Seq<char>)
    requires
        0 <= i <= s.len(),
    ensures
        match parse_close(s, i, name) {
            Option::Some(l) => i < l <= s.len(),
            Option::None => true,
        },
{
    lemma_scan_bounds(s, i);
    let a = skip_ws(s, i);
    if a + 1 < s.len() && s[a] == '<' && s[a + 1] == '/' {
        lemma_scan_bounds(s, a + 2);
        let b = skip_ws(s, a + 2);
        if b + name.len() <= s.len() && s.subrange(b, b + name.len() as int) == name {
            lemma_scan_bounds(s, b + name.len());
        }
    }
}

/// An element at `i`, with fuel bounding the recursion depth: either a
/// self-closing tag (empty text children) or an open tag, children, and
/// the matching close tag. Trailing whitespace is consumed.
pub open spec fn parse_element_at(s: Seq<char>, i: int, fuel: nat) -> Option<(ElementV, int)>
    decreases fuel, 0int,
{
    if fuel == 0 {
        Option::None
    } else {
        match parse_open(s, i) {
            Option::None => Option::None,
            Option::Some((name, attrs, j, sc)) => if sc {
                Option::Some(
                    (
                        ElementV {
                            name,
                            attributes: attrs,
                            children: ChildrenV::Text(Seq::empty()),
                        },
                        skip_ws(s, j),
                    ),
                )
            } else {
                let ck = parse_children(s, skip_ws(s, j), (fuel - 1) as nat);
                match parse_close(s, ck.1, name) {
                    Option::None => Option::None,
                    Option::Some(l) => Option::Some(
                        (
                            ElementV { name, attributes: attrs, children: ck.0 },
                            skip_ws(s, l),
                        ),
                    ),
                }
            },
        }
    }
}

/// One or more elements in sequence, greedily.
pub open spec fn parse_elements(s: Seq<char>, i: int, fuel: nat) -> Option<
    (Seq<ElementV>, int),
>
    decreases fuel, 1int,
{
    if fuel == 0 {
        Option::None
    } else {
        match parse_element_at(s, i, fuel) {
            Option::None => Option::None,
            Option::Some((e, j)) => match parse_elements(s, j, (fuel - 1) as nat) {
                Option::None => Option::Some((seq![e], j)),
                Option::Some((rest, k)) => Option::Some((seq![e] + rest, k)),
            },
        }
    }
}

/// The children of a paired element: one or more elements, or, where no
/// element parses, the text up to the next `<` (possibly empty).
pub open spec fn parse_children(s: Seq<char>, i: int, fuel: nat) -> (ChildrenV, int)
    decreases fuel, 2int,
{
    match parse_elements(s, i, fuel) {
        Option::Some((es, j)) => (ChildrenV::Elements(es), j),
        Option::None => (ChildrenV::Text(s.subrange(i, scan_text(s, i))), scan_text(s, i)),
    }
}

/// A successful element parse consumes at least one character.
pub proof fn lemma_element_advances(s: Seq<char>, i: int, fuel: nat)
    requires
        0 <= i <= s.len(),
    ensures
        match parse_element_at(s, i, fuel) {
            Option::Some((_, j)) => i < j <= s.len(),
            Option::None => true,
        },
    decreases fuel, 0int,
{
    if fuel > 0 {
        lemma_parse_open_advances(s, i);
        match parse_open(s, i) {
            Option::Some((name, attrs, j, sc)) => {
                if sc {
                    lemma_scan_bounds(s, j);
                } else {
                    lemma_scan_bounds(s, j);
                    let j2 = skip_ws(s, j);
                    lemma_children_bounds(s, j2, (fuel - 1) as nat);
                    let k = parse_children(s, j2, (fuel - 1) as nat).1;
                    lemma_parse_close_advances(s, k, name);
                    match parse_close(s, k, name) {
                        Option::Some(l) => {
                            lemma_scan_bounds(s, l);
                        },
                        Option::None => {},
                    }
                }
            },
            Option::None => {},
        }
    }
}

/// Children parsing stays within the input.
pub proof fn lemma_children_bounds(s: Seq<char>, i: int, fuel: nat)
    requires
        0 <= i <= s.len(),
    ensures
        i <= parse_children(s, i, fuel).1 <= s.len(),
    decreases fuel, 2int,
{
    lemma_elements_advance(s, i, fuel);
    lemma_scan_bounds(s, i);
}

/// A successful element sequence consumes at least one character.
pub proof fn lemma_elements_advance(s: Seq<char>, i: int, fuel: nat)
    requires
        0 <= i <= s.len(),
    ensures
        match parse_elements(s, i, fuel) {
            Option::Some((_, j)) => i < j <= s.len(),
            Option::None => true,
        },
    decreases fuel, 1int,
{
    if fuel > 0 {
        lemma_element_advances(s, i, fuel);
        match parse_element_at(s, i, fuel) {
            Option::Some((e, j)) => {
                lemma_elements_advance(s, j, (fuel - 1) as nat);
            },
            Option::None => {},
        }
    }
}

/// Two fuels both at least one more than the characters left give the same
/// element parse.
pub proof fn lemma_element_fuel(s: Seq<char>, i: int, f1: nat, f2: nat)
    requires
        0 <= i <= s.len(),
        f1 >= s.len() - i + 1,
        f2 >= s.len() - i + 1,
    ensures
        parse_element_at(s, i, f1) == parse_element_at(s, i, f2),
    decreases f1 + f2, 0int,
{
    lemma_parse_open_advances(s, i);
    match parse_open(s, i) {
        Option::Some((name, attrs, j, sc)) => {
            if !sc {
                lemma_scan_bounds(s, j);
                let j2 = skip_ws(s, j);
                lemma_children_fuel(s, j2, (f1 - 1) as nat, (f2 - 1) as nat);
            }
        },
        Option::None => {},
    }
}

/// Two sufficient fuels give the same children parse.
pub proof fn lemma_children_fuel(s: Seq<char>, i: int, f1: nat, f2: nat)
    requires
        0 <= i <= s.len(),
        f1 >= s.len() - i + 1,
        f2 >= s.len() - i + 1,
    ensures
        parse_children(s, i, f1) == parse_children(s, i, f2),
    decreases f1 + f2, 2int,
{
    lemma_elements_fuel(s, i, f1, f2);
}

/// Two sufficient fuels give the same element-sequence parse.
pub proof fn lemma_elements_fuel(s: Seq<char>, i: int, f1: nat, f2: nat)
    requires
        0 <= i <= s.len(),
        f1 >= s.len() - i + 1,
        f2 >= s.len() - i + 1,
    ensures
        parse_elements(s, i, f1) == parse_elements(s, i, f2),
    decreases f1 + f2, 1int,
{
    lemma_element_fuel(s, i, f1, f2);
    lemma_element_advances(s, i, f1);
    match parse_element_at(s, i, f1) {
        Option::Some((e, j)) => {
            lemma_elements_fuel(s, j, (f1 - 1) as nat, (f2 - 1) as nat);
        },
        Option::None => {},
    }
}

/// The element parse with just enough fuel: the characters left plus one.
pub open spec fn pelem(s: Seq<char>, i: int) -> Option<(ElementV, int)> {
    parse_element_at(s, i, (s.len() - i + 1) as nat)
}

/// The element-sequence parse with just enough fuel.
pub open spec fn pelems(s: Seq<char>, i: int) -> Option<(Seq<ElementV>, int)> {
    parse_elements(s, i, (s.len() - i + 1) as nat)
}

/// The children parse with just enough fuel.
pub open spec fn pchildren(s: Seq<char>, i: int) -> (ChildrenV, int) {
    parse_children(s, i, (s.len() - i + 1) as nat)
}

/// The whole input: exactly one root element and nothing after it.
pub open spec fn spec_parse(s: Seq<char>) -> Option<ElementV> {
    match pelem(s, 0) {
        Option::Some((e, j)) => if j == s.len() {
            Option::Some(e)
        } else {
            Option::None
        },
        Option::None => Option::None,
    }
}

/// The recurrence the fuelled definition satisfies at its fixed fuel.
pub proof fn lemma_pelem_eq(s: Seq<char>, i: int)
    requires
        0 <= i <= s.len(),
    ensures
        pelem(s, i) == match parse_open(s, i) {
            Option::None => Option::None,
            Option::Some((name, attrs, j, sc)) => if sc {
                Option::Some(
                    (
                        ElementV {
                            name,
                            attributes: attrs,
                            children: ChildrenV::Text(Seq::empty()),
                        },
                        skip_ws(s, j),
                    ),
                )
            } else {
                match parse_close(s, pchildren(s, skip_ws(s, j)).1, name) {
                    Option::None => Option::None,
                    Option::Some(l) => Option::Some(
                        (
                            ElementV {
                                name,
                                attributes: attrs,
                                children: pchildren(s, skip_ws(s, j)).0,
                            },
                            skip_ws(s, l),
                        ),
                    ),
                }
            },
        },
{
    lemma_parse_open_advances(s, i);
    match parse_open(s, i) {
        Option::Some((name, attrs, j, sc)) => {
            if !sc {
                lemma_scan_bounds(s, j);
                let j2 = skip_ws(s, j);
                let f = (s.len() - i + 1) as nat;
                lemma_children_fuel(s, j2, (f - 1) as nat, (s.len() - j2 + 1) as nat);
            }
        },
        Option::None => {},
    }
}

/// The element-sequence recurrence at the fixed fuel.
pub proof fn lemma_pelems_eq(s: Seq<char>, i: int)
    requires
        0 <= i <= s.len(),
    ensures
        pelems(s, i) == match pelem(s, i) {
            Option::None => Option::None,
            Option::Some((e, j)) => match pelems(s, j) {
                Option::None => Option::Some((seq![e], j)),
                Option::Some((rest, k)) => Option::Some((seq![e] + rest, k)),
            },
        },
{
    let f = (s.len() - i + 1) as nat;
    lemma_element_advances(s, i, f);
    match parse_element_at(s, i, f) {
        Option::Some((e, j)) => {
            lemma_elements_fuel(s, j, (f - 1) as nat, (s.len() - j + 1) as nat);
        },
        Option::None => {},
    }
}

/// The children recurrence at the fixed fuel.
pub proof fn lemma_pchildren_eq(s: Seq<char>, i: int)
    requires
        0 <= i <= s.len(),
    ensures
        pchildren(s, i) == match pelems(s, i) {
            Option::Some((es, j)) => (ChildrenV::Elements(es), j),
            Option::None => (
                ChildrenV::Text(s.subrange(i, scan_text(s, i))),
                scan_text(s, i),
            ),
        },
{
}

/// Replacing the pair at one position with one of the same key view is, in
/// the attribute map, an insert at that key.
proof fn lemma_attrs_update(s: Seq<(String, String)>, i: int, key: String, v: String)
    requires
        attr_keys_unique(s),
        0 <= i < s.len(),
        key@ == s[i].0@,
    ensures
        attrs_map(s.update(i, (key, v))) =~= attrs_map(s).insert(key@, v@),
    decreases s.len(),
{
    let t = s.update(i, (key, v));
    if i == s.len() - 1 {
        assert(t.drop_last() =~= s.drop_last());
    } else {
        assert(t.drop_last() =~= s.drop_last().update(i, (key, v)));
        assert(s.drop_last()[i] == s[i]);
        lemma_attrs_update(s.drop_last(), i, key, v);
        assert(s[i].0@ != s.last().0@);
    }
}

/// Appending a pair is, in the attribute map, an insert.
proof fn lemma_attrs_push(s: Seq<(String, String)>, key: String, v: String)
    ensures
        attrs_map(s.push((key, v))) =~= attrs_map(s).insert(key@, v@),
{
    assert(s.push((key, v)).drop_last() =~= s);
}

/// Insert an attribute; a repeated key replaces the old value.
fn set_attr(attrs: &mut Vec<(String, String)>, key: String, value: String)
    requires
        attr_keys_unique(old(attrs)@),
    ensures
        attr_keys_unique(final(attrs)@),
        attrs_map(final(attrs)@) =~= attrs_map(old(attrs)@).insert(key@, value@),
        (attr_ok((key, value)) && (forall|j: int|
            0 <= j < old(attrs)@.len() ==> attr_ok(#[trigger] old(attrs)@[j]))) ==> forall|
            j: int,
        | 0 <= j < final(attrs)@.len() ==> attr_ok(#[trigger] final(attrs)@[j]),
{
    let n = attrs.len();
    let mut i: usize = 0;
    while i < n
        invariant
            attrs@ == old(attrs)@,
            attr_keys_unique(attrs@),
            n == attrs@.len(),
            i <= n,
            forall|j: int| 0 <= j < i ==> #[trigger] attrs@[j].0@ != key@,
        decreases n - i,
    {
        if crate::strutil::string_eq_str(&attrs[i].0, key.as_str()) {
            let ghost s0 = attrs@;
            attrs.remove(i);
            attrs.insert(i, (key, value));
            proof {
                assert(attrs@ =~= s0.update(i as int, (attrs@[i as int].0, attrs@[i as int].1)));
                lemma_attrs_update(s0, i as int, attrs@[i as int].0, attrs@[i as int].1);
                assert(forall|j: int|
                    0 <= j < s0.len() ==> #[trigger] attrs@[j].0@ == s0[j].0@);
                if attr_ok((key, value)) && (forall|j: int|
                    0 <= j < old(attrs)@.len() ==> attr_ok(#[trigger] old(attrs)@[j])) {
                    assert forall|j: int|
                        0 <= j < attrs@.len() implies attr_ok(#[trigger] attrs@[j]) by {
                        if j != i {
                            assert(attrs@[j] == old(attrs)@[j]);
                            assert(attr_ok(old(attrs)@[j]));
                        } else {
                            assert(attrs@[j] == (key, value));
                        }
                    }
                }
            }
            return;
        }
        i += 1;
    }
    let ghost s0 = attrs@;
    attrs.push((key, value));
    proof {
        lemma_attrs_push(s0, attrs@.last().0, attrs@.last().1);
        assert(forall|j: int| 0 <= j < s0.len() ==> #[trigger] attrs@[j].0@ == s0[j].0@);
        if attr_ok((key, value)) && (forall|j: int|
            0 <= j < old(attrs)@.len() ==> attr_ok(#[trigger] old(attrs)@[j])) {
            assert forall|j: int|
                0 <= j < attrs@.len() implies attr_ok(#[trigger] attrs@[j]) by {
                if j < s0.len() {
                    assert(attrs@[j] == old(attrs)@[j]);
                    assert(attr_ok(old(attrs)@[j]));
                } else {
                    assert(attrs@[j] == (key, value));
                }
            }
        }
    }
}

/// Whether `c` is markup whitespace.
fn ws_char(c: char) -> (b: bool)
    ensures
        b == is_ws_char(c),
{
    c == ' ' || c == '\t' || c == '\n' || c == '\r'
}

/// Whether `c` may start a name.
fn alpha_char(c: char) -> (b: bool)
    ensures
        b == is_alpha_char(c),
{
    let u = c as u32;
    (97 <= u && u <= 122) || (65 <= u && u <= 90)
}

/// Whether `c` may continue a name.
fn alnum_char(c: char) -> (b: bool)
    ensures
        b == is_alnum_char(c),
{
    let u = c as u32;
    alpha_char(c) || (48 <= u && u <= 57)
}

/// Whether `c` may stand in an attribute value.
fn attr_char(c: char) -> (b: bool)
    ensures
        b == is_attr_char(c),
{
    alnum_char(c) || c == '-'
}

/// Skip whitespace from `i`.
fn skip_ws_x(s: &str, i: usize) -> (j: usize)
    requires
        i <= s@.len(),
    ensures
        j as int == skip_ws(s@, i as int),
        i <= j <= s@.len(),
{
    let n = s.unicode_len();
    let mut j = i;
    while j < n && ws_char(s.get_char(j))
        invariant
            i <= j <= n,
            n == s@.len(),
            skip_ws(s@, i as int) == skip_ws(s@, j as int),
        decreases n - j,
    {
        j += 1;
    }
    j
}

/// Scan letters and digits from `i`.
fn scan_alnum_x(s: &str, i: usize) -> (j: usize)
    requires
        i <= s@.len(),
    ensures
        j as int == scan_alnum(s@, i as int),
        i <= j <= s@.len(),
{
    let n = s.unicode_len();
    let mut j = i;
    while j < n && alnum_char(s.get_char(j))
        invariant
            i <= j <= n,
            n == s@.len(),
            scan_alnum(s@, i as int) == scan_alnum(s@, j as int),
        decreases n - j,
    {
        j += 1;
    }
    j
}

/// Scan attribute-value characters from `i`.
fn scan_attr_value_x(s: &str, i: usize) -> (j: usize)
    requires
        i <= s@.len(),
    ensures
        j as int == scan_attr_value(s@, i as int),
        i <= j <= s@.len(),
{
    let n = s.unicode_len();
    let mut j = i;
    while j < n && attr_char(s.get_char(j))
        invariant
            i <= j <= n,
            n == s@.len(),
            scan_attr_value(s@, i as int) == scan_attr_value(s@, j as int),
        decreases n - j,
    {
        j += 1;
    }
    j
}

/// Scan text up to the next `<` from `i`.
fn scan_text_x(s: &str, i: usize) -> (j: usize)
    requires
        i <= s@.len(),
    ensures
        j as int == scan_text(s@, i as int),
        i <= j <= s@.len(),
{
    let n = s.unicode_len();
    let mut j = i;
    while j < n && s.get_char(j) != '<'
        invariant
            i <= j <= n,
            n == s@.len(),
            scan_text(s@, i as int) == scan_text(s@, j as int),
        decreases n - j,
    {
        j += 1;
    }
    j
}

/// Parse a name at `i`.
fn parse_name_x(s: &str, i: usize) -> (r: Option<(String, usize)>)
    requires
        i <= s@.len(),
    ensures
        match r {
            Option::Some((nm, j)) => parse_name(s@, i as int) == Option::Some(
                (nm@, j as int),
            ) && i < j <= s@.len() && name_ok(nm@),
            Option::None => parse_name(s@, i as int) is None,
        },
{
    let j = scan_alnum_x(s, i);
    if i < j && alpha_char(s.get_char(i)) {
        proof {
            lemma_scan_alnum_chars(s@, i as int);
            assert forall|k: int|
                0 <= k < j - i implies is_alnum_char(
                #[trigger] s@.subrange(i as int, j as int)[k],
            ) by {
                assert(s@.subrange(i as int, j as int)[k] == s@[i + k]);
            }
        }
        Option::Some((s.substring_char(i, j).to_owned(), j))
    } else {
        Option::None
    }
}

/// Parse one `name="value"` attribute at `i`.
fn parse_attribute_x(s: &str, i: usize) -> (r: Option<(String, String, usize)>)
    requires
        i <= s@.len(),
    ensures
        match r {
            Option::Some((k, v, l)) => parse_attribute(s@, i as int) == Option::Some(
                ((k@, v@), l as int),
            ) && i < l <= s@.len() && attr_ok((k, v)),
            Option::None => parse_attribute(s@, i as int) is None,
        },
{
    let n = s.unicode_len();
    let (k, j) = match parse_name_x(s, i) {
        Option::Some(x) => x,
        Option::None => {
            return Option::None;
        },
    };
    if !(j < n && s.get_char(j) == '=') {
        return Option::None;
    }
    if !(j + 1 < n && s.get_char(j + 1) == '"') {
        return Option::None;
    }
    let m = scan_attr_value_x(s, j + 2);
    if !(m < n && s.get_char(m) == '"') {
        return Option::None;
    }
    proof {
        lemma_scan_attr_chars(s@, j as int + 2);
        assert forall|t: int|
            0 <= t < m - (j + 2) implies is_attr_char(
            #[trigger] s@.subrange(j as int + 2, m as int)[t],
        ) by {
            assert(s@.subrange(j as int + 2, m as int)[t] == s@[j + 2 + t]);
        }
    }
    let v = s.substring_char(j + 2, m).to_owned();
    Option::Some((k, v, m + 1))
}

/// Parse the attribute list after a name, trailing whitespace consumed.
fn parse_attrs_x(s: &str, i: usize) -> (r: (Vec<(String, String)>, usize))
    requires
        i <= s@.len(),
    ensures
        ({
            let sm = parse_attrs(s@, i as int, Map::empty());
            &&& attr_keys_unique(r.0@)
            &&& attrs_map(r.0@) =~= sm.0
            &&& r.1 as int == sm.1
            &&& i <= r.1 <= s@.len()
            &&& forall|k: int| 0 <= k < r.0@.len() ==> attr_ok(#[trigger] r.0@[k])
        }),
{
    let mut attrs: Vec<(String, String)> = Vec::new();
    let mut p = i;
    loop
        invariant
            i <= p <= s@.len(),
            attr_keys_unique(attrs@),
            forall|k: int| 0 <= k < attrs@.len() ==> attr_ok(#[trigger] attrs@[k]),
            parse_attrs(s@, i as int, Map::empty()) == parse_attrs(
                s@,
                p as int,
                attrs_map(attrs@),
            ),
        decreases s@.len() - p,
    {
        let j = skip_ws_x(s, p);
        if j == p {
            proof {
                assert(parse_attrs(s@, p as int, attrs_map(attrs@)) == (
                    attrs_map(attrs@),
                    p as int,
                ));
            }
            return (attrs, p);
        }
        match parse_attribute_x(s, j) {
            Option::Some((k, v, l)) => {
                set_attr(&mut attrs, k, v);
                p = l;
            },
            Option::None => {
                proof {
                    assert(parse_attrs(s@, p as int, attrs_map(attrs@)) == (
                        attrs_map(attrs@),
                        j as int,
                    ));
                }
                return (attrs, j);
            },
        }
    }
}

/// Parse the close tag of `name` at `i`.
fn parse_close_x(s: &str, i: usize, name: &String) -> (r: Option<usize>)
    requires
        i <= s@.len(),
    ensures
        match r {
            Option::Some(l) => parse_close(s@, i as int, name@) == Option::Some(l as int)
                && i < l <= s@.len(),
            Option::None => parse_close(s@, i as int, name@) is None,
        },
{
    let n = s.unicode_len();
    let a = skip_ws_x(s, i);
    if a >= n || a + 1 >= n || s.get_char(a) != '<' || s.get_char(a + 1) != '/' {
        return Option::None;
    }
    let b = skip_ws_x(s, a + 2);
    let name_len = name.as_str().unicode_len();
    if name_len > n || b > n - name_len {
        return Option::None;
    }
    if !crate::strutil::str_eq(s.substring_char(b, b + name_len), name.as_str()) {
        return Option::None;
    }
    let c = skip_ws_x(s, b + name_len);
    if !(c < n && s.get_char(c) == '>') {
        return Option::None;
    }
    Option::Some(c + 1)
}

/// Parse one element at `pos`: a self-closing tag, or an open tag, its
/// children, and the matching close tag; surrounding whitespace consumed.
fn parse_element_x(s: &str, pos: usize) -> (r: Result<(Element, usize), ParseError>)
    requires
        pos <= s@.len(),
    ensures
        match r {
            Result::Ok((e, j)) => pelem(s@, pos as int) matches Option::Some(p)
                && elem_matches(e, p.0) && p.1 == j as int && pos < j <= s@.len()
                && elem_wf(e) && printable(e),
            Result::Err(pe) => pelem(s@, pos as int) is None && pe.pos <= s@.len(),
        },
    decreases s@.len() - pos, 0int,
{
    proof {
        lemma_pelem_eq(s@, pos as int);
    }
    let n = s.unicode_len();
    let a = skip_ws_x(s, pos);
    if a >= n || s.get_char(a) != '<' {
        return Result::Err(ParseError { pos: a });
    }
    let b = skip_ws_x(s, a + 1);
    let (name, c) = match parse_name_x(s, b) {
        Option::Some(x) => x,
        Option::None => {
            return Result::Err(ParseError { pos: b });
        },
    };
    let (attrs, d) = parse_attrs_x(s, c);
    if d < n && d + 1 < n && s.get_char(d) == '/' && s.get_char(d + 1) == '>' {
        let j = skip_ws_x(s, d + 2);
        let e = Element { name, attributes: attrs, children: Children::Text(String::new()) };
        return Result::Ok((e, j));
    }
    if d < n && s.get_char(d) == '>' {
        let j2 = skip_ws_x(s, d + 1);
        proof {
            lemma_pchildren_eq(s@, j2 as int);
        }
        let (children, kpos) = match parse_elements_x(s, j2) {
            Option::Some((es, k)) => (Children::Elements(es), k),
            Option::None => {
                let k = scan_text_x(s, j2);
                proof {
                    lemma_scan_text_chars(s@, j2 as int);
                    assert forall|t: int|
                        0 <= t < k - j2 implies #[trigger] s@.subrange(
                        j2 as int,
                        k as int,
                    )[t] != '<' by {
                        assert(s@.subrange(j2 as int, k as int)[t] == s@[j2 + t]);
                    }
                    lemma_skip_ws_stop(s@, d as int + 1);
                    if j2 < k {
                        assert(s@.subrange(j2 as int, k as int)[0] == s@[j2 as int]);
                        assert(!is_ws_char(s@[j2 as int]));
                    }
                }
                (Children::Text(s.substring_char(j2, k).to_owned()), k)
            },
        };
        match parse_close_x(s, kpos, &name) {
            Option::None => Result::Err(ParseError { pos: kpos }),
            Option::Some(l) => {
                let j = skip_ws_x(s, l);
                let e = Element { name, attributes: attrs, children };
                Result::Ok((e, j))
            },
        }
    } else {
        Result::Err(ParseError { pos: d })
    }
}

/// Parse one or more elements at `pos`, greedily.
fn parse_elements_x(s: &str, pos: usize) -> (r: Option<(Vec<Element>, usize)>)
    requires
        pos <= s@.len(),
    ensures
        match r {
            Option::Some((es, j)) => pelems(s@, pos as int) matches Option::Some(p)
                && p.1 == j as int && pos < j <= s@.len() && p.0.len() == es@.len()
                && es@.len() > 0 && (forall|i: int|
                    0 <= i < es@.len() ==> elem_matches(#[trigger] es@[i], p.0[i])
                        && elem_wf(es@[i]) && printable(es@[i])),
            Option::None => pelems(s@, pos as int) is None,
        },
    decreases s@.len() - pos, 1int,
{
    proof {
        lemma_pelems_eq(s@, pos as int);
    }
    match parse_element_x(s, pos) {
        Result::Err(_) => Option::None,
        Result::Ok((e, j)) => {
            match parse_elements_x(s, j) {
                Option::None => {
                    let mut v: Vec<Element> = Vec::new();
                    v.push(e);
                    Option::Some((v, j))
                },
                Option::Some((rest, k)) => {
                    let ghost restv = rest@;
                    let mut v = rest;
                    v.insert(0, e);
                    proof {
                        assert(v@ =~= seq![e] + restv);
                    }
                    Option::Some((v, k))
                },
            }
        },
    }
}

/// Parse a whole document: exactly one root element, with nothing but the
/// element (and surrounding whitespace) in the input.
pub fn parse(input: &str) -> (r: Result<Element, ParseError>)
    ensures
        match r {
            Result::Ok(e) => spec_parse(input@) matches Option::Some(v) && elem_matches(
                e,
                v,
            ) && elem_wf(e) && printable(e),
            Result::Err(pe) => spec_parse(input@) is None && pe.pos <= input@.len(),
        },
{
    match parse_element_x(input, 0) {
        Result::Ok((e, j)) => {
            let n = input.unicode_len();
            if j == n {
                Result::Ok(e)
            } else {
                Result::Err(ParseError { pos: j })
            }
        },
        Result::Err(pe) => Result::Err(pe),
    }
}

/// One attribute as printed: a space, the key, `="`, the value, `"`.
pub open spec fn print_attr(kv: (String, String)) -> Seq<char> {
    " "@ + kv.0@ + "=\""@ + kv.1@ + "\""@
}

/// The first `k` attributes as printed, in list order.
pub open spec fn print_attrs_upto(s: Seq<(String, String)>, k: int) -> Seq<char>
    decreases k,
{
    if k <= 0 {
        Seq::empty()
    } else {
        print_attrs_upto(s, k - 1) + print_attr(s[k - 1])
    }
}

/// The element as printed: open tag with attributes, children, close tag.
/// An element with text children prints the text verbatim between the
/// tags; one with element children prints them in order.
pub open spec fn print_elem(e: Element) -> Seq<char>
    decreases e, 1int, 0int,
{
    let open = "<"@ + e.name@ + print_attrs_upto(
        e.attributes@,
        e.attributes@.len() as int,
    ) + ">"@;
    let close = "</"@ + e.name@ + ">"@;
    match e.children {
        Children::Text(t) => open + t@ + close,
        Children::Elements(es) => open + print_kids_upto(e, es.len() as int) + close,
    }
}

/// The first `k` child elements as printed, in order.
pub open spec fn print_kids_upto(e: Element, k: int) -> Seq<char>
    decreases e, 0int, k,
    via print_kids_upto_decreases
{
    if k <= 0 || !(e.children is Elements) || k > e.children->Elements_0@.len() {
        Seq::empty()
    } else {
        print_kids_upto(e, k - 1) + print_elem(e.children->Elements_0@[k - 1])
    }
}

#[via_fn]
proof fn print_kids_upto_decreases(e: Element, k: int) {
    if !(k <= 0 || !(e.children is Elements) || k > e.children->Elements_0@.len()) {
        assert(decreases_to!(e => e.children));
        assert(decreases_to!(e.children => e.children->Elements_0));
        assert(decreases_to!(e.children->Elements_0 => e.children->Elements_0@));
        assert(decreases_to!(e.children->Elements_0@ => e.children->Elements_0@[k - 1]));
        assert(decreases_to!(e => e.children->Elements_0@[k - 1]));
    }
}

/// Print an element back to markup. Reparsing the result of printing a
/// parsed tree yields a structurally identical tree.
pub fn pretty_print(element: &Element) -> (out: String)
    ensures
        out@ == print_elem(*element),
    decreases *element,
{
    let mut out = String::new();
    out.append("<");
    out.append(element.name.as_str());
    let n = element.attributes.len();
    let mut i: usize = 0;
    while i < n
        invariant
            n == element.attributes@.len(),
            i <= n,
            out@ =~= "<"@ + element.name@ + print_attrs_upto(
                element.attributes@,
                i as int,
            ),
        decreases n - i,
    {
        out.append(" ");
        out.append(element.attributes[i].0.as_str());
        out.append("=\"");
        out.append(element.attributes[i].1.as_str());
        out.append("\"");
        i += 1;
    }
    out.append(">");
    let ghost open = "<"@ + element.name@ + print_attrs_upto(
        element.attributes@,
        element.attributes@.len() as int,
    ) + ">"@;
    match &element.children {
        Children::Text(t) => {
            out.append(t.as_str());
        },
        Children::Elements(es) => {
            let m = es.len();
            let mut k: usize = 0;
            while k < m
                invariant
                    element.children matches Children::Elements(es2) && es2 == es,
                    m == es@.len(),
                    k <= m,
                    out@ =~= open + print_kids_upto(*element, k as int),
                    open == "<"@ + element.name@ + print_attrs_upto(
                        element.attributes@,
                        element.attributes@.len() as int,
                    ) + ">"@,
                decreases m - k,
            {
                let child = pretty_print(&es[k]);
                out.append(child.as_str());
                k += 1;
            }
        },
    }
    out.append("</");
    out.append(element.name.as_str());
    out.append(">");
    proof {
        assert(out@ =~= print_elem(*element));
    }
    out
}

/// A valid name: letters and digits, starting with a letter.
pub open spec fn name_ok(n: Seq<char>) -> bool {
    &&& n.len() > 0
    &&& is_alpha_char(n[0])
    &&& forall|k: int| 0 <= k < n.len() ==> is_alnum_char(#[trigger] n[k])
}

/// A printable attribute: a valid key and a value of letters, digits and
/// hyphens.
pub open spec fn attr_ok(kv: (String, String)) -> bool {
    &&& name_ok(kv.0@)
    &&& forall|k: int| 0 <= k < kv.1@.len() ==> is_attr_char(#[trigger] kv.1@[k])
}

/// An element the parser itself could have produced: valid names and
/// attribute values, key-unique attribute lists, text that holds no `<`
/// and does not start with whitespace, and element children only in
/// non-empty lists.
pub open spec fn printable(e: Element) -> bool
    decreases e,
{
    &&& name_ok(e.name@)
    &&& attr_keys_unique(e.attributes@)
    &&& forall|k: int| 0 <= k < e.attributes@.len() ==> attr_ok(#[trigger] e.attributes@[k])
    &&& match e.children {
        Children::Text(t) => {
            &&& forall|k: int| 0 <= k < t@.len() ==> #[trigger] t@[k] != '<'
            &&& t@.len() > 0 ==> !is_ws_char(t@[0])
        },
        Children::Elements(es) => {
            &&& es@.len() > 0
            &&& forall|i: int| 0 <= i < es@.len() ==> printable(#[trigger] es@[i])
        },
    }
}

/// `p` stands character for character at position `i` of `s`.
pub open spec fn seg_at(s: Seq<char>, i: int, p: Seq<char>) -> bool {
    &&& 0 <= i
    &&& i + p.len() <= s.len()
    &&& forall|k: int| 0 <= k < p.len() ==> s[i + k] == #[trigger] p[k]
}

/// A scanner stops exactly at the end of a run of its characters.
proof fn lemma_scan_alnum_run(s: Seq<char>, a: int, b: int)
    requires
        0 <= a <= b <= s.len(),
        forall|k: int| a <= k < b ==> is_alnum_char(#[trigger] s[k]),
        b < s.len() ==> !is_alnum_char(s[b]),
    ensures
        scan_alnum(s, a) == b,
    decreases b - a,
{
    if a < b {
        lemma_scan_alnum_run(s, a + 1, b);
    }
}

proof fn lemma_scan_attr_run(s: Seq<char>, a: int, b: int)
    requires
        0 <= a <= b <= s.len(),
        forall|k: int| a <= k < b ==> is_attr_char(#[trigger] s[k]),
        b < s.len() ==> !is_attr_char(s[b]),
    ensures
        scan_attr_value(s, a) == b,
    decreases b - a,
{
    if a < b {
        lemma_scan_attr_run(s, a + 1, b);
    }
}

proof fn lemma_scan_text_run(s: Seq<char>, a: int, b: int)
    requires
        0 <= a <= b <= s.len(),
        forall|k: int| a <= k < b ==> #[trigger] s[k] != '<',
        b < s.len() ==> s[b] == '<',
    ensures
        scan_text(s, a) == b,
    decreases b - a,
{
    if a < b {
        lemma_scan_text_run(s, a + 1, b);
    }
}

/// The printed attribute list from `j` on, front to back.
pub open spec fn rest_attrs_print(attrs: Seq<(String, String)>, j: int) -> Seq<char>
    decreases attrs.len() - j,
{
    if j < 0 || j >= attrs.len() {
        Seq::empty()
    } else {
        print_attr(attrs[j]) + rest_attrs_print(attrs, j + 1)
    }
}

/// The back-folded attribute print splits as a prefix and a front-folded
/// rest.
proof fn lemma_attrs_print_decomp(attrs: Seq<(String, String)>, j: int)
    requires
        0 <= j <= attrs.len(),
    ensures
        print_attrs_upto(attrs, attrs.len() as int) =~= print_attrs_upto(attrs, j)
            + rest_attrs_print(attrs, j),
    decreases attrs.len() - j,
{
    if j == attrs.len() {
    } else {
        lemma_attrs_print_decomp(attrs, j + 1);
        assert(print_attrs_upto(attrs, j + 1) =~= print_attrs_upto(attrs, j) + print_attr(
            attrs[j],
        ));
    }
}

/// Inserting the pairs from `j` on, front to back, later pairs winning.
pub open spec fn insert_from(
    attrs: Seq<(String, String)>,
    j: int,
    m: Map<Seq<char>, Seq<char>>,
) -> Map<Seq<char>, Seq<char>>
    decreases attrs.len() - j,
{
    if j < 0 || j >= attrs.len() {
        m
    } else {
        insert_from(attrs, j + 1, m.insert(attrs[j].0@, attrs[j].1@))
    }
}

/// Appending a pair to the list appends its insert.
proof fn lemma_insert_from_push(
    attrs: Seq<(String, String)>,
    p: (String, String),
    j: int,
    m: Map<Seq<char>, Seq<char>>,
)
    requires
        0 <= j <= attrs.len(),
    ensures
        insert_from(attrs.push(p), j, m) == insert_from(attrs, j, m).insert(p.0@, p.1@),
    decreases attrs.len() - j,
{
    if j < attrs.len() {
        assert(attrs.push(p)[j] == attrs[j]);
        lemma_insert_from_push(attrs, p, j + 1, m.insert(attrs[j].0@, attrs[j].1@));
    } else {
        assert(attrs.push(p)[j] == p);
        assert(insert_from(attrs.push(p), j + 1, m.insert(p.0@, p.1@)) == m.insert(
            p.0@,
            p.1@,
        ));
    }
}

/// The front fold of inserts and the back fold [`attrs_map`] agree.
proof fn lemma_insert_from_map(attrs: Seq<(String, String)>)
    ensures
        insert_from(attrs, 0, Map::empty()) == attrs_map(attrs),
    decreases attrs.len(),
{
    if attrs.len() > 0 {
        lemma_insert_from_map(attrs.drop_last());
        assert(attrs =~= attrs.drop_last().push(attrs.last()));
        lemma_insert_from_push(attrs.drop_last(), attrs.last(), 0, Map::empty());
    }
}

/// The character content of each literal the printer concatenates.
proof fn lemma_print_lits()
    ensures
        " "@ =~= seq![' '],
        "=\""@ =~= seq!['=', '"'],
        "\""@ =~= seq!['"'],
        "<"@ =~= seq!['<'],
        ">"@ =~= seq!['>'],
        "</"@ =~= seq!['<', '/'],
{
    reveal_strlit(" ");
    reveal_strlit("=\"");
    reveal_strlit("\"");
    reveal_strlit("<");
    reveal_strlit(">");
    reveal_strlit("</");
}

/// Parsing a printed attribute list back: the attributes from `j` on,
/// printed at `pos` and followed by `>`, parse to exactly their inserts
/// and stop at the `>`.
proof fn lemma_attrs_parse(
    s: Seq<char>,
    pos: int,
    attrs: Seq<(String, String)>,
    j: int,
    m: Map<Seq<char>, Seq<char>>,
)
    requires
        0 <= j <= attrs.len(),
        forall|k: int| 0 <= k < attrs.len() ==> attr_ok(#[trigger] attrs[k]),
        seg_at(s, pos, rest_attrs_print(attrs, j)),
        pos + rest_attrs_print(attrs, j).len() < s.len(),
        s[pos + rest_attrs_print(attrs, j).len()] == '>',
    ensures
        parse_attrs(s, pos, m) == (
            insert_from(attrs, j, m),
            pos + rest_attrs_print(attrs, j).len(),
        ),
    decreases attrs.len() - j,
{
    lemma_print_lits();
    let rp = rest_attrs_print(attrs, j);
    if j == attrs.len() {
        assert(rp.len() == 0);
        assert(!is_ws_char(s[pos]));
        assert(skip_ws(s, pos) == pos);
    } else {
        let a = attrs[j];
        let pa = print_attr(a);
        let klen = a.0@.len() as int;
        let vlen = a.1@.len() as int;
        assert(attr_ok(a));
        assert(pa.len() == klen + vlen + 4);
        assert(rp =~= pa + rest_attrs_print(attrs, j + 1));
        // The characters of this attribute, read off the printed form.
        assert(pa[0] == ' ');
        assert(rp[0] == pa[0]);
        assert(s[pos + 0] == rp[0]);
        assert(s[pos] == ' ');
        assert forall|k: int|
            pos + 1 <= k < pos + 1 + klen implies is_alnum_char(#[trigger] s[k]) && s[k]
            == a.0@[k - pos - 1] by {
            let t = k - pos - 1;
            assert(rp[1 + t] == pa[1 + t]);
            assert(pa[1 + t] == a.0@[t]);
            assert(s[pos + (1 + t)] == rp[1 + t]);
        }
        assert(s[pos + 1 + klen] == '=') by {
            assert(rp[1 + klen] == pa[1 + klen]);
        }
        assert(s[pos + 2 + klen] == '"') by {
            assert(rp[2 + klen] == pa[2 + klen]);
        }
        assert forall|k: int|
            pos + 3 + klen <= k < pos + 3 + klen + vlen implies is_attr_char(
            #[trigger] s[k],
        ) && s[k] == a.1@[k - pos - 3 - klen] by {
            let t = k - pos - 3 - klen;
            assert(rp[3 + klen + t] == pa[3 + klen + t]);
            assert(pa[3 + klen + t] == a.1@[t]);
            assert(s[pos + (3 + klen + t)] == rp[3 + klen + t]);
        }
        assert(s[pos + 3 + klen + vlen] == '"') by {
            assert(rp[3 + klen + vlen] == pa[3 + klen + vlen]);
        }
        // Whitespace: exactly the one separating space.
        assert(is_alpha_char(a.0@[0]));
        assert(!is_ws_char(s[pos + 1]));
        assert(skip_ws(s, pos + 1) == pos + 1);
        assert(skip_ws(s, pos) == pos + 1);
        // The name.
        lemma_scan_alnum_run(s, pos + 1, pos + 1 + klen);
        assert(s.subrange(pos + 1, pos + 1 + klen) =~= a.0@);
        assert(parse_name(s, pos + 1) == Option::Some((a.0@, pos + 1 + klen)));
        // The quoted value.
        lemma_scan_attr_run(s, pos + 3 + klen, pos + 3 + klen + vlen);
        assert(s.subrange(pos + 3 + klen, pos + 3 + klen + vlen) =~= a.1@);
        assert(parse_quoted(s, pos + 2 + klen) == Option::Some(
            (a.1@, pos + 3 + klen + vlen + 1),
        ));
        let l = pos + klen + vlen + 4;
        assert(parse_attribute(s, pos + 1) == Option::Some(((a.0@, a.1@), l)));
        // The rest of the list, shifted past this attribute.
        assert(seg_at(s, l, rest_attrs_print(attrs, j + 1))) by {
            assert forall|k: int|
                0 <= k < rest_attrs_print(attrs, j + 1).len() implies s[l + k]
                == #[trigger] rest_attrs_print(attrs, j + 1)[k] by {
                assert(rp[pa.len() + k] == rest_attrs_print(attrs, j + 1)[k]);
                assert(s[pos + (pa.len() + k)] == rp[pa.len() + k]);
            }
        }
        lemma_attrs_parse(s, l, attrs, j + 1, m.insert(a.0@, a.1@));
        assert(parse_attrs(s, pos, m) == parse_attrs(s, l, m.insert(a.0@, a.1@)));
    }
}

/// The printed child list from `k` on, front to back.
pub open spec fn rest_kids_print(e: Element, k: int) -> Seq<char>
    decreases e, 2int, e.children->Elements_0@.len() - k,
    via rest_kids_print_decreases
{
    if !(e.children is Elements) || k < 0 || k >= e.children->Elements_0@.len() {
        Seq::empty()
    } else {
        print_elem(e.children->Elements_0@[k]) + rest_kids_print(e, k + 1)
    }
}

#[via_fn]
proof fn rest_kids_print_decreases(e: Element, k: int) {
    if !(!(e.children is Elements) || k < 0 || k >= e.children->Elements_0@.len()) {
        assert(decreases_to!(e => e.children));
        assert(decreases_to!(e.children => e.children->Elements_0));
        assert(decreases_to!(e.children->Elements_0 => e.children->Elements_0@));
        assert(decreases_to!(e.children->Elements_0@ => e.children->Elements_0@[k]));
        assert(decreases_to!(e => e.children->Elements_0@[k]));
    }
}

/// The back-folded child print splits as a prefix and a front-folded rest.
proof fn lemma_kids_print_decomp(e: Element, k: int)
    requires
        e.children is Elements,
        0 <= k <= e.children->Elements_0@.len(),
    ensures
        print_kids_upto(e, e.children->Elements_0@.len() as int) =~= print_kids_upto(e, k)
            + rest_kids_print(e, k),
    decreases e.children->Elements_0@.len() - k,
{
    if k == e.children->Elements_0@.len() {
    } else {
        lemma_kids_print_decomp(e, k + 1);
        assert(print_kids_upto(e, k + 1) =~= print_kids_upto(e, k) + print_elem(
            e.children->Elements_0@[k],
        ));
    }
}

/// Every printed element starts with `<` and is non-empty.
proof fn lemma_print_elem_first(e: Element)
    ensures
        print_elem(e).len() > 2,
        print_elem(e)[0] == '<',
    decreases e,
{
    lemma_print_lits();
}

/// Parsing a printed element back: printed at `i` and not followed by
/// whitespace, it parses to a matching value ending exactly at its end.
#[verifier::rlimit(100)]
pub proof fn lemma_print_parse(s: Seq<char>, i: int, e: Element)
    requires
        printable(e),
        seg_at(s, i, print_elem(e)),
        i + print_elem(e).len() < s.len() ==> !is_ws_char(s[i + print_elem(e).len()]),
    ensures
        pelem(s, i) matches Option::Some(p) && elem_matches(e, p.0) && p.1 == i
            + print_elem(e).len(),
    decreases e, 1int, 0int,
{
    lemma_print_lits();
    let p = print_elem(e);
    let nl = e.name@.len() as int;
    let attrs = e.attributes@;
    let ap = print_attrs_upto(attrs, attrs.len() as int);
    let alen = ap.len() as int;
    let open = "<"@ + e.name@ + ap + ">"@;
    let close = "</"@ + e.name@ + ">"@;
    let body: Seq<char> = match e.children {
        Children::Text(t) => t@,
        Children::Elements(es) => print_kids_upto(e, es@.len() as int),
    };
    assert(p =~= open + body + close);
    assert(open.len() == 2 + nl + alen);
    let d = i + 1 + nl + alen;  // the position of `>`
    let j = d + 1;  // past `>`
    let k0 = j + body.len() as int;  // the close tag
    let end = i + p.len() as int;
    assert(end == k0 + 3 + nl);
    // Characters of the open tag.
    assert(s[i] == '<') by {
        assert(p[0] == '<');
        assert(s[i + 0] == p[0]);
    }
    assert forall|k: int|
        i + 1 <= k < i + 1 + nl implies is_alnum_char(#[trigger] s[k]) && s[k] == e.name@[
        k - i - 1] by {
        let t = k - i - 1;
        assert(p[1 + t] == open[1 + t]);
        assert(open[1 + t] == e.name@[t]);
        assert(s[i + (1 + t)] == p[1 + t]);
    }
    assert(s[d] == '>') by {
        assert(p[1 + nl + alen] == open[1 + nl + alen]);
        assert(open[1 + nl + alen] == '>');
        assert(s[i + (1 + nl + alen)] == p[1 + nl + alen]);
    }
    // The open tag parses to the name and the attribute map.
    assert(skip_ws(s, i) == i);
    assert(is_alpha_char(s[i + 1]));
    assert(skip_ws(s, i + 1) == i + 1);
    lemma_attrs_print_decomp(attrs, 0);
    assert(ap =~= rest_attrs_print(attrs, 0));
    assert(seg_at(s, i + 1 + nl, rest_attrs_print(attrs, 0))) by {
        assert forall|k: int|
            0 <= k < rest_attrs_print(attrs, 0).len() implies s[i + 1 + nl + k]
            == #[trigger] rest_attrs_print(attrs, 0)[k] by {
            assert(open[1 + nl + k] == ap[k]);
            assert(p[1 + nl + k] == open[1 + nl + k]);
            assert(s[i + (1 + nl + k)] == p[1 + nl + k]);
        }
    }
    // The character ending the name run: a space before the first
    // attribute, or the closing `>`.
    assert(i + 1 + nl < s.len() && !is_alnum_char(s[i + 1 + nl])) by {
        if attrs.len() > 0 {
            assert(rest_attrs_print(attrs, 0)[0] == print_attr(attrs[0])[0]);
            assert(print_attr(attrs[0])[0] == ' ');
            assert(s[i + 1 + nl] == ' ');
        } else {
            assert(alen == 0);
            assert(s[i + 1 + nl] == '>');
        }
    }
    lemma_scan_alnum_run(s, i + 1, i + 1 + nl);
    assert(s.subrange(i + 1, i + 1 + nl) =~= e.name@);
    assert(parse_name(s, i + 1) == Option::Some((e.name@, i + 1 + nl)));
    lemma_attrs_parse(s, i + 1 + nl, attrs, 0, Map::empty());
    lemma_insert_from_map(attrs);
    assert(parse_attrs(s, i + 1 + nl, Map::empty()) == (attrs_map(attrs), d));
    assert(parse_open(s, i) == Option::Some((e.name@, attrs_map(attrs), j, false)));
    // Characters of the body.
    assert forall|k: int| 0 <= k < body.len() implies s[j + k] == #[trigger] body[k] by {
        assert(p[open.len() + k] == body[k]);
        assert(s[i + (open.len() + k)] == p[open.len() + k]);
    }
    // Characters of the close tag.
    assert(s[k0] == '<' && s[k0 + 1] == '/') by {
        assert(p[(open.len() + body.len()) as int] == close[0]);
        assert(p[(open.len() + body.len()) as int + 1] == close[1]);
        assert(s[i + (open.len() + body.len()) as int] == p[(open.len() + body.len()) as int]);
        assert(s[i + (open.len() + body.len()) as int + 1] == p[(open.len() + body.len()) as int + 1]);
    }
    assert forall|k: int|
        k0 + 2 <= k < k0 + 2 + nl implies is_alnum_char(#[trigger] s[k]) && s[k]
        == e.name@[k - k0 - 2] by {
        let t = k - k0 - 2;
        assert(p[(open.len() + body.len()) as int + 2 + t] == close[2 + t]);
        assert(close[2 + t] == e.name@[t]);
        assert(s[i + (open.len() + body.len()) as int + 2 + t] == p[(open.len()
            + body.len()) as int + 2 + t]);
    }
    assert(s[k0 + 2 + nl] == '>') by {
        assert(p[(open.len() + body.len()) as int + 2 + nl] == close[2 + nl]);
        assert(close[2 + nl] == '>');
        assert(s[i + (open.len() + body.len()) as int + 2 + nl] == p[(open.len()
            + body.len()) as int + 2 + nl]);
    }
    // The children.
    lemma_pelem_eq(s, i);
    lemma_pchildren_eq(s, j);
    let ck = pchildren(s, j);
    match e.children {
        Children::Text(t) => {
            assert(body == t@);
            // No element parses at `j`, so the children are the text up to
            // the `<` of the close tag.
            assert(skip_ws(s, j) == j) by {
                if t@.len() > 0 {
                    assert(s[j + 0] == t@[0]);
                } else {
                    assert(s[j] == '<');
                }
            }
            lemma_pelems_eq(s, j);
            lemma_pelem_eq(s, j);
            if t@.len() > 0 {
                assert(s[j + 0] == t@[0]);
                assert(s[j] != '<');
                assert(parse_open(s, j) is None);
            } else {
                assert(s[j] == '<');
                assert(s[j + 1] == '/');
                assert(!is_ws_char(s[j + 1]));
                assert(skip_ws(s, j + 1) == j + 1);
                assert(scan_alnum(s, j + 1) == j + 1);
                assert(parse_name(s, j + 1) is None);
                assert(parse_open(s, j) is None);
            }
            assert(pelem(s, j) is None);
            assert(pelems(s, j) is None);
            assert forall|k2: int| j <= k2 < k0 implies #[trigger] s[k2] != '<' by {
                let t2 = k2 - j;
                assert(s[j + t2] == body[t2]);
                assert(body[t2] == t@[t2]);
            }
            lemma_scan_text_run(s, j, k0);
            assert(ck.0 == ChildrenV::Text(s.subrange(j, k0)));
            assert(s.subrange(j, k0) =~= t@);
            assert(ck.1 == k0);
        },
        Children::Elements(es) => {
            lemma_kids_print_decomp(e, 0);
            assert(body =~= rest_kids_print(e, 0));
            assert(seg_at(s, j, rest_kids_print(e, 0)));
            lemma_print_elem_first(es@[0]);
            assert(rest_kids_print(e, 0)[0] == print_elem(es@[0])[0]);
            assert(s[j + 0] == rest_kids_print(e, 0)[0]);
            assert(s[j] == '<');
            assert(skip_ws(s, j) == j);
            lemma_kids_parse(s, j, e, 0);
            let q = pelems(s, j)->Some_0;
            assert(q.1 == k0);
            assert(ck.0 == ChildrenV::Elements(q.0));
            assert(ck.1 == k0);
            assert forall|ii: int|
                0 <= ii < es@.len() implies elem_matches(#[trigger] es@[ii], q.0[ii]) by {
                assert(elem_matches(es@[0 + ii], q.0[ii]));
            }
        },
    }
    // The close tag.
    assert(skip_ws(s, k0) == k0);
    assert(!is_ws_char(s[k0 + 2]));
    assert(skip_ws(s, k0 + 2) == k0 + 2);
    assert(s.subrange(k0 + 2, k0 + 2 + nl) =~= e.name@);
    assert(!is_ws_char(s[k0 + 2 + nl]));
    assert(skip_ws(s, k0 + 2 + nl) == k0 + 2 + nl);
    assert(parse_close(s, k0, e.name@) == Option::Some(end));
    assert(skip_ws(s, end) == end);
    let v = ElementV { name: e.name@, attributes: attrs_map(attrs), children: ck.0 };
    assert(pelem(s, i) == Option::Some((v, end)));
    assert(elem_matches(e, v));
}

/// Parsing a printed child list back: the children from `k` on, printed
/// at `pos` and followed by the `</` of the close tag, parse to exactly
/// their values; at the end of the list no element parses.
proof fn lemma_kids_parse(s: Seq<char>, pos: int, e: Element, k: int)
    requires
        printable(e),
        e.children is Elements,
        0 <= k <= e.children->Elements_0@.len(),
        seg_at(s, pos, rest_kids_print(e, k)),
        pos + rest_kids_print(e, k).len() + 1 < s.len(),
        s[pos + rest_kids_print(e, k).len()] == '<',
        s[pos + rest_kids_print(e, k).len() + 1] == '/',
    ensures
        ({
            let es = e.children->Elements_0@;
            let endp = pos + rest_kids_print(e, k).len();
            &&& k == es.len() ==> pelems(s, pos) is None
            &&& k < es.len() ==> (pelems(s, pos) matches Option::Some(q) && q.1 == endp
                && q.0.len() == es.len() - k && (forall|t: int|
                    0 <= t < es.len() - k ==> elem_matches(es[k + t], #[trigger] q.0[t])))
        }),
    decreases e, 0int, e.children->Elements_0@.len() - k,
{
    lemma_print_lits();
    let es = e.children->Elements_0@;
    let rp = rest_kids_print(e, k);
    let endp = pos + rp.len() as int;
    lemma_pelems_eq(s, pos);
    if k == es.len() {
        // `</` stands at `pos`: no element starts here.
        lemma_pelem_eq(s, pos);
        assert(s[pos] == '<');
        assert(s[pos + 1] == '/');
        assert(skip_ws(s, pos) == pos);
        assert(!is_ws_char(s[pos + 1]));
        assert(skip_ws(s, pos + 1) == pos + 1);
        assert(scan_alnum(s, pos + 1) == pos + 1);
        assert(parse_name(s, pos + 1) is None);
        assert(parse_open(s, pos) is None);
        assert(pelem(s, pos) is None);
    } else {
        let child = es[k];
        let pc = print_elem(child);
        assert(rp =~= pc + rest_kids_print(e, k + 1));
        assert(seg_at(s, pos, pc)) by {
            assert forall|t: int| 0 <= t < pc.len() implies s[pos + t] == #[trigger] pc[t] by {
                assert(rp[t] == pc[t]);
                assert(s[pos + t] == rp[t]);
            }
        }
        assert(seg_at(s, pos + pc.len(), rest_kids_print(e, k + 1))) by {
            assert forall|t: int|
                0 <= t < rest_kids_print(e, k + 1).len() implies s[pos + pc.len() + t]
                == #[trigger] rest_kids_print(e, k + 1)[t] by {
                assert(rp[pc.len() + t] == rest_kids_print(e, k + 1)[t]);
                assert(s[pos + (pc.len() + t)] == rp[pc.len() + t]);
            }
        }
        // The character after this child is the `<` of the next child or
        // of the close tag: never whitespace.
        assert(printable(child));
        let cend = pos + pc.len() as int;
        assert(cend < s.len() ==> !is_ws_char(s[cend])) by {
            if k + 1 < es.len() {
                lemma_print_elem_first(es[k + 1]);
                assert(rest_kids_print(e, k + 1)[0] == print_elem(es[k + 1])[0]);
                assert(s[cend + 0] == rest_kids_print(e, k + 1)[0]);
                assert(s[cend] == '<');
            } else {
                assert(rest_kids_print(e, k + 1).len() == 0);
                assert(s[cend] == '<');
            }
        }
        lemma_print_parse(s, pos, child);
        lemma_kids_parse(s, cend, e, k + 1);
        lemma_pelems_eq(s, pos);
        if k + 1 == es.len() {
            assert(pelems(s, cend) is None);
        } else {
            let q2 = pelems(s, cend)->Some_0;
            assert forall|t: int|
                0 <= t < es.len() - k implies elem_matches(
                es[k + t],
                #[trigger] (seq![pelem(s, pos)->Some_0.0] + q2.0)[t],
            ) by {
                if t == 0 {
                } else {
                    assert(q2.0[t - 1] == (seq![pelem(s, pos)->Some_0.0] + q2.0)[t]);
                    assert(elem_matches(es[k + 1 + (t - 1)], q2.0[t - 1]));
                }
            }
        }
    }
}

/// Printing a tree the parser could have produced and re-parsing it
/// yields a structurally identical tree: the reprinted markup denotes
/// exactly the element value the tree already denotes. Together with the
/// parser's guarantee that its output is printable and denotes its own
/// parse value, parse, pretty-print and re-parse agree on one value.
pub proof fn lemma_print_parse_roundtrip(e: Element)
    requires
        printable(e),
    ensures
        spec_parse(print_elem(e)) matches Option::Some(v) && elem_matches(e, v),
{
    let s = print_elem(e);
    lemma_print_elem_first(e);
    assert(seg_at(s, 0, s));
    lemma_print_parse(s, 0, e);
}

/// Look up an attribute by key; `None` when the element does not carry it.
pub fn get_attr(element: &Element, key: &str) -> (r: Option<String>)
    requires
        attr_keys_unique(element.attributes@),
    ensures
        match r {
            Option::Some(v) => attrs_map(element.attributes@).contains_key(key@)
                && v@ == attrs_map(element.attributes@)[key@],
            Option::None => !attrs_map(element.attributes@).contains_key(key@),
        },
{
    let n = element.attributes.len();
    let mut i: usize = 0;
    while i < n
        invariant
            attr_keys_unique(element.attributes@),
            n == element.attributes@.len(),
            i <= n,
            forall|j: int| 0 <= j < i ==> #[trigger] element.attributes@[j].0@ != key@,
        decreases n - i,
    {
        if string_eq_str(&element.attributes[i].0, key) {
            let v = element.attributes[i].1.clone();
            proof {
                lemma_attrs_map_present(element.attributes@, i as int);
            }
            return Option::Some(v);
        }
        i += 1;
    }
    proof {
        lemma_attrs_map_absent(element.attributes@, key@);
    }
    Option::None
}

/// Like [`get_attr`], but a missing key is an error naming the element and
/// the attribute.
pub fn get_required_attr(element: &Element, key: &str) -> (r: Result<String, Error>)
    requires
        attr_keys_unique(element.attributes@),
    ensures
        match r {
            Result::Ok(v) => attrs_map(element.attributes@).contains_key(key@)
                && v@ == attrs_map(element.attributes@)[key@],
            Result::Err(e) => !attrs_map(element.attributes@).contains_key(key@)
                && (e matches Error::RequiredAttribute(n, k)
                    && n@ == element.name@ && k@ == key@),
        },
{
    match get_attr(element, key) {
        Option::Some(v) => Result::Ok(v),
        Option::None => Result::Err(
            Error::RequiredAttribute(element.name.clone(), key.to_owned()),
        ),
    }
}

/// Require the element to carry the expected name.
pub fn validate_name(element: &Element, expected_name: &str) -> (r: Result<(), Error>)
    ensures
        match r {
            Result::Ok(()) => element.name@ == expected_name@,
            Result::Err(e) => element.name@ != expected_name@
                && (e matches Error::NotSupportElement(n, x)
                    && n@ == element.name@ && x@ == expected_name@),
        },
{
    if string_eq_str(&element.name, expected_name) {
        Result::Ok(())
    } else {
        Result::Err(
            Error::NotSupportElement(element.name.clone(), expected_name.to_owned()),
        )
    }
}

} // verus!
