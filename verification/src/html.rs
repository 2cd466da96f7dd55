//! The library's own model of a parsed HTML tree. The external parser's
//! output is converted into this shape at the boundary; every structure the
//! conversion core reads lives here as plain values.

use vstd::prelude::*;
use crate::text::str_eq;

verus! {

/// One attribute of a source HTML element, as a name/value pair.
pub struct HtmlAttr {
    pub name: String,
    pub value: String,
}

impl View for HtmlAttr {
    type V = (Seq<char>, Seq<char>);

    open spec fn view(&self) -> (Seq<char>, Seq<char>) {
        (self.name@, self.value@)
    }
}

/// A node of an already-built, immutable HTML parse tree.
///
/// `Other` stands for the node kinds the mapping ignores: comments,
/// doctypes, processing instructions.
pub enum HtmlNode {
    Element { name: String, attrs: Vec<HtmlAttr>, children: Vec<HtmlNode> },
    Text { text: String },
    Other,
}

impl HtmlNode {
    pub open spec fn is_element(self) -> bool {
        self is Element
    }

    pub open spec fn spec_name(self) -> Seq<char> {
        match self {
            HtmlNode::Element { name, .. } => name@,
            _ => Seq::empty(),
        }
    }

    pub open spec fn spec_children(self) -> Seq<HtmlNode> {
        match self {
            HtmlNode::Element { children, .. } => children@,
            _ => Seq::empty(),
        }
    }

    pub open spec fn spec_attrs(self) -> Seq<(Seq<char>, Seq<char>)> {
        match self {
            HtmlNode::Element { attrs, .. } => attr_views(attrs@),
            _ => Seq::empty(),
        }
    }

    /// Whether this node is a `<pre>` element, the root of a
    /// preformatted context.
    pub open spec fn is_pre(self) -> bool {
        self is Element && self.spec_name() == "pre"@
    }
}

/// The views of an element's attributes, as pairs of character sequences.
pub open spec fn attr_views(v: Seq<HtmlAttr>) -> Seq<(Seq<char>, Seq<char>)> {
    v.map_values(|a: HtmlAttr| a@)
}

/// The value of the first attribute with the given name, if any.
pub open spec fn attr_spec_from(attrs: Seq<(Seq<char>, Seq<char>)>, name: Seq<char>, i: int) -> Option<
    Seq<char>,
>
    decreases attrs.len() - i,
{
    if i < 0 || i >= attrs.len() {
        None
    } else if attrs[i].0 == name {
        Some(attrs[i].1)
    } else {
        attr_spec_from(attrs, name, i + 1)
    }
}

pub open spec fn attr_spec(attrs: Seq<(Seq<char>, Seq<char>)>, name: Seq<char>) -> Option<
    Seq<char>,
> {
    attr_spec_from(attrs, name, 0)
}

/// Looks an attribute up by name; the first pair with that name wins,
/// as in the parser's own attribute map.
pub fn attr_value<'a>(attrs: &'a Vec<HtmlAttr>, name: &str) -> (r: Option<&'a String>)
    ensures
        match r {
            Some(v) => attr_spec(attr_views(attrs@), name@) == Some(v@),
            None => attr_spec(attr_views(attrs@), name@) is None,
        },
{
    let ghost aview = attr_views(attrs@);
    let mut i: usize = 0;
    while i < attrs.len()
        invariant
            aview == attrs@.map_values(|a: HtmlAttr| a@),
            i <= attrs.len(),
            attr_spec(aview, name@) == attr_spec_from(aview, name@, i as int),
        decreases attrs.len() - i,
    {
        if str_eq(attrs[i].name.as_str(), name) {
            return Some(&attrs[i].value);
        }
        i += 1;
    }
    None
}

} // verus!
