//! The tag registry: the mapping from HTML tag names to ADF content-type
//! descriptors, and the derivation of concrete attributes, marks and
//! synthesized children from a source element's attribute set.

use vstd::prelude::*;
use vstd::string::StrSliceExecFns;
use vstd::string::StringExecFns;
use crate::html::{HtmlAttr, attr_views, attr_spec, attr_value};
use crate::text::{str_eq, parse_i64, parse_i64_spec};

verus! {

/// A JSON-ready attribute value: a string or an integer.
pub enum AdfValue {
    S(String),
    I(i64),
}

/// The mathematical shape of an attribute value.
pub enum ValV {
    S(Seq<char>),
    I(int),
}

impl View for AdfValue {
    type V = ValV;

    open spec fn view(&self) -> ValV {
        match self {
            AdfValue::S(s) => ValV::S(s@),
            AdfValue::I(v) => ValV::I(*v as int),
        }
    }
}

/// How a mark's attributes are obtained: a fixed list, or derived from
/// the source element's `href`.
pub enum AdfMarkAttributes {
    List(Vec<(String, String)>),
    FromHref,
}

/// An inline mark attached to text content.
pub struct AdfMark {
    pub typename: String,
    pub attributes: AdfMarkAttributes,
}

#[verifier::ext_equal]
pub enum MarkAttrV {
    List(Seq<(Seq<char>, Seq<char>)>),
    FromHref,
}

#[verifier::ext_equal]
pub struct MarkV {
    pub typename: Seq<char>,
    pub attributes: MarkAttrV,
}

pub open spec fn pair_views(v: Seq<(String, String)>) -> Seq<(Seq<char>, Seq<char>)> {
    v.map_values(|p: (String, String)| (p.0@, p.1@))
}

impl View for AdfMarkAttributes {
    type V = MarkAttrV;

    open spec fn view(&self) -> MarkAttrV {
        match self {
            AdfMarkAttributes::List(l) => MarkAttrV::List(pair_views(l@)),
            AdfMarkAttributes::FromHref => MarkAttrV::FromHref,
        }
    }
}

impl View for AdfMark {
    type V = MarkV;

    open spec fn view(&self) -> MarkV {
        MarkV { typename: self.typename@, attributes: self.attributes@ }
    }
}

pub open spec fn mark_views(v: Seq<AdfMark>) -> Seq<MarkV> {
    v.map_values(|m: AdfMark| m@)
}

/// How a content type's own attributes are derived from the source
/// element: none, a fixed heading level, the source `src` copied when
/// present, or the media layout from `data-layout` with default `center`.
#[derive(Clone, Copy, PartialEq, Eq, Structural, Debug)]
pub enum AdfAttributes {
    NoAttrs,
    Level(u8),
    SrcAttr,
    Layout,
}

/// Whether the content type synthesizes children of its own: none, or
/// one `media` child derived from the source element.
#[derive(Clone, Copy, PartialEq, Eq, Structural, Debug)]
pub enum AdfChildren {
    NoChildren,
    Media,
}

/// A content-type descriptor: the ADF type name and the tagged rules for
/// deriving attributes, marks and synthesized children.
pub struct AdfContentType {
    pub name: String,
    pub attributes: AdfAttributes,
    pub marks: Vec<AdfMark>,
    pub children: AdfChildren,
}

#[verifier::ext_equal]
pub struct CtV {
    pub name: Seq<char>,
    pub attributes: AdfAttributes,
    pub marks: Seq<MarkV>,
    pub children: AdfChildren,
}

impl View for AdfContentType {
    type V = CtV;

    open spec fn view(&self) -> CtV {
        CtV {
            name: self.name@,
            attributes: self.attributes,
            marks: mark_views(self.marks@),
            children: self.children,
        }
    }
}

pub open spec fn plain_ct_v(name: Seq<char>) -> CtV {
    CtV {
        name: name,
        attributes: AdfAttributes::NoAttrs,
        marks: Seq::empty(),
        children: AdfChildren::NoChildren,
    }
}

pub open spec fn marked_text_v(mark: MarkV) -> CtV {
    CtV {
        name: "text"@,
        attributes: AdfAttributes::NoAttrs,
        marks: seq![mark],
        children: AdfChildren::NoChildren,
    }
}

pub open spec fn simple_mark_v(name: Seq<char>) -> MarkV {
    MarkV { typename: name, attributes: MarkAttrV::List(Seq::empty()) }
}

pub open spec fn subsup_mark_v(kind: Seq<char>) -> MarkV {
    MarkV { typename: "subsup"@, attributes: MarkAttrV::List(seq![("type"@, kind)]) }
}

/// The registry: the content type that a source HTML tag maps to, if
/// any; an unmapped tag is transparent.
pub open spec fn ct_spec(tag: Seq<char>) -> Option<CtV> {
    if tag == "p"@ {
        Some(plain_ct_v("paragraph"@))
    } else if tag == "blockquote"@ {
        Some(plain_ct_v("blockquote"@))
    } else if tag == "span"@ || tag == "text"@ {
        Some(plain_ct_v("text"@))
    } else if tag == "ul"@ {
        Some(plain_ct_v("bulletList"@))
    } else if tag == "ol"@ {
        Some(plain_ct_v("orderedList"@))
    } else if tag == "li"@ {
        Some(plain_ct_v("listItem"@))
    } else if tag == "hr"@ {
        Some(plain_ct_v("rule"@))
    } else if tag == "br"@ {
        Some(plain_ct_v("hardBreak"@))
    } else if tag == "html"@ || tag == "body"@ {
        Some(plain_ct_v("doc"@))
    } else if tag == "table"@ {
        Some(plain_ct_v("table"@))
    } else if tag == "tr"@ {
        Some(plain_ct_v("tableRow"@))
    } else if tag == "th"@ {
        Some(plain_ct_v("tableHeader"@))
    } else if tag == "td"@ {
        Some(plain_ct_v("tableCell"@))
    } else if tag == "iframe"@ {
        Some(
            (CtV {
                name: "paragraph"@,
                attributes: AdfAttributes::SrcAttr,
                marks: Seq::empty(),
                children: AdfChildren::NoChildren,
            }),
        )
    } else if tag == "b"@ || tag == "strong"@ {
        Some(marked_text_v(simple_mark_v("strong"@)))
    } else if tag == "i"@ || tag == "em"@ {
        Some(marked_text_v(simple_mark_v("em"@)))
    } else if tag == "u"@ {
        Some(marked_text_v(simple_mark_v("underline"@)))
    } else if tag == "code"@ {
        Some(marked_text_v(simple_mark_v("code"@)))
    } else if tag == "a"@ {
        Some(marked_text_v((MarkV { typename: "link"@, attributes: MarkAttrV::FromHref })))
    } else if tag == "sub"@ {
        Some(marked_text_v(subsup_mark_v("sub"@)))
    } else if tag == "sup"@ {
        Some(marked_text_v(subsup_mark_v("sup"@)))
    } else if tag == "h1"@ {
        Some(heading_ct_v(1))
    } else if tag == "h2"@ {
        Some(heading_ct_v(2))
    } else if tag == "h3"@ {
        Some(heading_ct_v(3))
    } else if tag == "h4"@ {
        Some(heading_ct_v(4))
    } else if tag == "h5"@ {
        Some(heading_ct_v(5))
    } else if tag == "h6"@ {
        Some(heading_ct_v(6))
    } else if tag == "img"@ {
        Some(
            (CtV {
                name: "mediaSingle"@,
                attributes: AdfAttributes::Layout,
                marks: Seq::empty(),
                children: AdfChildren::Media,
            }),
        )
    } else {
        None
    }
}

pub open spec fn heading_ct_v(level: u8) -> CtV {
    CtV {
        name: "heading"@,
        attributes: AdfAttributes::Level(level),
        marks: Seq::empty(),
        children: AdfChildren::NoChildren,
    }
}

fn plain_ct(name: &'static str) -> (ct: AdfContentType)
    ensures
        ct@ == plain_ct_v(name@),
{
    let ct = AdfContentType {
        name: String::from_str(name),
        attributes: AdfAttributes::NoAttrs,
        marks: Vec::new(),
        children: AdfChildren::NoChildren,
    };
    proof {
        assert(ct@ =~~= plain_ct_v(name@));
    }
    ct
}

fn simple_mark(name: &'static str) -> (m: AdfMark)
    ensures
        m@ == simple_mark_v(name@),
{
    let m = AdfMark {
        typename: String::from_str(name),
        attributes: AdfMarkAttributes::List(Vec::new()),
    };
    proof {
        assert(m@ =~~= simple_mark_v(name@));
    }
    m
}

fn marked_text(mark: AdfMark) -> (ct: AdfContentType)
    ensures
        ct@ == marked_text_v(mark@),
{
    let mut marks: Vec<AdfMark> = Vec::new();
    let ghost mv = mark@;
    marks.push(mark);
    let ct = AdfContentType {
        name: String::from_str("text"),
        attributes: AdfAttributes::NoAttrs,
        marks: marks,
        children: AdfChildren::NoChildren,
    };
    proof {
        assert(ct@ =~~= marked_text_v(mv));
    }
    ct
}

fn heading_ct(level: u8) -> (ct: AdfContentType)
    ensures
        ct@ == heading_ct_v(level),
{
    let ct = AdfContentType {
        name: String::from_str("heading"),
        attributes: AdfAttributes::Level(level),
        marks: Vec::new(),
        children: AdfChildren::NoChildren,
    };
    proof {
        assert(ct@ =~~= heading_ct_v(level));
    }
    ct
}

fn subsup_mark(kind: &'static str) -> (m: AdfMark)
    ensures
        m@ == subsup_mark_v(kind@),
{
    let mut l: Vec<(String, String)> = Vec::new();
    l.push((String::from_str("type"), String::from_str(kind)));
    let m = AdfMark { typename: String::from_str("subsup"), attributes: AdfMarkAttributes::List(l) };
    proof {
        assert(m@ =~~= subsup_mark_v(kind@));
    }
    m
}

/// Resolves a source HTML tag name to its content-type descriptor;
/// unmapped tags yield none and stay transparent.
pub fn resolve(tag: &str) -> (r: Option<AdfContentType>)
    ensures
        match r {
            Some(ct) => ct_spec(tag@) == Some(ct@),
            None => ct_spec(tag@) is None,
        },
{
    if str_eq(tag, "p") {
        Some(plain_ct("paragraph"))
    } else if str_eq(tag, "blockquote") {
        Some(plain_ct("blockquote"))
    } else if str_eq(tag, "span") || str_eq(tag, "text") {
        Some(plain_ct("text"))
    } else if str_eq(tag, "ul") {
        Some(plain_ct("bulletList"))
    } else if str_eq(tag, "ol") {
        Some(plain_ct("orderedList"))
    } else if str_eq(tag, "li") {
        Some(plain_ct("listItem"))
    } else if str_eq(tag, "hr") {
        Some(plain_ct("rule"))
    } else if str_eq(tag, "br") {
        Some(plain_ct("hardBreak"))
    } else if str_eq(tag, "html") || str_eq(tag, "body") {
        Some(plain_ct("doc"))
    } else if str_eq(tag, "table") {
        Some(plain_ct("table"))
    } else if str_eq(tag, "tr") {
        Some(plain_ct("tableRow"))
    } else if str_eq(tag, "th") {
        Some(plain_ct("tableHeader"))
    } else if str_eq(tag, "td") {
        Some(plain_ct("tableCell"))
    } else if str_eq(tag, "iframe") {
        let ct = AdfContentType {
            name: String::from_str("paragraph"),
            attributes: AdfAttributes::SrcAttr,
            marks: Vec::new(),
            children: AdfChildren::NoChildren,
        };
        proof {
            assert(mark_views(ct.marks@) =~= Seq::<MarkV>::empty());
            assert(Some(ct@) =~~= ct_spec(tag@));
        }
        Some(ct)
    } else if str_eq(tag, "b") || str_eq(tag, "strong") {
        Some(marked_text(simple_mark("strong")))
    } else if str_eq(tag, "i") || str_eq(tag, "em") {
        Some(marked_text(simple_mark("em")))
    } else if str_eq(tag, "u") {
        Some(marked_text(simple_mark("underline")))
    } else if str_eq(tag, "code") {
        Some(marked_text(simple_mark("code")))
    } else if str_eq(tag, "a") {
        let m = AdfMark {
            typename: String::from_str("link"),
            attributes: AdfMarkAttributes::FromHref,
        };
        proof {
            assert(m@ =~~= (MarkV { typename: "link"@, attributes: MarkAttrV::FromHref }));
        }
        Some(marked_text(m))
    } else if str_eq(tag, "sub") {
        Some(marked_text(subsup_mark("sub")))
    } else if str_eq(tag, "sup") {
        Some(marked_text(subsup_mark("sup")))
    } else if str_eq(tag, "h1") {
        Some(heading_ct(1))
    } else if str_eq(tag, "h2") {
        Some(heading_ct(2))
    } else if str_eq(tag, "h3") {
        Some(heading_ct(3))
    } else if str_eq(tag, "h4") {
        Some(heading_ct(4))
    } else if str_eq(tag, "h5") {
        Some(heading_ct(5))
    } else if str_eq(tag, "h6") {
        Some(heading_ct(6))
    } else if str_eq(tag, "img") {
        let ct = AdfContentType {
            name: String::from_str("mediaSingle"),
            attributes: AdfAttributes::Layout,
            marks: Vec::new(),
            children: AdfChildren::Media,
        };
        proof {
            assert(mark_views(ct.marks@) =~= Seq::<MarkV>::empty());
            assert(Some(ct@) =~~= ct_spec(tag@));
        }
        Some(ct)
    } else {
        None
    }
}

/// The `layout` value of a media single: the source `data-layout`, or
/// `center` when absent.
pub open spec fn layout_of(attrs: Seq<(Seq<char>, Seq<char>)>) -> Seq<char> {
    match attr_spec(attrs, "data-layout"@) {
        Some(v) => v,
        None => "center"@,
    }
}

/// The concrete attributes a derivation rule produces against a source
/// element's attribute set.
pub open spec fn attrs_spec(rule: AdfAttributes, attrs: Seq<(Seq<char>, Seq<char>)>) -> Seq<
    (Seq<char>, ValV),
> {
    match rule {
        AdfAttributes::NoAttrs => Seq::empty(),
        AdfAttributes::Level(n) => seq![("level"@, ValV::I(n as int))],
        AdfAttributes::SrcAttr => match attr_spec(attrs, "src"@) {
            Some(v) => seq![("src"@, ValV::S(v))],
            None => Seq::empty(),
        },
        AdfAttributes::Layout => seq![("layout"@, ValV::S(layout_of(attrs)))],
    }
}

pub open spec fn kv_views(v: Seq<(String, AdfValue)>) -> Seq<(Seq<char>, ValV)> {
    v.map_values(|p: (String, AdfValue)| (p.0@, p.1@))
}

/// Derives the concrete attribute list of a mapped node from the source
/// element's attributes, following the content type's derivation rule.
pub fn derive_attrs(rule: AdfAttributes, attrs: &Vec<HtmlAttr>) -> (r: Vec<(String, AdfValue)>)
    ensures
        kv_views(r@) == attrs_spec(rule, attr_views(attrs@)),
{
    let mut r: Vec<(String, AdfValue)> = Vec::new();
    match rule {
        AdfAttributes::NoAttrs => {
        },
        AdfAttributes::Level(n) => {
            r.push((String::from_str("level"), AdfValue::I(n as i64)));
        },
        AdfAttributes::SrcAttr => {
            match attr_value(attrs, "src") {
                Some(v) => {
                    r.push((String::from_str("src"), AdfValue::S(v.clone())));
                },
                None => {
                },
            }
        },
        AdfAttributes::Layout => {
            let lay: String = match attr_value(attrs, "data-layout") {
                Some(v) => v.clone(),
                None => String::from_str("center"),
            };
            r.push((String::from_str("layout"), AdfValue::S(lay)));
        },
    }
    proof {
        assert(kv_views(r@) =~~= attrs_spec(rule, attr_views(attrs@)));
    }
    r
}

/// A mark with its attributes fully derived, ready for rendering.
pub struct ResolvedMark {
    pub typename: String,
    pub attributes: Vec<(String, String)>,
}

#[verifier::ext_equal]
pub struct RMarkV {
    pub typename: Seq<char>,
    pub attributes: Seq<(Seq<char>, Seq<char>)>,
}

impl View for ResolvedMark {
    type V = RMarkV;

    open spec fn view(&self) -> RMarkV {
        RMarkV { typename: self.typename@, attributes: pair_views(self.attributes@) }
    }
}

pub open spec fn rmark_views(v: Seq<ResolvedMark>) -> Seq<RMarkV> {
    v.map_values(|m: ResolvedMark| m@)
}

/// The attributes a mark derives against a source element.
pub open spec fn mark_attrs_spec(m: MarkAttrV, attrs: Seq<(Seq<char>, Seq<char>)>) -> Seq<
    (Seq<char>, Seq<char>),
> {
    match m {
        MarkAttrV::List(l) => l,
        MarkAttrV::FromHref => match attr_spec(attrs, "href"@) {
            Some(v) => seq![("href"@, v)],
            None => Seq::empty(),
        },
    }
}

pub open spec fn marks_spec(marks: Seq<MarkV>, attrs: Seq<(Seq<char>, Seq<char>)>) -> Seq<RMarkV> {
    marks.map_values(
        |m: MarkV| RMarkV { typename: m.typename, attributes: mark_attrs_spec(m.attributes, attrs) },
    )
}

fn clone_pairs(v: &Vec<(String, String)>) -> (r: Vec<(String, String)>)
    ensures
        pair_views(r@) == pair_views(v@),
{
    let mut r: Vec<(String, String)> = Vec::new();
    let mut i: usize = 0;
    while i < v.len()
        invariant
            i <= v@.len(),
            pair_views(r@) == pair_views(v@).take(i as int),
        decreases v@.len() - i,
    {
        proof {
            assert(pair_views(v@).len() == v@.len());
            assert(pair_views(r@).len() == i);
        }
        r.push((v[i].0.clone(), v[i].1.clone()));
        proof {
            assert(pair_views(r@).len() == i + 1);
            assert(r@[i as int].0@ == v@[i as int].0@);
            assert(r@[i as int].1@ == v@[i as int].1@);
            assert(pair_views(r@)[i as int] == (v@[i as int].0@, v@[i as int].1@));
            assert(pair_views(r@) =~~= pair_views(v@).take(i + 1));
        }
        i += 1;
    }
    proof {
        assert(pair_views(v@).take(v@.len() as int) =~~= pair_views(v@));
    }
    r
}

/// Derives the concrete marks of a mapped node against the source
/// element's attributes.
#[verifier::loop_isolation(false)]
pub fn derive_marks(marks: &Vec<AdfMark>, attrs: &Vec<HtmlAttr>) -> (r: Vec<ResolvedMark>)
    ensures
        rmark_views(r@) == marks_spec(mark_views(marks@), attr_views(attrs@)),
{
    let ghost goal = marks_spec(mark_views(marks@), attr_views(attrs@));
    let mut r: Vec<ResolvedMark> = Vec::new();
    let mut i: usize = 0;
    while i < marks.len()
        invariant
            i <= marks@.len(),
            rmark_views(r@) =~= goal.take(i as int),
        decreases marks@.len() - i,
    {
        let derived: Vec<(String, String)> = match &marks[i].attributes {
            AdfMarkAttributes::List(l) => clone_pairs(l),
            AdfMarkAttributes::FromHref => {
                let mut d: Vec<(String, String)> = Vec::new();
                match attr_value(attrs, "href") {
                    Some(v) => {
                        d.push((String::from_str("href"), v.clone()));
                    },
                    None => {
                    },
                }
                d
            },
        };
        let m = ResolvedMark { typename: marks[i].typename.clone(), attributes: derived };
        proof {
            assert(mark_views(marks@)[i as int] == marks@[i as int]@);
            assert(m@ =~~= goal[i as int]);
        }
        r.push(m);
        proof {
            assert(rmark_views(r@) =~= goal.take(i + 1));
        }
        i += 1;
    }
    proof {
        assert(goal.take(marks@.len() as int) =~= goal);
    }
    r
}

/// An optional string attribute of the media child, copied from the
/// source when present.
pub open spec fn opt_str_attr(
    attrs: Seq<(Seq<char>, Seq<char>)>,
    src_name: Seq<char>,
    out_name: Seq<char>,
) -> Seq<(Seq<char>, ValV)> {
    match attr_spec(attrs, src_name) {
        Some(v) => seq![(out_name, ValV::S(v))],
        None => Seq::empty(),
    }
}

/// An optional integer attribute of the media child, included only when
/// the source string parses as an integer.
pub open spec fn opt_int_attr(
    attrs: Seq<(Seq<char>, Seq<char>)>,
    src_name: Seq<char>,
    out_name: Seq<char>,
) -> Seq<(Seq<char>, ValV)> {
    match attr_spec(attrs, src_name) {
        Some(v) => match parse_i64_spec(v) {
            Some(n) => seq![(out_name, ValV::I(n as int))],
            None => Seq::empty(),
        },
        None => Seq::empty(),
    }
}

/// The media child's `widthType`, included only when the source value is
/// `pixel` or `percentage`.
pub open spec fn width_type_attr(attrs: Seq<(Seq<char>, Seq<char>)>) -> Seq<(Seq<char>, ValV)> {
    match attr_spec(attrs, "data-width-type"@) {
        Some(t) => if t == "pixel"@ || t == "percentage"@ {
            seq![("widthType"@, ValV::S(t))]
        } else {
            Seq::empty()
        },
        None => Seq::empty(),
    }
}

/// The attributes of the one `media` child an image synthesizes: external
/// media when the source has `src`, file media when it has
/// `data-media-id`, with the optional collection, alt, width, height and
/// width-type values.
pub open spec fn media_attrs_spec(attrs: Seq<(Seq<char>, Seq<char>)>) -> Seq<(Seq<char>, ValV)> {
    match attr_spec(attrs, "src"@) {
        Some(src) => seq![("url"@, ValV::S(src)), ("type"@, ValV::S("external"@))],
        None => match attr_spec(attrs, "data-media-id"@) {
            Some(id) => seq![("id"@, ValV::S(id)), ("type"@, ValV::S("file"@))] + opt_str_attr(
                attrs,
                "data-collection"@,
                "collection"@,
            ) + opt_str_attr(attrs, "alt"@, "alt"@) + opt_int_attr(attrs, "data-width"@, "width"@)
                + opt_int_attr(attrs, "data-height"@, "height"@) + width_type_attr(attrs),
            None => Seq::empty(),
        },
    }
}

/// Derives the attribute list of the `media` child an image element
/// synthesizes.
pub fn media_child_attrs(attrs: &Vec<HtmlAttr>) -> (r: Vec<(String, AdfValue)>)
    ensures
        kv_views(r@) == media_attrs_spec(attr_views(attrs@)),
{
    let ghost aview = attr_views(attrs@);
    let mut r: Vec<(String, AdfValue)> = Vec::new();
    match attr_value(attrs, "src") {
        Some(src) => {
            r.push((String::from_str("url"), AdfValue::S(src.clone())));
            r.push((String::from_str("type"), AdfValue::S(String::from_str("external"))));
            proof {
                assert(kv_views(r@) =~~= media_attrs_spec(aview));
            }
        },
        None => {
            match attr_value(attrs, "data-media-id") {
                Some(id) => {
                    r.push((String::from_str("id"), AdfValue::S(id.clone())));
                    r.push((String::from_str("type"), AdfValue::S(String::from_str("file"))));
                    let ghost base = seq![("id"@, ValV::S(id@)), ("type"@, ValV::S("file"@))];
                    proof {
                        assert(kv_views(r@) =~~= base);
                    }
                    match attr_value(attrs, "data-collection") {
                        Some(v) => {
                            r.push((String::from_str("collection"), AdfValue::S(v.clone())));
                        },
                        None => {
                        },
                    }
                    let ghost step1 = base + opt_str_attr(aview, "data-collection"@, "collection"@);
                    proof {
                        assert(kv_views(r@) =~~= step1);
                    }
                    match attr_value(attrs, "alt") {
                        Some(v) => {
                            r.push((String::from_str("alt"), AdfValue::S(v.clone())));
                        },
                        None => {
                        },
                    }
                    let ghost step2 = step1 + opt_str_attr(aview, "alt"@, "alt"@);
                    proof {
                        assert(kv_views(r@) =~~= step2);
                    }
                    match attr_value(attrs, "data-width") {
                        Some(v) => {
                            match parse_i64(v.as_str()) {
                                Some(n) => {
                                    r.push((String::from_str("width"), AdfValue::I(n)));
                                },
                                None => {
                                },
                            }
                        },
                        None => {
                        },
                    }
                    let ghost step3 = step2 + opt_int_attr(aview, "data-width"@, "width"@);
                    proof {
                        assert(kv_views(r@) =~~= step3);
                    }
                    match attr_value(attrs, "data-height") {
                        Some(v) => {
                            match parse_i64(v.as_str()) {
                                Some(n) => {
                                    r.push((String::from_str("height"), AdfValue::I(n)));
                                },
                                None => {
                                },
                            }
                        },
                        None => {
                        },
                    }
                    let ghost step4 = step3 + opt_int_attr(aview, "data-height"@, "height"@);
                    proof {
                        assert(kv_views(r@) =~~= step4);
                    }
                    match attr_value(attrs, "data-width-type") {
                        Some(t) => {
                            if str_eq(t.as_str(), "pixel") || str_eq(t.as_str(), "percentage") {
                                r.push((String::from_str("widthType"), AdfValue::S(t.clone())));
                            }
                        },
                        None => {
                        },
                    }
                    proof {
                        assert(kv_views(r@) =~~= step4 + width_type_attr(aview));
                        assert(kv_views(r@) =~~= media_attrs_spec(aview));
                    }
                },
                None => {
                    proof {
                        assert(kv_views(r@) =~~= media_attrs_spec(aview));
                    }
                },
            }
        },
    }
    r
}

/// A synthesized child of a mapped node, such as the `media` child of a
/// `mediaSingle`.
pub struct MediaNode {
    pub name: String,
    pub attrs: Vec<(String, AdfValue)>,
}

/// A source element fully mapped through the registry: the ADF type
/// name, derived attributes, derived marks, and synthesized children.
pub struct MappedNode {
    pub name: String,
    pub attrs: Vec<(String, AdfValue)>,
    pub marks: Vec<ResolvedMark>,
    pub children: Vec<MediaNode>,
}

/// Maps a source element, given by its tag name and attribute set,
/// through the registry: resolves the content type and derives every
/// concrete value; an unmapped tag yields none.
pub fn map_element(tag: &str, attrs: &Vec<HtmlAttr>) -> (r: Option<MappedNode>)
    ensures
        match r {
            None => ct_spec(tag@) is None,
            Some(m) => {
                &&& ct_spec(tag@) is Some
                &&& m.name@ == ct_spec(tag@)->0.name
                &&& kv_views(m.attrs@) == attrs_spec(ct_spec(tag@)->0.attributes, attr_views(attrs@))
                &&& rmark_views(m.marks@) == marks_spec(ct_spec(tag@)->0.marks, attr_views(attrs@))
                &&& (ct_spec(tag@)->0.children is Media ==> m.children@.len() == 1
                    && m.children@[0].name@ == "media"@ && kv_views(m.children@[0].attrs@)
                    == media_attrs_spec(attr_views(attrs@)))
                &&& (ct_spec(tag@)->0.children is NoChildren ==> m.children@.len() == 0)
            },
        },
{
    match resolve(tag) {
        None => None,
        Some(ct) => {
            let derived_attrs = derive_attrs(ct.attributes, attrs);
            let derived_marks = derive_marks(&ct.marks, attrs);
            let children: Vec<MediaNode> = match ct.children {
                AdfChildren::NoChildren => Vec::new(),
                AdfChildren::Media => {
                    let mut c: Vec<MediaNode> = Vec::new();
                    c.push(
                        MediaNode {
                            name: String::from_str("media"),
                            attrs: media_child_attrs(attrs),
                        },
                    );
                    c
                },
            };
            Some(
                MappedNode {
                    name: ct.name,
                    attrs: derived_attrs,
                    marks: derived_marks,
                    children: children,
                },
            )
        },
    }
}

} // verus!
