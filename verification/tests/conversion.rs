use html_to_adf::extractor::{esc_hr, extract_leaves, has_text_node, is_inside_pre, DocNode};
use html_to_adf::grammar::{empty_child_type, is_legal, repair_children, rule_for};
use html_to_adf::html::{attr_value, HtmlAttr, HtmlNode};
use html_to_adf::registry::{map_element, resolve, AdfValue};
use html_to_adf::text::parse_i64;

fn elem(name: &str, attrs: Vec<(&str, &str)>, children: Vec<HtmlNode>) -> HtmlNode {
    HtmlNode::Element {
        name: name.to_string(),
        attrs: attrs
            .into_iter()
            .map(|(n, v)| HtmlAttr { name: n.to_string(), value: v.to_string() })
            .collect(),
        children,
    }
}

fn text(t: &str) -> HtmlNode {
    HtmlNode::Text { text: t.to_string() }
}

fn names(children: &[&str]) -> Vec<String> {
    children.iter().map(|c| c.to_string()).collect()
}

fn leaf_names(leaves: &[DocNode]) -> Vec<String> {
    leaves.iter().map(|l| l.name.clone()).collect()
}

#[test]
fn paragraph_children_legal() {
    assert!(is_legal("paragraph", &names(&["text", "hardBreak", "emoji", "text"])));
    assert!(is_legal("paragraph", &names(&[])));
    assert!(!is_legal("paragraph", &names(&["paragraph"])));
    assert!(!is_legal("paragraph", &names(&["text", "rule"])));
}

#[test]
fn heading_and_lists_legal() {
    assert!(is_legal("heading", &names(&["text"])));
    assert!(is_legal("bulletList", &names(&["listItem", "listItem"])));
    assert!(!is_legal("bulletList", &names(&["paragraph"])));
    assert!(is_legal("orderedList", &names(&["listItem"])));
    assert!(is_legal("blockquote", &names(&["paragraph"])));
    assert!(!is_legal("blockquote", &names(&["text"])));
}

#[test]
fn table_rules_legal() {
    assert!(is_legal("table", &names(&["tableRow"])));
    assert!(is_legal("tableRow", &names(&["tableHeader", "tableCell"])));
    assert!(is_legal("tableCell", &names(&["paragraph", "hardBreak", "rule"])));
    assert!(!is_legal("tableHeader", &names(&["hardBreak"])));
    assert!(is_legal("doc", &names(&["paragraph", "table", "rule"])));
    assert!(!is_legal("doc", &names(&["text"])));
}

#[test]
fn list_item_prefix_then_repeat() {
    assert!(is_legal("listItem", &names(&["paragraph", "paragraph", "bulletList"])));
    assert!(is_legal("listItem", &names(&["mediaSingle", "codeBlock", "orderedList"])));
    assert!(is_legal("listItem", &names(&["bulletList"])));
    assert!(!is_legal("listItem", &names(&["paragraph", "text"])));
    assert!(!is_legal("listItem", &names(&["heading"])));
}

#[test]
fn unregistered_parent_accepts_nothing() {
    assert!(!is_legal("rule", &names(&[])));
    assert!(!is_legal("text", &names(&[])));
    assert!(rule_for("hardBreak").is_none());
}

#[test]
fn empty_rule_allows_only_empty() {
    let rule = empty_child_type();
    assert!(rule.is_legal(&names(&[])));
    assert!(!rule.is_legal(&names(&["text"])));
}

#[test]
fn untrimmed_text_is_kept_verbatim() {
    let root = elem("p", vec![], vec![text("  hello  ")]);
    let leaves = extract_leaves(&root);
    assert_eq!(leaves.len(), 1);
    assert_eq!(leaves[0].name, "text");
    assert_eq!(leaves[0].text, "  hello  ");
}

#[test]
fn whitespace_only_text_dropped_outside_pre() {
    let root = elem("p", vec![], vec![text("   ")]);
    let leaves = extract_leaves(&root);
    assert_eq!(leaves.len(), 0);
}

#[test]
fn whitespace_only_text_kept_inside_pre() {
    let root = elem("pre", vec![], vec![text("   ")]);
    let leaves = extract_leaves(&root);
    assert_eq!(leaves.len(), 1);
    assert_eq!(leaves[0].name, "text");
    assert_eq!(leaves[0].text, "   ");
}

#[test]
fn empty_text_dropped_even_inside_pre() {
    let root = elem("pre", vec![], vec![text("")]);
    let leaves = extract_leaves(&root);
    assert_eq!(leaves.len(), 0);
}

#[test]
fn empty_td_emits_one_cell_leaf() {
    let root = elem("td", vec![], vec![]);
    let leaves = extract_leaves(&root);
    assert_eq!(leaf_names(&leaves), vec!["td"]);
    assert_eq!(leaves[0].text, "");
}

#[test]
fn td_with_text_emits_no_cell_leaf() {
    let root = elem("td", vec![], vec![text("x")]);
    let leaves = extract_leaves(&root);
    assert_eq!(leaf_names(&leaves), vec!["text"]);
    assert_eq!(leaves[0].text, "x");
}

#[test]
fn td_with_whitespace_text_still_counts_as_empty() {
    let root = elem("td", vec![], vec![text("  ")]);
    let leaves = extract_leaves(&root);
    assert_eq!(leaf_names(&leaves), vec!["td"]);
}

#[test]
fn td_with_br_counts_as_meaningful() {
    let root = elem("td", vec![], vec![elem("br", vec![], vec![])]);
    let leaves = extract_leaves(&root);
    assert_eq!(leaf_names(&leaves), vec!["br"]);
}

#[test]
fn has_text_node_sees_nested_text() {
    let inner = elem("span", vec![], vec![text("deep")]);
    let node = elem("td", vec![], vec![inner]);
    assert!(has_text_node(&node, false));
    let hollow = elem("td", vec![], vec![elem("span", vec![], vec![text("  ")])]);
    assert!(!has_text_node(&hollow, false));
}

#[test]
fn is_inside_pre_walks_ancestors() {
    let root = elem("pre", vec![], vec![elem("p", vec![], vec![text("x")])]);
    assert!(is_inside_pre(&root, &vec![0, 0]));
    assert!(is_inside_pre(&root, &vec![0]));
    assert!(!is_inside_pre(&root, &vec![]));
    let plain = elem("div", vec![], vec![text("x")]);
    assert!(!is_inside_pre(&plain, &vec![0]));
}

#[test]
fn esc_hr_rewrites_every_rule_token() {
    assert_eq!(esc_hr("<p>a<hr/>b</p>".to_string()), "<p>a<hrbr></hrbr>b</p>");
    assert_eq!(esc_hr("x<hr>y</hr>z".to_string()), "x<hrbr></hrbr>y<hrbr></hrbr>z");
    assert_eq!(esc_hr("</hr/>".to_string()), "<hrbr></hrbr>");
    assert_eq!(esc_hr("<hr//>".to_string()), "<hr//>");
    assert_eq!(esc_hr("no rules here".to_string()), "no rules here");
    assert_eq!(esc_hr("".to_string()), "");
}

#[test]
fn rule_leaf_lands_between_text_leaves() {
    // the tree the parser yields for `<p>a<hr/>b</p>` after the rewrite
    let root = elem(
        "p",
        vec![],
        vec![text("a"), elem("hrbr", vec![], vec![]), text("b")],
    );
    let leaves = extract_leaves(&root);
    assert_eq!(leaf_names(&leaves), vec!["text", "hr", "text"]);
    assert_eq!(leaves[0].text, "a");
    assert_eq!(leaves[1].text, "");
    assert_eq!(leaves[2].text, "b");
}

#[test]
fn leaves_come_out_in_document_order() {
    let root = elem(
        "body",
        vec![],
        vec![
            elem("p", vec![], vec![text("a"), elem("span", vec![], vec![text("b")]), text("c")]),
            elem("img", vec![("src", "u")], vec![]),
        ],
    );
    let leaves = extract_leaves(&root);
    assert_eq!(leaf_names(&leaves), vec!["text", "text", "text", "img"]);
    assert_eq!(leaves[0].text, "a");
    assert_eq!(leaves[1].text, "b");
    assert_eq!(leaves[2].text, "c");
    assert_eq!(leaves[0].path, vec![0, 0]);
    assert_eq!(leaves[1].path, vec![0, 1, 0]);
    assert_eq!(leaves[2].path, vec![0, 2]);
    assert_eq!(leaves[3].path, vec![1]);
}

#[test]
fn extract_is_deterministic() {
    let root = elem("p", vec![], vec![text("a"), elem("br", vec![], vec![])]);
    let first = extract_leaves(&root);
    let second = extract_leaves(&root);
    assert_eq!(leaf_names(&first), leaf_names(&second));
    assert_eq!(first.len(), second.len());
    for (a, b) in first.iter().zip(second.iter()) {
        assert_eq!(a.text, b.text);
        assert_eq!(a.path, b.path);
    }
}

fn attrs_of(pairs: Vec<(&str, &str)>) -> Vec<HtmlAttr> {
    pairs
        .into_iter()
        .map(|(n, v)| HtmlAttr { name: n.to_string(), value: v.to_string() })
        .collect()
}

fn lookup<'a>(kvs: &'a [(String, AdfValue)], key: &str) -> Option<&'a AdfValue> {
    kvs.iter().find(|(k, _)| k == key).map(|(_, v)| v)
}

fn expect_str(kvs: &[(String, AdfValue)], key: &str, want: &str) {
    match lookup(kvs, key) {
        Some(AdfValue::S(s)) => assert_eq!(s, want),
        other => panic!("expected string {:?} under {}, got {:?}", want, key, other.is_some()),
    }
}

fn expect_int(kvs: &[(String, AdfValue)], key: &str, want: i64) {
    match lookup(kvs, key) {
        Some(AdfValue::I(v)) => assert_eq!(*v, want),
        other => panic!("expected integer {} under {}, got {:?}", want, key, other.is_some()),
    }
}

#[test]
fn external_image_maps_to_media_single() {
    let attrs = attrs_of(vec![("src", "http://x/y.png"), ("data-layout", "wide")]);
    let mapped = map_element("img", &attrs).unwrap();
    assert_eq!(mapped.name, "mediaSingle");
    expect_str(&mapped.attrs, "layout", "wide");
    assert_eq!(mapped.children.len(), 1);
    let media = &mapped.children[0];
    assert_eq!(media.name, "media");
    expect_str(&media.attrs, "url", "http://x/y.png");
    expect_str(&media.attrs, "type", "external");
    assert!(lookup(&media.attrs, "id").is_none());
}

#[test]
fn image_layout_defaults_to_center() {
    let attrs = attrs_of(vec![("src", "u")]);
    let mapped = map_element("img", &attrs).unwrap();
    expect_str(&mapped.attrs, "layout", "center");
}

#[test]
fn file_image_maps_width_as_integer() {
    let attrs = attrs_of(vec![
        ("data-media-id", "123"),
        ("data-width", "50"),
        ("data-width-type", "pixel"),
    ]);
    let mapped = map_element("img", &attrs).unwrap();
    assert_eq!(mapped.name, "mediaSingle");
    let media = &mapped.children[0];
    expect_str(&media.attrs, "id", "123");
    expect_str(&media.attrs, "type", "file");
    expect_int(&media.attrs, "width", 50);
    expect_str(&media.attrs, "widthType", "pixel");
    assert!(lookup(&media.attrs, "height").is_none());
    assert!(lookup(&media.attrs, "collection").is_none());
}

#[test]
fn unparsable_width_and_odd_width_type_are_omitted() {
    let attrs = attrs_of(vec![
        ("data-media-id", "m"),
        ("data-width", "50px"),
        ("data-height", "7"),
        ("data-width-type", "points"),
    ]);
    let mapped = map_element("img", &attrs).unwrap();
    let media = &mapped.children[0];
    assert!(lookup(&media.attrs, "width").is_none());
    expect_int(&media.attrs, "height", 7);
    assert!(lookup(&media.attrs, "widthType").is_none());
}

#[test]
fn heading_level_is_an_integer() {
    let mapped = map_element("h3", &vec![]).unwrap();
    assert_eq!(mapped.name, "heading");
    expect_int(&mapped.attrs, "level", 3);
    let h6 = map_element("h6", &vec![]).unwrap();
    expect_int(&h6.attrs, "level", 6);
}

#[test]
fn anchor_derives_link_mark_from_href() {
    let attrs = attrs_of(vec![("href", "http://a/b")]);
    let mapped = map_element("a", &attrs).unwrap();
    assert_eq!(mapped.name, "text");
    assert_eq!(mapped.marks.len(), 1);
    assert_eq!(mapped.marks[0].typename, "link");
    assert_eq!(mapped.marks[0].attributes, vec![("href".to_string(), "http://a/b".to_string())]);
    let bare = map_element("a", &vec![]).unwrap();
    assert_eq!(bare.marks[0].typename, "link");
    assert!(bare.marks[0].attributes.is_empty());
}

#[test]
fn simple_marks_and_subsup() {
    let b = map_element("b", &vec![]).unwrap();
    assert_eq!(b.name, "text");
    assert_eq!(b.marks[0].typename, "strong");
    assert!(b.marks[0].attributes.is_empty());
    let sup = map_element("sup", &vec![]).unwrap();
    assert_eq!(sup.marks[0].typename, "subsup");
    assert_eq!(sup.marks[0].attributes, vec![("type".to_string(), "sup".to_string())]);
}

#[test]
fn iframe_maps_to_paragraph_with_src() {
    let mapped = map_element("iframe", &attrs_of(vec![("src", "http://f")])).unwrap();
    assert_eq!(mapped.name, "paragraph");
    expect_str(&mapped.attrs, "src", "http://f");
    assert_eq!(mapped.children.len(), 0);
    let bare = map_element("iframe", &vec![]).unwrap();
    assert!(bare.attrs.is_empty());
}

#[test]
fn unmapped_tags_are_transparent() {
    assert!(map_element("div", &vec![]).is_none());
    assert!(resolve("font").is_none());
    let span = resolve("span").unwrap();
    assert_eq!(span.name, "text");
}

#[test]
fn attr_lookup_finds_first_match() {
    let attrs = attrs_of(vec![("a", "1"), ("b", "2"), ("a", "3")]);
    assert_eq!(attr_value(&attrs, "a").unwrap(), "1");
    assert_eq!(attr_value(&attrs, "b").unwrap(), "2");
    assert!(attr_value(&attrs, "c").is_none());
}

#[test]
fn integer_parsing_matches_std() {
    for s in ["50", "+7", "-12", "0", "9223372036854775807", "-9223372036854775808"] {
        assert_eq!(parse_i64(s), s.parse::<i64>().ok(), "case {}", s);
    }
    for s in ["", "50px", " 5", "5 ", "+", "-", "9223372036854775808", "--4", "1e3"] {
        assert_eq!(parse_i64(s), None, "case {}", s);
        assert!(s.parse::<i64>().is_err(), "case {}", s);
    }
}

#[test]
fn repair_drops_what_the_rule_refuses() {
    let repaired = repair_children("paragraph", &names(&["text", "rule", "emoji"]));
    assert_eq!(repaired, names(&["text", "emoji"]));
    assert!(is_legal("paragraph", &repaired));
}

#[test]
fn repair_keeps_a_legal_sequence_unchanged() {
    let legal = names(&["paragraph", "table"]);
    assert_eq!(repair_children("doc", &legal), legal);
    let item = names(&["paragraph", "codeBlock", "bulletList"]);
    assert_eq!(repair_children("listItem", &item), item);
}

#[test]
fn repair_respects_prefix_then_repeat() {
    let repaired = repair_children("listItem", &names(&["paragraph", "text", "bulletList"]));
    assert_eq!(repaired, names(&["paragraph", "bulletList"]));
    assert!(is_legal("listItem", &repaired));
}

#[test]
fn repair_under_ruleless_parent_keeps_nothing() {
    assert_eq!(repair_children("rule", &names(&["text"])), names(&[]));
    assert_eq!(repair_children("hardBreak", &names(&[])), names(&[]));
}
