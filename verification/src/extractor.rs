//! Leaf extraction: one post-order pass over a parse tree that flattens it
//! into an ordered sequence of leaf records with provenance paths, plus the
//! horizontal-rule placeholder rewrite applied to the raw text beforehand.

use vstd::prelude::*;
use vstd::string::StrSliceExecFns;
use vstd::string::StringExecFns;
use crate::html::HtmlNode;
use crate::text::{keep_text, str_eq, contains_non_ws};

verus! {

/// Whether some descendant of `node` is meaningful: a `<br>` element, or a
/// text node that the whitespace policy keeps. `in_pre` says whether `node`
/// itself lies inside a `<pre>` element.
pub open spec fn has_text_spec(node: HtmlNode, in_pre: bool) -> bool
    decreases node, 0int,
{
    match node {
        HtmlNode::Element { name, attrs, children } => any_text(
            children@,
            in_pre || name@ == "pre"@,
            0,
        ),
        _ => false,
    }
}

/// Whether some child from position `i` on is meaningful; `ctx` is the
/// inside-`<pre>` status of the children themselves.
pub open spec fn any_text(children: Seq<HtmlNode>, ctx: bool, i: int) -> bool
    decreases children, children.len() - i,
{
    if i < 0 || i >= children.len() {
        false
    } else {
        (match children[i] {
            HtmlNode::Element { .. } => children[i].spec_name() == "br"@ || has_text_spec(
                children[i],
                ctx,
            ),
            HtmlNode::Text { text } => keep_text(text@, ctx),
            HtmlNode::Other => false,
        }) || any_text(children, ctx, i + 1)
    }
}

/// Decides whether an element has a meaningful descendant: a line-break
/// element anywhere below it, or a text node kept by the whitespace policy.
/// `in_pre` must say whether `node` lies inside a `<pre>` element.
#[verifier::loop_isolation(false)]
pub fn has_text_node(node: &HtmlNode, in_pre: bool) -> (r: bool)
    ensures
        r == has_text_spec(*node, in_pre),
    decreases *node,
{
    match node {
        HtmlNode::Element { name, attrs, children } => {
            let ctx = in_pre || str_eq(name.as_str(), "pre");
            let mut i: usize = 0;
            while i < children.len()
                invariant
                    i <= children.len(),
                    ctx == (in_pre || name@ == "pre"@),
                    has_text_spec(*node, in_pre) == any_text(children@, ctx, i as int),
                decreases children.len() - i,
            {
                proof {
                    assert(decreases_to!(*node => (*node)->Element_children));
                    assert((*node)->Element_children@ == children@);
                    assert(decreases_to!(*node => children@[i as int]));
                }
                let hit = match &children[i] {
                    HtmlNode::Element { name: cname, .. } => {
                        str_eq(cname.as_str(), "br") || has_text_node(&children[i], ctx)
                    },
                    HtmlNode::Text { text } => {
                        if ctx {
                            !text.as_str().is_empty()
                        } else {
                            contains_non_ws(text.as_str())
                        }
                    },
                    HtmlNode::Other => false,
                };
                if hit {
                    return true;
                }
                i += 1;
            }
            false
        },
        _ => false,
    }
}

/// Whether the node reached from `node` by `path` lies inside a `<pre>`
/// element, that is, whether some proper ancestor of it is one. A step of
/// the path that leaves the tree contributes nothing.
pub open spec fn inside_pre_spec(node: HtmlNode, path: Seq<usize>) -> bool
    decreases path.len(),
{
    if path.len() == 0 {
        false
    } else {
        node.is_pre() || {
            let c = path[0] as int;
            if c < node.spec_children().len() {
                inside_pre_spec(node.spec_children()[c], path.skip(1))
            } else {
                false
            }
        }
    }
}

/// Walks the provenance path of a node down from the root and reports
/// whether any proper ancestor of the node is a `<pre>` element.
#[verifier::loop_isolation(false)]
pub fn is_inside_pre(root: &HtmlNode, path: &Vec<usize>) -> (r: bool)
    ensures
        r == inside_pre_spec(*root, path@),
{
    let mut cur: &HtmlNode = root;
    let mut k: usize = 0;
    proof {
        assert(path@.skip(0) =~= path@);
    }
    while k < path.len()
        invariant
            k <= path@.len(),
            inside_pre_spec(*root, path@) == inside_pre_spec(*cur, path@.skip(k as int)),
        decreases path@.len() - k,
    {
        proof {
            assert(path@.skip(k as int)[0] == path@[k as int]);
            assert(path@.skip(k as int).skip(1) =~= path@.skip(k as int + 1));
        }
        match cur {
            HtmlNode::Element { name, attrs, children } => {
                if str_eq(name.as_str(), "pre") {
                    return true;
                }
                let c = path[k];
                if c < children.len() {
                    cur = &children[c];
                    k += 1;
                } else {
                    return false;
                }
            },
            _ => {
                return false;
            },
        }
    }
    proof {
        assert(path@.skip(path@.len() as int) =~= Seq::<usize>::empty());
    }
    false
}

/// One extracted leaf record: the leaf's name (an HTML tag name, or
/// `"text"`), its raw text, and its provenance as the path of child
/// positions that leads to it from the root of the parse tree.
pub struct DocNode {
    pub name: String,
    pub text: String,
    pub path: Vec<usize>,
}

/// The mathematical shape of a leaf record.
pub struct LeafV {
    pub name: Seq<char>,
    pub text: Seq<char>,
    pub path: Seq<usize>,
}

impl View for DocNode {
    type V = LeafV;

    open spec fn view(&self) -> LeafV {
        LeafV { name: self.name@, text: self.text@, path: self.path@ }
    }
}

/// The leaf that an element contributes on its closing visit: line breaks,
/// images, iframes and the rewritten horizontal rule always, a table cell
/// only when it has no meaningful descendant, other elements never.
pub open spec fn close_leaf(node: HtmlNode, path: Seq<usize>, in_pre: bool) -> Seq<LeafV> {
    let name = node.spec_name();
    if name == "img"@ || name == "iframe"@ {
        seq![LeafV { name: name, text: Seq::empty(), path: path }]
    } else if name == "hrbr"@ {
        seq![LeafV { name: "hr"@, text: Seq::empty(), path: path }]
    } else if name == "br"@ {
        seq![LeafV { name: "br"@, text: Seq::empty(), path: path }]
    } else if name == "td"@ && !has_text_spec(node, in_pre) {
        seq![LeafV { name: "td"@, text: Seq::empty(), path: path }]
    } else {
        seq![]
    }
}

/// The ordered leaves of the subtree rooted at `node`, in post-order:
/// every node is recorded on its closing visit, after its whole subtree.
/// `path` is the provenance of `node`; `in_pre` says whether `node` lies
/// inside a `<pre>` element.
pub open spec fn leaves_of(node: HtmlNode, path: Seq<usize>, in_pre: bool) -> Seq<LeafV>
    decreases node, 0int,
{
    match node {
        HtmlNode::Text { text } => if keep_text(text@, in_pre) {
            seq![LeafV { name: "text"@, text: text@, path: path }]
        } else {
            seq![]
        },
        HtmlNode::Element { name, attrs, children } => leaves_children(
            children@,
            path,
            in_pre || name@ == "pre"@,
            0,
        ) + close_leaf(node, path, in_pre),
        HtmlNode::Other => seq![],
    }
}

/// The leaves of the subtrees of the children from position `i` on; `ctx`
/// is the inside-`<pre>` status of the children themselves.
pub open spec fn leaves_children(
    children: Seq<HtmlNode>,
    path: Seq<usize>,
    ctx: bool,
    i: int,
) -> Seq<LeafV>
    decreases children, children.len() - i,
{
    if i < 0 || i >= children.len() {
        seq![]
    } else {
        leaves_of(children[i], path.push(i as usize), ctx) + leaves_children(
            children,
            path,
            ctx,
            i + 1,
        )
    }
}

pub open spec fn leaf_views(v: Seq<DocNode>) -> Seq<LeafV> {
    v.map_values(|d: DocNode| d@)
}

fn clone_path(p: &Vec<usize>) -> (r: Vec<usize>)
    ensures
        r@ == p@,
{
    let mut r: Vec<usize> = Vec::new();
    let mut i: usize = 0;
    while i < p.len()
        invariant
            i <= p@.len(),
            r@ == p@.take(i as int),
        decreases p@.len() - i,
    {
        r.push(p[i]);
        proof {
            assert(p@.take(i + 1) =~= p@.take(i as int).push(p@[i as int]));
        }
        i += 1;
    }
    proof {
        assert(p@.take(p@.len() as int) =~= p@);
    }
    r
}

proof fn lemma_leaf_views_push(s: Seq<DocNode>, d: DocNode)
    ensures
        leaf_views(s.push(d)) == leaf_views(s).push(d@),
{
    assert(leaf_views(s.push(d)) =~= leaf_views(s).push(d@));
}

/// Appends the leaves of the subtree of `node` to `out`, in document
/// (post-) order. `in_pre` must say whether `node` lies inside a `<pre>`
/// element; `path` is its provenance.
#[verifier::loop_isolation(false)]
fn extract_into(node: &HtmlNode, path: &Vec<usize>, in_pre: bool, out: &mut Vec<DocNode>)
    ensures
        leaf_views(final(out)@) == leaf_views(old(out)@) + leaves_of(*node, path@, in_pre),
    decreases *node,
{
    match node {
        HtmlNode::Text { text } => {
            let keep = if in_pre {
                !text.as_str().is_empty()
            } else {
                contains_non_ws(text.as_str())
            };
            if keep {
                let d = DocNode {
                    name: String::from_str("text"),
                    text: text.clone(),
                    path: clone_path(path),
                };
                proof {
                    lemma_leaf_views_push(out@, d);
                }
                out.push(d);
                proof {
                    reveal_strlit("text");
                    assert(leaf_views(out@) =~= leaf_views(old(out)@) + leaves_of(
                        *node,
                        path@,
                        in_pre,
                    ));
                }
            } else {
                proof {
                    assert(leaf_views(out@) =~= leaf_views(old(out)@) + leaves_of(
                        *node,
                        path@,
                        in_pre,
                    ));
                }
            }
        },
        HtmlNode::Element { name, attrs, children } => {
            let ctx = in_pre || str_eq(name.as_str(), "pre");
            let mut i: usize = 0;
            while i < children.len()
                invariant
                    i <= children@.len(),
                    leaf_views(out@) + leaves_children(children@, path@, ctx, i as int)
                        =~= leaf_views(old(out)@) + leaves_children(children@, path@, ctx, 0),
                decreases children@.len() - i,
            {
                proof {
                    assert(decreases_to!(*node => (*node)->Element_children));
                    assert((*node)->Element_children@ == children@);
                    assert(decreases_to!(*node => children@[i as int]));
                }
                let ghost prev = out@;
                let mut cpath = clone_path(path);
                cpath.push(i);
                extract_into(&children[i], &cpath, ctx, out);
                proof {
                    assert(cpath@ =~= path@.push(i as usize));
                    assert(leaves_children(children@, path@, ctx, i as int) == leaves_of(
                        children@[i as int],
                        path@.push(i as usize),
                        ctx,
                    ) + leaves_children(children@, path@, ctx, i as int + 1));
                    assert(leaf_views(out@) + leaves_children(children@, path@, ctx, i as int + 1)
                        =~= leaf_views(prev) + leaves_children(children@, path@, ctx, i as int));
                }
                i += 1;
            }
            proof {
                assert(leaf_views(out@) =~= leaf_views(old(out)@) + leaves_children(
                    children@,
                    path@,
                    ctx,
                    0,
                ));
            }
            let close_name: Option<String> = if str_eq(name.as_str(), "img") || str_eq(
                name.as_str(),
                "iframe",
            ) {
                Some(name.clone())
            } else if str_eq(name.as_str(), "hrbr") {
                Some(String::from_str("hr"))
            } else if str_eq(name.as_str(), "br") {
                Some(String::from_str("br"))
            } else if str_eq(name.as_str(), "td") && !has_text_node(node, in_pre) {
                Some(String::from_str("td"))
            } else {
                None
            };
            match close_name {
                Some(n) => {
                    let d = DocNode { name: n, text: String::new(), path: clone_path(path) };
                    proof {
                        lemma_leaf_views_push(out@, d);
                    }
                    out.push(d);
                    proof {
                        reveal_strlit("hr");
                        reveal_strlit("br");
                        reveal_strlit("td");
                        assert(leaf_views(out@) =~= leaf_views(old(out)@) + leaves_of(
                            *node,
                            path@,
                            in_pre,
                        ));
                    }
                },
                None => {
                    proof {
                        assert(leaf_views(out@) =~= leaf_views(old(out)@) + leaves_of(
                            *node,
                            path@,
                            in_pre,
                        ));
                    }
                },
            }
        },
        HtmlNode::Other => {
            proof {
                assert(leaf_views(out@) =~= leaf_views(old(out)@) + leaves_of(
                    *node,
                    path@,
                    in_pre,
                ));
            }
        },
    }
}

/// Flattens a parse tree into its ordered sequence of leaf records: one
/// post-order pass, recording each node on its closing visit, so that a
/// leaf appears after the leaves of everything it contains and in correct
/// document position relative to surrounding text.
pub fn extract_leaves(root: &HtmlNode) -> (r: Vec<DocNode>)
    ensures
        leaf_views(r@) == leaves_of(*root, Seq::empty(), false),
{
    let mut out: Vec<DocNode> = Vec::new();
    let path: Vec<usize> = Vec::new();
    extract_into(root, &path, false, &mut out);
    proof {
        assert(leaf_views(Seq::<DocNode>::empty()) =~= Seq::<LeafV>::empty());
        assert(leaf_views(out@) =~= leaves_of(*root, Seq::empty(), false));
    }
    out
}

/// Every element of the tree has at most `usize::MAX` children, as any
/// tree actually held in vectors does; the provenance paths of deeper
/// children could not be represented.
pub open spec fn bounded_arity(node: HtmlNode) -> bool
    decreases node, 0int,
{
    match node {
        HtmlNode::Element { name, attrs, children } => children@.len() <= usize::MAX
            && bounded_arity_children(children@, 0),
        _ => true,
    }
}

pub open spec fn bounded_arity_children(children: Seq<HtmlNode>, i: int) -> bool
    decreases children, children.len() - i,
{
    if i < 0 || i >= children.len() {
        true
    } else {
        bounded_arity(children[i]) && bounded_arity_children(children, i + 1)
    }
}

/// `p` is a prefix of `q`: the node reached by `q` lies in the subtree
/// of the node reached by `p`.
pub open spec fn is_prefix(p: Seq<usize>, q: Seq<usize>) -> bool {
    p.len() <= q.len() && forall|j: int| 0 <= j < p.len() ==> p[j] == q[j]
}

/// The paths agree before position `j` and `p` takes the smaller branch
/// there.
pub open spec fn lex_at(p: Seq<usize>, q: Seq<usize>, j: int) -> bool {
    0 <= j < p.len() && j < q.len() && (forall|t: int| 0 <= t < j ==> p[t] == q[t]) && p[j] < q[j]
}

/// Strict lexicographic order on provenance paths: document order for
/// nodes neither of which contains the other.
pub open spec fn lex_lt(p: Seq<usize>, q: Seq<usize>) -> bool {
    exists|j: int| lex_at(p, q, j)
}

/// How two leaves emitted in this order may relate: the later one is an
/// ancestor of the earlier (it closes after its subtree), or the earlier
/// one's path is lexicographically smaller, that is, its node appears
/// first in the source.
pub open spec fn doc_ordered(la: LeafV, lb: LeafV) -> bool {
    is_prefix(lb.path, la.path) || lex_lt(la.path, lb.path)
}

/// Every leaf of the child subtrees from position `i` on lies strictly
/// below `path`, in a child branch numbered at least `i`.
pub open spec fn child_path_ok(path: Seq<usize>, i: int, q: Seq<usize>) -> bool {
    q.len() > path.len() && is_prefix(path, q) && i <= q[path.len() as int]
}

proof fn lemma_paths_of_node(node: HtmlNode, path: Seq<usize>, in_pre: bool)
    requires
        bounded_arity(node),
    ensures
        forall|t: int|
            0 <= t < leaves_of(node, path, in_pre).len() ==> is_prefix(
                path,
                (#[trigger] leaves_of(node, path, in_pre)[t]).path,
            ),
    decreases node, 0int,
{
    match node {
        HtmlNode::Element { name, attrs, children } => {
            let ctx = in_pre || name@ == "pre"@;
            let lc = leaves_children(children@, path, ctx, 0);
            let whole = leaves_of(node, path, in_pre);
            lemma_paths_of_children(children@, path, ctx, 0);
            assert forall|t: int| 0 <= t < whole.len() implies is_prefix(
                path,
                (#[trigger] whole[t]).path,
            ) by {
                if t < lc.len() {
                    assert(whole[t] == lc[t]);
                    assert(child_path_ok(path, 0, lc[t].path));
                } else {
                    assert(whole[t] == close_leaf(node, path, in_pre)[t - lc.len()]);
                    assert(whole[t].path == path);
                }
            }
        },
        _ => {},
    }
}

proof fn lemma_paths_of_children(children: Seq<HtmlNode>, path: Seq<usize>, ctx: bool, i: int)
    requires
        children.len() <= usize::MAX,
        bounded_arity_children(children, i),
    ensures
        forall|t: int|
            0 <= t < leaves_children(children, path, ctx, i).len() ==> child_path_ok(
                path,
                i,
                (#[trigger] leaves_children(children, path, ctx, i)[t]).path,
            ),
    decreases children, children.len() - i,
{
    if 0 <= i < children.len() {
        lemma_paths_of_node(children[i], path.push(i as usize), ctx);
        lemma_paths_of_children(children, path, ctx, i + 1);
        let head = leaves_of(children[i], path.push(i as usize), ctx);
        let tail = leaves_children(children, path, ctx, i + 1);
        assert forall|t: int|
            0 <= t < leaves_children(children, path, ctx, i).len() implies child_path_ok(
            path,
            i,
            (#[trigger] leaves_children(children, path, ctx, i)[t]).path,
        ) by {
            if t < head.len() {
                assert(leaves_children(children, path, ctx, i)[t] == head[t]);
                assert(is_prefix(path.push(i as usize), head[t].path));
                assert(path.push(i as usize)[path.len() as int] == i as usize);
                assert(head[t].path[path.len() as int] == i);
            } else {
                assert(leaves_children(children, path, ctx, i)[t] == tail[t - head.len()]);
                assert(child_path_ok(path, i + 1, tail[t - head.len()].path));
            }
        }
    }
}

proof fn lemma_order_node(node: HtmlNode, path: Seq<usize>, in_pre: bool)
    requires
        bounded_arity(node),
    ensures
        forall|a: int, b: int|
            0 <= a < b < leaves_of(node, path, in_pre).len() ==> #[trigger] doc_ordered(
                leaves_of(node, path, in_pre)[a],
                leaves_of(node, path, in_pre)[b],
            ),
    decreases node, 0int,
{
    match node {
        HtmlNode::Element { name, attrs, children } => {
            let ctx = in_pre || name@ == "pre"@;
            let lc = leaves_children(children@, path, ctx, 0);
            let whole = leaves_of(node, path, in_pre);
            lemma_order_children(children@, path, ctx, 0);
            lemma_paths_of_children(children@, path, ctx, 0);
            assert forall|a: int, b: int| 0 <= a < b < whole.len() implies #[trigger] doc_ordered(
                whole[a],
                whole[b],
            ) by {
                if b < lc.len() {
                    assert(whole[a] == lc[a]);
                    assert(whole[b] == lc[b]);
                    assert(doc_ordered(lc[a], lc[b]));
                } else {
                    // b is the element's own closing leaf, whose path is `path`
                    assert(whole[b] == close_leaf(node, path, in_pre)[b - lc.len()]);
                    assert(whole[b].path == path);
                    assert(whole[a] == lc[a]);
                    assert(child_path_ok(path, 0, lc[a].path));
                    assert(is_prefix(whole[b].path, whole[a].path));
                }
            }
        },
        _ => {},
    }
}

proof fn lemma_order_children(children: Seq<HtmlNode>, path: Seq<usize>, ctx: bool, i: int)
    requires
        children.len() <= usize::MAX,
        bounded_arity_children(children, i),
    ensures
        forall|a: int, b: int|
            0 <= a < b < leaves_children(children, path, ctx, i).len() ==> #[trigger] doc_ordered(
                leaves_children(children, path, ctx, i)[a],
                leaves_children(children, path, ctx, i)[b],
            ),
    decreases children, children.len() - i,
{
    if 0 <= i < children.len() {
        let head = leaves_of(children[i], path.push(i as usize), ctx);
        let tail = leaves_children(children, path, ctx, i + 1);
        let whole = leaves_children(children, path, ctx, i);
        lemma_order_node(children[i], path.push(i as usize), ctx);
        lemma_order_children(children, path, ctx, i + 1);
        lemma_paths_of_node(children[i], path.push(i as usize), ctx);
        lemma_paths_of_children(children, path, ctx, i + 1);
        assert forall|a: int, b: int| 0 <= a < b < whole.len() implies #[trigger] doc_ordered(
            whole[a],
            whole[b],
        ) by {
            if b < head.len() {
                assert(whole[a] == head[a]);
                assert(whole[b] == head[b]);
                assert(doc_ordered(head[a], head[b]));
            } else if a >= head.len() {
                assert(whole[a] == tail[a - head.len()]);
                assert(whole[b] == tail[b - head.len()]);
                assert(doc_ordered(tail[a - head.len()], tail[b - head.len()]));
            } else {
                let pa = head[a].path;
                let pb = tail[b - head.len()].path;
                assert(whole[a] == head[a]);
                assert(whole[b] == tail[b - head.len()]);
                assert(is_prefix(path.push(i as usize), pa));
                assert(child_path_ok(path, i + 1, pb));
                assert(path.push(i as usize)[path.len() as int] == i as usize);
                assert(pa[path.len() as int] == i);
                assert(lex_at(pa, pb, path.len() as int));
            }
        }
    }
}

/// Document order of extraction: `extract_leaves` is a pure function of
/// the tree, and for any two leaves in its output, either the later one
/// is an ancestor of the earlier one (an element closes only after its
/// whole subtree), or the earlier one's provenance path is
/// lexicographically smaller, that is, its node appears first in the
/// source. In particular, leaves of disjoint subtrees come out exactly
/// in source order.
pub proof fn lemma_extract_document_order(root: HtmlNode)
    requires
        bounded_arity(root),
    ensures
        forall|a: int, b: int|
            0 <= a < b < leaves_of(root, Seq::empty(), false).len() ==> #[trigger] doc_ordered(
                leaves_of(root, Seq::empty(), false)[a],
                leaves_of(root, Seq::empty(), false)[b],
            ),
{
    lemma_order_node(root, Seq::empty(), false);
}

/// `<hr>` at position `i`.
pub open spec fn hr_open4(s: Seq<char>, i: int) -> bool {
    i + 4 <= s.len() && s[i] == '<' && s[i + 1] == 'h' && s[i + 2] == 'r' && s[i + 3] == '>'
}

/// `</hr>` at position `i`.
pub open spec fn hr_close5(s: Seq<char>, i: int) -> bool {
    i + 5 <= s.len() && s[i] == '<' && s[i + 1] == '/' && s[i + 2] == 'h' && s[i + 3] == 'r' && s[i
        + 4] == '>'
}

/// `<hr/>` at position `i`.
pub open spec fn hr_self5(s: Seq<char>, i: int) -> bool {
    i + 5 <= s.len() && s[i] == '<' && s[i + 1] == 'h' && s[i + 2] == 'r' && s[i + 3] == '/' && s[i
        + 4] == '>'
}

/// `</hr/>` at position `i`.
pub open spec fn hr_close_self6(s: Seq<char>, i: int) -> bool {
    i + 6 <= s.len() && s[i] == '<' && s[i + 1] == '/' && s[i + 2] == 'h' && s[i + 3] == 'r' && s[i
        + 4] == '/' && s[i + 5] == '>'
}

/// The length of the horizontal-rule token starting at position `i`, or 0
/// when none starts there. The four tokens are mutually exclusive at any
/// one position, since each is forced by the characters it covers.
pub open spec fn hr_match_len(s: Seq<char>, i: int) -> int {
    if hr_open4(s, i) {
        4
    } else if hr_close5(s, i) {
        5
    } else if hr_self5(s, i) {
        5
    } else if hr_close_self6(s, i) {
        6
    } else {
        0
    }
}

/// The placeholder pair that replaces each horizontal-rule token.
pub open spec fn hrbr_pair() -> Seq<char> {
    seq!['<', 'h', 'r', 'b', 'r', '>', '<', '/', 'h', 'r', 'b', 'r', '>']
}

/// The text with every horizontal-rule token, open, close or
/// self-closing, replaced by a paired placeholder element, scanning left
/// to right without overlap.
pub open spec fn esc_hr_spec(s: Seq<char>) -> Seq<char>
    decreases s.len(),
{
    if s.len() == 0 {
        Seq::empty()
    } else {
        let m = hr_match_len(s, 0);
        if m > 0 {
            hrbr_pair() + esc_hr_spec(s.skip(m))
        } else {
            seq![s[0]] + esc_hr_spec(s.skip(1))
        }
    }
}

/// The length of the horizontal-rule token starting at `i`, or 0.
fn hr_match_at(s: &str, i: usize) -> (m: usize)
    requires
        i <= s@.len(),
    ensures
        m == hr_match_len(s@, i as int),
        i + m <= s@.len(),
{
    let n = s.unicode_len();
    let rem = n - i;
    if rem >= 4 && s.get_char(i) == '<' && s.get_char(i + 1) == 'h' && s.get_char(i + 2) == 'r'
        && s.get_char(i + 3) == '>' {
        return 4;
    }
    if rem >= 5 && s.get_char(i) == '<' && s.get_char(i + 1) == '/' && s.get_char(i + 2) == 'h'
        && s.get_char(i + 3) == 'r' && s.get_char(i + 4) == '>' {
        return 5;
    }
    if rem >= 5 && s.get_char(i) == '<' && s.get_char(i + 1) == 'h' && s.get_char(i + 2) == 'r'
        && s.get_char(i + 3) == '/' && s.get_char(i + 4) == '>' {
        return 5;
    }
    if rem >= 6 && s.get_char(i) == '<' && s.get_char(i + 1) == '/' && s.get_char(i + 2) == 'h'
        && s.get_char(i + 3) == 'r' && s.get_char(i + 4) == '/' && s.get_char(i + 5) == '>' {
        return 6;
    }
    0
}

/// Rewrites every `<hr>`, `</hr>`, `<hr/>` and `</hr/>` in the raw HTML
/// text to a paired placeholder element, so that the parser does not
/// auto-close the open ancestors of a horizontal rule; the extractor
/// relabels the placeholder leaves back afterwards.
#[verifier::loop_isolation(false)]
pub fn esc_hr(hrstr: String) -> (r: String)
    ensures
        r@ == esc_hr_spec(hrstr@),
{
    let s = hrstr.as_str();
    let n = s.unicode_len();
    let mut out = String::new();
    let mut i: usize = 0;
    proof {
        assert(s@.skip(0) =~= s@);
    }
    while i < n
        invariant
            i <= n,
            esc_hr_spec(s@) == out@ + esc_hr_spec(s@.skip(i as int)),
        decreases n - i,
    {
        proof {
            let suf = s@.skip(i as int);
            assert(forall|k: int| 0 <= k < suf.len() ==> suf[k] == s@[i + k]);
            assert(hr_open4(suf, 0) == hr_open4(s@, i as int));
            assert(hr_close5(suf, 0) == hr_close5(s@, i as int));
            assert(hr_self5(suf, 0) == hr_self5(s@, i as int));
            assert(hr_close_self6(suf, 0) == hr_close_self6(s@, i as int));
        }
        let m = hr_match_at(s, i);
        if m > 0 {
            out.append("<hrbr></hrbr>");
            proof {
                reveal_strlit("<hrbr></hrbr>");
                assert("<hrbr></hrbr>"@ =~= hrbr_pair());
                assert(s@.skip(i as int).skip(m as int) =~= s@.skip(i as int + m as int));
                assert(esc_hr_spec(s@) =~= out@ + esc_hr_spec(s@.skip(i as int + m as int)));
            }
            i += m;
        } else {
            let piece = s.substring_char(i, i + 1);
            out.append(piece);
            proof {
                assert(piece@ =~= seq![s@[i as int]]);
                assert(s@.skip(i as int).skip(1) =~= s@.skip(i as int + 1));
                assert(esc_hr_spec(s@) =~= out@ + esc_hr_spec(s@.skip(i as int + 1)));
            }
            i += 1;
        }
    }
    proof {
        assert(s@.skip(n as int) =~= Seq::<char>::empty());
        assert(out@ =~= out@ + esc_hr_spec(Seq::empty()));
    }
    out
}

} // verus!
