//! The nesting grammar: for each ADF node type, the rule saying which
//! child types may legally appear directly under it, and the predicate
//! that checks an ordered child-type sequence against a rule.

use vstd::prelude::*;
use crate::text::{str_eq, str_views};

verus! {

/// A permitted-children rule.
pub enum AdfPermittedChildren {
    /// Children may appear in any order and count, drawn only from the
    /// set; the empty set permits no children at all.
    AnyOf(Vec<&'static str>),
    /// The child sequence must consist of a leading run drawn from the
    /// first set followed by a trailing run drawn from the second.
    PrefixThenRepeat(Vec<&'static str>, Vec<&'static str>),
}

/// The mathematical shape of a rule: sets of type names.
pub enum RuleV {
    AnyOf(Seq<Seq<char>>),
    PrefixThenRepeat(Seq<Seq<char>>, Seq<Seq<char>>),
}

pub open spec fn name_views(v: Seq<&str>) -> Seq<Seq<char>> {
    v.map_values(|t: &str| t@)
}

impl View for AdfPermittedChildren {
    type V = RuleV;

    open spec fn view(&self) -> RuleV {
        match self {
            AdfPermittedChildren::AnyOf(s) => RuleV::AnyOf(name_views(s@)),
            AdfPermittedChildren::PrefixThenRepeat(p, r) => RuleV::PrefixThenRepeat(
                name_views(p@),
                name_views(r@),
            ),
        }
    }
}

/// Whether `k` is a legal split point: children before `k` are drawn
/// from `p`, children from `k` on are drawn from `r`.
pub open spec fn split_ok(
    p: Seq<Seq<char>>,
    r: Seq<Seq<char>>,
    children: Seq<Seq<char>>,
    k: int,
) -> bool {
    0 <= k <= children.len() && (forall|i: int| 0 <= i < k ==> p.contains(children[i])) && (
    forall|i: int| k <= i < children.len() ==> r.contains(children[i]))
}

/// Legality under an `AnyOf` set: every child is drawn from it.
pub open spec fn any_legal(s: Seq<Seq<char>>, children: Seq<Seq<char>>) -> bool {
    forall|i: int| 0 <= i < children.len() ==> s.contains(children[i])
}

/// Legality under a `PrefixThenRepeat` pair: some split point is legal.
pub open spec fn ptr_legal(p: Seq<Seq<char>>, r: Seq<Seq<char>>, children: Seq<Seq<char>>) -> bool {
    exists|k: int| split_ok(p, r, children, k)
}

pub open spec fn legal_spec(rule: RuleV, children: Seq<Seq<char>>) -> bool {
    match rule {
        RuleV::AnyOf(s) => any_legal(s, children),
        RuleV::PrefixThenRepeat(p, r) => ptr_legal(p, r, children),
    }
}

/// Membership of a name in a set of names.
fn contains_name(set: &Vec<&'static str>, name: &str) -> (r: bool)
    ensures
        r == name_views(set@).contains(name@),
{
    let mut i: usize = 0;
    while i < set.len()
        invariant
            i <= set@.len(),
            forall|k: int| 0 <= k < i ==> name_views(set@)[k] != name@,
        decreases set@.len() - i,
    {
        if str_eq(set[i], name) {
            proof {
                assert(name_views(set@)[i as int] == name@);
            }
            return true;
        }
        i += 1;
    }
    proof {
        assert(forall|k: int| 0 <= k < name_views(set@).len() ==> name_views(set@)[k] != name@);
    }
    false
}

/// The position of the first child from `i` on that is not drawn from
/// `set`, or the end of the sequence: the greedy leading-run length.
pub open spec fn prefix_len_spec(set: Seq<Seq<char>>, children: Seq<Seq<char>>, i: int) -> int
    decreases children.len() - i,
{
    if i < 0 || i >= children.len() {
        i
    } else if set.contains(children[i]) {
        prefix_len_spec(set, children, i + 1)
    } else {
        i
    }
}

/// The length of the longest leading run of `children` drawn from `set`;
/// if it stops short of the end, the child right after it is not in `set`.
fn prefix_run(set: &Vec<&'static str>, children: &Vec<String>) -> (k0: usize)
    ensures
        k0 <= children@.len(),
        k0 == prefix_len_spec(name_views(set@), str_views(children@), 0),
        forall|i: int|
            0 <= i < k0 ==> #[trigger] name_views(set@).contains(
                str_views(children@)[i],
            ),
        k0 < children@.len() ==> !name_views(set@).contains(
            str_views(children@)[k0 as int],
        ),
{
    let mut i: usize = 0;
    while i < children.len()
        invariant
            i <= children@.len(),
            forall|k: int|
                0 <= k < i ==> name_views(set@).contains(str_views(children@)[k]),
            prefix_len_spec(name_views(set@), str_views(children@), 0) == prefix_len_spec(
                name_views(set@),
                str_views(children@),
                i as int,
            ),
        decreases children@.len() - i,
    {
        if !contains_name(set, children[i].as_str()) {
            proof {
                assert(str_views(children@)[i as int] == children@[i as int]@);
            }
            return i;
        }
        proof {
            assert(str_views(children@)[i as int] == children@[i as int]@);
        }
        i += 1;
    }
    i
}

impl AdfPermittedChildren {
    /// Checks an ordered sequence of child type names against this rule.
    #[verifier::loop_isolation(false)]
    pub fn is_legal(&self, children: &Vec<String>) -> (r: bool)
        ensures
            r == legal_spec(self@, str_views(children@)),
    {
        let ghost cview = str_views(children@);
        let n = children.len();
        match self {
            AdfPermittedChildren::AnyOf(set) => {
                let mut i: usize = 0;
                while i < n
                    invariant
                        i <= n,
                        forall|k: int| 0 <= k < i ==> name_views(set@).contains(cview[k]),
                    decreases n - i,
                {
                    if !contains_name(set, children[i].as_str()) {
                        proof {
                            assert(cview[i as int] == children@[i as int]@);
                            assert(!any_legal(name_views(set@), cview));
                        }
                        return false;
                    }
                    proof {
                        assert(cview[i as int] == children@[i as int]@);
                    }
                    i += 1;
                }
                proof {
                    assert(any_legal(name_views(set@), cview));
                }
                true
            },
            AdfPermittedChildren::PrefixThenRepeat(p, rep) => {
                let k0 = prefix_run(p, children);
                let mut j = k0;
                while j < n
                    invariant
                        k0 <= j <= n,
                        forall|i: int| k0 <= i < j ==> name_views(rep@).contains(cview[i]),
                    decreases n - j,
                {
                    if !contains_name(rep, children[j].as_str()) {
                        proof {
                            assert(cview[j as int] == children@[j as int]@);
                            assert forall|k: int| !split_ok(
                                name_views(p@),
                                name_views(rep@),
                                cview,
                                k,
                            ) by {
                                if 0 <= k <= cview.len() {
                                    if k > k0 {
                                        assert(!name_views(p@).contains(cview[k0 as int]));
                                    } else {
                                        assert(!name_views(rep@).contains(cview[j as int]));
                                    }
                                }
                            }
                            assert(!ptr_legal(name_views(p@), name_views(rep@), cview));
                        }
                        return false;
                    }
                    proof {
                        assert(cview[j as int] == children@[j as int]@);
                    }
                    j += 1;
                }
                proof {
                    assert(split_ok(name_views(p@), name_views(rep@), cview, k0 as int));
                    assert(ptr_legal(name_views(p@), name_views(rep@), cview));
                }
                true
            },
        }
    }
}

/// A rule that permits no children at all.
pub fn empty_child_type() -> (r: AdfPermittedChildren)
    ensures
        r@ == RuleV::AnyOf(Seq::<Seq<char>>::empty()),
{
    let v: Vec<&'static str> = Vec::new();
    proof {
        assert(name_views(v@) =~= Seq::<Seq<char>>::empty());
    }
    AdfPermittedChildren::AnyOf(v)
}

pub open spec fn inline_children() -> Seq<Seq<char>> {
    seq!["text"@, "emoji"@, "hardBreak"@]
}

pub open spec fn list_children() -> Seq<Seq<char>> {
    seq!["listItem"@]
}

pub open spec fn quote_children() -> Seq<Seq<char>> {
    seq!["paragraph"@]
}

pub open spec fn list_item_prefix() -> Seq<Seq<char>> {
    seq!["paragraph"@, "mediaSingle"@, "codeBlock"@]
}

pub open spec fn list_item_repeat() -> Seq<Seq<char>> {
    seq!["paragraph"@, "mediaSingle"@, "mediaGroup"@, "codeBlock"@, "orderedList"@, "bulletList"@]
}

pub open spec fn table_children() -> Seq<Seq<char>> {
    seq!["tableRow"@]
}

pub open spec fn table_row_children() -> Seq<Seq<char>> {
    seq!["tableHeader"@, "tableCell"@]
}

pub open spec fn table_header_children() -> Seq<Seq<char>> {
    seq![
        "codeBlock"@,
        "blockCard"@,
        "paragraph"@,
        "bulletList"@,
        "mediaSingle"@,
        "orderedList"@,
        "heading"@,
        "panel"@,
        "blockquote"@,
        "rule"@,
        "mediaGroup"@,
        "decisionList"@,
        "taskList"@,
        "extension"@,
        "embedCard"@,
        "nestedExpand"@,
    ]
}

pub open spec fn table_cell_children() -> Seq<Seq<char>> {
    table_header_children().push("hardBreak"@)
}

pub open spec fn doc_children() -> Seq<Seq<char>> {
    seq![
        "blockCard"@,
        "blockquote"@,
        "bodiedExtension"@,
        "bulletList"@,
        "codeBlock"@,
        "decisionList"@,
        "embedCard"@,
        "expand"@,
        "extension"@,
        "heading"@,
        "layoutSection"@,
        "mediaGroup"@,
        "mediaSingle"@,
        "orderedList"@,
        "panel"@,
        "paragraph"@,
        "rule"@,
        "table"@,
        "taskList"@,
    ]
}

/// The registered rules, by parent type name. A type absent from the
/// registry has no rule.
pub open spec fn rule_spec(parent: Seq<char>) -> Option<RuleV> {
    if parent == "paragraph"@ || parent == "heading"@ {
        Some(RuleV::AnyOf(inline_children()))
    } else if parent == "bulletList"@ || parent == "orderedList"@ {
        Some(RuleV::AnyOf(list_children()))
    } else if parent == "blockquote"@ || parent == "codeBlock"@ {
        Some(RuleV::AnyOf(quote_children()))
    } else if parent == "listItem"@ {
        Some(RuleV::PrefixThenRepeat(list_item_prefix(), list_item_repeat()))
    } else if parent == "table"@ {
        Some(RuleV::AnyOf(table_children()))
    } else if parent == "tableRow"@ {
        Some(RuleV::AnyOf(table_row_children()))
    } else if parent == "tableHeader"@ {
        Some(RuleV::AnyOf(table_header_children()))
    } else if parent == "tableCell"@ {
        Some(RuleV::AnyOf(table_cell_children()))
    } else if parent == "doc"@ {
        Some(RuleV::AnyOf(doc_children()))
    } else {
        None
    }
}

/// Legality of a child-type sequence under a parent type: the parent's
/// registered rule decides; a parent type with no registered rule
/// accepts nothing.
pub open spec fn is_legal_spec(parent: Seq<char>, children: Seq<Seq<char>>) -> bool {
    match rule_spec(parent) {
        Some(rule) => legal_spec(rule, children),
        None => false,
    }
}

fn table_header_set() -> (v: Vec<&'static str>)
    ensures
        name_views(v@) == table_header_children(),
{
    let mut v: Vec<&'static str> = Vec::new();
    v.push("codeBlock");
    v.push("blockCard");
    v.push("paragraph");
    v.push("bulletList");
    v.push("mediaSingle");
    v.push("orderedList");
    v.push("heading");
    v.push("panel");
    v.push("blockquote");
    v.push("rule");
    v.push("mediaGroup");
    v.push("decisionList");
    v.push("taskList");
    v.push("extension");
    v.push("embedCard");
    v.push("nestedExpand");
    proof {
        assert(name_views(v@) =~= table_header_children());
    }
    v
}

/// The rule registered for a parent ADF type, if any.
pub fn rule_for(parent: &str) -> (r: Option<AdfPermittedChildren>)
    ensures
        match r {
            Some(rule) => rule_spec(parent@) == Some(rule@),
            None => rule_spec(parent@) is None,
        },
{
    if str_eq(parent, "paragraph") || str_eq(parent, "heading") {
        let mut v: Vec<&'static str> = Vec::new();
        v.push("text");
        v.push("emoji");
        v.push("hardBreak");
        proof {
            assert(name_views(v@) =~= inline_children());
        }
        Some(AdfPermittedChildren::AnyOf(v))
    } else if str_eq(parent, "bulletList") || str_eq(parent, "orderedList") {
        let mut v: Vec<&'static str> = Vec::new();
        v.push("listItem");
        proof {
            assert(name_views(v@) =~= list_children());
        }
        Some(AdfPermittedChildren::AnyOf(v))
    } else if str_eq(parent, "blockquote") || str_eq(parent, "codeBlock") {
        let mut v: Vec<&'static str> = Vec::new();
        v.push("paragraph");
        proof {
            assert(name_views(v@) =~= quote_children());
        }
        Some(AdfPermittedChildren::AnyOf(v))
    } else if str_eq(parent, "listItem") {
        let mut p: Vec<&'static str> = Vec::new();
        p.push("paragraph");
        p.push("mediaSingle");
        p.push("codeBlock");
        let mut rep: Vec<&'static str> = Vec::new();
        rep.push("paragraph");
        rep.push("mediaSingle");
        rep.push("mediaGroup");
        rep.push("codeBlock");
        rep.push("orderedList");
        rep.push("bulletList");
        proof {
            assert(name_views(p@) =~= list_item_prefix());
            assert(name_views(rep@) =~= list_item_repeat());
        }
        Some(AdfPermittedChildren::PrefixThenRepeat(p, rep))
    } else if str_eq(parent, "table") {
        let mut v: Vec<&'static str> = Vec::new();
        v.push("tableRow");
        proof {
            assert(name_views(v@) =~= table_children());
        }
        Some(AdfPermittedChildren::AnyOf(v))
    } else if str_eq(parent, "tableRow") {
        let mut v: Vec<&'static str> = Vec::new();
        v.push("tableHeader");
        v.push("tableCell");
        proof {
            assert(name_views(v@) =~= table_row_children());
        }
        Some(AdfPermittedChildren::AnyOf(v))
    } else if str_eq(parent, "tableHeader") {
        Some(AdfPermittedChildren::AnyOf(table_header_set()))
    } else if str_eq(parent, "tableCell") {
        let mut v = table_header_set();
        v.push("hardBreak");
        proof {
            assert(name_views(v@) =~= table_cell_children());
        }
        Some(AdfPermittedChildren::AnyOf(v))
    } else if str_eq(parent, "doc") {
        let mut v: Vec<&'static str> = Vec::new();
        v.push("blockCard");
        v.push("blockquote");
        v.push("bodiedExtension");
        v.push("bulletList");
        v.push("codeBlock");
        v.push("decisionList");
        v.push("embedCard");
        v.push("expand");
        v.push("extension");
        v.push("heading");
        v.push("layoutSection");
        v.push("mediaGroup");
        v.push("mediaSingle");
        v.push("orderedList");
        v.push("panel");
        v.push("paragraph");
        v.push("rule");
        v.push("table");
        v.push("taskList");
        proof {
            assert(name_views(v@) =~= doc_children());
        }
        Some(AdfPermittedChildren::AnyOf(v))
    } else {
        None
    }
}

/// Whether the ordered child-type sequence is legal under the parent
/// type, according to the parent's registered rule; a parent type with
/// no registered rule accepts nothing.
pub fn is_legal(parent: &str, children: &Vec<String>) -> (r: bool)
    ensures
        r == is_legal_spec(parent@, str_views(children@)),
{
    match rule_for(parent) {
        Some(rule) => rule.is_legal(children),
        None => false,
    }
}

/// The children from position `i` on that are drawn from `set`, in
/// their original order.
pub open spec fn kept(set: Seq<Seq<char>>, children: Seq<Seq<char>>, i: int) -> Seq<Seq<char>>
    decreases children.len() - i,
{
    if i < 0 || i >= children.len() {
        Seq::empty()
    } else if set.contains(children[i]) {
        seq![children[i]] + kept(set, children, i + 1)
    } else {
        kept(set, children, i + 1)
    }
}

/// The repair policy for a child sequence the grammar refuses: offending
/// children are dropped, never reordered. Under an `AnyOf` rule the
/// children outside the set are dropped; under a `PrefixThenRepeat` rule
/// the greedy leading run is kept whole and the rest is filtered by the
/// repeat set; a parent type with no registered rule keeps nothing.
pub open spec fn repair_spec(parent: Seq<char>, children: Seq<Seq<char>>) -> Seq<Seq<char>> {
    match rule_spec(parent) {
        Some(RuleV::AnyOf(s)) => kept(s, children, 0),
        Some(RuleV::PrefixThenRepeat(p, r)) => {
            let k0 = prefix_len_spec(p, children, 0);
            children.take(k0) + kept(r, children, k0)
        },
        None => Seq::empty(),
    }
}

proof fn lemma_kept_in(set: Seq<Seq<char>>, children: Seq<Seq<char>>, i: int)
    ensures
        forall|t: int|
            0 <= t < kept(set, children, i).len() ==> set.contains(
                #[trigger] kept(set, children, i)[t],
            ),
    decreases children.len() - i,
{
    if 0 <= i < children.len() {
        lemma_kept_in(set, children, i + 1);
        let cur = kept(set, children, i);
        let tail = kept(set, children, i + 1);
        assert forall|t: int| 0 <= t < cur.len() implies set.contains(#[trigger] cur[t]) by {
            if set.contains(children[i]) {
                if t == 0 {
                    assert(cur[t] == children[i]);
                } else {
                    assert(cur[t] == tail[t - 1]);
                }
            } else {
                assert(cur[t] == tail[t]);
            }
        }
    }
}

proof fn lemma_prefix_members(set: Seq<Seq<char>>, children: Seq<Seq<char>>, i: int)
    requires
        0 <= i <= children.len(),
    ensures
        i <= prefix_len_spec(set, children, i) <= children.len(),
        forall|t: int|
            i <= t < prefix_len_spec(set, children, i) ==> set.contains(#[trigger] children[t]),
    decreases children.len() - i,
{
    if i < children.len() && set.contains(children[i]) {
        lemma_prefix_members(set, children, i + 1);
    }
}

/// The repair policy always yields a legal document: whenever the parent
/// type has a registered rule, the repaired child sequence satisfies it.
pub proof fn lemma_repair_is_legal(parent: Seq<char>, children: Seq<Seq<char>>)
    ensures
        rule_spec(parent) is Some ==> is_legal_spec(parent, repair_spec(parent, children)),
{
    match rule_spec(parent) {
        Some(RuleV::AnyOf(s)) => {
            lemma_kept_in(s, children, 0);
            assert(any_legal(s, kept(s, children, 0)));
        },
        Some(RuleV::PrefixThenRepeat(p, r)) => {
            let k0 = prefix_len_spec(p, children, 0);
            let repaired = children.take(k0) + kept(r, children, k0);
            lemma_prefix_members(p, children, 0);
            lemma_kept_in(r, children, k0);
            assert forall|t: int| 0 <= t < k0 implies p.contains(#[trigger] repaired[t]) by {
                assert(repaired[t] == children[t]);
            }
            assert forall|t: int| k0 <= t < repaired.len() implies r.contains(
                #[trigger] repaired[t],
            ) by {
                assert(repaired[t] == kept(r, children, k0)[t - k0]);
            }
            assert(split_ok(p, r, repaired, k0));
            assert(ptr_legal(p, r, repaired));
        },
        None => {},
    }
}

/// Repairs a child-type sequence against the parent type's rule by
/// dropping whatever the rule refuses, keeping document order; the
/// result always satisfies the rule where one is registered.
#[verifier::loop_isolation(false)]
pub fn repair_children(parent: &str, children: &Vec<String>) -> (r: Vec<String>)
    ensures
        str_views(r@) == repair_spec(parent@, str_views(children@)),
{
    let ghost cview = str_views(children@);
    match rule_for(parent) {
        None => {
            let r: Vec<String> = Vec::new();
            proof {
                assert(str_views(r@) =~= repair_spec(parent@, cview));
            }
            r
        },
        Some(AdfPermittedChildren::AnyOf(set)) => {
            let mut r: Vec<String> = Vec::new();
            let mut i: usize = 0;
            while i < children.len()
                invariant
                    i <= children@.len(),
                    str_views(r@) + kept(name_views(set@), cview, i as int) =~= kept(
                        name_views(set@),
                        cview,
                        0,
                    ),
                decreases children@.len() - i,
            {
                proof {
                    assert(cview[i as int] == children@[i as int]@);
                }
                if contains_name(&set, children[i].as_str()) {
                    let ghost prev = r@;
                    r.push(children[i].clone());
                    proof {
                        assert(str_views(r@) =~= str_views(prev).push(cview[i as int]));
                        assert(str_views(r@) + kept(name_views(set@), cview, i + 1) =~= str_views(
                            prev,
                        ) + kept(name_views(set@), cview, i as int));
                    }
                }
                i += 1;
            }
            proof {
                assert(str_views(r@) =~= repair_spec(parent@, cview));
            }
            r
        },
        Some(AdfPermittedChildren::PrefixThenRepeat(p, rep)) => {
            let k0 = prefix_run(&p, children);
            let mut r: Vec<String> = Vec::new();
            let mut i: usize = 0;
            while i < k0
                invariant
                    i <= k0,
                    k0 <= children@.len(),
                    str_views(r@) =~= cview.take(i as int),
                decreases k0 - i,
            {
                let ghost prev = r@;
                r.push(children[i].clone());
                proof {
                    assert(str_views(r@) =~= str_views(prev).push(cview[i as int]));
                    assert(cview.take(i + 1) =~= cview.take(i as int).push(cview[i as int]));
                }
                i += 1;
            }
            let mut j = k0;
            while j < children.len()
                invariant
                    k0 <= j <= children@.len(),
                    str_views(r@) + kept(name_views(rep@), cview, j as int) =~= cview.take(
                        k0 as int,
                    ) + kept(name_views(rep@), cview, k0 as int),
                decreases children@.len() - j,
            {
                proof {
                    assert(cview[j as int] == children@[j as int]@);
                }
                if contains_name(&rep, children[j].as_str()) {
                    let ghost prev = r@;
                    r.push(children[j].clone());
                    proof {
                        assert(str_views(r@) =~= str_views(prev).push(cview[j as int]));
                        assert(str_views(r@) + kept(name_views(rep@), cview, j + 1) =~= str_views(
                            prev,
                        ) + kept(name_views(rep@), cview, j as int));
                    }
                }
                j += 1;
            }
            proof {
                assert(str_views(r@) =~= repair_spec(parent@, cview));
            }
            r
        },
    }
}

} // verus!
