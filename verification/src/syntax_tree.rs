//! A Solidity syntax tree as plain values: its nodes in pre-order, each with
//! the index just past its subtree, so that the descendants of node `k` are
//! the nodes from `k + 1` up to that index, and its first child, when it has
//! one, is node `k + 1`.
use vstd::prelude::*;
use crate::text::{owned, str_eq};
use tree_sitter::{Node, Parser};
use tree_sitter_solidity::LANGUAGE;

verus! {

/// A node of a syntax tree.
#[derive(Debug, Clone)]
pub struct SyntaxNode {
    /// The grammar's name for the node (`function_definition`, `identifier`, ...).
    pub kind: String,
    /// The node's source text, when its byte range is valid UTF-8.
    pub text: Option<String>,
    /// The row (from 0) of its first byte.
    pub start_row: usize,
    /// The row (from 0) where it ends.
    pub end_row: usize,
    /// The index just past its subtree in pre-order.
    pub end: usize,
    /// Its child in the `name` field, if any, by that child's text.
    pub name: Option<Option<String>>,
    /// The text of its child in the `type` field.
    pub type_text: Option<String>,
}

/// A syntax node as plain values.
#[verifier::ext_equal]
pub struct NodeView {
    pub kind: Seq<char>,
    pub text: Option<Seq<char>>,
    pub start_row: usize,
    pub end_row: usize,
    pub end: usize,
    pub name: Option<Option<Seq<char>>>,
    pub type_text: Option<Seq<char>>,
}

/// The view of an optional text.
pub open spec fn text_view(o: Option<String>) -> Option<Seq<char>> {
    match o {
        Some(t) => Some(t@),
        None => None,
    }
}

/// The view of an optional borrowed text.
pub open spec fn str_view(o: Option<&str>) -> Option<Seq<char>> {
    match o {
        Some(t) => Some(t@),
        None => None,
    }
}

impl View for SyntaxNode {
    type V = NodeView;

    open spec fn view(&self) -> NodeView {
        NodeView {
            kind: self.kind@,
            text: text_view(self.text),
            start_row: self.start_row,
            end_row: self.end_row,
            end: self.end,
            name: match self.name {
                Some(n) => Some(text_view(n)),
                None => None,
            },
            type_text: text_view(self.type_text),
        }
    }
}

/// The nodes of a tree as plain values.
pub open spec fn tree_view(v: Seq<SyntaxNode>) -> Seq<NodeView> {
    v.map_values(|n: SyntaxNode| n@)
}

/// A node as the parser hands it over: kind, text, start and end row, the
/// number of nodes in its subtree (itself included), `name` child and `type`
/// child text.
pub type RawNode<'a> = (&'static str, Option<&'a str>, usize, usize, usize, Option<Option<&'a str>>, Option<&'a str>);

/// A node as the parser hands it over, as plain values.
pub type RawNodeV = (Seq<char>, Option<Seq<char>>, usize, usize, usize, Option<Option<Seq<char>>>, Option<Seq<char>>);

/// The view of a node as the parser hands it over.
pub open spec fn raw_view(t: RawNode) -> RawNodeV {
    (t.0@, str_view(t.1), t.2, t.3, t.4, match t.5 {
        Some(n) => Some(str_view(n)),
        None => None,
    }, str_view(t.6))
}

/// What parsing `source` with the Solidity grammar of `tree_sitter_solidity`
/// gives: the nodes of the tree in pre-order, each with the size of its
/// subtree, or `None` when the parser gives no tree.
pub uninterp spec fn solidity_parse(source: Seq<char>) -> Option<Seq<RawNodeV>>;

/// The `k`-th node in pre-order: the index past its subtree is `k` plus the
/// size of the subtree (0 when that does not fit a `usize`).
pub open spec fn node_at(t: RawNodeV, k: int) -> NodeView {
    NodeView {
        kind: t.0,
        text: t.1,
        start_row: t.2,
        end_row: t.3,
        end: if k + t.4 <= usize::MAX { (k + t.4) as usize } else { 0 },
        name: t.5,
        type_text: t.6,
    }
}

/// The nodes of the syntax tree of `source` in pre-order, each with the index
/// just past its subtree, or `None` when the parser gives no tree.
pub open spec fn solidity_nodes(source: Seq<char>) -> Option<Seq<NodeView>> {
    match solidity_parse(source) {
        Some(w) => Some(Seq::new(w.len(), |k: int| node_at(w[k], k))),
        None => None,
    }
}

/// `tree_sitter::Parser::parse` with the grammar of `tree_sitter_solidity`,
/// read back with `TreeCursor::goto_descendant` over the root's
/// `descendant_count`: for each node its `kind`, `utf8_text`, start and end
/// rows, `descendant_count`, and its `name` and `type` field children. Its
/// outcome is named by `solidity_parse`; only that is stated.
#[verifier::external_body]
fn syntax_nodes<'a>(source: &'a str) -> (r: Option<Vec<RawNode<'a>>>)
    ensures
        solidity_parse(source@) == match r {
            Some(v) => Some(v@.map_values(|t: RawNode| raw_view(t))),
            None => None,
        },
{
    let mut parser = Parser::new();
    let _ = parser.set_language(&LANGUAGE.into());
    let tree = parser.parse(source, None)?;
    let (mut cursor, mut nodes) = (tree.walk(), Vec::new());
    let text = |m: Node| m.utf8_text(source.as_bytes()).ok();
    for i in 0..tree.root_node().descendant_count() {
        cursor.goto_descendant(i);
        let n = cursor.node();
        nodes.push((n.kind(), text(n), n.start_position().row, n.end_position().row, n.descendant_count(), n.child_by_field_name("name").map(text), n.child_by_field_name("type").and_then(text)));
    }
    Some(nodes)
}

/// Well formed: each node's subtree ends after it and within the list, and
/// its rows, counted from 1, still fit a `usize`.
pub open spec fn tree_wf(w: Seq<NodeView>) -> bool {
    forall|k: int| 0 <= k < w.len() ==> {
        &&& k < #[trigger] w[k].end <= w.len()
        &&& w[k].start_row < usize::MAX
        &&& w[k].end_row < usize::MAX
    }
}

/// What well-formedness gives of node `k`.
pub proof fn lemma_wf_at(w: Seq<NodeView>, k: int)
    requires
        tree_wf(w),
        0 <= k < w.len(),
    ensures
        k < w[k].end <= w.len(),
        w[k].start_row < usize::MAX,
        w[k].end_row < usize::MAX,
{
}

fn owned_opt(o: Option<&str>) -> (r: Option<String>)
    ensures
        text_view(r) == str_view(o),
{
    match o {
        Some(t) => Some(owned(t)),
        None => None,
    }
}

fn node_from_raw(t: RawNode, k: usize) -> (r: SyntaxNode)
    requires
        k + t.4 <= usize::MAX,
    ensures
        r@ == node_at(raw_view(t), k as int),
{
    let name = match t.5 {
        Some(n) => Some(owned_opt(n)),
        None => None,
    };
    let r = SyntaxNode {
        kind: owned(t.0),
        text: owned_opt(t.1),
        start_row: t.2,
        end_row: t.3,
        end: k + t.4,
        name,
        type_text: owned_opt(t.6),
    };
    assert(r@ =~= node_at(raw_view(t), k as int));
    r
}

/// Parses `source` as Solidity: the nodes of its syntax tree in pre-order, or
/// `None` when the parser gives no tree or one that is not well formed.
pub fn parse_solidity(source: &str) -> (r: Option<Vec<SyntaxNode>>)
    ensures
        match r {
            Some(v) => solidity_nodes(source@) == Some(tree_view(v@)) && tree_wf(tree_view(v@)),
            None => match solidity_nodes(source@) {
                Some(w) => !tree_wf(w),
                None => true,
            },
        },
{
    let raw = match syntax_nodes(source) {
        Some(raw) => raw,
        None => return None,
    };
    let ghost rw = raw@.map_values(|t: RawNode| raw_view(t));
    let ghost w = Seq::new(rw.len(), |k: int| node_at(rw[k], k));
    let n = raw.len();
    let mut nodes: Vec<SyntaxNode> = Vec::new();
    let mut k: usize = 0;
    while k < n
        invariant
            n == raw.len() == w.len() == rw.len(),
            rw == raw@.map_values(|t: RawNode| raw_view(t)),
            w == Seq::new(rw.len(), |k: int| node_at(rw[k], k)),
            solidity_nodes(source@) == Some(w),
            k <= n,
            nodes.len() == k,
            forall|j: int| 0 <= j < k ==> #[trigger] nodes@[j]@ == w[j],
            forall|j: int| 0 <= j < k ==> j < #[trigger] w[j].end <= n && w[j].start_row < usize::MAX && w[j].end_row < usize::MAX,
        decreases n - k,
    {
        let t = raw[k];
        assert(rw[k as int] == raw_view(t));
        assert(w[k as int] == node_at(rw[k as int], k as int));
        if !(0 < t.4 && t.4 <= n - k && t.2 < usize::MAX && t.3 < usize::MAX) {
            assert(!(k < w[k as int].end <= w.len() && w[k as int].start_row < usize::MAX
                && w[k as int].end_row < usize::MAX));
            return None;
        }
        nodes.push(node_from_raw(t, k));
        k = k + 1;
    }
    assert(tree_view(nodes@) =~= w);
    Some(nodes)
}

/// The text `o`, or `d` when there is none.
pub open spec fn text_or(o: Option<Seq<char>>, d: Seq<char>) -> Seq<char> {
    match o {
        Some(t) => t,
        None => d,
    }
}

/// The text of a node, empty when it has none (`unwrap_or("")`).
pub fn text_of(o: &Option<String>) -> (r: &str)
    ensures
        r@ == text_or(text_view(*o), Seq::empty()),
{
    match o {
        Some(t) => t.as_str(),
        None => {
            proof {
                reveal_strlit("");
            }
            ""
        },
    }
}

/// The first node of kind `kind` among the siblings from node `c` on, before
/// node `stop`: each step goes from a node to the one past its subtree.
pub open spec fn child_of_kind(w: Seq<NodeView>, c: int, stop: int, kind: Seq<char>) -> Option<int>
    decreases w.len() - c,
{
    if 0 <= c < stop && stop <= w.len() {
        if w[c].kind == kind {
            Some(c)
        } else if c < w[c].end <= w.len() {
            child_of_kind(w, w[c].end as int, stop, kind)
        } else {
            None
        }
    } else {
        None
    }
}

/// The first child of node `parent` of kind `kind`.
pub fn first_child_of_kind(nodes: &Vec<SyntaxNode>, parent: usize, kind: &str) -> (r: Option<usize>)
    requires
        tree_wf(tree_view(nodes@)),
        parent < nodes.len(),
    ensures
        match r {
            Some(j) => child_of_kind(tree_view(nodes@), parent + 1, nodes@[parent as int].end as int, kind@) == Some(j as int)
                && parent < j < nodes@[parent as int].end && nodes@[j as int].kind@ == kind@,
            None => child_of_kind(tree_view(nodes@), parent + 1, nodes@[parent as int].end as int, kind@) is None,
        },
{
    let ghost w = tree_view(nodes@);
    let stop = nodes[parent].end;
    assert(w[parent as int].end == stop);
    let mut c = parent + 1;
    while c < stop
        invariant
            w == tree_view(nodes@),
            tree_wf(w),
            parent < c <= nodes.len(),
            stop <= nodes.len(),
            stop == nodes@[parent as int].end,
            child_of_kind(w, parent + 1, stop as int, kind@) == child_of_kind(w, c as int, stop as int, kind@),
        decreases nodes.len() - c,
    {
        assert(w[c as int] == nodes@[c as int]@);
        if str_eq(nodes[c].kind.as_str(), kind) {
            return Some(c);
        }
        c = nodes[c].end;
    }
    None
}

} // verus!
