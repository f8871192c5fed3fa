//! Reentrancy by control flow: a finding's function is vulnerable when one
//! of its state changes comes on a later line than one of its external calls.
use vstd::prelude::*;
use crate::text::{contains, str_has, str_eq};
use crate::syntax_tree::{SyntaxNode, NodeView, tree_view, tree_wf, lemma_wf_at, text_or, text_of, solidity_nodes, parse_solidity};
use crate::dataflow::{is_fn_def, root_end};

verus! {

/// The first function node among `[lo, hi)`, in pre-order, whose rows,
/// counted from 1, include `line`.
pub open spec fn function_at_line(w: Seq<NodeView>, lo: int, hi: int, line: int) -> Option<int>
    decreases hi - lo,
{
    if hi <= lo {
        None
    } else if is_fn_def(w, lo) && w[lo].start_row + 1 <= line <= w[lo].end_row + 1 {
        Some(lo)
    } else {
        function_at_line(w, lo + 1, hi, line)
    }
}

/// Node `k` is a call that hands control away: a `call_expression` whose
/// text has `.call`, `.delegatecall`, `.transfer` or `.send`.
pub open spec fn is_flow_call(w: Seq<NodeView>, k: int) -> bool {
    let t = text_or(w[k].text, Seq::empty());
    w[k].kind == "call_expression"@ && (str_has(t, ".call"@) || str_has(t, ".delegatecall"@) || str_has(t, ".transfer"@)
        || str_has(t, ".send"@))
}

/// Node `k` changes state: an assignment, an augmented assignment or a `delete`.
pub open spec fn is_flow_change(w: Seq<NodeView>, k: int) -> bool {
    w[k].kind == "assignment_expression"@ || w[k].kind == "augmented_assignment_expression"@ || w[k].kind
        == "delete_statement"@
}

/// In the subtree of node `f`, some state change comes on a later line than
/// some external call.
pub open spec fn change_after_call(w: Seq<NodeView>, f: int) -> bool {
    exists|a: int, b: int|
        #![trigger is_flow_call(w, a), is_flow_change(w, b)]
        f <= a < w[f].end && f <= b < w[f].end && is_flow_call(w, a) && is_flow_change(w, b) && w[b].start_row
            > w[a].start_row
}

/// The verdict for a finding on `line`: the function below the root that
/// spans it is vulnerable when a state change follows an external call in
/// it; without such a function the finding stands.
pub open spec fn reentrancy_verdict(w: Seq<NodeView>, line: int) -> bool {
    match function_at_line(w, 1, root_end(w), line) {
        Some(f) => change_after_call(w, f),
        None => true,
    }
}

fn find_function_at_line(nodes: &Vec<SyntaxNode>, line: usize) -> (r: Option<usize>)
    requires
        tree_wf(tree_view(nodes@)),
    ensures
        match r {
            Some(f) => function_at_line(tree_view(nodes@), 1, root_end(tree_view(nodes@)), line as int) == Some(f as int)
                && f < nodes.len(),
            None => function_at_line(tree_view(nodes@), 1, root_end(tree_view(nodes@)), line as int) is None,
        },
{
    let ghost w = tree_view(nodes@);
    if nodes.len() == 0 {
        return None;
    }
    let stop = nodes[0].end;
    assert(w[0].end == stop);
    let mut k: usize = 1;
    while k < stop
        invariant
            w == tree_view(nodes@),
            tree_wf(w),
            stop as int == root_end(w),
            stop <= nodes.len(),
            1 <= k <= stop,
            function_at_line(w, 1, stop as int, line as int) == function_at_line(w, k as int, stop as int, line as int),
        decreases stop - k,
    {
        let node = &nodes[k];
        assert(w[k as int] == node@);
        proof {
            lemma_wf_at(w, k as int);
        }
        if str_eq(node.kind.as_str(), "function_definition") && node.start_row + 1 <= line && line <= node.end_row + 1 {
            return Some(k);
        }
        k = k + 1;
    }
    None
}

/// Whether a state change follows an external call in the function of node `f`.
fn state_change_after_call(nodes: &Vec<SyntaxNode>, f: usize) -> (r: bool)
    requires
        tree_wf(tree_view(nodes@)),
        f < nodes.len(),
    ensures
        r == change_after_call(tree_view(nodes@), f as int),
{
    let ghost w = tree_view(nodes@);
    let stop = nodes[f].end;
    assert(w[f as int].end == stop);
    let mut first_call: Option<usize> = None;
    let mut last_change: Option<usize> = None;
    let ghost mut call_at: int = 0;
    let ghost mut change_at: int = 0;
    let mut j: usize = f;
    while j < stop
        invariant
            w == tree_view(nodes@),
            tree_wf(w),
            f <= j <= stop <= nodes.len(),
            stop == w[f as int].end,
            match first_call {
                Some(m) => f <= call_at < j && is_flow_call(w, call_at) && w[call_at].start_row == m
                    && forall|a: int| f <= a < j && #[trigger] is_flow_call(w, a) ==> m <= w[a].start_row,
                None => forall|a: int| f <= a < j ==> !#[trigger] is_flow_call(w, a),
            },
            match last_change {
                Some(m) => f <= change_at < j && is_flow_change(w, change_at) && w[change_at].start_row == m
                    && forall|b: int| f <= b < j && #[trigger] is_flow_change(w, b) ==> w[b].start_row <= m,
                None => forall|b: int| f <= b < j ==> !#[trigger] is_flow_change(w, b),
            },
        decreases stop - j,
    {
        let node = &nodes[j];
        assert(w[j as int] == node@);
        let kind = node.kind.as_str();
        let text = text_of(&node.text);
        let row = node.start_row;
        if str_eq(kind, "call_expression") && (contains(text, ".call") || contains(text, ".delegatecall") || contains(
            text,
            ".transfer",
        ) || contains(text, ".send")) {
            assert(is_flow_call(w, j as int));
            match first_call {
                Some(m) => {
                    if row < m {
                        first_call = Some(row);
                        proof {
                            call_at = j as int;
                        }
                    }
                },
                None => {
                    first_call = Some(row);
                    proof {
                        call_at = j as int;
                    }
                },
            }
        } else {
            assert(!is_flow_call(w, j as int));
        }
        if str_eq(kind, "assignment_expression") || str_eq(kind, "augmented_assignment_expression") || str_eq(
            kind,
            "delete_statement",
        ) {
            assert(is_flow_change(w, j as int));
            match last_change {
                Some(m) => {
                    if row > m {
                        last_change = Some(row);
                        proof {
                            change_at = j as int;
                        }
                    }
                },
                None => {
                    last_change = Some(row);
                    proof {
                        change_at = j as int;
                    }
                },
            }
        } else {
            assert(!is_flow_change(w, j as int));
        }
        j = j + 1;
    }
    match (first_call, last_change) {
        (Some(c), Some(d)) => {
            if d > c {
                assert(is_flow_call(w, call_at) && is_flow_change(w, change_at));
                true
            } else {
                assert forall|a: int, b: int|
                    f <= a < stop && f <= b < stop && #[trigger] is_flow_call(w, a) && #[trigger] is_flow_change(w, b) implies !(w[b].start_row
                        > w[a].start_row) by {}
                false
            }
        },
        _ => false,
    }
}

/// Whether the finding on `line` is a reentrancy by the control flow of the
/// syntax tree: see `reentrancy_verdict`.
pub fn reentrancy_in_tree(nodes: &Vec<SyntaxNode>, line: usize) -> (r: bool)
    requires
        tree_wf(tree_view(nodes@)),
    ensures
        r == reentrancy_verdict(tree_view(nodes@), line as int),
{
    match find_function_at_line(nodes, line) {
        Some(f) => state_change_after_call(nodes, f),
        None => true,
    }
}

/// Whether the finding on `line` of a Solidity source is a reentrancy: its
/// function has a state change after an external call. A source the parser
/// gives no well-formed tree for cannot be analyzed, and the finding stands.
pub fn is_vulnerable_reentrancy(source: &str, line: usize) -> (r: bool)
    ensures
        match solidity_nodes(source@) {
            Some(w) => if tree_wf(w) {
                r == reentrancy_verdict(w, line as int)
            } else {
                r
            },
            None => r,
        },
{
    match parse_solidity(source) {
        Some(nodes) => reentrancy_in_tree(&nodes, line),
        None => true,
    }
}

} // verus!
