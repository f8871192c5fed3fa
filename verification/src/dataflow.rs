//! Data flow facts of a contract (external calls, state changes, state
//! mutations per function) and the reentrancy risks they show: a state change
//! shortly after an external call.
use vstd::prelude::*;
use vstd::string::StrSliceExecFns;
use crate::text::{contains, str_has, str_eq, owned, push_str, push_decimal, decimal, str_trim, trimmed};
use crate::dependency_analyzer::find_key;
use crate::syntax_tree::{SyntaxNode, NodeView, tree_view, tree_wf, lemma_wf_at, text_or, text_of, child_of_kind, first_child_of_kind, solidity_nodes, parse_solidity};

verus! {

/// A finding of a data flow analyzer.
#[derive(Debug, Clone)]
pub struct AnalyzerFinding {
    pub analyzer_id: String,
    pub pattern_id: String,
    pub line: usize,
    pub message: String,
    pub severity: DataFlowSeverity,
    pub context: String,
}

/// How serious a data flow finding is.
#[derive(Debug, Clone, Copy, PartialEq, Eq, Structural)]
pub enum DataFlowSeverity {
    Critical,
    High,
    Medium,
    Low,
}

/// How a state variable is mutated.
#[derive(Debug, Clone, Copy, PartialEq, Eq, Hash, Structural)]
pub enum MutationType {
    DirectAssignment,
    MappingWrite,
    ArrayWrite,
    ArrayPush,
    ArrayPop,
    StructFieldWrite,
    Increment,
    Decrement,
    CompoundAssignment,
    Delete,
}

/// A write to a variable on a line.
#[derive(Debug, Clone, PartialEq)]
pub enum StateChange {
    Assignment { var: String, line: usize },
    MapWrite { map: String, line: usize },
    ArrayWrite { array: String, line: usize },
    Increment { var: String, line: usize },
    Decrement { var: String, line: usize },
}

/// A call that hands control to another contract.
#[derive(Debug, Clone)]
pub struct ExternalCall {
    pub method: String,
    pub line: usize,
    pub has_value: bool,
}

/// The data flow facts of a contract and the reentrancy risks among them.
#[derive(Debug)]
pub struct DataFlowAnalysis {
    pub external_calls: Vec<ExternalCall>,
    pub state_changes: Vec<StateChange>,
    pub reentrancy_risks: Vec<ReentrancyRisk>,
}

/// A state change after an external call.
#[derive(Debug, Clone)]
pub struct ReentrancyRisk {
    pub call_line: usize,
    pub call_method: String,
    pub state_change_line: usize,
    pub state_var: String,
    pub severity: RiskSeverity,
}

/// How serious a reentrancy risk is.
#[derive(Debug, Clone, Copy, PartialEq, Eq, Structural)]
pub enum RiskSeverity {
    /// Value sent, then a mapping written or a value decreased.
    Critical,
    /// A low-level call or delegatecall, then a state change.
    High,
    /// Another external call, then a state change.
    Medium,
}

/// The kind of a state change.
#[derive(Debug, Clone, Copy, PartialEq, Eq, Structural)]
pub enum ChangeKind {
    Assignment,
    MapWrite,
    ArrayWrite,
    Increment,
    Decrement,
}

/// The kind of a state change.
pub open spec fn change_kind(c: StateChange) -> ChangeKind {
    match c {
        StateChange::Assignment { .. } => ChangeKind::Assignment,
        StateChange::MapWrite { .. } => ChangeKind::MapWrite,
        StateChange::ArrayWrite { .. } => ChangeKind::ArrayWrite,
        StateChange::Increment { .. } => ChangeKind::Increment,
        StateChange::Decrement { .. } => ChangeKind::Decrement,
    }
}

/// A state change as kind, variable and line.
pub open spec fn change_view(c: StateChange) -> (ChangeKind, Seq<char>, usize) {
    (change_kind(c), change_var(c), change_line(c))
}

/// The line of a state change.
pub open spec fn change_line(c: StateChange) -> usize {
    match c {
        StateChange::Assignment { line, .. } => line,
        StateChange::MapWrite { line, .. } => line,
        StateChange::ArrayWrite { line, .. } => line,
        StateChange::Increment { line, .. } => line,
        StateChange::Decrement { line, .. } => line,
    }
}

/// The variable a state change writes.
pub open spec fn change_var(c: StateChange) -> Seq<char> {
    match c {
        StateChange::Assignment { var, .. } => var@,
        StateChange::MapWrite { map, .. } => map@,
        StateChange::ArrayWrite { array, .. } => array@,
        StateChange::Increment { var, .. } => var@,
        StateChange::Decrement { var, .. } => var@,
    }
}

/// A reentrancy risk as plain values.
pub struct RiskView {
    pub call_line: nat,
    pub call_method: Seq<char>,
    pub state_change_line: nat,
    pub state_var: Seq<char>,
    pub severity: RiskSeverity,
}

/// The view of a reentrancy risk.
pub open spec fn risk_view(r: ReentrancyRisk) -> RiskView {
    RiskView {
        call_line: r.call_line as nat,
        call_method: r.call_method@,
        state_change_line: r.state_change_line as nat,
        state_var: r.state_var@,
        severity: r.severity,
    }
}

/// The severity of a state change after a call.
pub open spec fn risk_severity(call: ExternalCall, change: StateChange) -> RiskSeverity {
    if call.has_value && (change is MapWrite || change is Decrement) {
        RiskSeverity::Critical
    } else if call.method@ == "call"@ || call.method@ == "delegatecall"@ {
        RiskSeverity::High
    } else {
        RiskSeverity::Medium
    }
}

/// The risk of `change` after `call`: when it comes on a later line, fewer
/// than 50 lines after.
pub open spec fn risk_for(call: ExternalCall, change: StateChange) -> Option<RiskView> {
    let l = change_line(change);
    if l > call.line && l - call.line < 50 {
        Some(RiskView {
            call_line: call.line as nat,
            call_method: call.method@,
            state_change_line: l as nat,
            state_var: change_var(change),
            severity: risk_severity(call, change),
        })
    } else {
        None
    }
}

/// The risks of the changes after one call, in change order.
pub open spec fn risks_after(call: ExternalCall, changes: Seq<StateChange>) -> Seq<RiskView>
    decreases changes.len(),
{
    if changes.len() == 0 {
        Seq::empty()
    } else {
        risks_after(call, changes.drop_last()) + match risk_for(call, changes.last()) {
            Some(r) => seq![r],
            None => Seq::empty(),
        }
    }
}

/// The risks of all calls, call by call.
pub open spec fn reentrancy_risks(calls: Seq<ExternalCall>, changes: Seq<StateChange>) -> Seq<RiskView>
    decreases calls.len(),
{
    if calls.len() == 0 {
        Seq::empty()
    } else {
        reentrancy_risks(calls.drop_last(), changes) + risks_after(calls.last(), changes)
    }
}

fn copy_change_var(c: &StateChange) -> (r: (String, usize))
    ensures
        r.0@ == change_var(*c),
        r.1 == change_line(*c),
{
    match c {
        StateChange::Assignment { var, line } => (owned(var.as_str()), *line),
        StateChange::MapWrite { map, line } => (owned(map.as_str()), *line),
        StateChange::ArrayWrite { array, line } => (owned(array.as_str()), *line),
        StateChange::Increment { var, line } => (owned(var.as_str()), *line),
        StateChange::Decrement { var, line } => (owned(var.as_str()), *line),
    }
}

impl DataFlowAnalysis {
    /// The external calls and state changes of a syntax tree, node by node
    /// in pre-order, and the reentrancy risks among them.
    pub fn analyze_nodes(nodes: &Vec<SyntaxNode>) -> (r: Self)
        requires
            tree_wf(tree_view(nodes@)),
        ensures
            r.external_calls@.map_values(|c: ExternalCall| call_view(c)) == tree_calls(tree_view(nodes@), nodes.len() as int),
            r.state_changes@.map_values(|c: StateChange| change_view(c)) == tree_changes(tree_view(nodes@), nodes.len() as int),
            r.reentrancy_risks@.map_values(|x: ReentrancyRisk| risk_view(x)) == reentrancy_risks(r.external_calls@, r.state_changes@),
    {
        let ghost w = tree_view(nodes@);
        let mut calls: Vec<ExternalCall> = Vec::new();
        let mut changes: Vec<StateChange> = Vec::new();
        let mut k: usize = 0;
        while k < nodes.len()
            invariant
                w == tree_view(nodes@),
                tree_wf(w),
                k <= nodes.len(),
                calls@.map_values(|c: ExternalCall| call_view(c)) == tree_calls(w, k as int),
                changes@.map_values(|c: StateChange| change_view(c)) == tree_changes(w, k as int),
            decreases nodes.len() - k,
        {
            let node = &nodes[k];
            assert(w[k as int] == node@);
            let line = node.start_row + 1;
            let ghost calls_before = calls@.map_values(|c: ExternalCall| call_view(c));
            let ghost changes_before = changes@.map_values(|c: StateChange| change_view(c));
            let mut call: Option<ExternalCall> = None;
            let mut change: Option<StateChange> = None;
            if str_eq(node.kind.as_str(), "function_call") {
                proof {
                    reveal_strlit("function_call");
                    reveal_strlit("assignment");
                    reveal_strlit("augmented_assignment");
                    assert("function_call"@.len() != "assignment"@.len());
                    assert("function_call"@[0] != "augmented_assignment"@[0]);
                }
                if k + 1 < node.end && str_eq(nodes[k + 1].kind.as_str(), "member_access") {
                    assert(w[k + 1] == nodes@[k + 1]@);
                    match first_child_of_kind(nodes, k + 1, "identifier") {
                        Some(j) => {
                            assert(w[j as int] == nodes@[j as int]@);
                            match &nodes[j].text {
                                Some(m) => {
                                    call = Self::external_call_for(m.as_str(), text_of(&node.text), line);
                                },
                                None => {},
                            }
                        },
                        None => {},
                    }
                }
            } else if str_eq(node.kind.as_str(), "assignment") {
                if k + 1 < node.end {
                    assert(w[k + 1] == nodes@[k + 1]@);
                    match &nodes[k + 1].text {
                        Some(t) => {
                            change = Self::state_change_for(nodes[k + 1].kind.as_str(), t.as_str(), line);
                        },
                        None => {},
                    }
                }
            } else if str_eq(node.kind.as_str(), "augmented_assignment") {
                if k + 1 < node.end {
                    assert(w[k + 1] == nodes@[k + 1]@);
                    match (&nodes[k + 1].text, &node.text) {
                        (Some(v), Some(t)) => {
                            change = Some(Self::augmented_change_for(v.as_str(), t.as_str(), line));
                        },
                        _ => {},
                    }
                }
            }
            assert(match call { Some(c) => node_call(w, k as int) == Some(call_view(c)), None => node_call(w, k as int) is None });
            assert(match change { Some(c) => node_change(w, k as int) == Some(change_view(c)), None => node_change(w, k as int) is None });
            match call {
                Some(c) => {
                    calls.push(c);
                    assert(calls@.map_values(|c: ExternalCall| call_view(c)) =~= calls_before.push(call_view(c)));
                },
                None => {
                    assert(calls_before + opt_seq(node_call(w, k as int)) =~= calls_before);
                },
            }
            match change {
                Some(c) => {
                    changes.push(c);
                    assert(changes@.map_values(|c: StateChange| change_view(c)) =~= changes_before.push(change_view(c)));
                },
                None => {
                    assert(changes_before + opt_seq(node_change(w, k as int)) =~= changes_before);
                },
            }
            k = k + 1;
        }
        Self::from_facts(calls, changes)
    }

    /// The data flow facts of a Solidity source: those of its syntax tree,
    /// none when the parser gives no well-formed tree.
    pub fn analyze(source: &str) -> (r: Self)
        ensures
            match solidity_nodes(source@) {
                Some(w) => if tree_wf(w) {
                    &&& r.external_calls@.map_values(|c: ExternalCall| call_view(c)) == tree_calls(w, w.len() as int)
                    &&& r.state_changes@.map_values(|c: StateChange| change_view(c)) == tree_changes(w, w.len() as int)
                } else {
                    r.external_calls@.len() == 0 && r.state_changes@.len() == 0
                },
                None => r.external_calls@.len() == 0 && r.state_changes@.len() == 0,
            },
            r.reentrancy_risks@.map_values(|x: ReentrancyRisk| risk_view(x)) == reentrancy_risks(r.external_calls@, r.state_changes@),
    {
        match parse_solidity(source) {
            Some(nodes) => Self::analyze_nodes(&nodes),
            None => Self::from_facts(Vec::new(), Vec::new()),
        }
    }

    /// The data flow facts and the reentrancy risks among them.
    pub fn from_facts(external_calls: Vec<ExternalCall>, state_changes: Vec<StateChange>) -> (r: Self)
        ensures
            r.external_calls@ == external_calls@,
            r.state_changes@ == state_changes@,
            r.reentrancy_risks@.map_values(|x: ReentrancyRisk| risk_view(x)) == reentrancy_risks(external_calls@, state_changes@),
    {
        let reentrancy_risks = Self::detect_reentrancy(&external_calls, &state_changes);
        DataFlowAnalysis { external_calls, state_changes, reentrancy_risks }
    }

    /// Every state change within 50 lines after an external call is a risk.
    pub fn detect_reentrancy(calls: &Vec<ExternalCall>, changes: &Vec<StateChange>) -> (r: Vec<ReentrancyRisk>)
        ensures
            r@.map_values(|x: ReentrancyRisk| risk_view(x)) == reentrancy_risks(calls@, changes@),
    {
        let mut risks: Vec<ReentrancyRisk> = Vec::new();
        let mut i: usize = 0;
        while i < calls.len()
            invariant
                i <= calls.len(),
                risks@.map_values(|x: ReentrancyRisk| risk_view(x)) == reentrancy_risks(calls@.subrange(0, i as int), changes@),
            decreases calls.len() - i,
        {
            let call = &calls[i];
            let ghost base = risks@.map_values(|x: ReentrancyRisk| risk_view(x));
            assert(calls@.subrange(0, i + 1).drop_last() =~= calls@.subrange(0, i as int));
            let mut j: usize = 0;
            while j < changes.len()
                invariant
                    i < calls.len(),
                    call == &calls@[i as int],
                    j <= changes.len(),
                    risks@.map_values(|x: ReentrancyRisk| risk_view(x)) == base + risks_after(*call, changes@.subrange(0, j as int)),
                decreases changes.len() - j,
            {
                let change = &changes[j];
                assert(changes@.subrange(0, j + 1).drop_last() =~= changes@.subrange(0, j as int));
                let (var, line) = copy_change_var(change);
                if line > call.line && line - call.line < 50 {
                    let is_write_or_decrease = match change {
                        StateChange::MapWrite { .. } => true,
                        StateChange::Decrement { .. } => true,
                        _ => false,
                    };
                    let severity = if call.has_value && is_write_or_decrease {
                        RiskSeverity::Critical
                    } else if str_eq(call.method.as_str(), "call") || str_eq(call.method.as_str(), "delegatecall") {
                        RiskSeverity::High
                    } else {
                        RiskSeverity::Medium
                    };
                    let risk = ReentrancyRisk {
                        call_line: call.line,
                        call_method: owned(call.method.as_str()),
                        state_change_line: line,
                        state_var: var,
                        severity,
                    };
                    let ghost before = risks@;
                    risks.push(risk);
                    assert(risks@.map_values(|x: ReentrancyRisk| risk_view(x)) =~= before.map_values(|x: ReentrancyRisk| risk_view(x)).push(risk_view(risk)));
                } else {
                    assert(risk_for(*call, *change) is None);
                }
                j = j + 1;
            }
            assert(changes@.subrange(0, changes.len() as int) =~= changes@);
            i = i + 1;
        }
        assert(calls@.subrange(0, calls.len() as int) =~= calls@);
        risks
    }

    /// What a low-level call found in the syntax tree is: an external call
    /// when its method is `call`, `delegatecall`, `staticcall`, `send` or
    /// `transfer`; it sends value when its text has `value:`.
    pub fn external_call_for(method: &str, call_text: &str, line: usize) -> (r: Option<ExternalCall>)
        ensures
            match r {
                Some(c) => is_external_method(method@) && c.method@ == method@ && c.line == line
                    && c.has_value == str_has(call_text@, "value:"@),
                None => !is_external_method(method@),
            },
    {
        if str_eq(method, "call") || str_eq(method, "delegatecall") || str_eq(method, "staticcall")
            || str_eq(method, "send") || str_eq(method, "transfer")
        {
            Some(ExternalCall { method: owned(method), line, has_value: contains(call_text, "value:") })
        } else {
            None
        }
    }

    /// The state change of an assignment whose left side is an `identifier`
    /// or a `member_access` (a write through `[` is a mapping write of the
    /// name before it).
    pub fn state_change_for(left_kind: &str, left_text: &str, line: usize) -> (r: Option<StateChange>)
        ensures
            match r {
                Some(c) => assignment_change(left_kind@, left_text@, line) == Some(change_view(c)),
                None => assignment_change(left_kind@, left_text@, line) is None,
            },
    {
        if str_eq(left_kind, "identifier") {
            Some(StateChange::Assignment { var: owned(left_text), line })
        } else if str_eq(left_kind, "member_access") {
            if contains(left_text, "[") {
                Some(StateChange::MapWrite { map: owned(before_bracket(left_text)), line })
            } else {
                Some(StateChange::Assignment { var: owned(left_text), line })
            }
        } else {
            None
        }
    }

    /// The state change of an augmented assignment: an increment for `+=`, a
    /// decrement for `-=`, else an assignment.
    pub fn augmented_change_for(var: &str, node_text: &str, line: usize) -> (r: StateChange)
        ensures
            change_view(r) == augmented_change(var@, node_text@, line),
    {
        if contains(node_text, "+=") {
            StateChange::Increment { var: owned(var), line }
        } else if contains(node_text, "-=") {
            StateChange::Decrement { var: owned(var), line }
        } else {
            StateChange::Assignment { var: owned(var), line }
        }
    }
}

/// An external call as plain values: method, line, whether it sends value.
pub open spec fn call_view(c: ExternalCall) -> (Seq<char>, usize, bool) {
    (c.method@, c.line, c.has_value)
}

/// The line, counted from 1, of node `k`.
pub open spec fn node_line(w: Seq<NodeView>, k: int) -> usize {
    (w[k].start_row + 1) as usize
}

/// The external call at node `k`: a `function_call` whose first child is a
/// `member_access` whose first `identifier` child has the text of an external
/// method; it sends value when the call's text has `value:`.
pub open spec fn node_call(w: Seq<NodeView>, k: int) -> Option<(Seq<char>, usize, bool)> {
    if w[k].kind == "function_call"@ && k + 1 < w[k].end && w[k + 1].kind == "member_access"@ {
        match child_of_kind(w, k + 2, w[k + 1].end as int, "identifier"@) {
            Some(j) => match w[j].text {
                Some(m) => if is_external_method(m) {
                    Some((m, node_line(w, k), str_has(text_or(w[k].text, Seq::empty()), "value:"@)))
                } else {
                    None
                },
                None => None,
            },
            None => None,
        }
    } else {
        None
    }
}

/// The state change at node `k`: an `assignment` by its first child's kind
/// and text, or an `augmented_assignment` of its first child's text.
pub open spec fn node_change(w: Seq<NodeView>, k: int) -> Option<(ChangeKind, Seq<char>, usize)> {
    if k + 1 < w[k].end && w[k].kind == "assignment"@ {
        match w[k + 1].text {
            Some(t) => assignment_change(w[k + 1].kind, t, node_line(w, k)),
            None => None,
        }
    } else if k + 1 < w[k].end && w[k].kind == "augmented_assignment"@ {
        match (w[k + 1].text, w[k].text) {
            (Some(v), Some(t)) => Some(augmented_change(v, t, node_line(w, k))),
            _ => None,
        }
    } else {
        None
    }
}

/// The element of an option, as a sequence of at most one.
pub open spec fn opt_seq<T>(o: Option<T>) -> Seq<T> {
    match o {
        Some(x) => seq![x],
        None => Seq::empty(),
    }
}

/// The external calls among the first `n` nodes, in pre-order.
pub open spec fn tree_calls(w: Seq<NodeView>, n: int) -> Seq<(Seq<char>, usize, bool)>
    decreases n,
{
    if n <= 0 {
        Seq::empty()
    } else {
        tree_calls(w, n - 1) + opt_seq(node_call(w, n - 1))
    }
}

/// The state changes among the first `n` nodes, in pre-order.
pub open spec fn tree_changes(w: Seq<NodeView>, n: int) -> Seq<(ChangeKind, Seq<char>, usize)>
    decreases n,
{
    if n <= 0 {
        Seq::empty()
    } else {
        tree_changes(w, n - 1) + opt_seq(node_change(w, n - 1))
    }
}

/// The methods that hand control to another contract.
pub open spec fn is_external_method(m: Seq<char>) -> bool {
    m == "call"@ || m == "delegatecall"@ || m == "staticcall"@ || m == "send"@ || m == "transfer"@
}

/// The text before the first `[` (all of it when there is none).
pub open spec fn text_before(s: Seq<char>, c: char) -> Seq<char>
    decreases s.len(),
{
    if s.len() == 0 {
        s
    } else if text_before(s.drop_last(), c).len() < s.len() - 1 {
        text_before(s.drop_last(), c)
    } else if s.last() == c {
        s.drop_last()
    } else {
        s
    }
}

/// The text of `s` before its first `[` (`split('[').next()`).
pub fn before_bracket(s: &str) -> (r: &str)
    ensures
        r@ == text_before(s@, '['),
{
    let n = s.unicode_len();
    let mut i: usize = 0;
    while i < n
        invariant
            i <= n == s@.len(),
            forall|k: int| 0 <= k < i ==> s@[k] != '[',
            text_before(s@.subrange(0, i as int), '[') == s@.subrange(0, i as int),
        decreases n - i,
    {
        assert(s@.subrange(0, i + 1).drop_last() =~= s@.subrange(0, i as int));
        if s.get_char(i) == '[' {
            proof {
                lemma_text_before_stops(s@, i as int);
            }
            return s.substring_char(0, i);
        }
        i = i + 1;
    }
    assert(s@.subrange(0, n as int) =~= s@);
    s
}

proof fn lemma_text_before_stops(s: Seq<char>, i: int)
    requires
        0 <= i < s.len(),
        s[i] == '[',
        text_before(s.subrange(0, i), '[') == s.subrange(0, i),
    ensures
        text_before(s, '[') == s.subrange(0, i),
    decreases s.len(),
{
    if s.len() == i + 1 {
        assert(s.drop_last() =~= s.subrange(0, i));
    } else {
        assert(s.drop_last().subrange(0, i) =~= s.subrange(0, i));
        lemma_text_before_stops(s.drop_last(), i);
    }
}

/// The state change of an assignment with left side of kind `k` and text `t`.
pub open spec fn assignment_change(k: Seq<char>, t: Seq<char>, line: usize) -> Option<(ChangeKind, Seq<char>, usize)> {
    if k == "identifier"@ {
        Some((ChangeKind::Assignment, t, line))
    } else if k == "member_access"@ {
        if str_has(t, "["@) {
            Some((ChangeKind::MapWrite, text_before(t, '['), line))
        } else {
            Some((ChangeKind::Assignment, t, line))
        }
    } else {
        None
    }
}

/// The state change of an augmented assignment of `var` whose text is `t`.
pub open spec fn augmented_change(var: Seq<char>, t: Seq<char>, line: usize) -> (ChangeKind, Seq<char>, usize) {
    if str_has(t, "+="@) {
        (ChangeKind::Increment, var, line)
    } else if str_has(t, "-="@) {
        (ChangeKind::Decrement, var, line)
    } else {
        (ChangeKind::Assignment, var, line)
    }
}

/// The value of the first entry of `v` with key `k`.
pub open spec fn first_entry<V>(v: Seq<(String, V)>, k: Seq<char>) -> Option<V>
    decreases v.len(),
{
    if v.len() == 0 {
        None
    } else {
        match first_entry(v.drop_last(), k) {
            Some(x) => Some(x),
            None => if v.last().0@ == k { Some(v.last().1) } else { None },
        }
    }
}

pub proof fn lemma_first_entry_at<V>(v: Seq<(String, V)>, k: Seq<char>, i: int)
    requires
        0 <= i < v.len(),
        v[i].0@ == k,
        forall|j: int| 0 <= j < i ==> v[j].0@ != k,
    ensures
        first_entry(v, k) == Some(v[i].1),
    decreases v.len(),
{
    if i < v.len() - 1 {
        lemma_first_entry_at(v.drop_last(), k, i);
    } else {
        lemma_first_entry_none(v.drop_last(), k);
    }
}

pub proof fn lemma_first_entry_none<V>(v: Seq<(String, V)>, k: Seq<char>)
    requires
        forall|j: int| 0 <= j < v.len() ==> v[j].0@ != k,
    ensures
        first_entry(v, k) is None,
    decreases v.len(),
{
    if v.len() > 0 {
        lemma_first_entry_none(v.drop_last(), k);
    }
}

pub proof fn lemma_first_entry_update<V>(v: Seq<(String, V)>, i: int, e: (String, V), k: Seq<char>)
    requires
        0 <= i < v.len(),
        v[i].0@ == e.0@,
        forall|j: int| 0 <= j < i ==> v[j].0@ != e.0@,
        k != e.0@,
    ensures
        first_entry(v.update(i, e), k) == first_entry(v, k),
    decreases v.len(),
{
    if v.len() > 0 {
        if i < v.len() - 1 {
            assert(v.update(i, e).drop_last() =~= v.drop_last().update(i, e));
            lemma_first_entry_update(v.drop_last(), i, e, k);
        } else {
            assert(v.update(i, e).drop_last() =~= v.drop_last());
        }
    }
}

pub proof fn lemma_first_entry_push<V>(v: Seq<(String, V)>, e: (String, V), k: Seq<char>)
    requires
        k != e.0@ || first_entry(v, k) is Some,
    ensures
        first_entry(v.push(e), k) == first_entry(v, k),
{
    assert(v.push(e).drop_last() =~= v);
}

/// A state variable of a contract.
#[derive(Debug, Clone)]
pub struct StateVariable {
    pub name: String,
    pub var_type: String,
    pub declaration_line: usize,
}

/// A write to a state variable inside a function.
#[derive(Debug, Clone)]
pub struct MutationEvent {
    pub variable: String,
    pub mutation_type: MutationType,
    pub function_name: String,
    pub line: usize,
    pub after_external_call: bool,
}

/// A state variable as plain values.
pub open spec fn var_view(v: StateVariable) -> (Seq<char>, Seq<char>, usize) {
    (v.name@, v.var_type@, v.declaration_line)
}

/// A mutation as plain values.
pub open spec fn mutation_view(m: MutationEvent) -> (Seq<char>, MutationType, Seq<char>, usize, bool) {
    (m.variable@, m.mutation_type, m.function_name@, m.line, m.after_external_call)
}

/// The views of a list of mutations.
pub open spec fn mutation_views(v: Seq<MutationEvent>) -> Seq<(Seq<char>, MutationType, Seq<char>, usize, bool)> {
    v.map_values(|m: MutationEvent| mutation_view(m))
}

/// Tracks the state variables of a contract, the writes to them in each
/// function and the external calls of each function, to find writes after
/// calls (checks-effects-interactions violations).
pub struct StateMutationTracker {
    pub state_variables: Vec<(String, StateVariable)>,
    pub mutations: Vec<MutationEvent>,
    pub external_calls: Vec<(String, Vec<usize>)>,
    pub current_function: Option<String>,
}

/// The name of the variable written through a left-hand side, and how: up to
/// the first `[` (trimmed) for a mapping write, else the whole trimmed text.
pub open spec fn classify(lhs: Seq<char>) -> (Seq<char>, MutationType) {
    if str_has(lhs, "["@) {
        (trimmed(text_before(lhs, '[')), MutationType::MappingWrite)
    } else {
        (trimmed(lhs), MutationType::DirectAssignment)
    }
}

/// A call text that hands control away: it has `.call`, `.delegatecall` or `.send`.
pub open spec fn is_external_call_text(t: Seq<char>) -> bool {
    str_has(t, ".call"@) || str_has(t, ".delegatecall"@) || str_has(t, ".send"@)
}

/// Whether a mutation comes after some external call of its function.
pub open spec fn correlated(m: MutationEvent, calls: Seq<(String, Vec<usize>)>) -> bool {
    match first_entry(calls, m.function_name@) {
        Some(lines) => exists|j: int| 0 <= j < lines@.len() && m.line > #[trigger] lines@[j],
        None => m.after_external_call,
    }
}

/// The mutations that come after an external call, in order.
pub open spec fn cei_violations(ms: Seq<MutationEvent>) -> Seq<MutationEvent>
    decreases ms.len(),
{
    if ms.len() == 0 {
        Seq::empty()
    } else {
        cei_violations(ms.drop_last()) + if ms.last().after_external_call { seq![ms.last()] } else { Seq::empty() }
    }
}

/// The call lines recorded for function `f`.
pub open spec fn lines_of(calls: Seq<(String, Vec<usize>)>, f: Seq<char>) -> Option<Seq<usize>> {
    match first_entry(calls, f) {
        Some(v) => Some(v@),
        None => None,
    }
}

/// Recorded call lines `o` with the lines `s` added after them; nothing is
/// recorded for a function until it has a line.
pub open spec fn append_lines(o: Option<Seq<usize>>, s: Seq<usize>) -> Option<Seq<usize>> {
    if s.len() == 0 {
        o
    } else {
        match o {
            Some(x) => Some(x + s),
            None => Some(s),
        }
    }
}

proof fn lemma_append_lines(o: Option<Seq<usize>>, a: Seq<usize>, b: Seq<usize>)
    ensures
        append_lines(append_lines(o, a), b) == append_lines(o, a + b),
{
    if b.len() == 0 {
        assert(a + b =~= a);
    } else if a.len() == 0 {
        assert(a + b =~= b);
    } else {
        match o {
            Some(x) => assert(x + a + b =~= x + (a + b)),
            None => {},
        }
    }
}

/// The state variable recorded under `s`, as plain values.
pub open spec fn var_lookup(vars: Seq<(String, StateVariable)>, s: Seq<char>) -> Option<(Seq<char>, Seq<char>, usize)> {
    match first_entry(vars, s) {
        Some(v) => Some(var_view(v)),
        None => None,
    }
}

/// The end of the root's subtree: the nodes below the root are those from 1
/// up to it.
pub open spec fn root_end(w: Seq<NodeView>) -> int {
    if w.len() > 0 {
        w[0].end as int
    } else {
        0
    }
}

/// Node `k` declares a state variable with a `name` child.
pub open spec fn is_decl(w: Seq<NodeView>, k: int) -> bool {
    w[k].kind == "state_variable_declaration"@ && w[k].name is Some
}

/// The declared name: the `name` child's text, empty when it has none.
pub open spec fn decl_name(w: Seq<NodeView>, k: int) -> Seq<char> {
    match w[k].name {
        Some(n) => text_or(n, Seq::empty()),
        None => Seq::empty(),
    }
}

/// The declared variable: name, type (`unknown` without a `type` child) and line.
pub open spec fn decl_view(w: Seq<NodeView>, k: int) -> (Seq<char>, Seq<char>, usize) {
    (decl_name(w, k), text_or(w[k].type_text, "unknown"@), node_line(w, k))
}

/// The variable named `s` after the declarations among nodes `[lo, hi)` are
/// recorded over `base`: the last of them with that name.
pub open spec fn decls_lookup(w: Seq<NodeView>, lo: int, hi: int, s: Seq<char>, base: Option<(Seq<char>, Seq<char>, usize)>) -> Option<(Seq<char>, Seq<char>, usize)>
    decreases hi - lo,
{
    if hi <= lo {
        base
    } else if is_decl(w, hi - 1) && decl_name(w, hi - 1) == s {
        Some(decl_view(w, hi - 1))
    } else {
        decls_lookup(w, lo, hi - 1, s, base)
    }
}

/// Node `k` defines a function.
pub open spec fn is_fn_def(w: Seq<NodeView>, k: int) -> bool {
    w[k].kind == "function_definition"@
}

/// A function's name: its `name` child's text, else `anonymous`.
pub open spec fn fn_name(w: Seq<NodeView>, k: int) -> Seq<char> {
    match w[k].name {
        Some(Some(t)) => t,
        _ => "anonymous"@,
    }
}

/// Some node among `[lo, hi)` defines a function.
pub open spec fn has_function(w: Seq<NodeView>, lo: int, hi: int) -> bool {
    exists|k: int| lo <= k < hi && #[trigger] is_fn_def(w, k)
}

/// The lines of the function calls among nodes `[lo, hi)` whose text hands
/// control away.
pub open spec fn call_lines(w: Seq<NodeView>, lo: int, hi: int) -> Seq<usize>
    decreases hi - lo,
{
    if hi <= lo {
        Seq::empty()
    } else {
        call_lines(w, lo, hi - 1) + if w[hi - 1].kind == "function_call"@ && is_external_call_text(text_or(w[hi - 1].text, Seq::empty())) {
            seq![node_line(w, hi - 1)]
        } else {
            Seq::empty()
        }
    }
}

/// The call lines of the functions named `f` among nodes `[lo, hi)`, each
/// function's own in order, function after function.
pub open spec fn name_call_lines(w: Seq<NodeView>, lo: int, hi: int, f: Seq<char>) -> Seq<usize>
    decreases hi - lo,
{
    if hi <= lo {
        Seq::empty()
    } else {
        name_call_lines(w, lo, hi - 1, f) + if is_fn_def(w, hi - 1) && fn_name(w, hi - 1) == f {
            call_lines(w, hi, w[hi - 1].end as int)
        } else {
            Seq::empty()
        }
    }
}

/// The write to a known state variable at node `j` of function `f`: an
/// assignment through its first child, or an augmented assignment of it.
pub open spec fn node_mutation(w: Seq<NodeView>, j: int, f: Seq<char>, vars: Seq<(String, StateVariable)>) -> Option<(Seq<char>, MutationType, Seq<char>, usize, bool)> {
    if j + 1 < w[j].end && w[j].kind == "assignment"@ {
        match w[j + 1].text {
            Some(t) => if first_entry(vars, classify(t).0) is Some {
                Some((classify(t).0, classify(t).1, f, node_line(w, j), false))
            } else {
                None
            },
            None => None,
        }
    } else if j + 1 < w[j].end && w[j].kind == "augmented_assignment"@ {
        match w[j + 1].text {
            Some(v) => if first_entry(vars, v) is Some {
                Some((v, MutationType::CompoundAssignment, f, node_line(w, j), false))
            } else {
                None
            },
            None => None,
        }
    } else {
        None
    }
}

/// The writes among nodes `[lo, hi)` of function `f`, in order.
pub open spec fn fn_mutations(w: Seq<NodeView>, lo: int, hi: int, f: Seq<char>, vars: Seq<(String, StateVariable)>) -> Seq<(Seq<char>, MutationType, Seq<char>, usize, bool)>
    decreases hi - lo,
{
    if hi <= lo {
        Seq::empty()
    } else {
        fn_mutations(w, lo, hi - 1, f, vars) + opt_seq(node_mutation(w, hi - 1, f, vars))
    }
}

/// The writes of the functions among nodes `[lo, hi)`, function after function.
pub open spec fn all_mutations(w: Seq<NodeView>, lo: int, hi: int, vars: Seq<(String, StateVariable)>) -> Seq<(Seq<char>, MutationType, Seq<char>, usize, bool)>
    decreases hi - lo,
{
    if hi <= lo {
        Seq::empty()
    } else {
        all_mutations(w, lo, hi - 1, vars) + if is_fn_def(w, hi - 1) {
            fn_mutations(w, hi, w[hi - 1].end as int, fn_name(w, hi - 1), vars)
        } else {
            Seq::empty()
        }
    }
}

/// A mutation marked after a call when some call of its function comes on an
/// earlier line; kept as it was when its function has no recorded calls.
pub open spec fn after_call_view(t: (Seq<char>, MutationType, Seq<char>, usize, bool), calls: Seq<(String, Vec<usize>)>) -> (Seq<char>, MutationType, Seq<char>, usize, bool) {
    (t.0, t.1, t.2, t.3, match first_entry(calls, t.2) {
        Some(lines) => exists|j: int| 0 <= j < lines@.len() && t.3 > #[trigger] lines@[j],
        None => t.4,
    })
}

/// `after` is `before` with the syntax tree `w` analyzed: the state variables
/// declared below the root recorded (a later declaration of a name replacing
/// an earlier one), then for each function, in pre-order, its calls that
/// hand control away and its writes to known state variables, and at last
/// every write marked by whether it comes after a call of its function.
pub open spec fn analyzed(before: StateMutationTracker, after: StateMutationTracker, w: Seq<NodeView>) -> bool {
    let pre = mutation_views(before.mutations@) + all_mutations(w, 1, root_end(w), after.state_variables@);
    &&& forall|s: Seq<char>| #[trigger] var_lookup(after.state_variables@, s) == decls_lookup(w, 1, root_end(w), s, var_lookup(before.state_variables@, s))
    &&& forall|f: Seq<char>| #[trigger] lines_of(after.external_calls@, f) == append_lines(lines_of(before.external_calls@, f), name_call_lines(w, 1, root_end(w), f))
    &&& after.mutations@.len() == pre.len()
    &&& forall|i: int| 0 <= i < pre.len() ==> #[trigger] mutation_view(after.mutations@[i]) == after_call_view(pre[i], after.external_calls@)
    &&& after.current() == if has_function(w, 1, root_end(w)) { None } else { before.current() }
}

impl StateMutationTracker {
    /// The function being analyzed, if any.
    pub open spec fn current(&self) -> Option<Seq<char>> {
        match self.current_function {
            Some(f) => Some(f@),
            None => None,
        }
    }

    /// A tracker that knows nothing yet.
    pub fn new() -> (r: Self)
        ensures
            r.state_variables@.len() == 0,
            r.mutations@.len() == 0,
            r.external_calls@.len() == 0,
            r.current() is None,
    {
        StateMutationTracker {
            state_variables: Vec::new(),
            mutations: Vec::new(),
            external_calls: Vec::new(),
            current_function: None,
        }
    }

    /// Records a state variable; a later declaration of the same name replaces it.
    pub fn add_state_variable(&mut self, var: StateVariable)
        ensures
            first_entry(final(self).state_variables@, var.name@) == Some(var),
            forall|k: Seq<char>| k != var.name@ ==> first_entry(final(self).state_variables@, k) == first_entry(old(self).state_variables@, k),
            final(self).mutations@ == old(self).mutations@,
            final(self).external_calls@ == old(self).external_calls@,
            final(self).current() == old(self).current(),
    {
        let key = owned(var.name.as_str());
        let entry = (key, var);
        match find_key(&self.state_variables, entry.0.as_str()) {
            Some(i) => {
                let ghost old_v = self.state_variables@;
                let ghost e = entry;
                self.state_variables.set(i, entry);
                proof {
                    lemma_first_entry_at(self.state_variables@, e.0@, i as int);
                    assert forall|k: Seq<char>| k != e.0@ implies first_entry(self.state_variables@, k) == first_entry(old_v, k) by {
                        lemma_first_entry_update(old_v, i as int, e, k);
                    }
                }
            },
            None => {
                let ghost old_v = self.state_variables@;
                let ghost e = entry;
                self.state_variables.push(entry);
                proof {
                    lemma_first_entry_at(self.state_variables@, e.0@, old_v.len() as int);
                    assert forall|k: Seq<char>| k != e.0@ implies first_entry(self.state_variables@, k) == first_entry(old_v, k) by {
                        lemma_first_entry_push(old_v, e, k);
                    }
                }
            },
        }
    }

    /// Enters the function `name`: calls and writes are now recorded for it.
    pub fn enter_function(&mut self, name: String)
        ensures
            final(self).current() == Some(name@),
            final(self).state_variables@ == old(self).state_variables@,
            final(self).mutations@ == old(self).mutations@,
            final(self).external_calls@ == old(self).external_calls@,
    {
        self.current_function = Some(name);
    }

    /// Leaves the current function.
    pub fn leave_function(&mut self)
        ensures
            final(self).current() is None,
            final(self).state_variables@ == old(self).state_variables@,
            final(self).mutations@ == old(self).mutations@,
            final(self).external_calls@ == old(self).external_calls@,
    {
        self.current_function = None;
    }

    fn current_name(&self) -> (r: String)
        ensures
            r@ == match self.current() {
                Some(f) => f,
                None => Seq::empty(),
            },
    {
        match &self.current_function {
            Some(f) => owned(f.as_str()),
            None => {
                proof {
                    reveal_strlit("");
                }
                owned("")
            },
        }
    }

    /// The variable a left-hand side writes, and how.
    pub fn classify_lhs(&self, lhs: &str) -> (r: (String, MutationType))
        ensures
            (r.0@, r.1) == classify(lhs@),
    {
        if contains(lhs, "[") {
            let base = str_trim(before_bracket(lhs));
            return (owned(base), MutationType::MappingWrite);
        }
        (owned(str_trim(lhs)), MutationType::DirectAssignment)
    }

    /// Records a function call of the current function found on `line`; only
    /// calls whose text hands control away count.
    pub fn record_external_call(&mut self, call_text: &str, line: usize)
        ensures
            final(self).state_variables@ == old(self).state_variables@,
            final(self).mutations@ == old(self).mutations@,
            final(self).current() == old(self).current(),
            ({
                let f = match old(self).current() { Some(f) => f, None => Seq::empty() };
                if is_external_call_text(call_text@) {
                    &&& first_entry(final(self).external_calls@, f) matches Some(lines) && lines@ == match first_entry(old(self).external_calls@, f) {
                        Some(old_lines) => old_lines@.push(line),
                        None => seq![line],
                    }
                    &&& forall|k: Seq<char>| k != f ==> first_entry(final(self).external_calls@, k) == first_entry(old(self).external_calls@, k)
                } else {
                    final(self).external_calls@ == old(self).external_calls@
                }
            }),
    {
        if !(contains(call_text, ".call") || contains(call_text, ".delegatecall") || contains(call_text, ".send")) {
            return;
        }
        let f = self.current_name();
        let ghost old_v = self.external_calls@;
        match find_key(&self.external_calls, f.as_str()) {
            Some(i) => {
                let mut lines: Vec<usize> = Vec::new();
                let mut j: usize = 0;
                while j < self.external_calls[i].1.len()
                    invariant
                        old_v == self.external_calls@,
                        i < self.external_calls.len(),
                        j <= self.external_calls@[i as int].1.len(),
                        lines@ == self.external_calls@[i as int].1@.subrange(0, j as int),
                    decreases self.external_calls@[i as int].1.len() - j,
                {
                    lines.push(self.external_calls[i].1[j]);
                    assert(lines@ =~= self.external_calls@[i as int].1@.subrange(0, j + 1));
                    j = j + 1;
                }
                assert(lines@ =~= old_v[i as int].1@);
                lines.push(line);
                let e = (f, lines);
                let ghost ge = e;
                self.external_calls.set(i, e);
                proof {
                    lemma_first_entry_at(old_v, ge.0@, i as int);
                    lemma_first_entry_at(self.external_calls@, ge.0@, i as int);
                    assert forall|k: Seq<char>| k != ge.0@ implies first_entry(self.external_calls@, k) == first_entry(old_v, k) by {
                        lemma_first_entry_update(old_v, i as int, ge, k);
                    }
                }
            },
            None => {
                let mut lines: Vec<usize> = Vec::new();
                lines.push(line);
                let e = (f, lines);
                let ghost ge = e;
                self.external_calls.push(e);
                proof {
                    lemma_first_entry_none(old_v, ge.0@);
                    lemma_first_entry_at(self.external_calls@, ge.0@, old_v.len() as int);
                    assert(ge.1@ =~= seq![line]);
                    assert forall|k: Seq<char>| k != ge.0@ implies first_entry(self.external_calls@, k) == first_entry(old_v, k) by {
                        lemma_first_entry_push(old_v, ge, k);
                    }
                }
            },
        }
    }

    /// Records an assignment of the current function on `line` when it writes
    /// a known state variable.
    pub fn record_assignment(&mut self, lhs: &str, line: usize)
        ensures
            final(self).state_variables@ == old(self).state_variables@,
            final(self).external_calls@ == old(self).external_calls@,
            final(self).current() == old(self).current(),
            ({
                let (v, t) = classify(lhs@);
                let f = match old(self).current() { Some(f) => f, None => Seq::empty() };
                if first_entry(old(self).state_variables@, v) is Some {
                    mutation_views(final(self).mutations@) == mutation_views(old(self).mutations@).push((v, t, f, line, false))
                } else {
                    final(self).mutations@ == old(self).mutations@
                }
            }),
    {
        let (var, mutation_type) = self.classify_lhs(lhs);
        match find_key(&self.state_variables, var.as_str()) {
            Some(i) => {
                proof {
                    lemma_first_entry_at(self.state_variables@, var@, i as int);
                }
                let function_name = self.current_name();
                let ev = MutationEvent { variable: var, mutation_type, function_name, line, after_external_call: false };
                let ghost before = self.mutations@;
                self.mutations.push(ev);
                assert(mutation_views(self.mutations@) =~= mutation_views(before).push(mutation_view(ev)));
            },
            None => {
                proof {
                    lemma_first_entry_none(self.state_variables@, var@);
                }
            },
        }
    }

    /// Records an augmented assignment (`+=`, `-=`, ...) of the current
    /// function on `line` when it writes a known state variable.
    pub fn record_augmented(&mut self, var: &str, line: usize)
        ensures
            final(self).state_variables@ == old(self).state_variables@,
            final(self).external_calls@ == old(self).external_calls@,
            final(self).current() == old(self).current(),
            ({
                let f = match old(self).current() { Some(f) => f, None => Seq::empty() };
                if first_entry(old(self).state_variables@, var@) is Some {
                    mutation_views(final(self).mutations@) == mutation_views(old(self).mutations@).push(
                        (var@, MutationType::CompoundAssignment, f, line, false),
                    )
                } else {
                    final(self).mutations@ == old(self).mutations@
                }
            }),
    {
        match find_key(&self.state_variables, var) {
            Some(i) => {
                proof {
                    lemma_first_entry_at(self.state_variables@, var@, i as int);
                }
                let function_name = self.current_name();
                let ev = MutationEvent {
                    variable: owned(var),
                    mutation_type: MutationType::CompoundAssignment,
                    function_name,
                    line,
                    after_external_call: false,
                };
                let ghost before = self.mutations@;
                self.mutations.push(ev);
                assert(mutation_views(self.mutations@) =~= mutation_views(before).push(mutation_view(ev)));
            },
            None => {
                proof {
                    lemma_first_entry_none(self.state_variables@, var@);
                }
            },
        }
    }

    /// Marks each mutation of a function with recorded external calls as
    /// after a call when some call of that function is on an earlier line.
    pub fn correlate_calls_and_mutations(&mut self)
        ensures
            final(self).state_variables@ == old(self).state_variables@,
            final(self).external_calls@ == old(self).external_calls@,
            final(self).current() == old(self).current(),
            final(self).mutations@.len() == old(self).mutations@.len(),
            forall|i: int| 0 <= i < old(self).mutations@.len() ==> {
                let m = #[trigger] old(self).mutations@[i];
                mutation_view(final(self).mutations@[i]) == (m.variable@, m.mutation_type, m.function_name@, m.line,
                    correlated(m, old(self).external_calls@))
            },
    {
        let ghost old_ms = self.mutations@;
        let ghost old_vars = self.state_variables@;
        let ghost old_calls = self.external_calls@;
        let ghost old_cur = self.current();
        let mut i: usize = 0;
        while i < self.mutations.len()
            invariant
                self.state_variables@ == old_vars,
                self.external_calls@ == old_calls,
                self.current() == old_cur,
                i <= self.mutations.len() == old_ms.len(),
                forall|j: int| i <= j < old_ms.len() ==> self.mutations@[j] == old_ms[j],
                forall|j: int| 0 <= j < i ==> {
                    let m = #[trigger] old_ms[j];
                    mutation_view(self.mutations@[j]) == (m.variable@, m.mutation_type, m.function_name@, m.line,
                        correlated(m, self.external_calls@))
                },
            decreases self.mutations.len() - i,
        {
            let fname = self.mutations[i].function_name.as_str();
            let after = match find_key(&self.external_calls, fname) {
                Some(k) => {
                    proof {
                        lemma_first_entry_at(self.external_calls@, old_ms[i as int].function_name@, k as int);
                    }
                    let lines = &self.external_calls[k].1;
                    let mut found = false;
                    let mut q: usize = 0;
                    while q < lines.len()
                        invariant
                            i < self.mutations.len(),
                            q <= lines.len(),
                            found == exists|j: int| 0 <= j < q && self.mutations@[i as int].line > #[trigger] lines@[j],
                        decreases lines.len() - q,
                    {
                        if self.mutations[i].line > lines[q] {
                            found = true;
                        }
                        q = q + 1;
                    }
                    found
                },
                None => {
                    proof {
                        lemma_first_entry_none(self.external_calls@, old_ms[i as int].function_name@);
                    }
                    self.mutations[i].after_external_call
                },
            };
            let m = &self.mutations[i];
            let ev = MutationEvent {
                variable: owned(m.variable.as_str()),
                mutation_type: m.mutation_type,
                function_name: owned(m.function_name.as_str()),
                line: m.line,
                after_external_call: after,
            };
            self.mutations.set(i, ev);
            i = i + 1;
        }
    }

    /// Records the state variables declared below the root of the tree.
    fn collect_state_variables(&mut self, nodes: &Vec<SyntaxNode>)
        requires
            tree_wf(tree_view(nodes@)),
        ensures
            forall|s: Seq<char>| #[trigger] var_lookup(final(self).state_variables@, s) == decls_lookup(
                tree_view(nodes@),
                1,
                root_end(tree_view(nodes@)),
                s,
                var_lookup(old(self).state_variables@, s),
            ),
            final(self).mutations@ == old(self).mutations@,
            final(self).external_calls@ == old(self).external_calls@,
            final(self).current() == old(self).current(),
    {
        let ghost w = tree_view(nodes@);
        let ghost old_vars = self.state_variables@;
        let ghost old_ms = self.mutations@;
        let ghost old_ec = self.external_calls@;
        let ghost old_cur = self.current();
        if nodes.len() == 0 {
            return;
        }
        let stop = nodes[0].end;
        assert(w[0].end == stop);
        let mut k: usize = 1;
        while k < stop
            invariant
                w == tree_view(nodes@),
                tree_wf(w),
                stop as int == root_end(w),
                stop <= nodes.len(),
                1 <= k <= stop,
                forall|s: Seq<char>| #[trigger] var_lookup(self.state_variables@, s) == decls_lookup(w, 1, k as int, s, var_lookup(old_vars, s)),
                self.mutations@ == old_ms,
                self.external_calls@ == old_ec,
                self.current() == old_cur,
            decreases stop - k,
        {
            let node = &nodes[k];
            assert(w[k as int] == node@);
            proof {
                lemma_wf_at(w, k as int);
            }
            if str_eq(node.kind.as_str(), "state_variable_declaration") {
                match &node.name {
                    Some(n) => {
                        let name = owned(text_of(n));
                        let var_type = match &node.type_text {
                            Some(t) => owned(t.as_str()),
                            None => owned("unknown"),
                        };
                        let var = StateVariable { name, var_type, declaration_line: node.start_row + 1 };
                        let ghost gv = var;
                        let ghost before = self.state_variables@;
                        assert(var_view(gv) == decl_view(w, k as int));
                        self.add_state_variable(var);
                        proof {
                            assert forall|s: Seq<char>| #[trigger] var_lookup(self.state_variables@, s) == decls_lookup(w, 1, k + 1, s, var_lookup(old_vars, s)) by {
                                assert(var_lookup(before, s) == decls_lookup(w, 1, k as int, s, var_lookup(old_vars, s)));
                                if s != gv.name@ {
                                    assert(first_entry(self.state_variables@, s) == first_entry(before, s));
                                }
                            }
                        }
                    },
                    None => {},
                }
            }
            k = k + 1;
        }
    }

    /// Records, for the current function `f`, the calls that hand control
    /// away among the descendants of function node `k`.
    fn find_external_calls(&mut self, nodes: &Vec<SyntaxNode>, k: usize, Ghost(f): Ghost<Seq<char>>)
        requires
            tree_wf(tree_view(nodes@)),
            k < nodes.len(),
            old(self).current() == Some(f),
        ensures
            forall|g: Seq<char>| #[trigger] lines_of(final(self).external_calls@, g) == if g == f {
                append_lines(lines_of(old(self).external_calls@, g), call_lines(tree_view(nodes@), k + 1, nodes@[k as int].end as int))
            } else {
                lines_of(old(self).external_calls@, g)
            },
            final(self).state_variables@ == old(self).state_variables@,
            final(self).mutations@ == old(self).mutations@,
            final(self).current() == old(self).current(),
    {
        let ghost w = tree_view(nodes@);
        let ghost old_vars = self.state_variables@;
        let ghost old_ms = self.mutations@;
        let ghost old_ec = self.external_calls@;
        let stop = nodes[k].end;
        assert(w[k as int].end == stop);
        let mut j: usize = k + 1;
        while j < stop
            invariant
                w == tree_view(nodes@),
                tree_wf(w),
                k < j <= stop <= nodes.len(),
                stop == nodes@[k as int].end,
                self.current() == Some(f),
                forall|g: Seq<char>| #[trigger] lines_of(self.external_calls@, g) == if g == f {
                    append_lines(lines_of(old_ec, g), call_lines(w, k + 1, j as int))
                } else {
                    lines_of(old_ec, g)
                },
                self.state_variables@ == old_vars,
                self.mutations@ == old_ms,
            decreases stop - j,
        {
            let node = &nodes[j];
            assert(w[j as int] == node@);
            proof {
                lemma_wf_at(w, j as int);
            }
            let ghost before = self.external_calls@;
            let ghost c = call_lines(w, k + 1, j as int);
            let ghost l = node_line(w, j as int);
            let is_call = str_eq(node.kind.as_str(), "function_call");
            if is_call {
                let text = text_of(&node.text);
                self.record_external_call(text, node.start_row + 1);
            }
            proof {
                let hit = is_call && is_external_call_text(text_or(w[j as int].text, Seq::empty()));
                if hit {
                    assert(call_lines(w, k + 1, j + 1) == c + seq![l]);
                } else {
                    assert(call_lines(w, k + 1, j + 1) =~= c);
                }
                assert forall|g: Seq<char>| #[trigger] lines_of(self.external_calls@, g) == (if g == f {
                    append_lines(lines_of(old_ec, g), call_lines(w, k + 1, j + 1))
                } else {
                    lines_of(old_ec, g)
                }) by {
                    assert(lines_of(before, g) == (if g == f { append_lines(lines_of(old_ec, g), c) } else { lines_of(old_ec, g) }));
                    if hit && g == f {
                        lemma_append_lines(lines_of(old_ec, f), c, seq![l]);
                        match first_entry(before, f) {
                            Some(ol) => assert(ol@.push(l) =~= ol@ + seq![l]),
                            None => {},
                        }
                    } else if hit {
                        assert(first_entry(self.external_calls@, g) == first_entry(before, g));
                    }
                }
            }
            j = j + 1;
        }
    }

    /// Records, for the current function `f`, the writes to known state
    /// variables among the descendants of function node `k`.
    fn find_mutations(&mut self, nodes: &Vec<SyntaxNode>, k: usize, Ghost(f): Ghost<Seq<char>>)
        requires
            tree_wf(tree_view(nodes@)),
            k < nodes.len(),
            old(self).current() == Some(f),
        ensures
            mutation_views(final(self).mutations@) == mutation_views(old(self).mutations@) + fn_mutations(
                tree_view(nodes@),
                k + 1,
                nodes@[k as int].end as int,
                f,
                old(self).state_variables@,
            ),
            final(self).state_variables@ == old(self).state_variables@,
            final(self).external_calls@ == old(self).external_calls@,
            final(self).current() == old(self).current(),
    {
        let ghost w = tree_view(nodes@);
        let ghost vars = self.state_variables@;
        let ghost old_ms = mutation_views(self.mutations@);
        let ghost old_ec = self.external_calls@;
        let stop = nodes[k].end;
        assert(w[k as int].end == stop);
        let mut j: usize = k + 1;
        while j < stop
            invariant
                w == tree_view(nodes@),
                tree_wf(w),
                k < j <= stop <= nodes.len(),
                stop == nodes@[k as int].end,
                self.current() == Some(f),
                mutation_views(self.mutations@) == old_ms + fn_mutations(w, k + 1, j as int, f, vars),
                self.state_variables@ == vars,
                self.external_calls@ == old_ec,
            decreases stop - j,
        {
            let node = &nodes[j];
            assert(w[j as int] == node@);
            let ghost before = mutation_views(self.mutations@);
            let ghost m = fn_mutations(w, k + 1, j as int, f, vars);
            let line = node.start_row + 1;
            if j + 1 < node.end && str_eq(node.kind.as_str(), "assignment") {
                assert(w[j + 1] == nodes@[j + 1]@);
                match &nodes[j + 1].text {
                    Some(t) => {
                        self.record_assignment(t.as_str(), line);
                    },
                    None => {},
                }
            } else if j + 1 < node.end && str_eq(node.kind.as_str(), "augmented_assignment") {
                assert(w[j + 1] == nodes@[j + 1]@);
                match &nodes[j + 1].text {
                    Some(v) => {
                        self.record_augmented(v.as_str(), line);
                    },
                    None => {},
                }
            }
            proof {
                match node_mutation(w, j as int, f, vars) {
                    Some(e) => {
                        assert(mutation_views(self.mutations@) == before.push(e));
                        assert(old_ms + fn_mutations(w, k + 1, j + 1, f, vars) =~= old_ms + m + seq![e]);
                    },
                    None => {
                        assert(fn_mutations(w, k + 1, j + 1, f, vars) =~= m);
                    },
                }
            }
            j = j + 1;
        }
    }

    /// Records, for each function of the tree in pre-order, its calls that
    /// hand control away and then its writes to known state variables.
    fn analyze_functions(&mut self, nodes: &Vec<SyntaxNode>)
        requires
            tree_wf(tree_view(nodes@)),
        ensures
            forall|g: Seq<char>| #[trigger] lines_of(final(self).external_calls@, g) == append_lines(
                lines_of(old(self).external_calls@, g),
                name_call_lines(tree_view(nodes@), 1, root_end(tree_view(nodes@)), g),
            ),
            mutation_views(final(self).mutations@) == mutation_views(old(self).mutations@) + all_mutations(
                tree_view(nodes@),
                1,
                root_end(tree_view(nodes@)),
                old(self).state_variables@,
            ),
            final(self).state_variables@ == old(self).state_variables@,
            final(self).current() == if has_function(tree_view(nodes@), 1, root_end(tree_view(nodes@))) {
                None
            } else {
                old(self).current()
            },
    {
        let ghost w = tree_view(nodes@);
        let ghost vars = self.state_variables@;
        let ghost old_ms = mutation_views(self.mutations@);
        let ghost old_ec = self.external_calls@;
        let ghost old_cur = self.current();
        if nodes.len() == 0 {
            proof {
                assert forall|g: Seq<char>| #[trigger] lines_of(self.external_calls@, g) == append_lines(lines_of(old_ec, g), name_call_lines(w, 1, root_end(w), g)) by {}
                assert(old_ms + all_mutations(w, 1, root_end(w), vars) =~= old_ms);
            }
            return;
        }
        let stop = nodes[0].end;
        assert(w[0].end == stop);
        let mut k: usize = 1;
        while k < stop
            invariant
                w == tree_view(nodes@),
                tree_wf(w),
                stop as int == root_end(w),
                stop <= nodes.len(),
                1 <= k <= stop,
                forall|g: Seq<char>| #[trigger] lines_of(self.external_calls@, g) == append_lines(lines_of(old_ec, g), name_call_lines(w, 1, k as int, g)),
                mutation_views(self.mutations@) == old_ms + all_mutations(w, 1, k as int, vars),
                self.state_variables@ == vars,
                self.current() == if has_function(w, 1, k as int) { None } else { old_cur },
            decreases stop - k,
        {
            let node = &nodes[k];
            assert(w[k as int] == node@);
            let ghost ec_before = self.external_calls@;
            let ghost ms_before = mutation_views(self.mutations@);
            if str_eq(node.kind.as_str(), "function_definition") {
                let name = match &node.name {
                    Some(Some(t)) => owned(t.as_str()),
                    _ => owned("anonymous"),
                };
                let ghost f = name@;
                assert(f == fn_name(w, k as int));
                self.enter_function(name);
                self.find_external_calls(nodes, k, Ghost(f));
                self.find_mutations(nodes, k, Ghost(f));
                self.leave_function();
                proof {
                    let c = call_lines(w, k + 1, w[k as int].end as int);
                    assert forall|g: Seq<char>| #[trigger] lines_of(self.external_calls@, g) == append_lines(lines_of(old_ec, g), name_call_lines(w, 1, k + 1, g)) by {
                        if g == f {
                            assert(name_call_lines(w, 1, k + 1, g) == name_call_lines(w, 1, k as int, g) + c);
                            lemma_append_lines(lines_of(old_ec, g), name_call_lines(w, 1, k as int, g), c);
                        } else {
                            assert(name_call_lines(w, 1, k + 1, g) =~= name_call_lines(w, 1, k as int, g));
                        }
                    }
                    assert(old_ms + all_mutations(w, 1, k + 1, vars) =~= ms_before + fn_mutations(w, k + 1, w[k as int].end as int, f, vars));
                    assert(has_function(w, 1, k + 1)) by {
                        assert(is_fn_def(w, k as int));
                    }
                }
            } else {
                proof {
                    assert forall|g: Seq<char>| #[trigger] lines_of(self.external_calls@, g) == append_lines(lines_of(old_ec, g), name_call_lines(w, 1, k + 1, g)) by {
                        assert(name_call_lines(w, 1, k + 1, g) =~= name_call_lines(w, 1, k as int, g));
                    }
                    assert(all_mutations(w, 1, k + 1, vars) =~= all_mutations(w, 1, k as int, vars));
                    assert(has_function(w, 1, k + 1) == has_function(w, 1, k as int)) by {
                        if has_function(w, 1, k + 1) {
                            let q = choose|q: int| 1 <= q < k + 1 && #[trigger] is_fn_def(w, q);
                            assert(q != k);
                        }
                    }
                }
            }
            k = k + 1;
        }
    }

    /// Analyzes a contract's syntax tree: records its state variables, then
    /// each function's external calls and writes to state variables, then
    /// marks each write by whether it comes after a call of its function.
    pub fn analyze_nodes(&mut self, nodes: &Vec<SyntaxNode>)
        requires
            tree_wf(tree_view(nodes@)),
        ensures
            analyzed(*old(self), *final(self), tree_view(nodes@)),
    {
        self.collect_state_variables(nodes);
        self.analyze_functions(nodes);
        self.correlate_calls_and_mutations();
    }

    /// Analyzes the contract in a Solidity source: as `analyze_nodes` on its
    /// syntax tree, or on no nodes when the parser gives no well-formed tree.
    pub fn analyze_contract(&mut self, source: &str)
        ensures
            analyzed(*old(self), *final(self), match solidity_nodes(source@) {
                Some(w) => if tree_wf(w) { w } else { Seq::empty() },
                None => Seq::empty(),
            }),
    {
        let nodes = match parse_solidity(source) {
            Some(v) => v,
            None => Vec::new(),
        };
        assert(tree_view(nodes@) == match solidity_nodes(source@) {
            Some(w) => if tree_wf(w) { w } else { Seq::<NodeView>::empty() },
            None => Seq::<NodeView>::empty(),
        });
        self.analyze_nodes(&nodes);
    }

    /// The mutations that come after an external call of their function.
    pub fn get_cei_violations(&self) -> (r: Vec<&MutationEvent>)
        ensures
            r@.map_values(|m: &MutationEvent| *m) == cei_violations(self.mutations@),
    {
        let mut out: Vec<&MutationEvent> = Vec::new();
        let mut i: usize = 0;
        while i < self.mutations.len()
            invariant
                i <= self.mutations.len(),
                out@.map_values(|m: &MutationEvent| *m) == cei_violations(self.mutations@.subrange(0, i as int)),
            decreases self.mutations.len() - i,
        {
            assert(self.mutations@.subrange(0, i + 1).drop_last() =~= self.mutations@.subrange(0, i as int));
            let m = &self.mutations[i];
            if m.after_external_call {
                let ghost before = out@;
                out.push(m);
                assert(out@.map_values(|m: &MutationEvent| *m) =~= before.map_values(|m: &MutationEvent| *m).push(*m));
            }
            i = i + 1;
        }
        assert(self.mutations@.subrange(0, self.mutations.len() as int) =~= self.mutations@);
        out
    }
}

/// Finds reentrancy risks in data flow facts and reports them as findings.
pub struct ReentrancyAnalyzer;

/// The message of a risk.
pub open spec fn risk_message(r: RiskView) -> Seq<char> {
    "Data flow analysis: "@ + r.call_method + " call on line "@ + decimal(r.call_line) + " followed by state mutation of '"@
        + r.state_var + "' on line "@ + decimal(r.state_change_line) + ". Potential reentrancy vulnerability."@
}

/// The severity of a finding for a risk.
pub open spec fn finding_severity(s: RiskSeverity) -> DataFlowSeverity {
    match s {
        RiskSeverity::Critical => DataFlowSeverity::Critical,
        RiskSeverity::High => DataFlowSeverity::High,
        RiskSeverity::Medium => DataFlowSeverity::Medium,
    }
}

/// A finding as plain values.
pub open spec fn finding_view(f: AnalyzerFinding) -> (Seq<char>, Seq<char>, usize, Seq<char>, DataFlowSeverity, Seq<char>) {
    (f.analyzer_id@, f.pattern_id@, f.line, f.message@, f.severity, f.context@)
}

/// The finding for a risk.
pub open spec fn risk_finding(r: RiskView) -> (Seq<char>, Seq<char>, usize, Seq<char>, DataFlowSeverity, Seq<char>) {
    ("dataflow-reentrancy"@, "state-mutation-after-call"@, r.call_line as usize, risk_message(r), finding_severity(r.severity), r.call_method)
}

impl ReentrancyAnalyzer {
    /// The id of this analyzer.
    pub fn analyzer_id(&self) -> (r: &'static str)
        ensures
            r@ == "dataflow-reentrancy"@,
    {
        "dataflow-reentrancy"
    }

    /// The findings for the reentrancy risks of a Solidity source's data flow.
    pub fn analyze(&self, source: &str) -> (r: Vec<AnalyzerFinding>)
        ensures
            exists|a: DataFlowAnalysis|
                #![trigger a.reentrancy_risks]
                {
                    &&& a.reentrancy_risks@.map_values(|x: ReentrancyRisk| risk_view(x)) == reentrancy_risks(a.external_calls@, a.state_changes@)
                    &&& match solidity_nodes(source@) {
                        Some(w) => if tree_wf(w) {
                            &&& a.external_calls@.map_values(|c: ExternalCall| call_view(c)) == tree_calls(w, w.len() as int)
                            &&& a.state_changes@.map_values(|c: StateChange| change_view(c)) == tree_changes(w, w.len() as int)
                        } else {
                            a.external_calls@.len() == 0 && a.state_changes@.len() == 0
                        },
                        None => a.external_calls@.len() == 0 && a.state_changes@.len() == 0,
                    }
                    &&& r@.map_values(|f: AnalyzerFinding| finding_view(f)) == a.reentrancy_risks@.map_values(
                        |x: ReentrancyRisk| risk_finding(risk_view(x)),
                    )
                },
    {
        let analysis = DataFlowAnalysis::analyze(source);
        self.findings(&analysis)
    }

    /// One finding per reentrancy risk of the analysis, in order.
    pub fn findings(&self, analysis: &DataFlowAnalysis) -> (r: Vec<AnalyzerFinding>)
        ensures
            r@.map_values(|f: AnalyzerFinding| finding_view(f)) == analysis.reentrancy_risks@.map_values(
                |x: ReentrancyRisk| risk_finding(risk_view(x)),
            ),
    {
        let risks = &analysis.reentrancy_risks;
        let mut out: Vec<AnalyzerFinding> = Vec::new();
        let mut i: usize = 0;
        while i < risks.len()
            invariant
                i <= risks.len(),
                out.len() == i,
                out@.map_values(|f: AnalyzerFinding| finding_view(f)) == risks@.subrange(0, i as int).map_values(
                    |x: ReentrancyRisk| risk_finding(risk_view(x)),
                ),
            decreases risks.len() - i,
        {
            let r = &risks[i];
            let mut message = owned("Data flow analysis: ");
            push_str(&mut message, r.call_method.as_str());
            push_str(&mut message, " call on line ");
            push_decimal(&mut message, r.call_line);
            push_str(&mut message, " followed by state mutation of '");
            push_str(&mut message, r.state_var.as_str());
            push_str(&mut message, "' on line ");
            push_decimal(&mut message, r.state_change_line);
            push_str(&mut message, ". Potential reentrancy vulnerability.");
            let severity = match r.severity {
                RiskSeverity::Critical => DataFlowSeverity::Critical,
                RiskSeverity::High => DataFlowSeverity::High,
                RiskSeverity::Medium => DataFlowSeverity::Medium,
            };
            let f = AnalyzerFinding {
                analyzer_id: owned(self.analyzer_id()),
                pattern_id: owned("state-mutation-after-call"),
                line: r.call_line,
                message,
                severity,
                context: owned(r.call_method.as_str()),
            };
            let ghost before = out@;
            out.push(f);
            proof {
                assert(finding_view(f) == risk_finding(risk_view(*r)));
                let want = risks@.subrange(0, i + 1).map_values(|x: ReentrancyRisk| risk_finding(risk_view(x)));
                assert forall|k: int| 0 <= k < i + 1 implies out@.map_values(|f: AnalyzerFinding| finding_view(f))[k] == want[k] by {
                    if k < i {
                        assert(out@[k] == before[k]);
                        assert(before.map_values(|f: AnalyzerFinding| finding_view(f))[k] == finding_view(before[k]));
                        assert(risks@.subrange(0, i as int).map_values(|x: ReentrancyRisk| risk_finding(risk_view(x)))[k]
                            == risk_finding(risk_view(risks@[k])));
                    }
                }
                assert(out@.map_values(|f: AnalyzerFinding| finding_view(f)) =~= risks@.subrange(0, i + 1).map_values(
                    |x: ReentrancyRisk| risk_finding(risk_view(x)),
                ));
            }
            i = i + 1;
        }
        assert(risks@.subrange(0, risks.len() as int) =~= risks@);
        out
    }
}

} // verus!
