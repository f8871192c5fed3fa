//! The symbols of a contract read off its syntax tree: its functions (with
//! visibility, mutability, modifiers and lines), its modifier definitions and
//! its state variables, and the classification of its modifiers into
//! reentrancy guards, access control, pausing and custom guards.
use vstd::prelude::*;
use vstd::string::StrSliceExecFns;
use crate::text::{contains, str_has, str_eq, owned, str_trim, trimmed, to_lowercase, lowercase, strs};
use crate::dependency_analyzer::find_key;
use crate::syntax_tree::{SyntaxNode, NodeView, tree_view, tree_wf, lemma_wf_at, text_or, text_of, child_of_kind, first_child_of_kind};

verus! {

/// Who may call a function.
#[derive(Debug, Clone, Copy, PartialEq, Eq, Structural)]
pub enum Visibility {
    Public,
    External,
    Internal,
    Private,
}

/// Whether a function reads or changes state, or takes ether.
#[derive(Debug, Clone, Copy, PartialEq, Eq, Structural)]
pub enum Mutability {
    Pure,
    View,
    Payable,
    NonPayable,
}

/// What a modifier is for.
#[derive(Debug, Clone, Copy, PartialEq, Eq, Structural)]
pub enum ModifierType {
    ReentrancyGuard,
    AccessControl,
    Pausable,
    Custom,
    InputValidation,
    Unknown,
}

/// A function of the contract.
#[derive(Debug)]
pub struct FunctionContext {
    pub name: String,
    pub visibility: Visibility,
    pub mutability: Mutability,
    /// The names of the modifiers it invokes, in order.
    pub modifiers: Vec<String>,
    /// Its first and last lines, counted from 1.
    pub start_line: usize,
    pub end_line: usize,
}

/// A modifier defined by the contract.
#[derive(Debug)]
pub struct ModifierContext {
    pub name: String,
    pub modifier_type: ModifierType,
    /// Whether its body checks state (`require(`, `revert(` or `assert(`).
    pub has_state_check: bool,
    /// Whether its body can revert (the same test).
    pub can_revert: bool,
}

/// A state variable of the contract.
#[derive(Debug)]
pub struct StateVariable {
    pub name: String,
    pub var_type: String,
}

/// The symbols of a contract, each list keyed by name, each name once.
#[derive(Debug)]
pub struct ContractContext {
    pub functions: Vec<(String, FunctionContext)>,
    pub modifiers: Vec<(String, ModifierContext)>,
    pub state_variables: Vec<(String, StateVariable)>,
}

/// A function as plain values: name, visibility, mutability, modifiers,
/// first and last line.
pub type FunctionV = (Seq<char>, Visibility, Mutability, Seq<Seq<char>>, usize, usize);

/// A modifier as plain values: name, type, state check, can revert.
pub type ModifierV = (Seq<char>, ModifierType, bool, bool);

/// A state variable as plain values: name, type.
pub type VariableV = (Seq<char>, Seq<char>);

pub open spec fn function_view(f: FunctionContext) -> FunctionV {
    (f.name@, f.visibility, f.mutability, f.modifiers@.map_values(|s: String| s@), f.start_line, f.end_line)
}

pub open spec fn modifier_view(m: ModifierContext) -> ModifierV {
    (m.name@, m.modifier_type, m.has_state_check, m.can_revert)
}

pub open spec fn variable_view(v: StateVariable) -> VariableV {
    (v.name@, v.var_type@)
}

pub open spec fn functions_view(v: Seq<(String, FunctionContext)>) -> Seq<(Seq<char>, FunctionV)> {
    v.map_values(|e: (String, FunctionContext)| (e.0@, function_view(e.1)))
}

pub open spec fn modifiers_view(v: Seq<(String, ModifierContext)>) -> Seq<(Seq<char>, ModifierV)> {
    v.map_values(|e: (String, ModifierContext)| (e.0@, modifier_view(e.1)))
}

pub open spec fn variables_view(v: Seq<(String, StateVariable)>) -> Seq<(Seq<char>, VariableV)> {
    v.map_values(|e: (String, StateVariable)| (e.0@, variable_view(e.1)))
}

/// The index of the first entry of `s` under key `k`.
pub open spec fn key_pos<V>(s: Seq<(Seq<char>, V)>, k: Seq<char>) -> Option<int>
    decreases s.len(),
{
    if s.len() == 0 {
        None
    } else {
        match key_pos(s.drop_last(), k) {
            Some(i) => Some(i),
            None => if s.last().0 == k {
                Some(s.len() - 1)
            } else {
                None
            },
        }
    }
}

/// `s` with `v` under key `k`: in place of the first entry under `k`, or
/// appended when there is none.
pub open spec fn upsert<V>(s: Seq<(Seq<char>, V)>, k: Seq<char>, v: V) -> Seq<(Seq<char>, V)> {
    match key_pos(s, k) {
        Some(i) => s.update(i, (k, v)),
        None => s.push((k, v)),
    }
}

proof fn lemma_key_pos<V>(s: Seq<(Seq<char>, V)>, k: Seq<char>, i: int)
    requires
        0 <= i <= s.len(),
        forall|j: int| 0 <= j < i ==> (#[trigger] s[j]).0 != k,
        i < s.len() ==> s[i].0 == k,
    ensures
        key_pos(s, k) == if i < s.len() { Some(i) } else { None::<int> },
    decreases s.len(),
{
    if s.len() > 0 {
        let t = s.drop_last();
        if i < s.len() - 1 {
            assert(t[i] == s[i]);
            assert forall|j: int| 0 <= j < i implies (#[trigger] t[j]).0 != k by {
                assert(t[j] == s[j]);
            }
            lemma_key_pos(t, k, i);
        } else {
            assert forall|j: int| 0 <= j < t.len() implies (#[trigger] t[j]).0 != k by {
                assert(t[j] == s[j]);
            }
            lemma_key_pos(t, k, t.len() as int);
        }
    }
}

/// The visibility a `visibility` keyword names (public when it is none of
/// the four).
pub open spec fn visibility_named(t: Seq<char>) -> Visibility {
    if t == "external"@ {
        Visibility::External
    } else if t == "internal"@ {
        Visibility::Internal
    } else if t == "private"@ {
        Visibility::Private
    } else {
        Visibility::Public
    }
}

/// The mutability a `state_mutability` keyword names (non-payable when it
/// is none of the three).
pub open spec fn mutability_named(t: Seq<char>) -> Mutability {
    if t == "pure"@ {
        Mutability::Pure
    } else if t == "view"@ {
        Mutability::View
    } else if t == "payable"@ {
        Mutability::Payable
    } else {
        Mutability::NonPayable
    }
}

/// The text of a node, empty when it has none.
pub open spec fn node_text(n: NodeView) -> Seq<char> {
    text_or(n.text, Seq::empty())
}

/// The visibility of function node `k`: that of its first `visibility` child,
/// public when it has none.
pub open spec fn visibility_at(w: Seq<NodeView>, k: int) -> Visibility {
    match child_of_kind(w, k + 1, w[k].end as int, "visibility"@) {
        Some(c) => visibility_named(node_text(w[c])),
        None => Visibility::Public,
    }
}

/// The mutability of function node `k`: that of its first `state_mutability`
/// child, non-payable when it has none.
pub open spec fn mutability_at(w: Seq<NodeView>, k: int) -> Mutability {
    match child_of_kind(w, k + 1, w[k].end as int, "state_mutability"@) {
        Some(c) => mutability_named(node_text(w[c])),
        None => Mutability::NonPayable,
    }
}

/// `s` up to its first `(` (all of it when it has none).
pub open spec fn before_paren(s: Seq<char>) -> Seq<char>
    decreases s.len(),
{
    if s.len() == 0 || s[0] == '(' {
        Seq::empty()
    } else {
        seq![s[0]] + before_paren(s.drop_first())
    }
}

/// The name of a modifier invocation: the text of its `name` child, or else
/// its own text up to the first `(`, trimmed.
pub open spec fn invocation_name(n: NodeView) -> Seq<char> {
    match n.name {
        Some(t) => text_or(t, Seq::empty()),
        None => trimmed(before_paren(node_text(n))),
    }
}

/// The names of the `modifier_invocation` nodes among the siblings from node
/// `c` on, before node `stop`, in order.
pub open spec fn invocation_names(w: Seq<NodeView>, c: int, stop: int) -> Seq<Seq<char>>
    decreases w.len() - c,
{
    if 0 <= c < stop && stop <= w.len() && c < w[c].end <= w.len() {
        (if w[c].kind == "modifier_invocation"@ {
            seq![invocation_name(w[c])]
        } else {
            Seq::empty()
        }) + invocation_names(w, w[c].end as int, stop)
    } else {
        Seq::empty()
    }
}

/// The name in the `name` field of node `k`, empty when its text is missing.
pub open spec fn name_at(w: Seq<NodeView>, k: int) -> Seq<char> {
    text_or(w[k].name.unwrap(), Seq::empty())
}

/// Function node `k` as a function.
pub open spec fn function_at(w: Seq<NodeView>, k: int) -> FunctionV {
    (
        name_at(w, k),
        visibility_at(w, k),
        mutability_at(w, k),
        invocation_names(w, k + 1, w[k].end as int),
        (w[k].start_row + 1) as usize,
        (w[k].end_row + 1) as usize,
    )
}

/// Whether a text checks state: it holds `require(`, `revert(` or `assert(`.
pub open spec fn checks_state(t: Seq<char>) -> bool {
    str_has(t, "require("@) || str_has(t, "revert("@) || str_has(t, "assert("@)
}

/// Modifier-definition node `k` as a modifier, not yet classified.
pub open spec fn modifier_at(w: Seq<NodeView>, k: int) -> ModifierV {
    (name_at(w, k), ModifierType::Unknown, checks_state(node_text(w[k])), checks_state(node_text(w[k])))
}

/// The functions among the first `n` nodes: each `function_definition` with
/// a name, under that name, a later one replacing an earlier of that name.
pub open spec fn functions_in(w: Seq<NodeView>, n: int) -> Seq<(Seq<char>, FunctionV)>
    decreases n,
{
    if n <= 0 {
        Seq::empty()
    } else if w[n - 1].kind == "function_definition"@ && w[n - 1].name is Some {
        upsert(functions_in(w, n - 1), name_at(w, n - 1), function_at(w, n - 1))
    } else {
        functions_in(w, n - 1)
    }
}

/// The modifiers among the first `n` nodes: each `modifier_definition` with
/// a name, under that name, a later one replacing an earlier of that name.
pub open spec fn modifiers_in(w: Seq<NodeView>, n: int) -> Seq<(Seq<char>, ModifierV)>
    decreases n,
{
    if n <= 0 {
        Seq::empty()
    } else if w[n - 1].kind == "modifier_definition"@ && w[n - 1].name is Some {
        upsert(modifiers_in(w, n - 1), name_at(w, n - 1), modifier_at(w, n - 1))
    } else {
        modifiers_in(w, n - 1)
    }
}

/// The state variables among the first `n` nodes: each
/// `state_variable_declaration` with a `type` and a `name` child, under its
/// name, a later one replacing an earlier of that name.
pub open spec fn variables_in(w: Seq<NodeView>, n: int) -> Seq<(Seq<char>, VariableV)>
    decreases n,
{
    if n <= 0 {
        Seq::empty()
    } else if w[n - 1].kind == "state_variable_declaration"@ && w[n - 1].type_text is Some && w[n - 1].name is Some {
        upsert(variables_in(w, n - 1), name_at(w, n - 1), (name_at(w, n - 1), w[n - 1].type_text.unwrap()))
    } else {
        variables_in(w, n - 1)
    }
}

fn visibility_of(nodes: &Vec<SyntaxNode>, k: usize) -> (r: Visibility)
    requires
        tree_wf(tree_view(nodes@)),
        k < nodes.len(),
    ensures
        r == visibility_at(tree_view(nodes@), k as int),
{
    let ghost w = tree_view(nodes@);
    assert(w[k as int].end == nodes@[k as int].end);
    match first_child_of_kind(nodes, k, "visibility") {
        Some(c) => {
            assert(w[c as int] == nodes@[c as int]@);
            let t = text_of(&nodes[c].text);
            if str_eq(t, "external") {
                Visibility::External
            } else if str_eq(t, "internal") {
                Visibility::Internal
            } else if str_eq(t, "private") {
                Visibility::Private
            } else {
                Visibility::Public
            }
        },
        None => Visibility::Public,
    }
}

fn mutability_of(nodes: &Vec<SyntaxNode>, k: usize) -> (r: Mutability)
    requires
        tree_wf(tree_view(nodes@)),
        k < nodes.len(),
    ensures
        r == mutability_at(tree_view(nodes@), k as int),
{
    let ghost w = tree_view(nodes@);
    assert(w[k as int].end == nodes@[k as int].end);
    match first_child_of_kind(nodes, k, "state_mutability") {
        Some(c) => {
            assert(w[c as int] == nodes@[c as int]@);
            let t = text_of(&nodes[c].text);
            if str_eq(t, "pure") {
                Mutability::Pure
            } else if str_eq(t, "view") {
                Mutability::View
            } else if str_eq(t, "payable") {
                Mutability::Payable
            } else {
                Mutability::NonPayable
            }
        },
        None => Mutability::NonPayable,
    }
}

proof fn lemma_before_paren(s: Seq<char>, i: int)
    requires
        0 <= i <= s.len(),
        forall|j: int| 0 <= j < i ==> s[j] != '(',
        i < s.len() ==> s[i] == '(',
    ensures
        before_paren(s) == s.take(i),
    decreases i,
{
    if i == 0 {
        assert(s.take(0) =~= Seq::<char>::empty());
    } else {
        let t = s.drop_first();
        assert forall|j: int| 0 <= j < i - 1 implies t[j] != '(' by {
            assert(t[j] == s[j + 1]);
        }
        if i - 1 < t.len() {
            assert(t[i - 1] == s[i]);
        }
        lemma_before_paren(t, i - 1);
        assert(seq![s[0]] + t.take(i - 1) =~= s.take(i));
    }
}

fn invocation_name_of(n: &SyntaxNode) -> (r: String)
    ensures
        r@ == invocation_name(n@),
{
    match &n.name {
        Some(t) => owned(text_of(t)),
        None => {
            let text = text_of(&n.text);
            let len = text.unicode_len();
            let mut i: usize = 0;
            while i < len && text.get_char(i) != '('
                invariant
                    i <= len,
                    len == text@.len(),
                    forall|j: int| 0 <= j < i ==> text@[j] != '(',
                decreases len - i,
            {
                i = i + 1;
            }
            proof {
                lemma_before_paren(text@, i as int);
            }
            let head = text.substring_char(0, i);
            owned(str_trim(head))
        },
    }
}

fn invocations_of(nodes: &Vec<SyntaxNode>, k: usize) -> (r: Vec<String>)
    requires
        tree_wf(tree_view(nodes@)),
        k < nodes.len(),
    ensures
        strs(r@) == invocation_names(tree_view(nodes@), k + 1, nodes@[k as int].end as int),
{
    let ghost w = tree_view(nodes@);
    proof {
        lemma_wf_at(w, k as int);
    }
    let stop = nodes[k].end;
    assert(w[k as int].end == stop);
    let mut out: Vec<String> = Vec::new();
    let mut c = k + 1;
    while c < stop
        invariant
            w == tree_view(nodes@),
            tree_wf(w),
            k < c <= nodes.len(),
            stop <= nodes.len(),
            stop == nodes@[k as int].end,
            invocation_names(w, k + 1, stop as int) == strs(out@) + invocation_names(w, c as int, stop as int),
        decreases nodes.len() - c,
    {
        proof {
            lemma_wf_at(w, c as int);
        }
        assert(w[c as int] == nodes@[c as int]@);
        let ghost before = out@;
        if str_eq(nodes[c].kind.as_str(), "modifier_invocation") {
            out.push(invocation_name_of(&nodes[c]));
            assert(strs(out@) =~= strs(before) + seq![invocation_name(w[c as int])]);
        }
        assert(strs(before) + invocation_names(w, c as int, stop as int) =~= strs(out@) + invocation_names(
            w,
            w[c as int].end as int,
            stop as int,
        ));
        c = nodes[c].end;
    }
    assert(strs(out@) + invocation_names(w, c as int, stop as int) =~= strs(out@));
    out
}

fn name_of(n: &SyntaxNode) -> (r: String)
    requires
        n.name is Some,
    ensures
        r@ == text_or(n@.name.unwrap(), Seq::empty()),
{
    match &n.name {
        Some(t) => owned(text_of(t)),
        None => owned(""),
    }
}

fn function_of(nodes: &Vec<SyntaxNode>, k: usize) -> (r: FunctionContext)
    requires
        tree_wf(tree_view(nodes@)),
        k < nodes.len(),
        nodes@[k as int].name is Some,
    ensures
        function_view(r) == function_at(tree_view(nodes@), k as int),
{
    let ghost w = tree_view(nodes@);
    proof {
        lemma_wf_at(w, k as int);
    }
    assert(w[k as int] == nodes@[k as int]@);
    let name = name_of(&nodes[k]);
    let visibility = visibility_of(nodes, k);
    let mutability = mutability_of(nodes, k);
    let modifiers = invocations_of(nodes, k);
    let start_line = nodes[k].start_row + 1;
    let end_line = nodes[k].end_row + 1;
    FunctionContext { name, visibility, mutability, modifiers, start_line, end_line }
}

fn checks_state_text(t: &str) -> (r: bool)
    ensures
        r == checks_state(t@),
{
    contains(t, "require(") || contains(t, "revert(") || contains(t, "assert(")
}

fn modifier_of(nodes: &Vec<SyntaxNode>, k: usize) -> (r: ModifierContext)
    requires
        tree_wf(tree_view(nodes@)),
        k < nodes.len(),
        nodes@[k as int].name is Some,
    ensures
        modifier_view(r) == modifier_at(tree_view(nodes@), k as int),
{
    let ghost w = tree_view(nodes@);
    assert(w[k as int] == nodes@[k as int]@);
    let name = name_of(&nodes[k]);
    let check = checks_state_text(text_of(&nodes[k].text));
    ModifierContext { name, modifier_type: ModifierType::Unknown, has_state_check: check, can_revert: check }
}

fn upsert_function(v: &mut Vec<(String, FunctionContext)>, f: FunctionContext)
    ensures
        functions_view(final(v)@) == upsert(functions_view(old(v)@), f.name@, function_view(f)),
{
    let ghost fv = functions_view(v@);
    let ghost name = f.name@;
    let key = owned(f.name.as_str());
    match find_key(v, f.name.as_str()) {
        Some(i) => {
            proof {
                assert forall|j: int| 0 <= j < i implies (#[trigger] fv[j]).0 != name by {
                    assert(fv[j].0 == v@[j].0@);
                }
                assert(fv[i as int].0 == v@[i as int].0@);
                lemma_key_pos(fv, name, i as int);
            }
            let ghost fval = function_view(f);
            v.set(i, (key, f));
            assert(functions_view(v@) =~= fv.update(i as int, (name, fval)));
        },
        None => {
            proof {
                assert forall|j: int| 0 <= j < fv.len() implies (#[trigger] fv[j]).0 != name by {
                    assert(fv[j].0 == v@[j].0@);
                }
                lemma_key_pos(fv, name, fv.len() as int);
            }
            let ghost fval = function_view(f);
            v.push((key, f));
            assert(functions_view(v@) =~= fv.push((name, fval)));
        },
    }
}

fn upsert_modifier(v: &mut Vec<(String, ModifierContext)>, m: ModifierContext)
    ensures
        modifiers_view(final(v)@) == upsert(modifiers_view(old(v)@), m.name@, modifier_view(m)),
{
    let ghost fv = modifiers_view(v@);
    let ghost name = m.name@;
    let key = owned(m.name.as_str());
    match find_key(v, m.name.as_str()) {
        Some(i) => {
            proof {
                assert forall|j: int| 0 <= j < i implies (#[trigger] fv[j]).0 != name by {
                    assert(fv[j].0 == v@[j].0@);
                }
                assert(fv[i as int].0 == v@[i as int].0@);
                lemma_key_pos(fv, name, i as int);
            }
            let ghost mval = modifier_view(m);
            v.set(i, (key, m));
            assert(modifiers_view(v@) =~= fv.update(i as int, (name, mval)));
        },
        None => {
            proof {
                assert forall|j: int| 0 <= j < fv.len() implies (#[trigger] fv[j]).0 != name by {
                    assert(fv[j].0 == v@[j].0@);
                }
                lemma_key_pos(fv, name, fv.len() as int);
            }
            let ghost mval = modifier_view(m);
            v.push((key, m));
            assert(modifiers_view(v@) =~= fv.push((name, mval)));
        },
    }
}

fn upsert_variable(v: &mut Vec<(String, StateVariable)>, x: StateVariable)
    ensures
        variables_view(final(v)@) == upsert(variables_view(old(v)@), x.name@, variable_view(x)),
{
    let ghost fv = variables_view(v@);
    let ghost name = x.name@;
    let key = owned(x.name.as_str());
    match find_key(v, x.name.as_str()) {
        Some(i) => {
            proof {
                assert forall|j: int| 0 <= j < i implies (#[trigger] fv[j]).0 != name by {
                    assert(fv[j].0 == v@[j].0@);
                }
                assert(fv[i as int].0 == v@[i as int].0@);
                lemma_key_pos(fv, name, i as int);
            }
            let ghost xval = variable_view(x);
            v.set(i, (key, x));
            assert(variables_view(v@) =~= fv.update(i as int, (name, xval)));
        },
        None => {
            proof {
                assert forall|j: int| 0 <= j < fv.len() implies (#[trigger] fv[j]).0 != name by {
                    assert(fv[j].0 == v@[j].0@);
                }
                lemma_key_pos(fv, name, fv.len() as int);
            }
            let ghost xval = variable_view(x);
            v.push((key, x));
            assert(variables_view(v@) =~= fv.push((name, xval)));
        },
    }
}

/// Reads the symbols of a contract off the nodes of its syntax tree (as
/// `parse_solidity` gives them).
pub struct SymbolCollector<'a> {
    nodes: &'a Vec<SyntaxNode>,
}

impl<'a> SymbolCollector<'a> {
    /// The nodes it reads.
    pub closed spec fn nodes_view(&self) -> Seq<NodeView> {
        tree_view(self.nodes@)
    }

    /// A collector over `nodes`.
    pub fn new(nodes: &'a Vec<SyntaxNode>) -> (r: Self)
        ensures
            r.nodes_view() == tree_view(nodes@),
    {
        SymbolCollector { nodes }
    }

    /// The functions, modifiers and state variables of the tree, each keyed
    /// by name in the order its name first occurs, a later definition of a
    /// name replacing an earlier one; the modifiers are not yet classified.
    pub fn collect(&self) -> (r: ContractContext)
        requires
            tree_wf(self.nodes_view()),
        ensures
            functions_view(r.functions@) == functions_in(self.nodes_view(), self.nodes_view().len() as int),
            modifiers_view(r.modifiers@) == modifiers_in(self.nodes_view(), self.nodes_view().len() as int),
            variables_view(r.state_variables@) == variables_in(self.nodes_view(), self.nodes_view().len() as int),
    {
        let nodes = self.nodes;
        let ghost w = tree_view(nodes@);
        let mut functions: Vec<(String, FunctionContext)> = Vec::new();
        let mut modifiers: Vec<(String, ModifierContext)> = Vec::new();
        let mut state_variables: Vec<(String, StateVariable)> = Vec::new();
        let mut k: usize = 0;
        while k < nodes.len()
            invariant
                w == tree_view(nodes@),
                tree_wf(w),
                k <= nodes.len(),
                functions_view(functions@) == functions_in(w, k as int),
                modifiers_view(modifiers@) == modifiers_in(w, k as int),
                variables_view(state_variables@) == variables_in(w, k as int),
            decreases nodes.len() - k,
        {
            let n = &nodes[k];
            assert(w[k as int] == n@);
            let has_name = match &n.name {
                Some(_) => true,
                None => false,
            };
            let kind = n.kind.as_str();
            if has_name && str_eq(kind, "function_definition") {
                let f = function_of(nodes, k);
                upsert_function(&mut functions, f);
            }
            if has_name && str_eq(kind, "modifier_definition") {
                let m = modifier_of(nodes, k);
                upsert_modifier(&mut modifiers, m);
            }
            match &n.type_text {
                Some(t) => {
                    if has_name && str_eq(kind, "state_variable_declaration") {
                        let x = StateVariable { name: name_of(n), var_type: owned(t.as_str()) };
                        upsert_variable(&mut state_variables, x);
                    }
                },
                None => {},
            }
            k = k + 1;
        }
        ContractContext { functions, modifiers, state_variables }
    }
}

/// A lower-cased modifier name names a reentrancy guard.
pub open spec fn names_guard(lower: Seq<char>) -> bool {
    ||| str_has(lower, "nonreentrant"@)
    ||| str_has(lower, "noreentrancy"@)
    ||| str_has(lower, "lock"@)
    ||| str_has(lower, "mutex"@)
    ||| str_has(lower, "reentrancyguard"@)
}

/// A lower-cased modifier name names access control.
pub open spec fn names_access_control(lower: Seq<char>) -> bool {
    ||| str_has(lower, "onlyowner"@)
    ||| str_has(lower, "onlyadmin"@)
    ||| str_has(lower, "onlyrole"@)
    ||| str_has(lower, "onlyminter"@)
    ||| str_has(lower, "onlygovernance"@)
    ||| str_has(lower, "onlyoperator"@)
    ||| str_has(lower, "onlyauthorized"@)
    ||| str_has(lower, "whennotpaused"@)
    ||| str_has(lower, "auth"@)
}

/// The type of a modifier by its lower-cased name, and else by whether it
/// checks state and can revert.
pub open spec fn modifier_type_of(lower: Seq<char>, has_state_check: bool, can_revert: bool) -> ModifierType {
    if names_guard(lower) {
        ModifierType::ReentrancyGuard
    } else if names_access_control(lower) {
        ModifierType::AccessControl
    } else if str_has(lower, "paused"@) || str_has(lower, "pause"@) {
        ModifierType::Pausable
    } else if has_state_check && can_revert {
        ModifierType::Custom
    } else {
        ModifierType::Unknown
    }
}

/// A modifier entry classified under its key.
pub open spec fn classified(e: (Seq<char>, ModifierV)) -> (Seq<char>, ModifierV) {
    (e.0, (e.1.0, modifier_type_of(lowercase(e.0), e.1.2, e.1.3), e.1.2, e.1.3))
}

fn modifier_type_named(lower: &str, has_state_check: bool, can_revert: bool) -> (r: ModifierType)
    ensures
        r == modifier_type_of(lower@, has_state_check, can_revert),
{
    if contains(lower, "nonreentrant") || contains(lower, "noreentrancy") || contains(lower, "lock") || contains(
        lower,
        "mutex",
    ) || contains(lower, "reentrancyguard") {
        ModifierType::ReentrancyGuard
    } else if contains(lower, "onlyowner") || contains(lower, "onlyadmin") || contains(lower, "onlyrole") || contains(
        lower,
        "onlyminter",
    ) || contains(lower, "onlygovernance") || contains(lower, "onlyoperator") || contains(lower, "onlyauthorized")
        || contains(lower, "whennotpaused") || contains(lower, "auth") {
        ModifierType::AccessControl
    } else if contains(lower, "paused") || contains(lower, "pause") {
        ModifierType::Pausable
    } else if has_state_check && can_revert {
        ModifierType::Custom
    } else {
        ModifierType::Unknown
    }
}

/// Sets the type of each modifier of `ctx` from its lower-cased name and its
/// body; the functions and state variables stay as they are.
pub fn classify_modifiers(ctx: &mut ContractContext)
    ensures
        modifiers_view(final(ctx).modifiers@) == modifiers_view(old(ctx).modifiers@).map_values(
            |e: (Seq<char>, ModifierV)| classified(e),
        ),
        functions_view(final(ctx).functions@) == functions_view(old(ctx).functions@),
        variables_view(final(ctx).state_variables@) == variables_view(old(ctx).state_variables@),
{
    let mut old_mods: Vec<(String, ModifierContext)> = Vec::new();
    std::mem::swap(&mut old_mods, &mut ctx.modifiers);
    let ghost ov = modifiers_view(old_mods@);
    let mut out: Vec<(String, ModifierContext)> = Vec::new();
    let mut i: usize = 0;
    while i < old_mods.len()
        invariant
            i <= old_mods.len(),
            ov == modifiers_view(old_mods@),
            modifiers_view(out@) == ov.take(i as int).map_values(|e: (Seq<char>, ModifierV)| classified(e)),
        decreases old_mods.len() - i,
    {
        let key = old_mods[i].0.as_str();
        let m = &old_mods[i].1;
        let lower = to_lowercase(key);
        let t = modifier_type_named(lower.as_str(), m.has_state_check, m.can_revert);
        let e = (
            owned(key),
            ModifierContext {
                name: owned(m.name.as_str()),
                modifier_type: t,
                has_state_check: m.has_state_check,
                can_revert: m.can_revert,
            },
        );
        let ghost before = out@;
        out.push(e);
        proof {
            let f = |e: (Seq<char>, ModifierV)| classified(e);
            assert(ov[i as int] == (old_mods@[i as int].0@, modifier_view(old_mods@[i as int].1)));
            assert(ov.take(i + 1).map_values(f) =~= ov.take(i as int).map_values(f).push(f(ov[i as int])));
            assert(modifiers_view(out@) =~= modifiers_view(before).push(f(ov[i as int])));
        }
        i = i + 1;
    }
    assert(ov.take(ov.len() as int) =~= ov);
    ctx.modifiers = out;
}

} // verus!
