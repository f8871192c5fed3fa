//! A contract dependency graph: inheritance, calls and delegate calls between
//! contracts, their attack surface, cycles and a Graphviz rendering.
use vstd::prelude::*;
use crate::text::{str_eq, strings_contain, copy_strings, owned, push_str, strs};

verus! {

/// The kind of a dependency between two contracts.
#[derive(Debug, Clone, Copy, PartialEq, Eq, Structural)]
pub enum EdgeType {
    Inherits,
    Calls,
    DelegateCalls,
    Uses,
}

/// How one contract calls another.
#[derive(Debug, Clone, Copy, PartialEq, Eq, Structural)]
pub enum CallType {
    Direct,
    LowLevelCall,
    DelegateCall,
}

/// The visibility of a function.
#[derive(Debug, Clone, Copy, PartialEq, Eq, Structural)]
pub enum Visibility {
    Public,
    External,
    Internal,
    Private,
}

/// A function of a contract.
#[derive(Debug, Clone)]
pub struct FunctionInfo {
    pub name: String,
    pub visibility: Visibility,
    pub is_payable: bool,
}

/// A contract of the graph.
#[derive(Debug, Clone)]
pub struct ContractNode {
    pub name: String,
    pub file_path: String,
    pub is_interface: bool,
    pub is_library: bool,
    pub functions: Vec<FunctionInfo>,
    pub state_variables: usize,
}

/// A directed dependency `from -> to`.
#[derive(Debug, Clone)]
pub struct DependencyEdge {
    pub from: String,
    pub to: String,
    pub edge_type: EdgeType,
}

/// A call from one contract to another.
#[derive(Debug, Clone)]
pub struct ExternalCall {
    pub from_contract: String,
    pub from_function: String,
    pub to_contract: String,
    pub call_type: CallType,
    pub line_number: usize,
}

/// What an attacker can reach in a contract.
#[derive(Debug, Clone, PartialEq, Eq, Structural)]
pub struct AttackSurface {
    pub public_functions: usize,
    pub external_dependencies: usize,
    pub receives_eth: bool,
    pub has_delegatecall: bool,
}

/// A snapshot of the analyzer: contracts by name, edges, the calls among the
/// edges and, for each contract that inherits, the contracts it inherits from.
#[derive(Debug, Clone)]
pub struct DependencyGraph {
    pub contracts: Vec<(String, ContractNode)>,
    pub edges: Vec<DependencyEdge>,
    pub external_calls: Vec<ExternalCall>,
    pub inheritance_tree: Vec<(String, Vec<String>)>,
}

/// Collects contracts (one per name) and the edges between them.
pub struct DependencyAnalyzer {
    contracts: Vec<(String, ContractNode)>,
    edges: Vec<DependencyEdge>,
}

/// No two entries share a name.
pub open spec fn keys_distinct<V>(s: Seq<(String, V)>) -> bool {
    forall|i: int, j: int| 0 <= i < j < s.len() ==> s[i].0@ != s[j].0@
}

/// The value of the first entry named `k`.
pub open spec fn lookup<V>(s: Seq<(String, V)>, k: Seq<char>) -> Option<V>
    decreases s.len(),
{
    if s.len() == 0 {
        None
    } else if s[0].0@ == k {
        Some(s[0].1)
    } else {
        lookup(s.drop_first(), k)
    }
}

/// The number of public or external functions.
pub open spec fn count_public(fs: Seq<FunctionInfo>) -> nat
    decreases fs.len(),
{
    if fs.len() == 0 {
        0
    } else {
        count_public(fs.drop_last()) + match fs.last().visibility {
            Visibility::Public | Visibility::External => 1nat,
            _ => 0nat,
        }
    }
}

/// The number of edges of type `t` that leave `k`.
pub open spec fn count_edges_from(es: Seq<DependencyEdge>, k: Seq<char>, t: EdgeType) -> nat
    decreases es.len(),
{
    if es.len() == 0 {
        0
    } else {
        count_edges_from(es.drop_last(), k, t) + if es.last().from@ == k && es.last().edge_type
            == t {
            1nat
        } else {
            0nat
        }
    }
}

proof fn lemma_count_public_filter(fs: Seq<FunctionInfo>)
    ensures
        count_public(fs) == fs.filter(|f: FunctionInfo| f.visibility is Public || f.visibility is External).len(),
    decreases fs.len(),
{
    reveal(Seq::filter);
    if fs.len() > 0 {
        lemma_count_public_filter(fs.drop_last());
    }
}

proof fn lemma_count_edges_filter(es: Seq<DependencyEdge>, k: Seq<char>)
    ensures
        count_edges_from(es, k, EdgeType::Calls) == es.filter(|e: DependencyEdge| e.from@ == k && e.edge_type is Calls).len(),
    decreases es.len(),
{
    reveal(Seq::filter);
    if es.len() > 0 {
        lemma_count_edges_filter(es.drop_last(), k);
    }
}

/// What the attack surface of contract `k` counts: its public and external
/// functions (never a private or internal one), the plain call edges
/// leaving it (not the delegate calls), whether one of its functions is
/// payable, and whether a delegate-call edge leaves it. A contract that is
/// not there has no functions counted.
pub proof fn law_attack_surface_counts(cs: Seq<(String, ContractNode)>, es: Seq<DependencyEdge>, k: Seq<char>)
    ensures
        attack_surface_of(cs, es, k).public_functions == match lookup(cs, k) {
            Some(n) => n.functions@.filter(|f: FunctionInfo| f.visibility is Public || f.visibility is External).len() as usize,
            None => 0usize,
        },
        attack_surface_of(cs, es, k).external_dependencies == es.filter(
            |e: DependencyEdge| e.from@ == k && e.edge_type is Calls,
        ).len() as usize,
        attack_surface_of(cs, es, k).receives_eth <==> (exists|n: ContractNode, i: int|
            lookup(cs, k) == Some(n) && 0 <= i < n.functions@.len() && n.functions@[i].is_payable),
        attack_surface_of(cs, es, k).has_delegatecall <==> (exists|i: int|
            0 <= i < es.len() && es[i].from@ == k && es[i].edge_type is DelegateCalls),
{
    match lookup(cs, k) {
        Some(n) => {
            lemma_count_public_filter(n.functions@);
        },
        None => {},
    }
    lemma_count_edges_filter(es, k);
}

/// Adding a function to a contract's list raises the count of its public
/// functions by one when it is public or external, and leaves it as it was
/// when it is internal or private.
pub proof fn law_count_public_push(fs: Seq<FunctionInfo>, f: FunctionInfo)
    ensures
        (f.visibility is Public || f.visibility is External) ==> count_public(fs.push(f)) == count_public(fs) + 1,
        (f.visibility is Internal || f.visibility is Private) ==> count_public(fs.push(f)) == count_public(fs),
{
    lemma_count_public_filter(fs);
    lemma_count_public_filter(fs.push(f));
    reveal(Seq::filter);
    assert(fs.push(f).drop_last() =~= fs);
}

/// The attack surface of the contract named `k`.
pub open spec fn attack_surface_of(
    cs: Seq<(String, ContractNode)>,
    es: Seq<DependencyEdge>,
    k: Seq<char>,
) -> AttackSurface {
    AttackSurface {
        public_functions: match lookup(cs, k) {
            Some(n) => count_public(n.functions@) as usize,
            None => 0,
        },
        external_dependencies: count_edges_from(es, k, EdgeType::Calls) as usize,
        receives_eth: match lookup(cs, k) {
            Some(n) => exists|i: int| 0 <= i < n.functions@.len() && n.functions@[i].is_payable,
            None => false,
        },
        has_delegatecall: exists|i: int|
            0 <= i < es.len() && es[i].from@ == k && es[i].edge_type == EdgeType::DelegateCalls,
    }
}

/// The call recorded for a call edge.
pub open spec fn call_of_edge(e: DependencyEdge) -> (Seq<char>, Seq<char>, Seq<char>, CallType, usize) {
    (
        e.from@,
        Seq::empty(),
        e.to@,
        if e.edge_type == EdgeType::DelegateCalls { CallType::DelegateCall } else { CallType::Direct },
        0,
    )
}

/// The view of a recorded call.
pub open spec fn call_view(c: ExternalCall) -> (Seq<char>, Seq<char>, Seq<char>, CallType, usize) {
    (c.from_contract@, c.from_function@, c.to_contract@, c.call_type, c.line_number)
}

/// The calls among the edges, in edge order: one per `Calls` or
/// `DelegateCalls` edge.
pub open spec fn calls_of(es: Seq<DependencyEdge>) -> Seq<(Seq<char>, Seq<char>, Seq<char>, CallType, usize)>
    decreases es.len(),
{
    if es.len() == 0 {
        Seq::empty()
    } else if es.last().edge_type == EdgeType::Calls || es.last().edge_type == EdgeType::DelegateCalls {
        calls_of(es.drop_last()).push(call_of_edge(es.last()))
    } else {
        calls_of(es.drop_last())
    }
}

/// The contracts that `k` inherits from, in edge order.
pub open spec fn parents_of(es: Seq<DependencyEdge>, k: Seq<char>) -> Seq<Seq<char>>
    decreases es.len(),
{
    if es.len() == 0 {
        Seq::empty()
    } else if es.last().edge_type == EdgeType::Inherits && es.last().from@ == k {
        parents_of(es.drop_last(), k).push(es.last().to@)
    } else {
        parents_of(es.drop_last(), k)
    }
}

/// The inheritance tree built from `es`: one entry per inheriting contract
/// and none for another, holding exactly its parents in edge order.
pub open spec fn is_inheritance_tree(t: Seq<(String, Vec<String>)>, es: Seq<DependencyEdge>) -> bool {
    &&& keys_distinct(t)
    &&& forall|i: int| 0 <= i < t.len() ==> strs(#[trigger] t[i].1@) == parents_of(es, t[i].0@)
    &&& forall|i: int| 0 <= i < t.len() ==> parents_of(es, (#[trigger] t[i]).0@).len() > 0
    &&& forall|k: Seq<char>| parents_of(es, k).len() > 0 ==> exists|i: int| 0 <= i < t.len() && #[trigger] t[i].0@ == k
}

/// The Graphviz style of an edge type.
pub open spec fn style_of(t: EdgeType) -> Seq<char> {
    match t {
        EdgeType::Inherits => "solid"@,
        EdgeType::Calls => "dashed"@,
        EdgeType::DelegateCalls => "bold,color=red"@,
        EdgeType::Uses => "dotted"@,
    }
}

/// The Graphviz style of an edge type.
pub fn edge_style(t: EdgeType) -> (r: &'static str)
    ensures
        r@ == style_of(t),
{
    match t {
        EdgeType::Inherits => "solid",
        EdgeType::Calls => "dashed",
        EdgeType::DelegateCalls => "bold,color=red",
        EdgeType::Uses => "dotted",
    }
}

/// The Graphviz line of one edge.
pub open spec fn edge_line(e: DependencyEdge) -> Seq<char> {
    "  \""@ + e.from@ + "\" -> \""@ + e.to@ + "\" [style="@ + style_of(e.edge_type) + "];\n"@
}

/// The Graphviz lines of the edges, in order.
pub open spec fn edges_dot(es: Seq<DependencyEdge>) -> Seq<char>
    decreases es.len(),
{
    if es.len() == 0 {
        Seq::empty()
    } else {
        edges_dot(es.drop_last()) + edge_line(es.last())
    }
}

/// The Graphviz rendering of the edges.
pub open spec fn graphviz_text(es: Seq<DependencyEdge>) -> Seq<char> {
    "digraph Dependencies {\n"@ + "  rankdir=TB;\n"@ + "  node [shape=box];\n\n"@ + edges_dot(es) + "}\n"@
}

/// There is an edge (of any type) from `a` to `b`.
pub open spec fn has_edge(es: Seq<DependencyEdge>, a: Seq<char>, b: Seq<char>) -> bool {
    exists|i: int| 0 <= i < es.len() && es[i].from@ == a && es[i].to@ == b
}

/// `p` follows edges of `es` from its first node to its last.
pub open spec fn is_edge_path(es: Seq<DependencyEdge>, p: Seq<Seq<char>>) -> bool {
    forall|i: int| 0 <= i < p.len() - 1 ==> has_edge(es, #[trigger] p[i], p[i + 1])
}

/// A reported cycle: a non-empty edge path whose last node has an edge back to
/// one of its nodes.
pub open spec fn is_reported_cycle(es: Seq<DependencyEdge>, p: Seq<Seq<char>>) -> bool {
    &&& p.len() > 0
    &&& is_edge_path(es, p)
    &&& exists|j: int| 0 <= j < p.len() && has_edge(es, p.last(), p[j])
}

fn copy_function(f: &FunctionInfo) -> (r: FunctionInfo)
    ensures
        r == *f,
{
    FunctionInfo { name: f.name.clone(), visibility: f.visibility, is_payable: f.is_payable }
}

fn copy_node(n: &ContractNode) -> (r: ContractNode)
    ensures
        r.name == n.name,
        r.file_path == n.file_path,
        r.is_interface == n.is_interface,
        r.is_library == n.is_library,
        r.functions@ == n.functions@,
        r.state_variables == n.state_variables,
{
    let mut fs: Vec<FunctionInfo> = Vec::new();
    let mut i: usize = 0;
    while i < n.functions.len()
        invariant
            i <= n.functions.len(),
            fs@ == n.functions@.subrange(0, i as int),
        decreases n.functions.len() - i,
    {
        fs.push(copy_function(&n.functions[i]));
        i = i + 1;
    }
    assert(n.functions@.subrange(0, n.functions.len() as int) =~= n.functions@);
    ContractNode {
        name: n.name.clone(),
        file_path: n.file_path.clone(),
        is_interface: n.is_interface,
        is_library: n.is_library,
        functions: fs,
        state_variables: n.state_variables,
    }
}

fn copy_edge(e: &DependencyEdge) -> (r: DependencyEdge)
    ensures
        r == *e,
{
    DependencyEdge { from: e.from.clone(), to: e.to.clone(), edge_type: e.edge_type }
}

/// The index of the first entry named `name`.
pub fn find_key<V>(v: &Vec<(String, V)>, name: &str) -> (r: Option<usize>)
    ensures
        match r {
            Some(i) => i < v@.len() && v@[i as int].0@ == name@ && forall|j: int|
                0 <= j < i ==> v@[j].0@ != name@,
            None => forall|j: int| 0 <= j < v@.len() ==> v@[j].0@ != name@,
        },
{
    let mut i: usize = 0;
    while i < v.len()
        invariant
            i <= v@.len(),
            forall|j: int| 0 <= j < i ==> v@[j].0@ != name@,
        decreases v@.len() - i,
    {
        if str_eq(v[i].0.as_str(), name) {
            return Some(i);
        }
        i = i + 1;
    }
    None
}

/// The names of a list of contracts, in order.
pub open spec fn names_of(cs: Seq<(String, ContractNode)>) -> Seq<Seq<char>> {
    cs.map_values(|c: (String, ContractNode)| c.0@)
}

/// Every edge leaving a node of `fin` leads to a node earlier in `fin`: the
/// order in which a depth-first search finishes nodes of an acyclic graph.
spec fn finish_ordered(es: Seq<DependencyEdge>, fin: Seq<Seq<char>>) -> bool {
    forall|i: int, k: int|
        #![trigger fin[i], es[k]]
        0 <= i < fin.len() && 0 <= k < es.len() && es[k].from@ == fin[i] ==> exists|j: int| 0 <= j < i && fin[j] == es[k].to@
}

/// The visited nodes `v` are the finished nodes `f` and the nodes on the path `p`.
spec fn covers(v: Seq<Seq<char>>, f: Seq<Seq<char>>, p: Seq<Seq<char>>) -> bool {
    forall|x: Seq<char>|
        #![trigger v.contains(x)]
        #![trigger f.contains(x)]
        #![trigger p.contains(x)]
        v.contains(x) <==> (f.contains(x) || p.contains(x))
}

/// No finished node is on the path.
spec fn off_path(f: Seq<Seq<char>>, p: Seq<Seq<char>>) -> bool {
    forall|x: Seq<char>|
        #![trigger f.contains(x)]
        #![trigger p.contains(x)]
        f.contains(x) ==> !p.contains(x)
}

/// Every node of `a` is in `b`.
spec fn within(a: Seq<Seq<char>>, b: Seq<Seq<char>>) -> bool {
    forall|x: Seq<char>| #[trigger] a.contains(x) ==> b.contains(x)
}

proof fn lemma_push_contains(s: Seq<Seq<char>>, a: Seq<char>, x: Seq<char>)
    ensures
        s.push(a).contains(x) <==> (s.contains(x) || x == a),
{
    if s.contains(x) {
        let i = choose|i: int| 0 <= i < s.len() && s[i] == x;
        assert(s.push(a)[i] == x);
    }
    if x == a {
        assert(s.push(a)[s.len() as int] == a);
    }
    if s.push(a).contains(x) && x != a {
        let i = choose|i: int| 0 <= i < s.len() + 1 && s.push(a)[i] == x;
        assert(s[i] == x);
    }
}

/// Finishing the last node of the path keeps the visited nodes covered.
proof fn lemma_covers_move(v: Seq<Seq<char>>, f: Seq<Seq<char>>, p: Seq<Seq<char>>, a: Seq<char>)
    requires
        covers(v, f, p.push(a)),
    ensures
        covers(v, f.push(a), p),
{
    assert forall|x: Seq<char>| v.contains(x) <==> (f.push(a).contains(x) || p.contains(x)) by {
        lemma_push_contains(f, a, x);
        lemma_push_contains(p, a, x);
    }
}

proof fn lemma_index_of_unique(fin: Seq<Seq<char>>, i: int)
    requires
        fin.no_duplicates(),
        0 <= i < fin.len(),
    ensures
        fin.index_of(fin[i]) == i,
{
    let j = fin.index_of(fin[i]);
    assert(0 <= j < fin.len() && fin[j] == fin[i]);
}

/// An edge from a finished node leads to a node finished before it.
proof fn lemma_edge_descends(es: Seq<DependencyEdge>, fin: Seq<Seq<char>>, u: Seq<char>, w: Seq<char>)
    requires
        finish_ordered(es, fin),
        fin.no_duplicates(),
        fin.contains(u),
        has_edge(es, u, w),
    ensures
        fin.contains(w),
        fin.index_of(w) < fin.index_of(u),
{
    let iu = choose|i: int| 0 <= i < fin.len() && fin[i] == u;
    let k = choose|k: int| 0 <= k < es.len() && es[k].from@ == u && es[k].to@ == w;
    assert(es[k].from@ == fin[iu]);
    let j = choose|j: int| 0 <= j < iu && fin[j] == es[k].to@;
    lemma_index_of_unique(fin, iu);
    lemma_index_of_unique(fin, j);
}

/// Along an edge path from a finished node, the nodes are finished ever earlier.
proof fn lemma_path_descends(es: Seq<DependencyEdge>, fin: Seq<Seq<char>>, p: Seq<Seq<char>>, m: int)
    requires
        finish_ordered(es, fin),
        fin.no_duplicates(),
        is_edge_path(es, p),
        0 <= m < p.len(),
        fin.contains(p[0]),
    ensures
        fin.contains(p[m]),
        forall|m2: int| 0 <= m2 < m ==> fin.index_of(p[m]) < fin.index_of(#[trigger] p[m2]),
    decreases m,
{
    if m > 0 {
        lemma_path_descends(es, fin, p, m - 1);
        assert(has_edge(es, p[m - 1], p[m]));
        lemma_edge_descends(es, fin, p[m - 1], p[m]);
    }
}

/// No edge path from a finished node closes back on itself.
proof fn lemma_finished_no_cycle(es: Seq<DependencyEdge>, fin: Seq<Seq<char>>, p: Seq<Seq<char>>)
    requires
        finish_ordered(es, fin),
        fin.no_duplicates(),
    ensures
        !(is_reported_cycle(es, p) && fin.contains(p[0])),
{
    if !(is_reported_cycle(es, p) && fin.contains(p[0])) {
        return;
    }
    let l = p.len() - 1;
    lemma_path_descends(es, fin, p, l);
    let j = choose|j: int| 0 <= j < p.len() && has_edge(es, p.last(), p[j]);
    lemma_edge_descends(es, fin, p[l], p[j]);
    if j < l {
        assert(fin.index_of(p[l]) < fin.index_of(p[j]));
    }
}

proof fn lemma_distinct_subset_len(a: Seq<Seq<char>>, u: Seq<Seq<char>>)
    requires
        a.no_duplicates(),
        forall|i: int| 0 <= i < a.len() ==> u.contains(#[trigger] a[i]),
    ensures
        a.len() <= u.len(),
{
    a.unique_seq_to_set();
    u.lemma_cardinality_of_set();
    assert(a.to_set().subset_of(u.to_set())) by {
        assert forall|x: Seq<char>| a.to_set().contains(x) implies u.to_set().contains(x) by {
            let i = choose|i: int| 0 <= i < a.len() && a[i] == x;
        }
    }
    vstd::set_lib::lemma_len_subset(a.to_set(), u.to_set());
}

proof fn lemma_lookup_first<V>(s: Seq<(String, V)>, k: Seq<char>, i: int)
    requires
        0 <= i < s.len(),
        s[i].0@ == k,
        forall|j: int| 0 <= j < i ==> s[j].0@ != k,
    ensures
        lookup(s, k) == Some(s[i].1),
    decreases i,
{
    if i > 0 {
        lemma_lookup_first(s.drop_first(), k, i - 1);
    }
}

proof fn lemma_lookup_none<V>(s: Seq<(String, V)>, k: Seq<char>)
    requires
        forall|j: int| 0 <= j < s.len() ==> s[j].0@ != k,
    ensures
        lookup(s, k) == None::<V>,
    decreases s.len(),
{
    if s.len() > 0 {
        lemma_lookup_none(s.drop_first(), k);
    }
}

/// The state of the cycle search: the visited nodes, in visiting order, and
/// the paths reported so far.
pub type SearchState = (Seq<Seq<char>>, Seq<Seq<Seq<char>>>);

/// What is left of the node budget `u` once the nodes of `st` are visited.
pub open spec fn budget(u: Seq<Seq<char>>, st: SearchState) -> int {
    if u.len() > st.0.len() { u.len() - st.0.len() } else { 0 }
}

/// The search state after visiting `node` with the search path `path` from
/// state `st`: `node` is marked visited and put on the path, then the edges
/// leaving it are followed in order (`search_edges`).
pub open spec fn search_visit(es: Seq<DependencyEdge>, u: Seq<Seq<char>>, node: Seq<char>, path: Seq<Seq<char>>, st: SearchState) -> SearchState
    decreases budget(u, st), 1int, 0int,
{
    search_edges(es, u, node, path.push(node), (st.0.push(node), st.1), 0, budget(u, st))
}

/// The search state after following the edges from index `e` on out of
/// `node`, whose search path is `path`: an edge to an unvisited node visits
/// it; an edge to a node on the path reports the path; other edges change
/// nothing. `lim` bounds the budget of the visits (it always suffices in a
/// search started by `search_visit`).
pub open spec fn search_edges(es: Seq<DependencyEdge>, u: Seq<Seq<char>>, node: Seq<char>, path: Seq<Seq<char>>, st: SearchState, e: int, lim: int) -> SearchState
    decreases lim, 0int, es.len() - e,
{
    if e < 0 || e >= es.len() {
        st
    } else {
        let to = es[e].to@;
        let next = if es[e].from@ != node {
            st
        } else if !st.0.contains(to) {
            if budget(u, st) < lim {
                search_visit(es, u, to, path, st)
            } else {
                st
            }
        } else if path.contains(to) {
            (st.0, st.1.push(path))
        } else {
            st
        };
        search_edges(es, u, node, path, next, e + 1, lim)
    }
}

/// The search state after searching from each of the contracts `names` from
/// index `c` on that is not yet visited, in order.
pub open spec fn search_all(es: Seq<DependencyEdge>, u: Seq<Seq<char>>, names: Seq<Seq<char>>, c: int, st: SearchState) -> SearchState
    decreases names.len() - c,
{
    if c < 0 || c >= names.len() {
        st
    } else {
        let next = if st.0.contains(names[c]) { st } else { search_visit(es, u, names[c], Seq::empty(), st) };
        search_all(es, u, names, c + 1, next)
    }
}

/// Every contract name and edge endpoint: the nodes a search can visit.
pub open spec fn node_universe(cs: Seq<(String, ContractNode)>, es: Seq<DependencyEdge>) -> Seq<Seq<char>> {
    names_of(cs) + es.map_values(|e: DependencyEdge| e.from@) + es.map_values(|e: DependencyEdge| e.to@)
}

/// The paths of a list of reported cycles.
pub open spec fn paths_view(cs: Seq<Vec<String>>) -> Seq<Seq<Seq<char>>> {
    cs.map_values(|c: Vec<String>| strs(c@))
}

proof fn lemma_lookup_some<V>(s: Seq<(String, V)>, k: Seq<char>)
    ensures
        match lookup(s, k) {
            Some(v) => exists|i: int| 0 <= i < s.len() && s[i].0@ == k && s[i].1 == v && forall|j: int| 0 <= j < i ==> s[j].0@ != k,
            None => forall|j: int| 0 <= j < s.len() ==> s[j].0@ != k,
        },
    decreases s.len(),
{
    if s.len() > 0 {
        lemma_lookup_some(s.drop_first(), k);
        if s[0].0@ != k {
            match lookup(s.drop_first(), k) {
                Some(v) => {
                    let i = choose|i: int| 0 <= i < s.len() - 1 && s.drop_first()[i].0@ == k && s.drop_first()[i].1 == v
                        && forall|j: int| 0 <= j < i ==> s.drop_first()[j].0@ != k;
                    assert(s[i + 1] == s.drop_first()[i]);
                    assert forall|j: int| 0 <= j < i + 1 implies s[j].0@ != k by {
                        if j > 0 {
                            assert(s[j] == s.drop_first()[j - 1]);
                        }
                    }
                },
                None => {
                    assert forall|j: int| 0 <= j < s.len() implies s[j].0@ != k by {
                        if j > 0 {
                            assert(s[j] == s.drop_first()[j - 1]);
                        }
                    }
                },
            }
        }
    }
}

/// The contract added under a name is found under it afterwards, and every
/// other name finds what it found before: what `add_contract` does to the
/// contracts, so that a graph built afterwards (whose contracts are these,
/// in order) holds it.
pub proof fn law_added_contract_found(before: Seq<(String, ContractNode)>, after: Seq<(String, ContractNode)>, name: String, node: ContractNode, k: Seq<char>)
    requires
        keys_distinct(before),
        keys_distinct(after),
        match lookup(before, name@) {
            Some(_) => exists|i: int| 0 <= i < before.len() && before[i].0@ == name@ && after == before.update(i, (name, node)),
            None => after == before.push((name, node)),
        },
    ensures
        lookup(after, name@) == Some(node),
        k != name@ ==> lookup(after, k) == lookup(before, k),
{
    lemma_lookup_some(before, name@);
    lemma_lookup_some(before, k);
    let ni: int = match lookup(before, name@) {
        Some(_) => choose|i: int| 0 <= i < before.len() && before[i].0@ == name@ && after == before.update(i, (name, node)),
        None => before.len() as int,
    };
    assert(after[ni] == (name, node));
    assert forall|j: int| 0 <= j < ni implies after[j].0@ != name@ by {
        assert(after[j].0@ != after[ni].0@);
    }
    lemma_lookup_first(after, name@, ni);
    if k != name@ {
        match lookup(before, k) {
            Some(v) => {
                let p = choose|i: int| 0 <= i < before.len() && before[i].0@ == k && before[i].1 == v
                    && forall|j: int| 0 <= j < i ==> before[j].0@ != k;
                assert(p != ni);
                assert(after[p] == before[p]);
                assert forall|j: int| 0 <= j < p implies after[j].0@ != k by {
                    if j != ni {
                        assert(after[j] == before[j]);
                    }
                }
                lemma_lookup_first(after, k, p);
            },
            None => {
                assert forall|j: int| 0 <= j < after.len() implies after[j].0@ != k by {
                    if j != ni {
                        assert(after[j] == before[j]);
                    }
                }
                lemma_lookup_none(after, k);
            },
        }
    }
}

/// Two entries of a contract list with the same name and equal fields.
pub open spec fn same_entry(a: (String, ContractNode), b: (String, ContractNode)) -> bool {
    &&& a.0@ == b.0@
    &&& a.1.name == b.1.name
    &&& a.1.file_path == b.1.file_path
    &&& a.1.is_interface == b.1.is_interface
    &&& a.1.is_library == b.1.is_library
    &&& a.1.functions@ == b.1.functions@
    &&& a.1.state_variables == b.1.state_variables
}

/// `copy` holds the entries of `c`, in order, each with equal fields.
pub open spec fn copies_contracts(copy: Seq<(String, ContractNode)>, c: Seq<(String, ContractNode)>) -> bool {
    &&& copy.len() == c.len()
    &&& forall|i: int| 0 <= i < copy.len() ==> same_entry(#[trigger] copy[i], c[i])
}

/// A contract added to an analyzer is in the graph built afterwards: exactly
/// one entry of the graph's contracts is under its name, and it has the
/// fields the contract was added with.
pub proof fn law_added_contract_in_graph(
    before: Seq<(String, ContractNode)>,
    after: Seq<(String, ContractNode)>,
    graph: Seq<(String, ContractNode)>,
    name: String,
    node: ContractNode,
)
    requires
        keys_distinct(before),
        keys_distinct(after),
        match lookup(before, name@) {
            Some(_) => exists|i: int| 0 <= i < before.len() && before[i].0@ == name@ && after == before.update(i, (name, node)),
            None => after == before.push((name, node)),
        },
        copies_contracts(graph, after),
    ensures
        exists|i: int| 0 <= i < graph.len() && #[trigger] same_entry(graph[i], (name, node)),
        forall|i: int, j: int| 0 <= i < graph.len() && 0 <= j < graph.len() && graph[i].0@ == name@ && graph[j].0@ == name@ ==> i == j,
{
    law_added_contract_found(before, after, name, node, name@);
    lemma_lookup_some(after, name@);
    let i = choose|i: int| 0 <= i < after.len() && after[i].0@ == name@ && after[i].1 == node
        && forall|j: int| 0 <= j < i ==> after[j].0@ != name@;
    assert(same_entry(graph[i], after[i]));
    assert(same_entry(graph[i], (name, node)));
    assert forall|a: int, b: int| 0 <= a < graph.len() && 0 <= b < graph.len() && graph[a].0@ == name@ && graph[b].0@ == name@ implies a == b by {
        assert(same_entry(graph[a], after[a]));
        assert(same_entry(graph[b], after[b]));
    }
}

impl Default for DependencyAnalyzer {
    fn default() -> (r: Self)
        ensures
            r.contracts_view().len() == 0,
            r.edges_view().len() == 0,
    {
        DependencyAnalyzer::new()
    }
}

impl DependencyAnalyzer {
    /// The contracts, by name.
    pub closed spec fn contracts_view(&self) -> Seq<(String, ContractNode)> {
        self.contracts@
    }

    /// The edges, in the order they were added.
    pub closed spec fn edges_view(&self) -> Seq<DependencyEdge> {
        self.edges@
    }

    #[verifier::type_invariant]
    closed spec fn inv(&self) -> bool {
        keys_distinct(self.contracts@)
    }

    /// An analyzer with no contracts and no edges.
    pub fn new() -> (r: Self)
        ensures
            r.contracts_view().len() == 0,
            r.edges_view().len() == 0,
    {
        DependencyAnalyzer { contracts: Vec::new(), edges: Vec::new() }
    }

    /// Adds (or replaces) the contract named `name`.
    pub fn add_contract(&mut self, name: String, node: ContractNode)
        ensures
            keys_distinct(final(self).contracts_view()),
            final(self).edges_view() == old(self).edges_view(),
            match lookup(old(self).contracts_view(), name@) {
                Some(_) => exists|i: int|
                    0 <= i < old(self).contracts_view().len() && old(self).contracts_view()[i].0@
                        == name@ && final(self).contracts_view() == old(self).contracts_view().update(
                        i,
                        (name, node),
                    ),
                None => final(self).contracts_view() == old(self).contracts_view().push((name, node)),
            },
    {
        proof {
            use_type_invariant(&*self);
        }
        match find_key(&self.contracts, name.as_str()) {
            Some(i) => {
                proof {
                    lemma_lookup_first(self.contracts@, name@, i as int);
                }
                let ghost old_c = self.contracts@;
                let mut contracts = Vec::new();
                std::mem::swap(&mut contracts, &mut self.contracts);
                contracts.set(i, (name, node));
                self.contracts = contracts;
                assert(self.contracts@ == old_c.update(i as int, self.contracts@[i as int]));
            },
            None => {
                proof {
                    lemma_lookup_none(self.contracts@, name@);
                }
                let mut contracts = Vec::new();
                std::mem::swap(&mut contracts, &mut self.contracts);
                contracts.push((name, node));
                self.contracts = contracts;
            },
        }
    }

    /// Adds the edge `from -> to` of type `edge_type`.
    pub fn add_edge(&mut self, from: String, to: String, edge_type: EdgeType)
        ensures
            final(self).contracts_view() == old(self).contracts_view(),
            final(self).edges_view() == old(self).edges_view().push(
                DependencyEdge { from, to, edge_type },
            ),
    {
        proof {
            use_type_invariant(&*self);
        }
        let mut edges = Vec::new();
        std::mem::swap(&mut edges, &mut self.edges);
        edges.push(DependencyEdge { from, to, edge_type });
        self.edges = edges;
    }

    /// A snapshot: the contracts and edges, the calls among the edges and the
    /// inheritance tree.
    pub fn build_graph(&self) -> (g: DependencyGraph)
        ensures
            copies_contracts(g.contracts@, self.contracts_view()),
            g.edges@ == self.edges_view(),
            g.external_calls@.map_values(|c: ExternalCall| call_view(c)) == calls_of(self.edges_view()),
            is_inheritance_tree(g.inheritance_tree@, self.edges_view()),
    {
        let inheritance_tree = self.build_inheritance_tree();
        let external_calls = self.extract_external_calls();
        let mut contracts: Vec<(String, ContractNode)> = Vec::new();
        let mut i: usize = 0;
        while i < self.contracts.len()
            invariant
                i <= self.contracts@.len(),
                contracts@.len() == i,
                forall|j: int| 0 <= j < i ==> same_entry(#[trigger] contracts@[j], self.contracts@[j]),
            decreases self.contracts@.len() - i,
        {
            let k = self.contracts[i].0.clone();
            let n = copy_node(&self.contracts[i].1);
            contracts.push((k, n));
            i = i + 1;
        }
        let mut edges: Vec<DependencyEdge> = Vec::new();
        let mut e: usize = 0;
        while e < self.edges.len()
            invariant
                e <= self.edges@.len(),
                edges@ == self.edges@.subrange(0, e as int),
            decreases self.edges@.len() - e,
        {
            edges.push(copy_edge(&self.edges[e]));
            e = e + 1;
        }
        assert(self.edges@.subrange(0, self.edges@.len() as int) =~= self.edges@);
        DependencyGraph { contracts, edges, external_calls, inheritance_tree }
    }

    /// For each contract that inherits, the contracts it inherits from.
    pub fn build_inheritance_tree(&self) -> (t: Vec<(String, Vec<String>)>)
        ensures
            is_inheritance_tree(t@, self.edges_view()),
    {
        let mut tree: Vec<(String, Vec<String>)> = Vec::new();
        let mut e: usize = 0;
        while e < self.edges.len()
            invariant
                e <= self.edges@.len(),
                is_inheritance_tree(tree@, self.edges@.subrange(0, e as int)),
            decreases self.edges@.len() - e,
        {
            let ghost pre = self.edges@.subrange(0, e as int);
            let ghost post = self.edges@.subrange(0, e + 1);
            assert(post.drop_last() =~= pre);
            let edge = &self.edges[e];
            if edge.edge_type == EdgeType::Inherits {
                let found = find_key(&tree, edge.from.as_str());
                match found {
                    Some(j) => {
                        let ghost old_tree = tree@;
                        let mut entry = (String::new(), Vec::new());
                        tree.set_and_swap(j, &mut entry);
                        entry.1.push(edge.to.clone());
                        let ghost new_entry = entry;
                        tree.set(j, entry);
                        assert(tree@ == old_tree.update(j as int, new_entry));
                        assert forall|x: int| 0 <= x < tree@.len() implies strs(
                            #[trigger] tree@[x].1@,
                        ) == parents_of(post, tree@[x].0@) by {
                            if x == j {
                                assert(strs(tree@[x].1@) =~= strs(old_tree[x].1@).push(edge.to@));
                            } else {
                                assert(tree@[x] == old_tree[x]);
                            }
                        }
                        assert forall|k: Seq<char>| parents_of(post, k).len() > 0 implies exists|
                            i: int,
                        | 0 <= i < tree@.len() && #[trigger] tree@[i].0@ == k by {
                            if k != edge.from@ {
                                assert(parents_of(post, k) == parents_of(pre, k));
                                let i = choose|i: int| 0 <= i < old_tree.len() && #[trigger] old_tree[i].0@ == k;
                                assert(tree@[i].0@ == k);
                            } else {
                                assert(tree@[j as int].0@ == k);
                            }
                        }
                    },
                    None => {
                        let ghost old_tree = tree@;
                        let mut parents = Vec::new();
                        parents.push(edge.to.clone());
                        tree.push((edge.from.clone(), parents));
                        assert(parents_of(pre, edge.from@).len() == 0) by {
                            if parents_of(pre, edge.from@).len() > 0 {
                                let i = choose|i: int| 0 <= i < old_tree.len() && #[trigger] old_tree[i].0@ == edge.from@;
                            }
                        }
                        assert forall|x: int| 0 <= x < tree@.len() implies strs(
                            #[trigger] tree@[x].1@,
                        ) == parents_of(post, tree@[x].0@) by {
                            if x == old_tree.len() {
                                assert(strs(tree@[x].1@) =~= seq![edge.to@]);
                                assert(parents_of(pre, edge.from@) =~= Seq::<Seq<char>>::empty());
                            } else {
                                assert(tree@[x] == old_tree[x]);
                            }
                        }
                        assert forall|k: Seq<char>| parents_of(post, k).len() > 0 implies exists|
                            i: int,
                        | 0 <= i < tree@.len() && #[trigger] tree@[i].0@ == k by {
                            if k != edge.from@ {
                                assert(parents_of(post, k) == parents_of(pre, k));
                                let i = choose|i: int| 0 <= i < old_tree.len() && #[trigger] old_tree[i].0@ == k;
                                assert(tree@[i].0@ == k);
                            } else {
                                assert(tree@[old_tree.len() as int].0@ == k);
                            }
                        }
                    },
                }
            } else {
                assert forall|k: Seq<char>| parents_of(post, k) == parents_of(pre, k) by {}
            }
            e = e + 1;
        }
        assert(self.edges@.subrange(0, self.edges@.len() as int) =~= self.edges@);
        tree
    }

    /// One call per `Calls` or `DelegateCalls` edge, in edge order.
    pub fn extract_external_calls(&self) -> (r: Vec<ExternalCall>)
        ensures
            r@.map_values(|c: ExternalCall| call_view(c)) == calls_of(self.edges_view()),
    {
        let mut calls: Vec<ExternalCall> = Vec::new();
        let mut e: usize = 0;
        while e < self.edges.len()
            invariant
                e <= self.edges@.len(),
                calls@.map_values(|c: ExternalCall| call_view(c)) == calls_of(
                    self.edges@.subrange(0, e as int),
                ),
            decreases self.edges@.len() - e,
        {
            let ghost pre = self.edges@.subrange(0, e as int);
            assert(self.edges@.subrange(0, e + 1).drop_last() =~= pre);
            let edge = &self.edges[e];
            if edge.edge_type == EdgeType::Calls || edge.edge_type == EdgeType::DelegateCalls {
                let call_type = if edge.edge_type == EdgeType::DelegateCalls {
                    CallType::DelegateCall
                } else {
                    CallType::Direct
                };
                let ghost before = calls@;
                calls.push(
                    ExternalCall {
                        from_contract: edge.from.clone(),
                        from_function: String::new(),
                        to_contract: edge.to.clone(),
                        call_type,
                        line_number: 0,
                    },
                );
                assert(calls@.map_values(|c: ExternalCall| call_view(c)) =~= before.map_values(
                    |c: ExternalCall| call_view(c),
                ).push(call_of_edge(*edge)));
            }
            e = e + 1;
        }
        assert(self.edges@.subrange(0, self.edges@.len() as int) =~= self.edges@);
        calls
    }

    /// The public or external functions and payability of the contract named
    /// `contract` (zero and false when absent), its outgoing `Calls` edges and
    /// whether it has an outgoing `DelegateCalls` edge.
    pub fn get_attack_surface(&self, contract: &str) -> (r: AttackSurface)
        requires
            self.edges_view().len() < usize::MAX,
        ensures
            r == attack_surface_of(self.contracts_view(), self.edges_view(), contract@),
    {
        let idx = find_key(&self.contracts, contract);
        let mut public_functions: usize = 0;
        let mut receives_eth = false;
        match idx {
            Some(i) => {
                proof {
                    lemma_lookup_first(self.contracts@, contract@, i as int);
                }
                let fs = &self.contracts[i].1.functions;
                let mut j: usize = 0;
                while j < fs.len()
                    invariant
                        j <= fs@.len(),
                        public_functions == count_public(fs@.subrange(0, j as int)),
                        public_functions <= j,
                        receives_eth == exists|x: int| 0 <= x < j && fs@[x].is_payable,
                    decreases fs@.len() - j,
                {
                    assert(fs@.subrange(0, j + 1).drop_last() =~= fs@.subrange(0, j as int));
                    match fs[j].visibility {
                        Visibility::Public | Visibility::External => {
                            public_functions = public_functions + 1;
                        },
                        _ => {},
                    }
                    if fs[j].is_payable {
                        receives_eth = true;
                    }
                    j = j + 1;
                }
                assert(fs@.subrange(0, fs@.len() as int) =~= fs@);
            },
            None => {
                proof {
                    lemma_lookup_none(self.contracts@, contract@);
                }
            },
        }
        let mut external_dependencies: usize = 0;
        let mut has_delegatecall = false;
        let mut e: usize = 0;
        while e < self.edges.len()
            invariant
                e <= self.edges@.len(),
                self.edges@.len() < usize::MAX,
                external_dependencies == count_edges_from(
                    self.edges@.subrange(0, e as int),
                    contract@,
                    EdgeType::Calls,
                ),
                external_dependencies <= e,
                has_delegatecall == exists|x: int|
                    0 <= x < e && self.edges@[x].from@ == contract@ && self.edges@[x].edge_type
                        == EdgeType::DelegateCalls,
            decreases self.edges@.len() - e,
        {
            assert(self.edges@.subrange(0, e + 1).drop_last() =~= self.edges@.subrange(0, e as int));
            let from_here = str_eq(self.edges[e].from.as_str(), contract);
            if from_here && self.edges[e].edge_type == EdgeType::Calls {
                external_dependencies = external_dependencies + 1;
            }
            if from_here && self.edges[e].edge_type == EdgeType::DelegateCalls {
                has_delegatecall = true;
            }
            e = e + 1;
        }
        assert(self.edges@.subrange(0, self.edges@.len() as int) =~= self.edges@);
        AttackSurface { public_functions, external_dependencies, receives_eth, has_delegatecall }
    }

    /// Every contract name and edge endpoint.
    pub closed spec fn universe(&self) -> Seq<Seq<char>> {
        self.contracts@.map_values(|c: (String, ContractNode)| c.0@) + self.edges@.map_values(
            |e: DependencyEdge| e.from@,
        ) + self.edges@.map_values(|e: DependencyEdge| e.to@)
    }

    /// Depth-first search from each not yet visited contract, in insertion
    /// order. Whenever an edge leads back to a node on the current search path,
    /// that path is reported: each result is a non-empty path along edges,
    /// starting at a contract, whose last node has an edge back onto the path.
    /// No path is reported exactly when no edge path from a contract closes
    /// back on itself, that is, when no cycle can be reached from a contract.
    /// The paths reported, in order, are those of that search (`search_all`).
    pub fn detect_cycles(&self) -> (cycles: Vec<Vec<String>>)
        ensures
            paths_view(cycles@) == search_all(
                self.edges_view(),
                node_universe(self.contracts_view(), self.edges_view()),
                names_of(self.contracts_view()),
                0,
                (Seq::empty(), Seq::empty()),
            ).1,
            forall|i: int|
                0 <= i < cycles@.len() ==> is_reported_cycle(self.edges_view(), strs(#[trigger] cycles@[i]@))
                    && names_of(self.contracts_view()).contains(strs(cycles@[i]@)[0]),
            cycles@.len() == 0 <==> forall|p: Seq<Seq<char>>|
                #[trigger] is_reported_cycle(self.edges_view(), p) ==> !names_of(self.contracts_view()).contains(p[0]),
    {
        let ghost names = names_of(self.contracts@);
        assert(self.universe() =~= node_universe(self.contracts_view(), self.edges_view()));
        let mut cycles: Vec<Vec<String>> = Vec::new();
        let mut visited: Vec<String> = Vec::new();
        let ghost mut fin: Seq<Seq<char>> = Seq::empty();
        let ghost total = search_all(self.edges@, self.universe(), names, 0, (Seq::empty(), Seq::empty()));
        proof {
            assert(strs(visited@) =~= Seq::<Seq<char>>::empty());
            assert(paths_view(cycles@) =~= Seq::<Seq<Seq<char>>>::empty());
        }
        let mut c: usize = 0;
        while c < self.contracts.len()
            invariant
                names == names_of(self.contracts@),
                search_all(self.edges@, self.universe(), names, c as int, (strs(visited@), paths_view(cycles@))) == total,
                c <= self.contracts@.len(),
                strs(visited@).no_duplicates(),
                forall|i: int| 0 <= i < visited@.len() ==> self.universe().contains(#[trigger] strs(visited@)[i]),
                forall|i: int|
                    0 <= i < cycles@.len() ==> is_reported_cycle(self.edges@, strs(#[trigger] cycles@[i]@))
                        && names.contains(strs(cycles@[i]@)[0]),
                covers(strs(visited@), fin, Seq::empty()),
                fin.no_duplicates(),
                cycles@.len() == 0 ==> finish_ordered(self.edges@, fin),
                forall|i: int| 0 <= i < c ==> fin.contains(#[trigger] names[i]),
            decreases self.contracts@.len() - c,
        {
            let name = &self.contracts[c].0;
            assert(names[c as int] == name@);
            let ghost st = (strs(visited@), paths_view(cycles@));
            if !strings_contain(&visited, name.as_str()) {
                let mut path: Vec<String> = Vec::new();
                proof {
                    assert(self.universe()[c as int] == name@);
                    assert(strs(path@) =~= Seq::<Seq<char>>::empty());
                    assert forall|i: int| 0 <= i < strs(visited@).len() implies strs(visited@)[i] != name@ by {
                        assert(visited@[i]@ == strs(visited@)[i]);
                    }
                    assert(names.contains(name@));
                    assert(!st.0.contains(name@));
                }
                let Ghost(f2) = self.dfs_cycle(name, &mut visited, &mut path, &mut cycles, Ghost(fin));
                proof {
                    assert(strs(path@) =~= Seq::<Seq<char>>::empty());
                    fin = f2;
                }
            } else {
                proof {
                    let j = choose|j: int| 0 <= j < visited@.len() && visited@[j]@ == name@;
                    assert(strs(visited@)[j] == name@);
                    assert(st.0.contains(name@));
                }
            }
            c = c + 1;
        }
        proof {
            if cycles@.len() == 0 {
                assert forall|p: Seq<Seq<char>>| #[trigger] is_reported_cycle(self.edges_view(), p) implies !names.contains(p[0]) by {
                    if names.contains(p[0]) {
                        let i = choose|i: int| 0 <= i < names.len() && names[i] == p[0];
                        assert(fin.contains(names[i]));
                        lemma_finished_no_cycle(self.edges@, fin, p);
                    }
                }
            } else {
                assert(is_reported_cycle(self.edges_view(), strs(cycles@[0]@)));
            }
        }
        cycles
    }

    /// Visits `node`, then every not yet visited target of an edge leaving it;
    /// an edge back onto the current path reports the path. Given the nodes
    /// finished so far (`fin`: the visited nodes off the path), it returns
    /// them with the nodes this visit finishes, `node` last; while nothing
    /// is reported, every edge from a finished node leads to one finished
    /// before it.
    #[verifier::rlimit(60)]
    fn dfs_cycle(
        &self,
        node: &String,
        visited: &mut Vec<String>,
        path: &mut Vec<String>,
        cycles: &mut Vec<Vec<String>>,
        Ghost(fin): Ghost<Seq<Seq<char>>>,
    ) -> (fin2: Ghost<Seq<Seq<char>>>)
        requires
            self.universe().contains(node@),
            strs(old(visited)@).no_duplicates(),
            forall|i: int| 0 <= i < old(visited)@.len() ==> self.universe().contains(#[trigger] strs(old(visited)@)[i]),
            forall|i: int| 0 <= i < strs(old(visited)@).len() ==> strs(old(visited)@)[i] != node@,
            is_edge_path(self.edges@, strs(old(path)@)),
            strs(old(path)@).len() > 0 ==> has_edge(self.edges@, strs(old(path)@).last(), node@),
            forall|i: int|
                0 <= i < old(cycles)@.len() ==> is_reported_cycle(self.edges@, strs(#[trigger] old(cycles)@[i]@))
                    && names_of(self.contracts@).contains(strs(old(cycles)@[i]@)[0]),
            covers(strs(old(visited)@), fin, strs(old(path)@)),
            fin.no_duplicates(),
            off_path(fin, strs(old(path)@)),
            old(cycles)@.len() == 0 ==> finish_ordered(self.edges@, fin),
            strs(old(path)@).len() > 0 ==> names_of(self.contracts@).contains(strs(old(path)@)[0]),
            strs(old(path)@).len() == 0 ==> names_of(self.contracts@).contains(node@),
        ensures
            final(path)@ == old(path)@,
            final(visited)@.len() > old(visited)@.len(),
            strs(final(visited)@).no_duplicates(),
            forall|i: int| 0 <= i < final(visited)@.len() ==> self.universe().contains(#[trigger] strs(final(visited)@)[i]),
            forall|i: int|
                0 <= i < final(cycles)@.len() ==> is_reported_cycle(self.edges@, strs(#[trigger] final(cycles)@[i]@))
                    && names_of(self.contracts@).contains(strs(final(cycles)@[i]@)[0]),
            covers(strs(final(visited)@), fin2@, strs(old(path)@)),
            fin2@.no_duplicates(),
            off_path(fin2@, strs(old(path)@)),
            within(fin, fin2@),
            fin2@.contains(node@),
            final(cycles)@.len() >= old(cycles)@.len(),
            final(cycles)@.len() == 0 ==> finish_ordered(self.edges@, fin2@),
            (strs(final(visited)@), paths_view(final(cycles)@)) == search_visit(
                self.edges@,
                self.universe(),
                node@,
                strs(old(path)@),
                (strs(old(visited)@), paths_view(old(cycles)@)),
            ),
        decreases self.universe().len() - old(visited)@.len(),
    {
        proof {
            lemma_distinct_subset_len(strs(visited@), self.universe());
        }
        let ghost names = names_of(self.contracts@);
        let ghost path0 = path@;
        let ghost visited0 = visited@;
        let ghost cycles0 = cycles@.len();
        proof {
            assert(!strs(path0).contains(node@)) by {
                if strs(path0).contains(node@) {
                    assert(strs(visited0).contains(node@));
                    let i = choose|i: int| 0 <= i < strs(visited0).len() && strs(visited0)[i] == node@;
                    assert(strs(old(visited)@)[i] != node@);
                }
            }
        }
        visited.push(node.clone());
        path.push(node.clone());
        proof {
            assert(strs(visited@) =~= strs(old(visited)@).push(node@));
            assert(strs(path@) =~= strs(path0).push(node@));
            assert forall|i: int| 0 <= i < strs(path@).len() - 1 implies has_edge(self.edges@, #[trigger] strs(path@)[i], strs(path@)[i + 1]) by {
                if i < strs(path0).len() - 1 {
                    assert(strs(path@)[i] == strs(path0)[i]);
                    assert(strs(path@)[i + 1] == strs(path0)[i + 1]);
                } else {
                    assert(strs(path@)[i] == strs(path0).last());
                }
            }
            assert(strs(path@)[0] == if strs(path0).len() > 0 { strs(path0)[0] } else { node@ });
            assert forall|x: Seq<char>| strs(visited@).contains(x) <==> (fin.contains(x) || strs(path@).contains(x)) by {
                lemma_push_contains(strs(visited0), node@, x);
                lemma_push_contains(strs(path0), node@, x);
            }
            assert forall|x: Seq<char>| fin.contains(x) implies !strs(path@).contains(x) by {
                lemma_push_contains(strs(path0), node@, x);
                if x == node@ {
                    assert(strs(visited0).contains(x));
                    let i = choose|i: int| 0 <= i < strs(visited0).len() && strs(visited0)[i] == node@;
                    assert(strs(old(visited)@)[i] != node@);
                }
            }
        }
        let ghost visited1 = visited@;
        let ghost mut cur: Seq<Seq<char>> = fin;
        let ghost es = self.edges@;
        let ghost u = self.universe();
        let ghost lim = budget(u, (strs(visited0), paths_view(old(cycles)@)));
        let ghost target = search_edges(es, u, node@, strs(path@), (strs(visited@), paths_view(cycles@)), 0, lim);
        proof {
            lemma_distinct_subset_len(strs(visited@), u);
            assert(target == search_visit(es, u, node@, strs(path0), (strs(visited0), paths_view(old(cycles)@))));
        }
        let mut e: usize = 0;
        while e < self.edges.len()
            invariant
                names == names_of(self.contracts@),
                e <= self.edges@.len(),
                self.universe().contains(node@),
                path@ == path0.push(*node),
                strs(path@) == strs(path0).push(node@),
                !strs(path0).contains(node@),
                is_edge_path(self.edges@, strs(path@)),
                names.contains(strs(path@)[0]),
                strs(visited@).no_duplicates(),
                visited@.len() >= visited1.len(),
                visited1.len() == old(visited)@.len() + 1,
                forall|i: int| 0 <= i < visited@.len() ==> self.universe().contains(#[trigger] strs(visited@)[i]),
                forall|i: int|
                    0 <= i < cycles@.len() ==> is_reported_cycle(self.edges@, strs(#[trigger] cycles@[i]@))
                        && names.contains(strs(cycles@[i]@)[0]),
                covers(strs(visited@), cur, strs(path@)),
                cur.no_duplicates(),
                off_path(cur, strs(path@)),
                within(fin, cur),
                cycles@.len() >= cycles0,
                cycles@.len() == 0 ==> finish_ordered(self.edges@, cur),
                forall|k: int|
                    0 <= k < e && #[trigger] self.edges@[k].from@ == node@ ==> (cycles@.len() > 0 || cur.contains(self.edges@[k].to@)),
                es == self.edges@,
                u == self.universe(),
                lim == u.len() - old(visited)@.len(),
                search_edges(es, u, node@, strs(path@), (strs(visited@), paths_view(cycles@)), e as int, lim) == target,
            decreases self.edges@.len() - e,
        {
            let edge = &self.edges[e];
            let ghost st = (strs(visited@), paths_view(cycles@));
            proof {
                lemma_distinct_subset_len(strs(visited@), u);
                assert(es[e as int] == *edge);
            }
            if str_eq(edge.from.as_str(), node.as_str()) {
                proof {
                    assert(has_edge(self.edges@, node@, edge.to@));
                    let u = self.universe();
                    let k = self.contracts@.len() + self.edges@.len() + e;
                    assert(u[k as int] == edge.to@);
                }
                if !strings_contain(visited, edge.to.as_str()) {
                    proof {
                        assert forall|i: int| 0 <= i < strs(visited@).len() implies strs(visited@)[i] != edge.to@ by {
                            assert(visited@[i]@ == strs(visited@)[i]);
                        }
                        assert(strs(path@).last() == node@);
                        lemma_distinct_subset_len(strs(visited@), self.universe());
                    }
                    proof {
                        assert(!st.0.contains(edge.to@));
                        assert(budget(u, st) < lim);
                    }
                    let Ghost(r) = self.dfs_cycle(&edge.to, visited, path, cycles, Ghost(cur));
                    proof {
                        cur = r;
                    }
                } else if strings_contain(path, edge.to.as_str()) {
                    let found = copy_strings(path);
                    proof {
                        let j = choose|j: int| 0 <= j < path@.len() && path@[j]@ == edge.to@;
                        assert(strs(found@)[j] == edge.to@);
                        assert(strs(found@).last() == node@);
                        assert(strs(found@) == strs(path@));
                        let i = choose|i: int| 0 <= i < visited@.len() && visited@[i]@ == edge.to@;
                        assert(strs(visited@)[i] == edge.to@);
                        assert(st.0.contains(edge.to@));
                        assert(strs(path@)[j] == edge.to@);
                        assert(strs(path@).contains(edge.to@));
                    }
                    let ghost cyc0 = cycles@;
                    cycles.push(found);
                    proof {
                        assert(cycles@[cycles@.len() - 1] == found);
                        assert(paths_view(cycles@) =~= paths_view(cyc0).push(strs(path@)));
                    }
                } else {
                    proof {
                        let j = choose|j: int| 0 <= j < visited@.len() && visited@[j]@ == edge.to@;
                        assert(strs(visited@)[j] == edge.to@);
                        assert(st.0.contains(edge.to@));
                        assert(!strs(path@).contains(edge.to@)) by {
                            if strs(path@).contains(edge.to@) {
                                let q = choose|q: int| 0 <= q < strs(path@).len() && strs(path@)[q] == edge.to@;
                                assert(path@[q]@ == edge.to@);
                            }
                        }
                    }
                }
            }
            e = e + 1;
        }
        path.pop();
        assert(path@ =~= path0);
        let ghost fin2 = cur.push(node@);
        proof {
            assert(strs(path@) =~= strs(path0));
            assert(strs(path0.push(*node)).contains(node@)) by {
                assert(strs(path0.push(*node))[strs(path0).len() as int] == node@);
            }
            assert forall|x: Seq<char>| fin2.contains(x) implies !strs(path0).contains(x) by {
                if x != node@ {
                    let i = choose|i: int| 0 <= i < fin2.len() && fin2[i] == x;
                    assert(cur[i] == x);
                    if strs(path0).contains(x) {
                        let q = choose|q: int| 0 <= q < strs(path0).len() && strs(path0)[q] == x;
                        assert(strs(path0.push(*node))[q] == x);
                    }
                }
            }
            assert(strs(path0.push(*node)) == strs(path0).push(node@));
            lemma_covers_move(strs(visited@), cur, strs(path0), node@);
            assert(covers(strs(visited@), fin2, strs(path0)));
            assert(!cur.contains(node@));
            assert(fin2.no_duplicates()) by {
                assert forall|i: int, j: int| 0 <= i < j < fin2.len() implies fin2[i] != fin2[j] by {
                    if j == cur.len() {
                        assert(fin2[i] == cur[i]);
                    }
                }
            }
            assert forall|x: Seq<char>| fin.contains(x) implies fin2.contains(x) by {
                let i = choose|i: int| 0 <= i < cur.len() && cur[i] == x;
                assert(fin2[i] == x);
            }
            assert(fin2[cur.len() as int] == node@);
            if cycles@.len() == 0 {
                assert forall|i: int, k: int|
                    #![trigger fin2[i], self.edges@[k]]
                    0 <= i < fin2.len() && 0 <= k < self.edges@.len() && self.edges@[k].from@ == fin2[i] implies exists|j: int|
                        0 <= j < i && fin2[j] == self.edges@[k].to@ by {
                    if i < cur.len() {
                        assert(fin2[i] == cur[i]);
                        let j = choose|j: int| 0 <= j < i && cur[j] == self.edges@[k].to@;
                        assert(fin2[j] == cur[j]);
                    } else {
                        assert(cur.contains(self.edges@[k].to@));
                        let j = choose|j: int| 0 <= j < cur.len() && cur[j] == self.edges@[k].to@;
                        assert(fin2[j] == cur[j]);
                    }
                }
            }
        }
        Ghost(fin2)
    }

    /// The edges as a Graphviz digraph, one line per edge in edge order.
    pub fn export_graphviz(&self) -> (dot: String)
        ensures
            dot@ == graphviz_text(self.edges_view()),
    {
        let mut dot = owned("digraph Dependencies {\n");
        push_str(&mut dot, "  rankdir=TB;\n");
        push_str(&mut dot, "  node [shape=box];\n\n");
        let ghost head = dot@;
        let mut e: usize = 0;
        while e < self.edges.len()
            invariant
                e <= self.edges@.len(),
                dot@ == head + edges_dot(self.edges@.subrange(0, e as int)),
            decreases self.edges@.len() - e,
        {
            assert(self.edges@.subrange(0, e + 1).drop_last() =~= self.edges@.subrange(0, e as int));
            let edge = &self.edges[e];
            let style = edge_style(edge.edge_type);
            push_str(&mut dot, "  \"");
            push_str(&mut dot, edge.from.as_str());
            push_str(&mut dot, "\" -> \"");
            push_str(&mut dot, edge.to.as_str());
            push_str(&mut dot, "\" [style=");
            push_str(&mut dot, style);
            push_str(&mut dot, "];\n");
            assert(dot@ =~= head + edges_dot(self.edges@.subrange(0, e as int)) + edge_line(*edge));
            e = e + 1;
        }
        assert(self.edges@.subrange(0, self.edges@.len() as int) =~= self.edges@);
        push_str(&mut dot, "}\n");
        dot
    }
}

} // verus!
