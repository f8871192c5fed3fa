use scpf::dependency_analyzer::{
    CallType, ContractNode, DependencyAnalyzer, EdgeType, FunctionInfo, Visibility,
};

fn node(name: &str, functions: Vec<FunctionInfo>) -> ContractNode {
    ContractNode {
        name: name.to_string(),
        file_path: format!("{}.sol", name),
        is_interface: false,
        is_library: false,
        functions,
        state_variables: 0,
    }
}

#[test]
fn test_dependency_analyzer() {
    let mut analyzer = DependencyAnalyzer::new();

    analyzer.add_contract(
        "ContractA".to_string(),
        ContractNode {
            name: "ContractA".to_string(),
            file_path: "a.sol".to_string(),
            is_interface: false,
            is_library: false,
            functions: vec![],
            state_variables: 0,
        },
    );

    analyzer.add_edge(
        "ContractA".to_string(),
        "ContractB".to_string(),
        EdgeType::Inherits,
    );

    let graph = analyzer.build_graph();
    assert_eq!(graph.contracts.len(), 1);
    assert_eq!(graph.edges.len(), 1);
}

#[test]
fn adding_a_contract_twice_replaces_it() {
    let mut analyzer = DependencyAnalyzer::new();
    analyzer.add_contract("A".to_string(), node("A", vec![]));
    analyzer.add_contract("B".to_string(), node("B", vec![]));
    let mut replaced = node("A", vec![]);
    replaced.state_variables = 7;
    analyzer.add_contract("A".to_string(), replaced);
    let graph = analyzer.build_graph();
    assert_eq!(graph.contracts.len(), 2);
    assert_eq!(graph.contracts[0].0, "A");
    assert_eq!(graph.contracts[0].1.state_variables, 7);
}

#[test]
fn attack_surface_counts_public_functions_calls_and_delegatecalls() {
    let mut analyzer = DependencyAnalyzer::new();
    analyzer.add_contract(
        "Vault".to_string(),
        node(
            "Vault",
            vec![
                FunctionInfo { name: "deposit".to_string(), visibility: Visibility::External, is_payable: true },
                FunctionInfo { name: "withdraw".to_string(), visibility: Visibility::Public, is_payable: false },
                FunctionInfo { name: "_move".to_string(), visibility: Visibility::Internal, is_payable: false },
            ],
        ),
    );
    analyzer.add_edge("Vault".to_string(), "Token".to_string(), EdgeType::Calls);
    analyzer.add_edge("Vault".to_string(), "Oracle".to_string(), EdgeType::Calls);
    analyzer.add_edge("Vault".to_string(), "Impl".to_string(), EdgeType::DelegateCalls);
    analyzer.add_edge("Other".to_string(), "Token".to_string(), EdgeType::Calls);

    let surface = analyzer.get_attack_surface("Vault");
    assert_eq!(surface.public_functions, 2);
    assert_eq!(surface.external_dependencies, 2);
    assert!(surface.receives_eth);
    assert!(surface.has_delegatecall);

    let missing = analyzer.get_attack_surface("Nobody");
    assert_eq!(missing.public_functions, 0);
    assert_eq!(missing.external_dependencies, 0);
    assert!(!missing.receives_eth);
    assert!(!missing.has_delegatecall);
}

#[test]
fn inheritance_tree_and_calls_follow_edge_order() {
    let mut analyzer = DependencyAnalyzer::new();
    analyzer.add_edge("C".to_string(), "B".to_string(), EdgeType::Inherits);
    analyzer.add_edge("C".to_string(), "X".to_string(), EdgeType::Calls);
    analyzer.add_edge("C".to_string(), "A".to_string(), EdgeType::Inherits);
    analyzer.add_edge("D".to_string(), "C".to_string(), EdgeType::Inherits);
    analyzer.add_edge("D".to_string(), "P".to_string(), EdgeType::DelegateCalls);
    analyzer.add_edge("D".to_string(), "U".to_string(), EdgeType::Uses);

    let graph = analyzer.build_graph();
    assert_eq!(graph.inheritance_tree.len(), 2);
    assert_eq!(graph.inheritance_tree[0].0, "C");
    assert_eq!(graph.inheritance_tree[0].1, vec!["B".to_string(), "A".to_string()]);
    assert_eq!(graph.inheritance_tree[1].0, "D");
    assert_eq!(graph.inheritance_tree[1].1, vec!["C".to_string()]);

    assert_eq!(graph.external_calls.len(), 2);
    assert_eq!(graph.external_calls[0].to_contract, "X");
    assert!(matches!(graph.external_calls[0].call_type, CallType::Direct));
    assert_eq!(graph.external_calls[1].to_contract, "P");
    assert!(matches!(graph.external_calls[1].call_type, CallType::DelegateCall));
    assert_eq!(graph.external_calls[1].from_function, "");
    assert_eq!(graph.external_calls[1].line_number, 0);
}

#[test]
fn cycles_report_the_search_path() {
    let mut analyzer = DependencyAnalyzer::new();
    analyzer.add_contract("A".to_string(), node("A", vec![]));
    analyzer.add_contract("B".to_string(), node("B", vec![]));
    analyzer.add_edge("A".to_string(), "B".to_string(), EdgeType::Calls);
    analyzer.add_edge("B".to_string(), "A".to_string(), EdgeType::Calls);
    let cycles = analyzer.detect_cycles();
    assert_eq!(cycles, vec![vec!["A".to_string(), "B".to_string()]]);
}

#[test]
fn acyclic_graph_has_no_cycles() {
    let mut analyzer = DependencyAnalyzer::new();
    analyzer.add_contract("A".to_string(), node("A", vec![]));
    analyzer.add_edge("A".to_string(), "B".to_string(), EdgeType::Calls);
    analyzer.add_edge("B".to_string(), "C".to_string(), EdgeType::Calls);
    assert!(analyzer.detect_cycles().is_empty());
}

#[test]
fn graphviz_lists_every_edge_with_its_style() {
    let mut analyzer = DependencyAnalyzer::default();
    analyzer.add_edge("A".to_string(), "B".to_string(), EdgeType::Inherits);
    analyzer.add_edge("A".to_string(), "C".to_string(), EdgeType::DelegateCalls);
    let dot = analyzer.export_graphviz();
    assert_eq!(
        dot,
        "digraph Dependencies {\n  rankdir=TB;\n  node [shape=box];\n\n  \"A\" -> \"B\" [style=solid];\n  \"A\" -> \"C\" [style=bold,color=red];\n}\n"
    );
}
