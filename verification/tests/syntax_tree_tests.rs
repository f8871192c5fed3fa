use scpf::control_flow::{is_vulnerable_reentrancy, reentrancy_in_tree};
use scpf::dataflow::{DataFlowAnalysis, MutationType, ReentrancyAnalyzer, RiskSeverity, StateChange, StateMutationTracker};
use scpf::syntax_tree::{parse_solidity, SyntaxNode};

fn node(kind: &str, text: &str, row: usize, end: usize) -> SyntaxNode {
    SyntaxNode {
        kind: kind.to_string(),
        text: Some(text.to_string()),
        start_row: row,
        end_row: row,
        end,
        name: None,
        type_text: None,
    }
}

fn named(kind: &str, name: &str, type_text: Option<&str>, row: usize, end_row: usize, end: usize) -> SyntaxNode {
    SyntaxNode {
        kind: kind.to_string(),
        text: None,
        start_row: row,
        end_row,
        end,
        name: Some(Some(name.to_string())),
        type_text: type_text.map(|t| t.to_string()),
    }
}

const BANK: &str = "contract Bank {\n    uint256 total;\n    mapping(address => uint) balances;\n    function withdraw() public {\n        msg.sender.call{value: balances[msg.sender]}(\"\");\n        balances[msg.sender] = 0;\n    }\n}\n";

const SAFE_BANK: &str = "contract Bank {\n    mapping(address => uint) balances;\n    function withdraw() public {\n        uint amount = balances[msg.sender];\n        balances[msg.sender] = 0;\n        msg.sender.call{value: amount}(\"\");\n    }\n}\n";

#[test]
fn parsed_trees_list_nodes_in_pre_order_with_their_subtrees() {
    let nodes = parse_solidity(BANK).unwrap();
    assert_eq!(nodes[0].kind, "source_file");
    assert_eq!(nodes[0].end, nodes.len());
    assert_eq!(nodes[1].kind, "contract_declaration");
    for (k, n) in nodes.iter().enumerate() {
        assert!(k < n.end && n.end <= nodes.len());
    }
    let decl = nodes.iter().position(|n| n.kind == "state_variable_declaration").unwrap();
    assert_eq!(nodes[decl].name, Some(Some("total".to_string())));
    assert_eq!(nodes[decl].type_text, Some("uint256".to_string()));
    assert_eq!(nodes[decl].start_row, 1);
}

#[test]
fn data_flow_of_hand_built_tree() {
    let nodes = vec![
        node("source_file", "", 0, 8),
        node("function_call", "msg.sender.call{value: 1}(\"\")", 3, 4),
        node("member_access", "msg.sender.call", 3, 4),
        node("identifier", "call", 3, 4),
        node("assignment", "balances[a] = 0", 4, 6),
        node("member_access", "balances[a]", 4, 6),
        node("augmented_assignment", "total -= 1", 5, 8),
        node("identifier", "total", 5, 8),
    ];
    let analysis = DataFlowAnalysis::analyze_nodes(&nodes);
    assert_eq!(analysis.external_calls.len(), 1);
    assert_eq!(analysis.external_calls[0].method, "call");
    assert_eq!(analysis.external_calls[0].line, 4);
    assert!(analysis.external_calls[0].has_value);
    assert_eq!(
        analysis.state_changes,
        vec![
            StateChange::MapWrite { map: "balances".to_string(), line: 5 },
            StateChange::Decrement { var: "total".to_string(), line: 6 },
        ]
    );
    assert_eq!(analysis.reentrancy_risks.len(), 2);
    assert_eq!(analysis.reentrancy_risks[0].severity, RiskSeverity::Critical);
    assert_eq!(analysis.reentrancy_risks[1].state_var, "total");
}

#[test]
fn calls_need_a_member_access_naming_an_external_method() {
    let nodes = vec![
        node("source_file", "", 0, 4),
        node("function_call", "token.approve(x)", 0, 4),
        node("member_access", "token.approve", 0, 4),
        node("identifier", "approve", 0, 4),
    ];
    assert!(DataFlowAnalysis::analyze_nodes(&nodes).external_calls.is_empty());
}

#[test]
fn grammar_kinds_differ_from_the_data_flow_kinds() {
    let analysis = DataFlowAnalysis::analyze(BANK);
    assert!(analysis.external_calls.is_empty());
    assert!(analysis.state_changes.is_empty());
    assert!(analysis.reentrancy_risks.is_empty());
    assert!(ReentrancyAnalyzer.analyze(BANK).is_empty());
}

#[test]
fn tracker_records_writes_after_calls_in_hand_built_tree() {
    let nodes = vec![
        node("source_file", "", 0, 8),
        named("state_variable_declaration", "balances", Some("mapping(address => uint)"), 1, 1, 2),
        named("function_definition", "withdraw", None, 2, 6, 8),
        node("function_call", "msg.sender.call{value: 1}(\"\")", 3, 4),
        node("assignment", "balances[msg.sender] = 0", 4, 6),
        node("member_access", "balances[msg.sender]", 4, 6),
        node("augmented_assignment", "balances += 1", 5, 8),
        node("identifier", "balances", 5, 8),
    ];
    let mut tracker = StateMutationTracker::new();
    tracker.analyze_nodes(&nodes);
    assert_eq!(tracker.state_variables.len(), 1);
    assert_eq!(tracker.state_variables[0].1.var_type, "mapping(address => uint)");
    assert_eq!(tracker.state_variables[0].1.declaration_line, 2);
    assert_eq!(tracker.external_calls, vec![("withdraw".to_string(), vec![4])]);
    assert_eq!(tracker.mutations.len(), 2);
    assert_eq!(tracker.mutations[0].mutation_type, MutationType::MappingWrite);
    assert_eq!(tracker.mutations[0].line, 5);
    assert_eq!(tracker.mutations[1].mutation_type, MutationType::CompoundAssignment);
    assert!(tracker.mutations.iter().all(|m| m.after_external_call && m.function_name == "withdraw"));
    assert_eq!(tracker.get_cei_violations().len(), 2);
    assert!(tracker.current_function.is_none());
}

#[test]
fn tracker_collects_state_variables_of_a_parsed_contract() {
    let mut tracker = StateMutationTracker::new();
    tracker.analyze_contract(BANK);
    let names: Vec<&str> = tracker.state_variables.iter().map(|(k, _)| k.as_str()).collect();
    assert_eq!(names, vec!["total", "balances"]);
    assert_eq!(tracker.state_variables[0].1.var_type, "uint256");
    assert_eq!(tracker.state_variables[1].1.declaration_line, 3);
    assert!(tracker.mutations.is_empty());
    assert!(tracker.current_function.is_none());
}

#[test]
fn state_change_after_call_is_vulnerable() {
    assert!(is_vulnerable_reentrancy(BANK, 5));
    assert!(!is_vulnerable_reentrancy(SAFE_BANK, 6));
    // A line outside every function cannot be analyzed: the finding stands.
    assert!(is_vulnerable_reentrancy(SAFE_BANK, 1));
}

#[test]
fn control_flow_of_hand_built_tree() {
    let nodes = vec![
        node("source_file", "", 0, 4),
        named("function_definition", "f", None, 1, 4, 4),
        node("assignment_expression", "x = 1", 2, 3),
        node("call_expression", "a.send(1)", 3, 4),
    ];
    assert!(!reentrancy_in_tree(&nodes, 3));
    assert!(reentrancy_in_tree(&nodes, 9));
}
