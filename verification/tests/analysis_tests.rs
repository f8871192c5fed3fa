use scpf::contract_type::{ContractType, ContractTypeDetector};
use scpf::dataflow::{MutationType, StateMutationTracker, StateVariable};
use scpf::scan_rules::{check_filtered, extract_solidity_version, is_version_gte_0_8, parse_u32};
use scpf::source_index::{extract_code_snippet_cached, source_lines};

#[test]
fn writes_after_calls_are_cei_violations() {
    let mut t = StateMutationTracker::new();
    t.add_state_variable(StateVariable { name: "balances".to_string(), var_type: "mapping".to_string(), declaration_line: 1 });
    t.add_state_variable(StateVariable { name: "owner".to_string(), var_type: "address".to_string(), declaration_line: 2 });
    t.enter_function("withdraw".to_string());
    t.record_assignment("owner", 4);
    t.record_external_call("msg.sender.call{value: x}(\"\")", 5);
    t.record_assignment("balances[msg.sender]", 6);
    t.record_assignment("local", 7);
    t.leave_function();
    t.correlate_calls_and_mutations();
    let v = t.get_cei_violations();
    assert_eq!(v.len(), 1);
    assert_eq!(v[0].variable, "balances");
    assert_eq!(v[0].line, 6);
    assert!(matches!(v[0].mutation_type, MutationType::MappingWrite));
    let (name, kind) = t.classify_lhs(" total ");
    assert_eq!(name, "total");
    assert!(matches!(kind, MutationType::DirectAssignment));
}

#[test]
fn contract_kinds() {
    assert_eq!(ContractTypeDetector::detect("contract X is ERC721 {}"), ContractType::NFT);
    assert_eq!(ContractTypeDetector::detect("uniswap pool slot0"), ContractType::DEX);
    assert_eq!(ContractTypeDetector::detect("function transfer(); function balanceOf();"), ContractType::Token);
    assert_eq!(ContractTypeDetector::detect("contract Empty {}"), ContractType::Unknown);
    assert!(ContractTypeDetector::should_skip_pattern(ContractType::DEX, "external-mint-no-modifier"));
    assert!(!ContractTypeDetector::should_skip_pattern(ContractType::Token, "external-mint-no-modifier"));
}

#[test]
fn pragma_versions() {
    assert_eq!(extract_solidity_version("pragma solidity ^0.8.19;\ncontract A {}"), Some("^0.8.19".to_string()));
    assert_eq!(extract_solidity_version("contract A {}"), None);
    assert!(is_version_gte_0_8(&Some("^0.8.19".to_string())));
    assert!(!is_version_gte_0_8(&Some(">=0.6.0 <0.8.0".to_string())));
    assert!(is_version_gte_0_8(&Some("1.0".to_string())));
    assert_eq!(parse_u32("42"), Some(42));
    assert_eq!(parse_u32("4294967296"), None);
    assert!(!check_filtered("x = y + 1;"));
}

#[test]
fn snippets_around_a_line() {
    let lines = source_lines("a\nb\nc\nd\ne\nf\ng");
    let s = extract_code_snippet_cached(&lines, 4).unwrap();
    assert_eq!(s.vulnerable_line, "d");
    assert_eq!(s.before, "c");
    assert_eq!(s.after, "e");
    assert_eq!(s.line_start, 3);
    assert!(extract_code_snippet_cached(&lines, 0).is_none());
    assert!(extract_code_snippet_cached(&lines, 8).is_none());
}

#[test]
fn trimming_drops_unicode_white_space_at_both_ends() {
    assert_eq!(scpf::text::str_trim("\u{3000}\t a  b \n\u{2028}"), "a  b");
    assert_eq!(scpf::text::str_trim(" \u{85}\u{A0} "), "");
    assert_eq!(scpf::text::str_trim("é x é"), "é x é");
    assert_eq!(scpf::text::str_trim_start("\u{2003}\r\nfn f() \t"), "fn f() \t");
    assert_eq!(scpf::text::str_trim_start(""), "");
}
