use scpf::invariant_gen::{InvariantCategory, InvariantGenerator};

#[test]
fn test_invariant_generation() {
    let source = r#"
        contract Token {
            mapping(address => uint256) public balances;
            uint256 public totalSupply;
            address public owner;
            uint256 public nonce;
            
            function balanceOf(address user) public view returns (uint256) {
                return balances[user];
            }
        }
        "#;

    let gen = InvariantGenerator::new(source.to_string(), "Token".to_string());
    let invariants = gen.generate();

    assert!(!invariants.is_empty());
    assert!(invariants.iter().any(|i| i.name.contains("balance")));
    assert!(invariants.iter().any(|i| i.name.contains("supply")));
}

#[test]
fn test_foundry_export() {
    let gen = InvariantGenerator::new("contract Test {}".to_string(), "Test".to_string());
    let test_code = gen.export_foundry_test();

    assert!(test_code.contains("pragma solidity"));
    assert!(test_code.contains("TestInvariantTest"));
    assert!(test_code.contains("forge-std/Test.sol"));
}

#[test]
fn generated_invariants_come_in_rule_order() {
    let source = "mapping(address => uint256) public balances; uint256 totalSupply; function balanceOf() {} uint nonce; address owner;";
    let gen = InvariantGenerator::new(source.to_string(), "Token".to_string());
    let names: Vec<String> = gen.generate().into_iter().map(|g| g.name).collect();
    assert_eq!(
        names,
        vec![
            "sum_balances_conservation",
            "total_supply_non_negative",
            "balance_lte_supply",
            "nonce_monotonic_increase",
            "owner_not_zero",
        ]
    );
}

#[test]
fn role_invariants_need_whole_words() {
    let gen = InvariantGenerator::new("address owners; address admin;".to_string(), "C".to_string());
    let invs = gen.generate();
    assert_eq!(invs.len(), 1);
    assert_eq!(invs[0].name, "admin_not_zero");
    assert_eq!(invs[0].confidence_percent, 85);
    assert_eq!(invs[0].category, InvariantCategory::NonZero);
    assert_eq!(invs[0].solidity_code, "function invariant_adminNotZero() public view returns (bool) {\n    return admin != address(0);\n}");
}

#[test]
fn foundry_export_lists_each_invariant_block() {
    let gen = InvariantGenerator::new("uint epoch;".to_string(), "Clock".to_string());
    let code = gen.export_foundry_test();
    let expected = "// SPDX-License-Identifier: MIT\npragma solidity ^0.8.0;\n\nimport \"forge-std/Test.sol\";\nimport \"../src/Clock.sol\";\n\ncontract ClockInvariantTest is Test {\n    Clock public target;\n    \n    function setUp() public {\n        target = new Clock();\n    }\n\n    // epoch should never decrease\n    // Confidence: 80%\n    // Category: MonotonicIncrease\n    uint256 private last_epoch;\nfunction invariant_epochMonotonic() public returns (bool) {\n    bool result = epoch >= last_epoch;\n    last_epoch = epoch;\n    return result;\n}\n}\n";
    assert_eq!(code, expected);
}
