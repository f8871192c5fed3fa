use scpf::state_analysis::{
    ContractState, Invariant, InvariantSeverity, SlotType, StateAnalyzer, StorageSlot,
};

fn empty_state() -> ContractState {
    ContractState { storage: Vec::new(), balances: Vec::new() }
}

#[test]
fn test_state_analyzer() {
    let mut analyzer = StateAnalyzer::new();

    let mut state = empty_state();

    state.storage.push((
        "owner".to_string(),
        StorageSlot {
            name: "owner".to_string(),
            slot_type: SlotType::Scalar { scalar_type: "address".to_string() },
            read_by: vec!["onlyOwner".to_string()],
            written_by: vec!["transferOwnership".to_string()],
        },
    ));

    let violations = analyzer.analyze(&state);
    assert!(!violations.is_empty());
}

#[test]
fn test_invariant_inference() {
    let analyzer = StateAnalyzer::new();

    let mut state = empty_state();

    state.storage.push((
        "balances".to_string(),
        StorageSlot {
            name: "balances".to_string(),
            slot_type: SlotType::Mapping {
                key_type: "address".to_string(),
                value_type: "uint256".to_string(),
            },
            read_by: vec!["balanceOf".to_string()],
            written_by: vec!["transfer".to_string(), "mint".to_string()],
        },
    ));

    let invariants = analyzer.infer_common_invariants(&state);
    assert!(!invariants.is_empty());
}

#[test]
fn inference_follows_slot_names_in_order() {
    let analyzer = StateAnalyzer::default();
    let mut state = empty_state();
    state.storage.push((
        "balances".to_string(),
        StorageSlot {
            name: "balances".to_string(),
            slot_type: SlotType::Mapping { key_type: "address".to_string(), value_type: "uint256".to_string() },
            read_by: vec![],
            written_by: vec!["transfer".to_string(), "mint".to_string()],
        },
    ));
    state.storage.push((
        "nonce".to_string(),
        StorageSlot {
            name: "nonce".to_string(),
            slot_type: SlotType::Scalar { scalar_type: "uint256".to_string() },
            read_by: vec![],
            written_by: vec![],
        },
    ));
    let invariants = analyzer.infer_common_invariants(&state);
    assert_eq!(invariants.len(), 3);
    assert_eq!(invariants[0].description, "balances should never exceed total supply");
    assert_eq!(invariants[0].expression, "balances[user] <= totalSupply");
    assert_eq!(invariants[0].severity, InvariantSeverity::High);
    assert_eq!(invariants[1].description, "balances has multiple writers - check for race conditions");
    assert_eq!(invariants[1].expression, "Concurrent writes to balances");
    assert_eq!(invariants[2].expression, "nonce_new >= nonce_old");
    assert_eq!(invariants[2].severity, InvariantSeverity::Medium);
}

#[test]
fn owner_violation_describes_the_ownership_attack() {
    let mut analyzer = StateAnalyzer::new();
    let mut state = empty_state();
    state.storage.push((
        "owner".to_string(),
        StorageSlot {
            name: "owner".to_string(),
            slot_type: SlotType::Scalar { scalar_type: "address".to_string() },
            read_by: vec![],
            written_by: vec![],
        },
    ));
    let violations = analyzer.analyze(&state);
    assert_eq!(violations.len(), 1);
    assert_eq!(violations[0].attack_sequence.len(), 1);
    assert_eq!(violations[0].attack_sequence[0].function, "transferOwnership");
    assert_eq!(
        violations[0].exploit_description,
        "## Invariant Violation: owner should never be zero address\n\n**Severity**: Critical\n\n### Attack Sequence:\n\n1. `transferOwnership(address(0))` called by attacker\n\n### Impact:\nViolates: `owner != address(0)`\n"
    );
    assert_eq!(analyzer.get_critical_violations().len(), 1);
    assert_eq!(analyzer.get_violations().len(), 1);
}

#[test]
fn reentrancy_invariant_gets_double_withdraw() {
    let mut analyzer = StateAnalyzer::new();
    analyzer.add_invariant(Invariant {
        description: "no reentrancy into withdraw".to_string(),
        expression: "locked".to_string(),
        severity: InvariantSeverity::High,
    });
    analyzer.add_invariant(Invariant {
        description: "fees stay small".to_string(),
        expression: "fee < 10".to_string(),
        severity: InvariantSeverity::Medium,
    });
    let violations = analyzer.analyze(&empty_state());
    assert_eq!(violations.len(), 1);
    assert_eq!(violations[0].attack_sequence.len(), 2);
    assert!(violations[0].exploit_description.contains("2. `withdraw(amount)` called by attacker\n"));
    let report = analyzer.export_report();
    assert!(report.starts_with("# State Analysis Report\n\nTotal invariants checked: 2\nViolations found: 1\n\n"));
    assert!(report.contains("## High Severity Violations (1)\n\n"));
    assert!(!report.contains("## Critical Violations"));
}

#[test]
fn empty_report_has_only_counts() {
    let analyzer = StateAnalyzer::new();
    assert_eq!(
        analyzer.export_report(),
        "# State Analysis Report\n\nTotal invariants checked: 0\nViolations found: 0\n\n"
    );
}

fn owner_state() -> ContractState {
    let mut state = empty_state();
    state.storage.push((
        "owner".to_string(),
        StorageSlot {
            name: "owner".to_string(),
            slot_type: SlotType::Scalar { scalar_type: "address".to_string() },
            read_by: vec![],
            written_by: vec![],
        },
    ));
    state
}

#[test]
fn analyzing_twice_repeats_the_inferred_violations() {
    let mut analyzer = StateAnalyzer::new();
    let state = owner_state();
    let first = analyzer.analyze(&state);
    assert_eq!(first.len(), 1);
    let second = analyzer.analyze(&state);
    assert_eq!(second.len(), 2);
    assert_eq!(second[0].exploit_description, first[0].exploit_description);
    assert_eq!(second[1].exploit_description, first[0].exploit_description);
    assert!(analyzer
        .export_report()
        .starts_with("# State Analysis Report\n\nTotal invariants checked: 2\nViolations found: 2\n\n"));
}

#[test]
fn added_invariant_is_checked_before_the_inferred_ones() {
    let mut analyzer = StateAnalyzer::new();
    analyzer.add_invariant(Invariant {
        description: "no reentrancy into withdraw".to_string(),
        expression: "locked".to_string(),
        severity: InvariantSeverity::High,
    });
    let violations = analyzer.analyze(&owner_state());
    assert_eq!(violations.len(), 2);
    assert_eq!(violations[0].broken_invariant.description, "no reentrancy into withdraw");
    assert_eq!(violations[1].broken_invariant.description, "owner should never be zero address");
    let report = analyzer.export_report();
    assert!(report.starts_with("# State Analysis Report\n\nTotal invariants checked: 2\nViolations found: 2\n\n"));
    assert!(report.contains("## Critical Violations (1)\n\n"));
    assert!(report.contains("## High Severity Violations (1)\n\n"));
}

#[test]
fn added_invariant_is_counted_and_reported_iff_it_names_an_attack() {
    let mut analyzer = StateAnalyzer::new();
    assert!(analyzer.export_report().contains("Total invariants checked: 0\n"));
    analyzer.add_invariant(Invariant {
        description: "admin key stays set".to_string(),
        expression: "admin != 0".to_string(),
        severity: InvariantSeverity::Critical,
    });
    assert!(analyzer.get_violations().is_empty());
    assert!(analyzer.export_report().contains("Total invariants checked: 1\n"));
    analyzer.add_invariant(Invariant {
        description: "fees stay small".to_string(),
        expression: "fee < 10".to_string(),
        severity: InvariantSeverity::Medium,
    });
    assert!(analyzer.export_report().contains("Total invariants checked: 2\n"));
    let violations = analyzer.analyze(&empty_state());
    assert_eq!(violations.len(), 1);
    assert_eq!(violations[0].broken_invariant.description, "admin key stays set");
    assert!(!violations.iter().any(|v| v.broken_invariant.description == "fees stay small"));
}
