use scpf::accuracy::{AccuracyEvaluator, ContractLabel, GroundTruth, VulnerabilityLabel};
use scpf::types::{Match, Severity};

fn finding(file: &str, pattern: &str, line: usize) -> Match {
    Match {
        template_id: "test".to_string(),
        pattern_id: pattern.to_string(),
        file_path: file.to_string(),
        line_number: line,
        column: 0,
        matched_text: "test".to_string(),
        context: "test".to_string(),
        code_snippet: None,
        severity: Severity::High,
        message: "test".to_string(),
        start_byte: None,
        end_byte: None,
        function_context: None,
        protections: None,
        filtered: false,
    }
}

fn label(pattern: &str, line: usize) -> VulnerabilityLabel {
    VulnerabilityLabel {
        pattern_id: pattern.to_string(),
        line_number: line,
        severity: "high".to_string(),
        description: "Test".to_string(),
        exploitable: true,
    }
}

#[test]
fn test_accuracy_calculation() {
    let ground_truth = GroundTruth {
        contracts: vec![ContractLabel {
            file_path: "test.sol".to_string(),
            description: "Test".to_string(),
            vulnerabilities: vec![label("reentrancy", 10)],
            safe_patterns: vec![],
        }],
    };

    let evaluator = AccuracyEvaluator { ground_truth };

    let findings = vec![finding("test.sol", "reentrancy", 10)];

    let metrics = evaluator.evaluate(&findings);
    assert_eq!(metrics.true_positives, 1);
    assert_eq!(metrics.false_positives, 0);
    assert_eq!(metrics.false_negatives, 0);
    let tp = metrics.true_positives as f64;
    let precision = tp / (tp + metrics.false_positives as f64);
    let recall = tp / (tp + metrics.false_negatives as f64);
    assert_eq!(precision, 1.0);
    assert_eq!(recall, 1.0);
}

#[test]
fn findings_off_by_more_than_two_lines_or_outside_labelled_files_are_false_positives() {
    let ground_truth = GroundTruth {
        contracts: vec![ContractLabel {
            file_path: "a.sol".to_string(),
            description: String::new(),
            vulnerabilities: vec![label("reentrancy", 10), label("tx-origin", 30)],
            safe_patterns: vec![],
        }],
    };
    let evaluator = AccuracyEvaluator::new(ground_truth);
    let findings = vec![
        finding("/repo/a.sol", "reentrancy", 12),
        finding("/repo/a.sol", "reentrancy", 13),
        finding("/repo/other.sol", "reentrancy", 10),
    ];
    let m = evaluator.evaluate(&findings);
    // One hit, one miss in a labelled file, one finding in no labelled file.
    assert_eq!(m.true_positives, 1);
    assert_eq!(m.false_positives, 2);
    assert_eq!(m.true_positives + m.false_positives, 3);
    // A label counts as found only when the finding's path is the label's
    // file itself, so both labels of `a.sol` stay unfound here.
    assert_eq!(m.false_negatives, 2);
}

#[test]
fn per_pattern_counts_have_one_entry_per_pattern() {
    let ground_truth = GroundTruth {
        contracts: vec![ContractLabel {
            file_path: "test.sol".to_string(),
            description: "Test".to_string(),
            vulnerabilities: vec![label("reentrancy", 10)],
            safe_patterns: vec![],
        }],
    };
    let evaluator = AccuracyEvaluator { ground_truth };
    let findings = vec![finding("test.sol", "reentrancy", 12), finding("other.sol", "reentrancy", 5)];
    let metrics = evaluator.evaluate(&findings);
    assert_eq!(metrics.true_positives, 1);
    assert_eq!(metrics.false_positives, 1);
    assert_eq!(metrics.false_negatives, 0);
    assert_eq!(metrics.per_category, vec![("reentrancy".to_string(), (1, 0, 0))]);
}
