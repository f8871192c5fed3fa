use scpf::poc_stager::{
    candidate_id, exploitability_tenths, extract_context, extract_function_name, function_context, signals_in,
    PocPriority,
};
use scpf::source_index::source_lines;
use scpf::types::{CodeSnippet, Match, Severity};

fn finding(pattern: &str, line: usize, snippet: bool) -> Match {
    Match {
        template_id: "test".to_string(),
        pattern_id: pattern.to_string(),
        file_path: "test.sol".to_string(),
        line_number: line,
        column: 0,
        matched_text: "call{value:".to_string(),
        context: "test".to_string(),
        code_snippet: if snippet {
            Some(CodeSnippet {
                before: String::new(),
                vulnerable_line: "call{value: amount}".to_string(),
                after: String::new(),
                line_start: 0,
            })
        } else {
            None
        },
        severity: Severity::High,
        message: "Reentrancy".to_string(),
        start_byte: None,
        end_byte: None,
        function_context: None,
        protections: None,
        filtered: false,
    }
}

#[test]
fn poc_signals_for_unprotected_reentrancy() {
    // The staging decision combines these signals in floating point, as the
    // staging command does: 0.5 base confidence, 0.1 for a snippet, 0.2 for a
    // dangerous construct, 0.2 for a missing protection.
    let f = finding("reentrancy-unprotected", 10, true);
    let source = "function withdraw() public { msg.sender.call{value: balance}(\"\"); }";
    let lines = source_lines(source);
    let context = function_context(&lines, f.line_number);
    let s = signals_in(&f, &context);
    let mut confidence = 0.5_f64;
    if s.has_snippet {
        confidence += 0.1;
    }
    if s.vulnerable_pattern {
        confidence += 0.2;
    }
    if s.lacks_protection {
        confidence += 0.2;
    }
    let confidence = confidence.min(1.0);
    let exploitability = exploitability_tenths(&f.pattern_id) as f64 / 10.0;
    // Line 10 of a one-line source: the window around it is empty.
    assert_eq!(context, "");
    assert!(!s.vulnerable_pattern && s.lacks_protection);
    assert!(confidence >= 0.6 && exploitability >= 0.5);
    assert_eq!(candidate_id(&f.pattern_id, f.line_number), "reentrancy-unprotected:10");
}

#[test]
fn window_of_lines_around_a_finding() {
    let source = (1..=20).map(|i| format!("l{}", i)).collect::<Vec<_>>().join("\n");
    let lines = source_lines(&source);
    assert_eq!(function_context(&lines, 7), "l3\nl4\nl5\nl6\nl7\nl8\nl9\nl10\nl11\nl12");
    assert_eq!(function_context(&lines, 2), "l1\nl2\nl3\nl4\nl5\nl6\nl7");
    assert_eq!(function_context(&lines, 25), "");
}

#[test]
fn nearest_function_above_the_finding() {
    let source = "contract C {\n  function  foo ( uint x) {\n    x = 1;\n  }\n  function bar\n}";
    let lines = source_lines(source);
    assert_eq!(extract_function_name(&lines, 3), "foo");
    assert_eq!(extract_function_name(&lines, 6), "foo");
    assert_eq!(extract_function_name(&lines, 1), "unknown");
    assert_eq!(extract_function_name(&lines, 100), "foo");
}

#[test]
fn signals_and_exploitability_tiers() {
    let f = finding("x", 1, false);
    let s = signals_in(&f, "a = b; addr.transfer(1); require(ok);");
    assert!(!s.has_snippet);
    assert!(s.state_change && s.external_call && s.value_transfer);
    assert!(!s.lacks_protection);
    assert!(!signals_in(&f, "a == b").state_change);
    assert!(signals_in(&f, "tx\\.origin").vulnerable_pattern);
    assert!(!signals_in(&f, "tx.origin").vulnerable_pattern);
    assert_eq!(exploitability_tenths("missing-access-check"), 9);
    assert_eq!(exploitability_tenths("delegatecall-x"), 8);
    assert_eq!(exploitability_tenths("unchecked-call"), 7);
    assert_eq!(exploitability_tenths("timestamp"), 6);
    assert_eq!(exploitability_tenths("other"), 5);
    assert_eq!(PocPriority::Critical.rank(), 4);
}

#[test]
fn context_for_proof_of_concept() {
    let source = "function pay(address a) {\n a.call{value: 1}(\"\");\n}";
    let lines = source_lines(source);
    let f = finding("reentrancy", 2, false);
    let c = extract_context(&f, source, &lines, "Bank");
    assert_eq!(c.vulnerable_function, "pay");
    assert_eq!(c.line_number, 2);
    assert_eq!(c.matched_code, source);
    assert_eq!(c.contract_name, "Bank");
    assert!(c.dependencies.is_empty());
}
