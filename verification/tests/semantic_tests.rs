use scpf::semantic::SemanticScanner;
use scpf::types::{Pattern, PatternKind, Severity};

fn pattern(query: &str) -> Pattern {
    Pattern {
        id: "fn-name".to_string(),
        kind: PatternKind::Semantic,
        pattern: query.to_string(),
        severity: Severity::Low,
        message: "function".to_string(),
    }
}

#[test]
fn test_semantic_scanner_initialization() {
    let _scanner = SemanticScanner::new();
}

#[test]
fn captures_become_findings_with_their_line() {
    let scanner = SemanticScanner::new();
    let source = "contract A {\n    function foo() public {}\n    function bar() public {}\n}\n";
    let found = scanner
        .scan(source, &pattern("(function_definition name: (identifier) @name)"), "t", Severity::Low, "a.sol")
        .unwrap();
    assert_eq!(found.len(), 2);
    assert_eq!(found[0].matched_text, "foo");
    assert_eq!(found[0].line_number, 2);
    assert_eq!(found[0].column, 13);
    assert_eq!(found[0].context, "    function foo() public {}");
    assert_eq!(found[1].matched_text, "bar");
    assert_eq!(found[1].line_number, 3);
    assert_eq!(found[1].start_byte, Some(source.find("bar").unwrap()));
}

#[test]
fn bad_queries_are_errors() {
    let scanner = SemanticScanner::new();
    let err = scanner.scan("contract A {}", &pattern("(function_call) @c"), "t", Severity::Low, "a.sol").unwrap_err();
    assert!(err.starts_with("Query error at "));
}

#[test]
fn test_reentrancy_detection() {
    let scanner = SemanticScanner::new();
    let code = r#"contract Test {
    function withdraw() public {
        msg.sender.call{value: balance}("");
        balance = 0;
    }
}"#;
    let pattern = Pattern {
        id: "call-value".to_string(),
        pattern: r#"(call_expression) @call"#.to_string(),
        message: "External call detected".to_string(),
        kind: PatternKind::Semantic,
        severity: Severity::High,
    };
    let result = scanner.scan(code, &pattern, "reentrancy", Severity::High, "test.sol");
    if let Err(e) = &result {
        println!("Error: {:?}", e);
    }
    assert!(result.is_ok());
    let matches = result.unwrap();
    assert!(!matches.is_empty());
}

#[test]
fn test_tx_origin_detection() {
    let scanner = SemanticScanner::new();
    let code = r#"contract Test {
    function auth() public {
        require(tx.origin == owner);
    }
}"#;
    let pattern = Pattern {
        id: "tx-origin".to_string(),
        pattern: r#"(member_expression
    object: (identifier) @tx
    property: (identifier) @origin
    (#eq? @tx "tx")
    (#eq? @origin "origin")) @usage"#
            .to_string(),
        message: "tx.origin usage detected".to_string(),
        kind: PatternKind::Semantic,
        severity: Severity::High,
    };
    let result = scanner.scan(code, &pattern, "tx-origin", Severity::High, "test.sol");
    if let Err(e) = &result {
        println!("Error: {:?}", e);
    }
    assert!(result.is_ok());
    let matches = result.unwrap();
    assert!(!matches.is_empty());
}
