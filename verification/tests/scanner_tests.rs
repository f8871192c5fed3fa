use scpf::contract_type::{ContractType, ContractTypeDetector};
use scpf::ast_check::validate_source;
use scpf::scanner::{Scanner, ValidationResult};
use scpf::types::{Pattern, PatternKind, Severity, Template};

fn template(id: &str, patterns: Vec<(&str, PatternKind, &str)>) -> Template {
    Template {
        id: id.to_string(),
        name: String::new(),
        description: String::new(),
        severity: Severity::High,
        tags: Vec::new(),
        patterns: patterns
            .into_iter()
            .map(|(pid, kind, p)| Pattern {
                id: pid.to_string(),
                kind,
                pattern: p.to_string(),
                severity: Severity::High,
                message: "Test".to_string(),
            })
            .collect(),
    }
}

#[test]
fn test_scanner_utf8_context() {
    let template = template("test", vec![("test-pattern", PatternKind::Regex, "test")]);
    let scanner = Scanner::new(vec![template]).unwrap();
    let prefix = "你".repeat(20);
    let source = format!("{}test", prefix);

    let findings = scanner.scan(&source, "test.sol").unwrap();
    assert_eq!(findings.len(), 1);
}

#[test]
fn findings_carry_line_column_context_and_snippet() {
    let t = template("tx-origin", vec![("tx-origin-use", PatternKind::Literal, "tx.origin")]);
    let scanner = Scanner::new(vec![t]).unwrap();
    let source = "contract A {\n  function f() public {\n    require(tx.origin == owner);\n  }\n}\n";
    let findings = scanner.scan(source, "a.sol").unwrap();
    assert_eq!(findings.len(), 1);
    let m = &findings[0];
    assert_eq!(m.template_id, "tx-origin");
    assert_eq!(m.pattern_id, "tx-origin-use");
    assert_eq!(m.file_path, "a.sol");
    assert_eq!(m.line_number, 3);
    assert_eq!(m.column, 12);
    assert_eq!(m.matched_text, "tx.origin");
    assert_eq!(m.context, "contract A {\n  function f() public {\n    require(tx.origin == owner);\n  }\n}");
    let snippet = m.code_snippet.as_ref().unwrap();
    assert_eq!(snippet.before, "  function f() public {");
    assert_eq!(snippet.vulnerable_line, "    require(tx.origin == owner);");
    assert_eq!(snippet.after, "  }");
    assert_eq!(snippet.line_start, 2);
    assert!(!m.filtered);
}

#[test]
fn unsafe_and_invalid_patterns_are_left_out() {
    let t1 = template("bad", vec![("nested", PatternKind::Regex, "(a+)+"), ("broken", PatternKind::Regex, "(")]);
    let t2 = template("ok", vec![("empty", PatternKind::Literal, ""), ("call", PatternKind::Regex, "\\.call\\{")]);
    let scanner = Scanner::new(vec![t1, t2]).unwrap();
    let findings = scanner.scan("x.call{value: 1}(\"\");", "c.sol").unwrap();
    assert_eq!(findings.len(), 1);
    assert_eq!(findings[0].template_id, "ok");
    assert_eq!(findings[0].pattern_id, "call");
}

#[test]
fn protected_findings_and_repeated_spots_are_dropped() {
    let t = template(
        "access",
        vec![("external-mint-no-modifier", PatternKind::Literal, "mint;"), ("mint-again", PatternKind::Literal, "mint;")],
    );
    let scanner = Scanner::new(vec![t]).unwrap();
    // Findings are checked against the function whose byte span holds their line number.
    let source = format!("contract T {{\nfunction mint() external onlyOwner {{\n{}mint;\n}}\n}}\n", "\n".repeat(20));
    let findings = scanner.scan(&source, "m.sol").unwrap();
    assert_eq!(findings.len(), 1);
    assert_eq!(findings[0].pattern_id, "mint-again");
}

#[test]
fn unprotected_functions_keep_their_findings() {
    let t = template("access", vec![("external-mint-no-modifier", PatternKind::Literal, "mint;")]);
    let scanner = Scanner::new(vec![t]).unwrap();
    let source = format!("contract T {{\nfunction mint() external {{\n{}mint;\n}}\n}}\n", "\n".repeat(20));
    let findings = scanner.scan(&source, "m.sol").unwrap();
    assert_eq!(findings.len(), 1);
    assert_eq!(validate_source(&source, "external-mint-no-modifier", 23), ValidationResult::Vulnerable);
    assert_eq!(validate_source("contract {", "external-mint-no-modifier", 1), ValidationResult::ParseError);
}

#[test]
fn interface_declarations_are_not_reported() {
    let t = template("iface", vec![("fn", PatternKind::Literal, "transfer")]);
    let scanner = Scanner::new(vec![t]).unwrap();
    let findings = scanner.scan("function transfer(address to) external;", "i.sol").unwrap();
    assert!(findings.is_empty());
}

#[test]
fn integer_overflow_templates_skip_modern_sources() {
    let t = template("integer_overflow_add", vec![("add", PatternKind::Literal, "a + b")]);
    let scanner = Scanner::new(vec![t]).unwrap();
    let old = scanner.scan("pragma solidity ^0.7.6;\nuint c = a + b {", "o.sol").unwrap();
    assert_eq!(old.len(), 1);
    let modern = scanner.scan("pragma solidity ^0.8.0;\nuint c = a + b {", "n.sol").unwrap();
    assert!(modern.is_empty());
}

#[test]
fn oversized_sources_give_no_findings() {
    let t = template("t", vec![("a", PatternKind::Literal, "a")]);
    let scanner = Scanner::new(vec![t]).unwrap();
    let source = "a".repeat(1_572_865);
    assert!(scanner.scan(&source, "big.sol").unwrap().is_empty());
}

#[test]
fn large_sources_are_scanned_in_chunks_without_repeats() {
    let t = template("t", vec![("marker", PatternKind::Literal, "MARK")]);
    let scanner = Scanner::new(vec![t]).unwrap();
    let mut source = "x\n".repeat(400_000);
    source.push_str("MARK\n");
    let findings = scanner.scan(&source, "big.sol").unwrap();
    assert_eq!(findings.len(), 1);
    assert_eq!(findings[0].line_number, 400_001);
}

#[test]
fn nft_contracts_skip_exchange_price_patterns() {
    let t = template("price", vec![("sqrt-price-no-bounds", PatternKind::Literal, "sqrtPrice")]);
    let scanner = Scanner::new(vec![t]).unwrap();
    let nft = "contract N is ERC721 { uint sqrtPrice; }";
    assert_eq!(ContractTypeDetector::detect(nft), ContractType::NFT);
    assert!(scanner.scan(nft, "n.sol").unwrap().is_empty());
    let plain = "contract P { uint sqrtPrice; }";
    assert_eq!(scanner.scan(plain, "p.sol").unwrap().len(), 1);
}

#[test]
fn literal_matches_do_not_overlap_and_count_bytes() {
    let m = scpf::scanner::CompiledMatcher::Literal("aa".to_string());
    assert_eq!(scpf::scanner::find_spans(&m, "aaaa é aa"), vec![(0, 2), (2, 4), (8, 10)]);
    assert_eq!(scpf::scanner::find_spans(&m, "aaa"), vec![(0, 2)]);
    let accented = scpf::scanner::CompiledMatcher::Literal("é".to_string());
    assert_eq!(scpf::scanner::find_spans(&accented, "xéyé"), vec![(1, 3), (4, 6)]);
    assert_eq!(scpf::scanner::find_spans(&accented, ""), Vec::<(usize, usize)>::new());
}
