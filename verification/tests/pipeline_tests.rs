use scpf::ast_check::{parse_function_facts, validate_functions, FunctionFacts};
use scpf::fetcher::{build_url_with_key, is_valid_address, combine_source_files, parse_source_code, read_block_reply, read_source_reply, LogPager};
use scpf::honeypot_filter::HoneypotFilter;
use scpf::sarif::{sarif_results, sarif_rules, severity_to_sarif_level, severity_to_score};
use scpf::scan_pipeline::{cache_key, critical_findings, gate_contract, high_findings, ContractGate, SeenContent, tally};
use scpf::scanner::ValidationResult;
use scpf::types::{Chain, Match, Severity};

fn finding(pattern: &str, severity: Severity, filtered: bool) -> Match {
    Match {
        template_id: "t".to_string(),
        pattern_id: pattern.to_string(),
        file_path: "a.sol".to_string(),
        line_number: 3,
        column: 0,
        matched_text: "x".to_string(),
        context: "x".to_string(),
        code_snippet: None,
        severity,
        message: format!("{} found", pattern),
        start_byte: None,
        end_byte: None,
        function_context: None,
        protections: None,
        filtered,
    }
}

#[test]
fn addresses_and_urls() {
    assert!(is_valid_address("0x1234567890123456789012345678901234567890"));
    assert!(!is_valid_address("1x1234567890123456789012345678901234567890"));
    assert!(!is_valid_address("0x12"));
    assert_eq!(
        build_url_with_key("0xabc", Chain::Polygon, "K"),
        "https://api.etherscan.io/v2/api?chainid=137&module=contract&action=getsourcecode&address=0xabc&apikey=K"
    );
}

#[test]
fn multi_file_sources_are_joined() {
    let json = r#"{{"language":"Solidity","sources":{"b.sol":{"content":"contract B {}"},"a.sol":{"content":"contract A {}"},"c.sol":{}}}}"#;
    let joined = parse_source_code(json);
    let a = "// File: a.sol\ncontract A {}\n\n";
    let b = "// File: b.sol\ncontract B {}\n\n";
    assert!(joined == format!("{}{}", a, b) || joined == format!("{}{}", b, a));
    assert_eq!(parse_source_code("  contract X {}  "), "  contract X {}  ");
    assert_eq!(parse_source_code("{not json"), "{not json");
    assert_eq!(parse_source_code(r#"{"sources":{"x":{}}}"#), r#"{"sources":{"x":{}}}"#);
}

#[test]
fn source_replies() {
    let ok = r#"{"status":"1","message":"OK","result":[{"SourceCode":"contract C {}"}]}"#;
    assert_eq!(read_source_reply(ok), Ok("contract C {}".to_string()));
    let notok = r#"{"status":"0","message":"NOTOK","result":"Invalid API Key"}"#;
    assert_eq!(read_source_reply(notok), Err("API error: NOTOK".to_string()));
    assert_eq!(read_source_reply(r#"{"status":"1","result":[]}"#), Err("No result in API response".to_string()));
    assert_eq!(read_source_reply(r#"{"status":"1","result":[{}]}"#), Err("Source code not found".to_string()));
    assert!(read_source_reply("<html>").unwrap_err().starts_with("Parse error: "));
}

#[test]
fn paging_collects_addresses_until_a_short_page() {
    let mut pager = LogPager::new(500, 1, 3);
    assert_eq!(pager.next_request(), Some((1, 1)));
    let full: Vec<String> = (0..100).map(|i| format!("{{\"address\":\"0x{:02}\"}}", i % 50)).collect();
    pager.on_page_text(&format!("{{\"status\":\"1\",\"result\":[{}]}}", full.join(",")));
    assert_eq!(pager.next_request(), Some((2, 1)));
    pager.on_page_text(r#"{"status":"1","result":[{"address":"0xnew"},{"address":7}]}"#);
    assert_eq!(pager.next_request(), None);
    assert_eq!(pager.addresses().len(), 51);
}

#[test]
fn paging_rotates_keys_after_five_failures_and_stops_at_the_end_message() {
    let mut pager = LogPager::new(100, 0, 2);
    for _ in 0..5 {
        pager.on_fetch_failed();
    }
    assert_eq!(pager.next_request(), Some((6, 1)));
    pager.on_page_text(r#"{"status":"0","message":"No records found"}"#);
    assert_eq!(pager.next_request(), None);
    let mut single = LogPager::new(3, 0, 1);
    single.on_page_text("garbage");
    assert_eq!(single.next_request(), Some((2, 0)));
}

#[test]
fn gate_skips_duplicates_large_sources_and_honeypots() {
    let filter = HoneypotFilter::new().unwrap();
    let mut seen = SeenContent::new();
    assert!(matches!(gate_contract(&mut seen, 1, "contract A {}", &filter), ContractGate::Scan));
    assert!(matches!(gate_contract(&mut seen, 1, "contract A {}", &filter), ContractGate::Duplicate));
    let big = "a".repeat(5120 * 1024 + 1);
    assert!(matches!(gate_contract(&mut seen, 2, &big, &filter), ContractGate::TooLarge));
    let honeypot = "function balanceOf() { tx.origin; } function transfer() { tx.origin; }";
    match gate_contract(&mut seen, 3, honeypot, &filter) {
        ContractGate::Honeypot(names) => assert_eq!(names, vec!["balance_tx_origin".to_string(), "transfer_tx_origin".to_string()]),
        other => panic!("unexpected {:?}", other),
    }
    assert_eq!(cache_key(Chain::Arbitrum, "0xa"), "arbitrum:0xa");
}

#[test]
fn finding_filters_keep_order() {
    let ms = vec![
        finding("a", Severity::Critical, false),
        finding("b", Severity::High, false),
        finding("c", Severity::Critical, true),
        finding("d", Severity::Medium, false),
    ];
    let crit: Vec<String> = critical_findings(&ms, Severity::High).iter().map(|m| m.pattern_id.clone()).collect();
    assert_eq!(crit, vec!["a".to_string()]);
    let high: Vec<String> = high_findings(&ms, Severity::Low).iter().map(|m| m.pattern_id.clone()).collect();
    assert_eq!(high, vec!["a".to_string(), "b".to_string(), "c".to_string()]);
}

#[test]
fn sarif_rules_and_results() {
    let ms = vec![
        finding("a", Severity::High, false),
        finding("b", Severity::Low, false),
        finding("a", Severity::Critical, false),
    ];
    let rules = sarif_rules(&ms);
    assert_eq!(rules.len(), 2);
    assert_eq!((rules[0].id.as_str(), rules[0].level.as_str(), rules[0].security_severity.as_str()), ("a", "error", "8.0"));
    assert_eq!((rules[1].id.as_str(), rules[1].level.as_str()), ("b", "note"));
    let results = sarif_results(&ms);
    assert_eq!(results.len(), 3);
    assert_eq!((results[2].rule_id.as_str(), results[2].uri.as_str(), results[2].start_line), ("a", "a.sol", 3));
    assert_eq!(severity_to_sarif_level(Severity::Medium), "warning");
    assert_eq!(severity_to_score(Severity::Critical), "10.0");
}

#[test]
fn syntax_tree_checks() {
    let f = |name: &str, start: usize, end: usize, mods: &[&str], checks: &[bool]| FunctionFacts {
        name: Some(name.to_string()),
        start,
        end,
        modifiers: mods.iter().map(|m| m.to_string()).collect(),
        leading_checks: checks.to_vec(),
    };
    let fs = vec![
        f("mint", 0, 10, &[], &[false, false]),
        f("burn", 20, 30, &["onlyOwner"], &[]),
        f("withdrawAll", 40, 50, &[], &[false, true]),
        f("initialize", 60, 70, &["initializer"], &[]),
    ];
    assert_eq!(validate_functions(&fs, "external-mint-no-modifier", 5), ValidationResult::Vulnerable);
    assert_eq!(validate_functions(&fs, "external-burn-no-modifier", 25), ValidationResult::Protected("Has access control modifier"));
    assert_eq!(validate_functions(&fs, "public-withdraw-no-auth", 45), ValidationResult::Protected("Has inline access check"));
    assert_eq!(validate_functions(&fs, "unprotected-initialize", 65), ValidationResult::Protected("Has initializer modifier"));
    assert_eq!(validate_functions(&fs, "external-mint-no-modifier", 25), ValidationResult::NotApplicable);
    assert_eq!(validate_functions(&fs, "other", 5), ValidationResult::NotApplicable);
}

#[test]
fn function_facts_are_read_off_the_parsed_source() {
    let source = "contract T {\n    function withdraw() public {\n        require(msg.sender == owner);\n        x = 1;\n    }\n    function f() public onlyOwner {}\n}\n";
    let facts = parse_function_facts(source).unwrap();
    assert_eq!(facts.len(), 2);
    assert_eq!(facts[0].name.as_deref(), Some("withdraw"));
    assert!(facts[0].modifiers.is_empty());
    assert_eq!(facts[0].leading_checks, vec![true, false]);
    assert_eq!(facts[1].modifiers, vec!["onlyOwner".to_string()]);
    assert!(facts[1].leading_checks.is_empty());
    assert!(facts[0].start < facts[0].end && facts[0].end <= facts[1].start);
    assert!(parse_function_facts("contract {").is_none());
}

#[test]
fn tallies_count_each_key_in_first_seen_order() {
    let keys: Vec<String> = ["b", "a", "b", "c", "b"].iter().map(|s| s.to_string()).collect();
    assert_eq!(
        tally(&keys),
        vec![("b".to_string(), 3), ("a".to_string(), 1), ("c".to_string(), 1)]
    );
    assert!(tally(&Vec::new()).is_empty());
}

#[test]
fn source_files_are_combined_with_headers() {
    let files = vec![
        ("A.sol".to_string(), Some("contract A {}".to_string())),
        ("skip.json".to_string(), None),
        ("B.sol".to_string(), Some("contract B {}".to_string())),
    ];
    assert_eq!(
        combine_source_files(&files),
        "// File: A.sol\ncontract A {}\n\n// File: B.sol\ncontract B {}\n\n"
    );
    let e = read_source_reply("not json").unwrap_err();
    let why = serde_json::from_str::<serde_json::Value>("not json").unwrap_err().to_string();
    assert_eq!(e, format!("Parse error: {}", why));
}

#[test]
fn block_replies_give_the_block_or_why_not() {
    assert_eq!(read_block_reply(r#"{"status":"1","message":"OK","result":"19000000"}"#), Ok("19000000".to_string()));
    assert_eq!(
        read_block_reply(r#"{"status":"0","message":"NOTOK","result":"Error"}"#),
        Err("Failed to get block number: String(\"NOTOK\")".to_string())
    );
    assert_eq!(read_block_reply(r#"{"status":"1","message":"OK"}"#), Err("No block number in response".to_string()));
    assert!(read_block_reply("<html>").unwrap_err().starts_with("Failed to decode response: "));
}

fn scanned(chain: &str, matches: Vec<Match>) -> scpf::types::ScanResult {
    scpf::types::ScanResult {
        address: "0x0".to_string(),
        chain: chain.to_string(),
        matches,
        scan_time_ms: 0,
        solidity_version: None,
    }
}

#[test]
fn summary_orders_patterns_by_count_and_counts_chains() {
    let results = vec![
        scanned(
            "ethereum",
            vec![
                finding("a", Severity::Critical, false),
                finding("b", Severity::High, false),
                finding("b", Severity::Low, false),
            ],
        ),
        scanned("polygon", vec![finding("c", Severity::Critical, false)]),
        scanned("ethereum", vec![]),
    ];
    assert_eq!(
        scpf::summary::findings_summary(&results),
        "## 📊 Scan Results\n\n- **Contracts Scanned:** 3\n- **Total Findings:** 4\n\n\
## 🔍 Pattern Frequency\n\n- **b**: 2 occurrences\n- **a**: 1 occurrences\n- **c**: 1 occurrences\n\n\
## 📋 Findings by Template\n\n- **t**: 4 findings\n\n\
## ⚠️ Findings by Severity\n\n- **Critical**: 2\n- **High**: 1\n\n\
## 🌐 Chain Distribution\n\n- **ethereum**: 2 contracts\n- **polygon**: 1 contracts\n\n"
    );
}

#[test]
fn summary_lists_at_most_ten_patterns_and_no_empty_severities() {
    let mut matches = Vec::new();
    for i in 0..12 {
        matches.push(finding(&format!("p{}", i), Severity::Low, false));
    }
    matches.push(finding("p11", Severity::Low, false));
    let text = scpf::summary::findings_summary(&vec![scanned("arbitrum", matches)]);
    assert!(text.contains("## 🔍 Pattern Frequency\n\n- **p11**: 2 occurrences\n- **p0**: 1 occurrences\n"));
    assert_eq!(text.matches(" occurrences\n").count(), 10);
    assert!(text.contains("- **p8**: 1 occurrences\n\n## 📋"));
    assert!(text.contains("## ⚠️ Findings by Severity\n\n\n## 🌐 Chain Distribution\n\n- **arbitrum**: 1 contracts\n"));
    assert_eq!(
        scpf::summary::findings_summary(&Vec::new()),
        "## 📊 Scan Results\n\n- **Contracts Scanned:** 0\n- **Total Findings:** 0\n\n## 🔍 Pattern Frequency\n\n\n## 📋 Findings by Template\n\n\n## ⚠️ Findings by Severity\n\n\n## 🌐 Chain Distribution\n\n\n"
    );
}
