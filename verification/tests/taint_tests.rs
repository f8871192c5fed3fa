use scpf::taint::{ExploitImpact, TaintAnalyzer, TaintSink, TaintSource};

fn param(func: &str, p: &str) -> TaintSource {
    TaintSource::FunctionParam { func: func.to_string(), param: p.to_string() }
}

#[test]
fn test_taint_analyzer() {
    let mut analyzer = TaintAnalyzer::new();

    analyzer.add_source(param("withdraw", "amount"));

    analyzer.add_sink(TaintSink::EthTransfer);

    let flows = analyzer.analyze();
    assert!(!flows.is_empty());
}

#[test]
fn test_taint_state() {
    let mut analyzer = TaintAnalyzer::new();
    analyzer.mark_tainted("user_input");
    assert!(analyzer.is_tainted("user_input"));
    assert!(!analyzer.is_tainted("safe_var"));
}

#[test]
fn flow_path_names_source_and_sink_as_debug_prints_them() {
    let mut analyzer = TaintAnalyzer::default();
    let source = param("withdraw", "amount");
    let sink = TaintSink::StorageWrite { var: "bal\"ance".to_string() };
    analyzer.add_source(source.clone());
    analyzer.add_sink(sink.clone());
    let flows = analyzer.analyze();
    assert_eq!(flows.len(), 1);
    assert_eq!(flows[0].path, vec![format!("{:?}", source), format!("{:?}", sink)]);
}

#[test]
fn every_source_sink_pair_forms_a_flow_in_source_order() {
    let mut analyzer = TaintAnalyzer::new();
    analyzer.add_source(TaintSource::MsgSender);
    analyzer.add_source(TaintSource::TxOrigin);
    analyzer.add_sink(TaintSink::ExternalCall);
    analyzer.add_sink(TaintSink::DelegateCall);
    analyzer.add_sink(TaintSink::AuthorizationCheck);
    let flows = analyzer.analyze();
    assert_eq!(flows.len(), 6);
    let scores: Vec<u32> = flows.iter().map(|f| f.exploitability.score_percent).collect();
    // 50 base; delegate call +50; tx.origin +20; capped at 100.
    assert_eq!(scores, vec![50, 100, 50, 70, 100, 70]);
    assert!(matches!(flows[1].exploitability.impact, ExploitImpact::PrivilegeEscalation));
    assert_eq!(flows[3].exploitability.requirements, vec!["Phishing attack".to_string()]);
    assert_eq!(analyzer.get_flows().len(), 6);
    let high: Vec<u32> = analyzer.get_high_risk_flows().iter().map(|f| f.exploitability.score_percent).collect();
    assert_eq!(high, vec![100, 70, 100, 70]);
}

#[test]
fn scenario_for_parameter_to_eth_transfer() {
    let mut analyzer = TaintAnalyzer::new();
    analyzer.add_source(param("withdraw", "amount"));
    analyzer.add_sink(TaintSink::EthTransfer);
    let flows = analyzer.analyze();
    let expected = "## Exploit Scenario\n\n\
**Source**: FunctionParam { func: \"withdraw\", param: \"amount\" }\n\
**Sink**: EthTransfer\n\
**Exploitability**: 100%\n\n\
### Attack Steps:\n\n\
1. Attacker calls `withdraw` with malicious `amount` value\n\
2. Tainted data flows to ETH transfer\n\
3. Funds sent to attacker-controlled address\n";
    assert_eq!(flows[0].exploit_scenario, expected);
    assert_eq!(flows[0].exploitability.confidence_percent, 70);
}

#[test]
fn scenario_lists_prerequisites_of_external_returns() {
    let mut analyzer = TaintAnalyzer::new();
    analyzer.add_source(TaintSource::ExternalCallReturn { target: "0xabc".to_string() });
    analyzer.add_sink(TaintSink::StorageWrite { var: "price".to_string() });
    let flows = analyzer.analyze();
    assert_eq!(flows[0].exploitability.score_percent, 85);
    assert!(flows[0].exploit_scenario.contains("1. Attacker deploys malicious contract at 0xabc\n"));
    assert!(flows[0].exploit_scenario.contains("3. Tainted data written to storage `price`\n"));
    assert!(flows[0].exploit_scenario.ends_with("\n### Prerequisites:\n- Control external contract\n"));
}

#[test]
fn marking_twice_keeps_one_entry_and_other_names_stay_clean() {
    let mut analyzer = TaintAnalyzer::new();
    analyzer.mark_tainted("a");
    analyzer.mark_tainted("a");
    analyzer.mark_tainted("b");
    assert!(analyzer.is_tainted("a"));
    assert!(analyzer.is_tainted("b"));
    assert!(!analyzer.is_tainted("c"));
}
