use scpf::risk_scorer::{
    calculate_category_factor, calculate_concentration_factor, calculate_severity_score, count_severities,
    generate_recommendations, score_to_level, RiskLevel as ScoreLevel,
};
use scpf::risk_scoring::{
    assess_scores, calculate_composition_bonus, default_thresholds, default_weights, determine_risk_level,
    score_for_severity, RiskLevel, DEFAULT_COMPOSITION_BONUS,
};
use scpf::types::{Match, Severity};

fn create_test_match(severity: Severity, pattern_id: &str) -> Match {
    Match {
        template_id: "test".to_string(),
        pattern_id: pattern_id.to_string(),
        file_path: "test.sol".to_string(),
        line_number: 1,
        column: 0,
        matched_text: "test".to_string(),
        context: "test".to_string(),
        code_snippet: None,
        severity,
        message: "test".to_string(),
        start_byte: None,
        end_byte: None,
        function_context: None,
        protections: None,
        filtered: false,
    }
}

fn scores_for(matches: &[Match]) -> Vec<u32> {
    let weights = default_weights();
    matches.iter().map(|m| score_for_severity(&weights, m.severity)).collect()
}

#[test]
fn test_risk_scoring() {
    let matches = vec![
        create_test_match(Severity::Critical, "reentrancy"),
        create_test_match(Severity::High, "access-control"),
    ];
    let scores = scores_for(&matches);
    let assessment = assess_scores(&matches, &scores, &default_thresholds(), DEFAULT_COMPOSITION_BONUS);
    assert!(assessment.total_score > 0);
    assert!(assessment.risk_level == RiskLevel::High || assessment.risk_level == RiskLevel::Critical);
    assert_eq!(assessment.total_score, 45);
    assert_eq!(assessment.risk_level, RiskLevel::High);
    assert_eq!(
        assessment.recommendations,
        vec![
            "URGENT: Critical vulnerabilities detected. Do not deploy.".to_string(),
            "High severity issues require immediate attention.".to_string(),
            "Implement checks-effects-interactions pattern.".to_string(),
            "Add proper access control modifiers.".to_string(),
        ]
    );
}

#[test]
fn test_composition_bonus() {
    let matches = vec![
        create_test_match(Severity::Medium, "external-call"),
        create_test_match(Severity::Medium, "state-mutation"),
    ];
    let bonus = calculate_composition_bonus(&matches, DEFAULT_COMPOSITION_BONUS);
    assert_eq!(bonus, DEFAULT_COMPOSITION_BONUS);
}

#[test]
fn assessment_breaks_scores_down_and_saturates() {
    let matches = vec![
        create_test_match(Severity::Low, "a"),
        create_test_match(Severity::Low, "b"),
        create_test_match(Severity::Info, "a"),
        create_test_match(Severity::Critical, "critical-function"),
    ];
    let scores = vec![3, 4, u32::MAX, 30];
    let a = assess_scores(&matches, &scores, &default_thresholds(), DEFAULT_COMPOSITION_BONUS);
    assert_eq!(a.total_score, u32::MAX);
    assert_eq!(a.composition_score, 10);
    assert_eq!(a.risk_level, RiskLevel::Critical);
    let mut sev = a.severity_breakdown.clone();
    sev.sort_by_key(|(s, _)| s.rank());
    assert_eq!(sev, vec![(Severity::Info, u32::MAX), (Severity::Low, 7), (Severity::Critical, 30)]);
    let mut pat = a.pattern_breakdown.clone();
    pat.sort();
    assert_eq!(
        pat,
        vec![("a".to_string(), u32::MAX), ("b".to_string(), 4), ("critical-function".to_string(), 30)]
    );
}

#[test]
fn risk_levels_follow_thresholds() {
    let t = default_thresholds();
    assert_eq!(determine_risk_level(&t, 0), RiskLevel::NoRisk);
    assert_eq!(RiskLevel::NoRisk.as_str(), "None");
    assert_eq!(determine_risk_level(&t, 4), RiskLevel::Low);
    assert_eq!(determine_risk_level(&t, 5), RiskLevel::Medium);
    assert_eq!(determine_risk_level(&t, 15), RiskLevel::High);
    assert_eq!(determine_risk_level(&t, 49), RiskLevel::High);
    assert_eq!(determine_risk_level(&t, 50), RiskLevel::Critical);
}

#[test]
fn test_risk_level_calculation() {
    assert_eq!(score_to_level(90), ScoreLevel::Critical);
    assert_eq!(score_to_level(70), ScoreLevel::High);
    assert_eq!(score_to_level(50), ScoreLevel::Medium);
    assert_eq!(score_to_level(30), ScoreLevel::Low);
    assert_eq!(score_to_level(10), ScoreLevel::Minimal);
    assert_eq!(score_to_level(101), ScoreLevel::Minimal);
}

#[test]
fn severity_counts_weights_and_multipliers() {
    let mut matches = vec![
        create_test_match(Severity::Critical, "x-reentrancy"),
        create_test_match(Severity::High, "oracle-price"),
        create_test_match(Severity::Info, "style"),
    ];
    let b = count_severities(&matches);
    assert_eq!((b.critical, b.high, b.medium, b.low, b.informational), (1, 1, 0, 0, 1));
    assert_eq!(calculate_severity_score(&b), 25 + 15 + 1);
    assert_eq!(calculate_category_factor(&matches), 15);
    matches.push(create_test_match(Severity::Low, "critical-function"));
    assert_eq!(calculate_category_factor(&matches), 250);
    assert_eq!(calculate_concentration_factor(&matches), 10);
    for _ in 0..5 {
        matches.push(create_test_match(Severity::Low, "style"));
    }
    assert_eq!(calculate_concentration_factor(&matches), 12);
    assert_eq!(calculate_category_factor(&Vec::new()), 10);
}

#[test]
fn recommendations_name_counts_and_level() {
    let mut matches = vec![create_test_match(Severity::Critical, "a"), create_test_match(Severity::Critical, "b")];
    matches.push(create_test_match(Severity::High, "c"));
    let b = count_severities(&matches);
    let recs = generate_recommendations(&b, 85);
    assert_eq!(recs.len(), 4);
    assert_eq!(recs[0], "🚨 CRITICAL: 2 critical vulnerabilities found - DO NOT DEPLOY until fixed");
    assert_eq!(recs[1], "⚠️  HIGH: 1 high-severity issues require immediate attention");
    assert_eq!(recs[2], "❌ Risk Level: CRITICAL - Contract is not safe for production");
    let none = count_severities(&Vec::new());
    assert_eq!(generate_recommendations(&none, 0), vec!["✅ Risk Level: MINIMAL - Good security posture".to_string()]);
}
