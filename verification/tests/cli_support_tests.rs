use scpf::cli_args::{get_supported_chains, parse_chain};
use scpf::error_helper::{error_help_of, format_error_text_with_help, format_error_with_help};
use scpf::filters::{parse_severity, split_list, ScanFilters};
use scpf::pattern_builder::{confirms, menu_choice, new_builder_template, MenuChoice, PatternBuilder};
use scpf::types::{Chain, PatternKind, Severity};

#[test]
fn chains_parse_in_any_case() {
    assert!(matches!(parse_chain("Ethereum"), Ok(Chain::Ethereum)));
    assert!(matches!(parse_chain("POLYGON"), Ok(Chain::Polygon)));
    assert_eq!(parse_chain("solana").unwrap_err(), "Unknown chain: solana");
    assert_eq!(get_supported_chains().len(), 3);
}

#[test]
fn error_help_by_kind() {
    let (tip, steps) = error_help_of("API error: rate limit").unwrap();
    assert_eq!(tip, "API key required or rate limit exceeded");
    assert_eq!(steps.len(), 3);
    assert!(error_help_of("something else").is_none());
    let plain = format_error_text_with_help("boom");
    assert!(plain.ends_with(" boom"));
    assert!(!plain.contains("Fix:"));
    let helped = format_error_text_with_help("No templates found in ./t");
    assert!(helped.contains("Templates directory is empty or missing"));
    assert!(helped.contains("1. "));
    assert!(helped.contains("3. "));
    let e = anyhow::Error::msg("Invalid regex in template");
    assert!(format_error_with_help(&e).contains("Template contains invalid regex pattern"));
}

#[test]
fn severities_and_lists() {
    assert_eq!(parse_severity("HIGH"), Some(Severity::High));
    assert_eq!(parse_severity("info"), Some(Severity::Info));
    assert_eq!(parse_severity("bogus"), None);
    assert_eq!(split_list(" a, b ,,c "), vec!["a".to_string(), "b".to_string(), String::new(), "c".to_string()]);
    let f = ScanFilters::from_args(Some("medium".to_string()), Some("defi".to_string()), None, Some("x,y".to_string()));
    assert_eq!(f.min_severity, Some(Severity::Medium));
    assert_eq!(f.tags, vec!["defi".to_string()]);
    assert!(f.exclude_templates.is_empty());
    assert_eq!(f.only_templates, vec!["x".to_string(), "y".to_string()]);
}

#[test]
fn pattern_builder_menu_and_edits() {
    assert_eq!(menu_choice(" 1 "), MenuChoice::EditPattern);
    assert_eq!(menu_choice("4"), MenuChoice::Exit);
    assert_eq!(menu_choice("5"), MenuChoice::Invalid);
    assert!(confirms(" Y "));
    assert!(!confirms("yes"));
    let mut b = PatternBuilder::default();
    assert!(!b.edit_with_input("   "));
    assert_eq!(b.pattern(), "");
    assert!(b.edit_with_input("  (call_expression) @c \n"));
    assert_eq!(b.pattern(), "(call_expression) @c");
    let p = b.pattern_to_save(" id-1 ", " msg ");
    assert_eq!((p.id.as_str(), p.message.as_str(), p.kind), ("id-1", "msg", PatternKind::Semantic));
    let t = new_builder_template("t", " Name ");
    assert_eq!(t.name, "Name");
    assert_eq!(t.description, "Created via Pattern Builder");
    assert!(t.patterns.is_empty());
}

#[test]
fn help_for_an_error_uses_its_own_message() {
    colored::control::set_override(false);
    let e = anyhow::Error::msg("API error: Invalid regex");
    assert_eq!(
        format_error_with_help(&e),
        "✗ API error: Invalid regex\n\n💡 API key required or rate limit exceeded\nFix:\n   1. Set key: export ETHERSCAN_API_KEY=your_key\n   2. Or run: scpf init (interactive setup)\n   3. Get keys: https://etherscan.io/apis\n"
    );
}
