use scpf::ignore::{default_rules, glob_to_regex, rules_from_content, IgnoreRule};

#[test]
fn glob_extension_patterns_do_not_overmatch_directory_names() {
    let rule = IgnoreRule::from_pattern("*.test.sol").unwrap();
    assert!(!rule.matches("/tmp/test"));
    assert!(rule.matches("/tmp/foo.test.sol"));
}

#[test]
fn doublestar_glob_matches_nested_paths() {
    let rule = IgnoreRule::from_pattern("tests/**/*.sol").unwrap();
    assert!(rule.matches("/tmp/tests/a/b.sol"));
    assert!(!rule.matches("/tmp/tests/a/b.txt"));
}

#[test]
fn directory_patterns_match_any_component() {
    let rule = IgnoreRule::from_pattern("node_modules/").unwrap();
    assert!(rule.matches("/tmp/node_modules/foo"));
    assert!(rule.matches("/tmp/a/node_modules/foo"));
}

#[test]
fn glob_translation_escapes_and_expands() {
    assert_eq!(glob_to_regex("a.b*?**"), "^a\\.b[^/]*[^/].*$");
    assert_eq!(glob_to_regex(""), "^$");
}

#[test]
fn blank_lines_and_comments_give_no_rule() {
    assert!(IgnoreRule::from_pattern("   ").is_none());
    assert!(IgnoreRule::from_pattern("# comment").is_none());
    assert!(IgnoreRule::from_pattern(" / ").is_none());
    assert!(matches!(IgnoreRule::from_pattern(" build// "), Some(IgnoreRule::Directory(d)) if d == "build"));
}

#[test]
fn literal_rules_match_components_or_text() {
    let by_name = IgnoreRule::from_pattern("vendor").unwrap();
    assert!(by_name.matches("/src/vendor/x.sol"));
    assert!(!by_name.matches("/src/vendors/x.sol"));
    let by_text = IgnoreRule::from_pattern("lib/old").unwrap();
    assert!(by_text.matches("/src/lib/older.sol"));
    assert!(!by_text.matches("/src/lib/new.sol"));
}

#[test]
fn rules_come_from_each_line() {
    let rules = rules_from_content("# ignore\nnode_modules/\n\n*.t.sol\r\nlib/x\n");
    assert_eq!(rules.len(), 3);
    assert!(rules[1].matches("/a/b.t.sol"));
    assert!(rules[2].matches("/a/lib/x/y"));
    assert_eq!(default_rules().len(), 6);
}
