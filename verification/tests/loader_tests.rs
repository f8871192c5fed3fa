use scpf::cache::{push_hex, Cache, DEFAULT_TTL_SECS};
use scpf::limits::{LoaderLimits, MatcherLimits};
use scpf::pattern_validator::{suggest_fix, PatternDef, PatternError, PatternValidator};
use scpf::template::{LoadError, TemplateLoader};

#[test]
fn default_limits() {
    let m = MatcherLimits::default();
    assert_eq!((m.max_patterns, m.max_regex_length, m.max_matches, m.max_file_size), (1000, 500, 10_000, 10 * 1024 * 1024));
    let l = LoaderLimits::default();
    assert_eq!((l.max_file_size, l.max_lines, l.max_templates), (1024 * 1024, 10_000, 100));
}

#[test]
fn template_files_by_extension() {
    assert!(TemplateLoader::is_template_file("t/a.yaml"));
    assert!(TemplateLoader::is_template_file("a.yml"));
    assert!(!TemplateLoader::is_template_file("a.yaml.bak"));
    assert!(!TemplateLoader::is_template_file(".yaml"));
}

#[test]
fn loader_limits_size_lines_duplicates_and_count() {
    let limits = LoaderLimits { max_file_size: 10, max_lines: 2, max_templates: 2 };
    let mut loader = TemplateLoader::new(limits);
    assert_eq!(loader.check_size(10), Ok(()));
    assert_eq!(loader.check_size(11), Err(LoadError::TooLarge { size: 11, max: 10 }));
    assert_eq!(loader.check_lines("a\nb\n"), Ok(()));
    assert_eq!(loader.check_lines("a\nb\nc"), Err(LoadError::TooComplex { lines: 3, max: 2 }));
    assert_eq!(loader.accept_template("one"), Ok(()));
    assert_eq!(loader.accept_template("one"), Err(LoadError::Duplicate { id: "one".to_string() }));
    assert_eq!(loader.accept_template("two"), Ok(()));
    assert_eq!(loader.accept_template("three"), Err(LoadError::TooMany { count: 3, max: 2 }));
}

#[test]
fn cache_paths_are_hex_hashes_in_the_directory() {
    let cache = Cache::new("/tmp/cache".to_string());
    assert_eq!(cache.ttl_nanos, DEFAULT_TTL_SECS as u128 * 1_000_000_000);
    let expected = format!("/tmp/cache/{:x}", xxhash_rust::xxh3::xxh3_64(b"key"));
    assert_eq!(cache.cache_path("key", '/'), expected);
    let mut s = String::new();
    push_hex(&mut s, 0xdead_beef);
    assert_eq!(s, "deadbeef");
    let short = Cache::with_ttl("c".to_string(), 5);
    assert!(short.is_expired(6));
    assert!(!short.is_expired(5));
}

#[test]
fn query_validation_and_suggestions() {
    let v = PatternValidator::new();
    let ok = v.validate("(call_expression) @call");
    assert!(ok.valid);
    assert_eq!(ok.capture_names, vec!["call".to_string()]);
    assert_eq!(ok.pattern_count, 1);
    let bad = v.validate("(function_call) @c");
    assert!(!bad.valid);
    let err = bad.error.unwrap();
    assert_eq!(err.suggestion.as_deref(), Some("Use 'call_expression' instead of 'function_call'"));
    assert_eq!(suggest_fix("(x left: (y))").as_deref(), Some("Remove field names - use positional children"));
    assert_eq!(suggest_fix("(x)"), None);
    let e = PatternError::from_query_error("Syntax", 1, 3, 7, "a\nbcdef");
    assert_eq!(e.context, "bcdef\n   ^");
    assert_eq!((e.row, e.column, e.offset), (1, 3, 7));
    assert_eq!(PatternError::from_query_error("Syntax", 5, 0, 0, "a").context, "");
}

#[test]
fn template_validation_counts_semantic_patterns() {
    let v = PatternValidator::new();
    let defs = vec![
        PatternDef { id: "a".to_string(), kind: "semantic".to_string(), pattern: "(call_expression) @c".to_string() },
        PatternDef { id: "b".to_string(), kind: "regex".to_string(), pattern: "(((".to_string() },
        PatternDef { id: "c".to_string(), kind: "semantic".to_string(), pattern: "(((".to_string() },
    ];
    let r = v.validate_template_patterns("T", &defs);
    assert_eq!(r.name, "T");
    assert_eq!((r.total, r.passed, r.failed), (2, 1, 1));
    assert_eq!(r.patterns[0].0, "a");
    assert_eq!(r.patterns[1].0, "c");
}
