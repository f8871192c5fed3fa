use scpf::regex_validator::{PatternSafetyError, RegexValidator};

#[test]
fn test_safe_patterns() {
    assert!(RegexValidator::validate_pattern(r"\.call\{value:").is_ok());
    assert!(RegexValidator::validate_pattern(r"function\s+\w+").is_ok());
    assert!(RegexValidator::validate_pattern(r"[a-zA-Z]+").is_ok());
    // Character classes don't allow * or + as quantifiers, so [x*]* is actually safe
    assert!(RegexValidator::validate_pattern(r"[a*]+").is_ok());
}

#[test]
fn test_nested_quantifiers() {
    assert!(RegexValidator::validate_pattern(r"(a+)+").is_err());
    assert!(RegexValidator::validate_pattern(r"(a*)*").is_err());
    assert!(RegexValidator::validate_pattern(r"(a+){2,}").is_err());
    assert!(RegexValidator::validate_pattern(r"(a*)+").is_err());
}

#[test]
fn test_escaped_parentheses_safe() {
    // Escaped parentheses should not be counted for grouping
    assert!(RegexValidator::validate_pattern(r"\(a+\)+").is_ok());
    assert!(RegexValidator::validate_pattern(r"\(a\)\+").is_ok());
}

#[test]
fn test_pattern_too_long() {
    let long_pattern = "a".repeat(1001);
    assert!(RegexValidator::validate_pattern(&long_pattern).is_err());
}

#[test]
fn test_too_many_alternations() {
    let pattern = (0..52)
        .map(|i| format!("a{}", i))
        .collect::<Vec<_>>()
        .join("|");
    assert!(RegexValidator::validate_pattern(&pattern).is_err());
}

#[test]
fn test_too_many_groups() {
    let pattern = "(a)".repeat(21);
    assert!(RegexValidator::validate_pattern(&pattern).is_err());
}

#[test]
fn errors_name_the_limit_that_was_exceeded() {
    assert_eq!(
        RegexValidator::validate_pattern(&"a".repeat(1001)),
        Err(PatternSafetyError::TooLong { length: 1001 })
    );
    assert_eq!(
        RegexValidator::validate_pattern(&"a|".repeat(51)),
        Err(PatternSafetyError::TooManyAlternations { count: 51 })
    );
    assert_eq!(
        RegexValidator::validate_pattern(&"(a)".repeat(21)),
        Err(PatternSafetyError::TooManyGroups { count: 21 })
    );
    assert_eq!(
        RegexValidator::validate_pattern("x(a(b+)c)*"),
        Err(PatternSafetyError::NestedQuantifier)
    );
}

#[test]
fn limits_are_inclusive() {
    assert!(RegexValidator::validate_pattern(&"a".repeat(1000)).is_ok());
    assert!(RegexValidator::validate_pattern(&"a|".repeat(50)).is_ok());
    assert!(RegexValidator::validate_pattern(&"(a)".repeat(20)).is_ok());
}

#[test]
fn quantifier_inside_unquantified_group_is_safe() {
    assert!(RegexValidator::validate_pattern("(a+)b").is_ok());
    assert!(RegexValidator::validate_pattern("(a)+").is_ok());
    assert!(RegexValidator::validate_pattern(")+(").is_ok());
}

#[test]
fn escaped_parentheses_open_no_group() {
    let p = r"\(a\)".repeat(21);
    assert!(RegexValidator::validate_pattern(&p).is_ok());
    let q = "(a)".repeat(21);
    assert_eq!(RegexValidator::validate_pattern(&q), Err(PatternSafetyError::TooManyGroups { count: 21 }));
}
