use scpf::honeypot_filter::HoneypotFilter;

#[test]
fn test_requires_multiple_patterns() {
    let filter = HoneypotFilter::new().unwrap();
    // Single pattern should NOT flag as honeypot
    let source = r#"
            function balanceOf(address account) public view returns (uint256) {
                if (tx.origin != msg.sender) revert();
                return _balances[account];
            }
        "#;
    let (is_honeypot, _) = filter.is_honeypot(source);
    assert!(!is_honeypot);
}

#[test]
fn test_detects_multiple_patterns() {
    let filter = HoneypotFilter::new().unwrap();
    // Multiple patterns = honeypot
    let source = r#"
            function balanceOf(address account) public view returns (uint256) {
                if (tx.origin != msg.sender) return 0;
                return _balances[account];
            }
            function _taxPayer() internal view returns (address) {
                return tx.origin;
            }
        "#;
    let (is_honeypot, matches) = filter.is_honeypot(source);
    assert!(is_honeypot);
    assert!(matches.len() >= 2);
}

#[test]
fn test_clean_contract() {
    let filter = HoneypotFilter::new().unwrap();
    let source = r#"
            function transfer(address to, uint256 amount) public returns (bool) {
                _balances[msg.sender] -= amount;
                _balances[to] += amount;
                return true;
            }
        "#;
    let (is_honeypot, _) = filter.is_honeypot(source);
    assert!(!is_honeypot);
}

#[test]
fn matched_names_come_in_pattern_order() {
    let filter = HoneypotFilter::new().unwrap();
    let source = "function _isSuper() { tx.origin; } function allowance() { origin(); }";
    let (is_honeypot, names) = filter.is_honeypot(source);
    assert!(is_honeypot);
    assert_eq!(names, vec!["allowance_tx_origin".to_string(), "isSuper_tx_origin".to_string()]);
}
