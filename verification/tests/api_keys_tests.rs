use scpf::api_keys::{collect_key_family, key_variable_name, load_api_keys_from_lookup, ApiKeyConfig};
use scpf::types::Chain;
use std::collections::{BTreeSet, HashMap};

#[test]
fn etherscan_keys_are_shared_across_supported_chains() {
    let values = HashMap::from([
        ("ETHERSCAN_API_KEY", "key-one".to_string()),
        ("ETHERSCAN_API_KEY_2", "key-two".to_string()),
    ]);

    let config = load_api_keys_from_lookup(|name: &str| values.get(name).cloned());

    let expected: BTreeSet<_> = ["key-one", "key-two"].into_iter().collect();

    for chain in [Chain::Ethereum, Chain::Polygon, Chain::Arbitrum] {
        let actual: BTreeSet<_> = config.get(chain).unwrap().iter().map(String::as_str).collect();
        assert_eq!(actual, expected);
    }
}

#[test]
fn no_keys_leave_the_config_empty() {
    let config = load_api_keys_from_lookup(|_: &str| None);
    assert!(config.is_empty());
    assert!(config.get(Chain::Polygon).is_none());
    assert!(ApiKeyConfig::new().is_empty());
}

#[test]
fn key_family_names_and_blank_values() {
    assert_eq!(key_variable_name("ETHERSCAN", 1), "ETHERSCAN_API_KEY");
    assert_eq!(key_variable_name("ETHERSCAN", 3), "ETHERSCAN_API_KEY_3");
    let values = HashMap::from([
        ("X_API_KEY", "  ".to_string()),
        ("X_API_KEY_2", " two ".to_string()),
        ("X_API_KEY_6", "six".to_string()),
    ]);
    let keys = collect_key_family("X", |name: &str| values.get(name).cloned());
    assert_eq!(keys, vec![" two ".to_string(), "six".to_string()]);
}
