use ldk_node_store::namespace::{check_namespace_key_validity, is_valid_kvstore_str, KeyRule};

#[test]
fn valid_triples_pass() {
    assert!(check_namespace_key_validity("payments", "", Some("abc_DEF-123"), "read").is_ok());
    assert!(check_namespace_key_validity("", "", Some("network_graph"), "write").is_ok());
    assert!(check_namespace_key_validity("a", "b", Some("c"), "remove").is_ok());
    assert!(check_namespace_key_validity("", "", None, "list").is_ok());
    assert!(check_namespace_key_validity("a", "b", None, "list").is_ok());
}

#[test]
fn empty_key_is_refused_and_named() {
    let e = check_namespace_key_validity("p", "s", Some(""), "read").unwrap_err();
    assert_eq!(e.rule, KeyRule::EmptyKey);
    assert_eq!(e.operation, "read");
    assert_eq!(e.primary_namespace, "p");
    assert_eq!(e.secondary_namespace, "s");
    assert_eq!(e.key, Some(String::new()));
}

#[test]
fn secondary_without_primary_is_refused() {
    let e = check_namespace_key_validity("", "s", Some("k"), "write").unwrap_err();
    assert_eq!(e.rule, KeyRule::MissingPrimary);
    let e = check_namespace_key_validity("", "s", None, "list").unwrap_err();
    assert_eq!(e.rule, KeyRule::MissingPrimary);
    assert_eq!(e.key, None);
}

#[test]
fn bad_characters_and_lengths_are_refused() {
    let e = check_namespace_key_validity("p", "", Some("a/b"), "read").unwrap_err();
    assert_eq!(e.rule, KeyRule::InvalidComponent);
    let e = check_namespace_key_validity("p q", "", None, "list").unwrap_err();
    assert_eq!(e.rule, KeyRule::InvalidComponent);
    let long = "x".repeat(121);
    let e = check_namespace_key_validity("p", "", Some(&long), "read").unwrap_err();
    assert_eq!(e.rule, KeyRule::InvalidComponent);
    let edge = "x".repeat(120);
    assert!(check_namespace_key_validity("p", "", Some(&edge), "read").is_ok());
}

#[test]
fn empty_key_is_checked_before_other_rules() {
    let e = check_namespace_key_validity("", "s", Some(""), "read").unwrap_err();
    assert_eq!(e.rule, KeyRule::EmptyKey);
    let e = check_namespace_key_validity("", "s!", Some("k"), "read").unwrap_err();
    assert_eq!(e.rule, KeyRule::MissingPrimary);
}

#[test]
fn component_alphabet() {
    assert!(is_valid_kvstore_str(""));
    assert!(is_valid_kvstore_str("azAZ09_-"));
    assert!(!is_valid_kvstore_str("é"));
    assert!(!is_valid_kvstore_str("a.b"));
    assert!(is_valid_kvstore_str(&"q".repeat(120)));
    assert!(!is_valid_kvstore_str(&"q".repeat(121)));
}
