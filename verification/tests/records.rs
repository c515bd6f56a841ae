use vector_aws_secrets::vector::{FetchedSecret, FetchedSecrets, SecretsToFetch};

#[test]
fn a_success_holds_the_value_alone() {
    let secret = FetchedSecret::success("qwerty".to_string());
    assert_eq!(secret.value, Some("qwerty".to_string()));
    assert_eq!(secret.error, None);
    assert!(secret.is_exclusive());
}

#[test]
fn a_failure_holds_the_error_alone() {
    let secret = FetchedSecret::failure("failed to fetch".to_string());
    assert_eq!(secret.value, None);
    assert_eq!(secret.error, Some("failed to fetch".to_string()));
    assert!(secret.is_exclusive());
}

#[test]
fn an_outcome_with_both_or_neither_is_not_exclusive() {
    let both = FetchedSecret { value: Some("v".to_string()), error: Some("e".to_string()) };
    assert!(!both.is_exclusive());
    let neither = FetchedSecret { value: None, error: None };
    assert!(!neither.is_exclusive());
}

#[test]
fn outcomes_are_compared_by_their_texts() {
    let secret = FetchedSecret::success("a".to_string());
    assert!(secret == FetchedSecret { value: Some("a".to_string()), error: None });
    assert!(secret != FetchedSecret::success("b".to_string()));
    assert!(secret != FetchedSecret::failure("a".to_string()));
    assert!(secret != FetchedSecret { value: Some("a".to_string()), error: Some("a".to_string()) });
    assert!(secret.clone() == secret);
}

#[test]
fn a_request_keeps_its_names_in_order() {
    let request = SecretsToFetch {
        version: "1.0".to_string(),
        secrets: vec!["b".to_string(), "a".to_string(), "b".to_string()],
    };
    let copy = request.clone();
    assert_eq!(copy.version, "1.0");
    assert_eq!(copy.secrets, vec!["b", "a", "b"]);
}

#[test]
fn a_new_table_is_empty() {
    let table = FetchedSecrets::new();
    assert_eq!(table.len(), 0);
    assert!(table.names().is_empty());
    assert_eq!(table.get("a"), None);
    assert!(table == FetchedSecrets::default());
}

#[test]
fn insert_adds_an_entry_or_replaces_one() {
    let mut table = FetchedSecrets::default();
    table.insert("a".to_string(), FetchedSecret::success("1".to_string()));
    table.insert("b".to_string(), FetchedSecret::failure("no".to_string()));
    assert_eq!(table.len(), 2);
    table.insert("a".to_string(), FetchedSecret::success("2".to_string()));
    assert_eq!(table.len(), 2);
    assert_eq!(table.get("a"), Some(&FetchedSecret::success("2".to_string())));
    assert_eq!(table.get("b"), Some(&FetchedSecret::failure("no".to_string())));
    assert_eq!(table.get(""), None);
    assert_eq!(table.names().clone(), vec!["a", "b"]);
}

#[test]
fn tables_are_equal_whatever_the_order_of_insertion() {
    let mut first = FetchedSecrets::new();
    first.insert("a".to_string(), FetchedSecret::success("1".to_string()));
    first.insert("b".to_string(), FetchedSecret::success("2".to_string()));
    let mut second = FetchedSecrets::new();
    second.insert("b".to_string(), FetchedSecret::success("2".to_string()));
    second.insert("a".to_string(), FetchedSecret::success("1".to_string()));
    assert!(first == second);
    assert!(second == first);
}

#[test]
fn tables_differ_by_a_name_or_by_an_outcome() {
    let mut first = FetchedSecrets::new();
    first.insert("a".to_string(), FetchedSecret::success("1".to_string()));
    let mut other_name = FetchedSecrets::new();
    other_name.insert("b".to_string(), FetchedSecret::success("1".to_string()));
    let mut other_outcome = FetchedSecrets::new();
    other_outcome.insert("a".to_string(), FetchedSecret::failure("1".to_string()));
    let mut longer = FetchedSecrets::new();
    longer.insert("a".to_string(), FetchedSecret::success("1".to_string()));
    longer.insert("b".to_string(), FetchedSecret::success("1".to_string()));
    assert!(first != other_name);
    assert!(first != other_outcome);
    assert!(first != longer);
    assert!(longer != first);
    assert!(first != FetchedSecrets::new());
}
