use vector_aws_secrets::aws::loader::{merge, LoadSecrets};
use vector_aws_secrets::aws::secretsmanager::{
    GetSecretValueReply, SecretsManagerFetchSecret, SecretsManagerSecretsLoader,
};
use vector_aws_secrets::aws::ssm::{GetParameterReply, Parameter, SsmFetchSecret, SsmSecretsLoader};
use vector_aws_secrets::vector::{FetchedSecret, FetchedSecrets, SecretsToFetch};

fn request(names: &[&str]) -> SecretsToFetch {
    SecretsToFetch {
        version: String::from("1.0"),
        secrets: names.iter().map(|name| name.to_string()).collect(),
    }
}

fn value(text: &str) -> FetchedSecret {
    FetchedSecret { value: Some(text.to_string()), error: None }
}

fn error(text: &str) -> FetchedSecret {
    FetchedSecret { value: None, error: Some(text.to_string()) }
}

fn names_of(fetched: &FetchedSecrets) -> Vec<String> {
    fetched.names().clone()
}

/// A parameter store that knows the parameters whose names start with
/// `/known/`, rejects those under `/denied/` and has no others.
struct ParameterStore {}

impl SsmFetchSecret for ParameterStore {
    fn fetch_secret(&self, name: String, with_decryption: bool) -> FetchedSecret {
        let reply = if name.starts_with("/known/") {
            let text = format!("{}={}", name, with_decryption);
            GetParameterReply::Output { parameter: Some(Parameter { value: Some(text) }) }
        } else if name.starts_with("/denied/") {
            GetParameterReply::ServiceError { detail: String::from("AccessDeniedException") }
        } else if name.starts_with("/empty/") {
            GetParameterReply::Output { parameter: Some(Parameter { value: None }) }
        } else {
            GetParameterReply::Output { parameter: None }
        };
        reply.into_fetched_secret()
    }
}

/// A vault in which `failing` cannot be fetched and every other secret's
/// value is its name in upper case.
struct Vault {
    failing: Option<String>,
}

impl SecretsManagerFetchSecret for Vault {
    fn fetch_secret(&self, name: String) -> FetchedSecret {
        let reply = if Some(&name) == self.failing.as_ref() {
            GetSecretValueReply::OtherError { message: String::from("dispatch failure") }
        } else {
            GetSecretValueReply::Output { secret_string: Some(name.to_uppercase()) }
        };
        reply.into_fetched_secret()
    }
}

#[test]
fn ssm_ssm_secrets_loader_loads_secrets() {
    struct MockSsmFetchSecret {}

    impl SsmFetchSecret for MockSsmFetchSecret {
        fn fetch_secret(&self, name: String, _with_decryption: bool) -> FetchedSecret {
            match name.as_str() {
                "test.secret_1" => FetchedSecret { value: Some("qwerty".to_string()), error: None },
                "test.secret_2" => {
                    FetchedSecret { value: None, error: Some("failed to fetch".to_string()) }
                }
                _ => unreachable!(),
            }
        }
    }

    let secrets_to_fetch = SecretsToFetch {
        version: String::from("1.0"),
        secrets: vec![String::from("test.secret_1"), String::from("test.secret_2")],
    };

    let secrets_loader = SsmSecretsLoader::new(MockSsmFetchSecret {}, true);
    let fetched_secrets = secrets_loader.load(secrets_to_fetch);

    let mut expected = FetchedSecrets::default();
    expected.insert(
        "test.secret_1".to_string(),
        FetchedSecret { value: Some("qwerty".to_string()), error: None },
    );
    expected.insert(
        "test.secret_2".to_string(),
        FetchedSecret { value: None, error: Some("failed to fetch".to_string()) },
    );
    assert!(fetched_secrets == expected);
    assert_eq!(fetched_secrets.len(), 2);
}

#[test]
fn secretsmanager_ssm_secrets_loader_loads_secrets() {
    struct MockSecretsManagerFetchSecret {}

    impl SecretsManagerFetchSecret for MockSecretsManagerFetchSecret {
        fn fetch_secret(&self, name: String) -> FetchedSecret {
            match name.as_str() {
                "test.secret_1" => FetchedSecret { value: Some("qwerty".to_string()), error: None },
                "test.secret_2" => {
                    FetchedSecret { value: None, error: Some("failed to fetch".to_string()) }
                }
                _ => unreachable!(),
            }
        }
    }

    let secrets_to_fetch = SecretsToFetch {
        version: String::from("1.0"),
        secrets: vec![String::from("test.secret_1"), String::from("test.secret_2")],
    };

    let secrets_loader = SecretsManagerSecretsLoader::new(MockSecretsManagerFetchSecret {});
    let fetched_secrets = secrets_loader.load(secrets_to_fetch);

    let mut expected = FetchedSecrets::default();
    expected.insert(
        "test.secret_1".to_string(),
        FetchedSecret { value: Some("qwerty".to_string()), error: None },
    );
    expected.insert(
        "test.secret_2".to_string(),
        FetchedSecret { value: None, error: Some("failed to fetch".to_string()) },
    );
    assert!(fetched_secrets == expected);
    assert_eq!(fetched_secrets.len(), 2);
}

#[test]
fn one_secret_is_reported_with_its_value() {
    struct Fixed {}

    impl SecretsManagerFetchSecret for Fixed {
        fn fetch_secret(&self, name: String) -> FetchedSecret {
            assert_eq!(name, "a");
            FetchedSecret { value: Some("x".to_string()), error: None }
        }
    }

    let fetched = SecretsManagerSecretsLoader::new(Fixed {}).load(request(&["a"]));
    assert_eq!(fetched.len(), 1);
    assert_eq!(fetched.get("a"), Some(&value("x")));
    assert_eq!(fetched.to_json(), "{\"a\":{\"value\":\"x\",\"error\":null}}");
}

#[test]
fn a_missing_parameter_is_reported_beside_a_found_one() {
    let loader = SsmSecretsLoader::new(ParameterStore {}, true);
    let fetched = loader.load(request(&["/known/db", "/absent/db"]));
    assert_eq!(fetched.len(), 2);
    assert_eq!(fetched.get("/known/db"), Some(&value("/known/db=true")));
    assert_eq!(fetched.get("/absent/db"), Some(&error("parameter not found")));
}

#[test]
fn a_service_error_keeps_the_detail_behind_its_prefix() {
    let loader = SsmSecretsLoader::new(ParameterStore {}, true);
    let fetched = loader.load(request(&["/denied/key"]));
    let secret = fetched.get("/denied/key").unwrap();
    assert_eq!(secret.value, None);
    assert_eq!(secret.error, Some("service error: AccessDeniedException".to_string()));
}

#[test]
fn an_empty_request_gives_an_empty_table() {
    let fetched = SsmSecretsLoader::new(ParameterStore {}, true).load(request(&[]));
    assert_eq!(fetched.len(), 0);
    assert!(fetched == FetchedSecrets::default());
    assert_eq!(fetched.to_json(), "{}");

    let fetched = SecretsManagerSecretsLoader::new(Vault { failing: None }).load(request(&[]));
    assert_eq!(fetched.len(), 0);
    assert_eq!(fetched.to_json(), "{}");
}

#[test]
fn the_decryption_flag_reaches_the_client() {
    let plain = SsmSecretsLoader::new(ParameterStore {}, false).load(request(&["/known/k"]));
    assert_eq!(plain.get("/known/k"), Some(&value("/known/k=false")));
    let decrypted = SsmSecretsLoader::new(ParameterStore {}, true).load(request(&["/known/k"]));
    assert_eq!(decrypted.get("/known/k"), Some(&value("/known/k=true")));
}

#[test]
fn every_distinct_name_has_one_entry() {
    let loader = SecretsManagerSecretsLoader::new(Vault { failing: Some("b".to_string()) });
    let fetched = loader.load(request(&["a", "b", "a", "c", "b"]));
    assert_eq!(fetched.len(), 3);
    assert_eq!(names_of(&fetched), vec!["a", "b", "c"]);
    assert_eq!(fetched.get("a"), Some(&value("A")));
    assert_eq!(fetched.get("b"), Some(&error("dispatch failure")));
    assert_eq!(fetched.get("c"), Some(&value("C")));
    assert_eq!(fetched.get("d"), None);
}

#[test]
fn every_entry_has_a_value_or_an_error_and_not_both() {
    let loader = SsmSecretsLoader::new(ParameterStore {}, true);
    let names = ["/known/a", "/denied/b", "/empty/c", "/absent/d"];
    let fetched = loader.load(request(&names));
    assert_eq!(fetched.len(), 4);
    for name in names {
        let secret = fetched.get(name).unwrap();
        assert!(secret.is_exclusive());
        assert_ne!(secret.value.is_some(), secret.error.is_some());
    }
    assert_eq!(fetched.get("/empty/c"), Some(&error("parameter value not found")));
}

#[test]
fn a_failing_fetch_leaves_the_other_outcomes_alone() {
    let names = ["a", "b", "c"];
    let sound = SecretsManagerSecretsLoader::new(Vault { failing: None }).load(request(&names));
    let broken = SecretsManagerSecretsLoader::new(Vault { failing: Some("a".to_string()) })
        .load(request(&names));
    assert_eq!(sound.get("a"), Some(&value("A")));
    assert_eq!(broken.get("a"), Some(&error("dispatch failure")));
    assert_eq!(sound.get("b"), broken.get("b"));
    assert_eq!(sound.get("c"), broken.get("c"));
    assert_eq!(broken.get("b"), Some(&value("B")));
    assert_eq!(broken.len(), 3);
}

#[test]
fn loading_twice_gives_the_same_table() {
    let loader = SsmSecretsLoader::new(ParameterStore {}, true);
    let names = ["/known/a", "/absent/b", "/known/a", "/denied/c"];
    let first = loader.load(request(&names));
    let second = loader.load(request(&names));
    assert!(first == second);
    assert_eq!(first.to_json(), second.to_json());
    assert_eq!(names_of(&first), names_of(&second));
}

#[test]
fn merge_keeps_the_last_outcome_of_a_repeated_name() {
    let names = vec!["a".to_string(), "b".to_string(), "a".to_string()];
    let outcomes = vec![value("first"), error("none"), value("last")];
    let fetched = merge(names, outcomes);
    assert_eq!(fetched.len(), 2);
    assert_eq!(names_of(&fetched), vec!["a", "b"]);
    assert_eq!(fetched.get("a"), Some(&value("last")));
    assert_eq!(fetched.get("b"), Some(&error("none")));
}

#[test]
fn merge_leaves_out_what_has_no_partner() {
    let fetched = merge(vec!["a".to_string(), "b".to_string()], vec![value("x")]);
    assert_eq!(fetched.len(), 1);
    assert_eq!(fetched.get("a"), Some(&value("x")));
    assert_eq!(fetched.get("b"), None);

    let fetched = merge(vec!["a".to_string()], vec![value("x"), value("y")]);
    assert_eq!(fetched.len(), 1);
    assert_eq!(fetched.get("a"), Some(&value("x")));

    let fetched = merge(Vec::new(), Vec::new());
    assert_eq!(fetched.len(), 0);
}
