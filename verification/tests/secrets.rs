use hermes::models::SecretMetadata;
use hermes::secrets::{account_name, get_secret_metadata, keys_with, keys_without, metadata_path, KEYCHAIN_SERVICE};
use hermes::workspace::create_workspace;

fn strings(v: &[&str]) -> Vec<String> {
    v.iter().map(|s| s.to_string()).collect()
}

#[test]
fn account_name_contains_workspace_id() {
    let workspace = create_workspace("/tmp/hermes-secrets", "Test".to_string()).config;
    let account = account_name(&workspace, "local", "token");
    assert!(account.starts_with(&workspace.id));
    assert!(account.ends_with(":local:token"));
}

#[test]
fn account_and_metadata_names() {
    let workspace = hermes::models::WorkspaceConfig { id: "w1".to_string(), name: "W".to_string(), version: 1 };
    assert_eq!(account_name(&workspace, "dev", "api"), "w1:dev:api");
    assert_eq!(KEYCHAIN_SERVICE, "dev.hermes.api-client");
    assert_eq!(metadata_path("/ws", "dev"), "/ws/.hermes/secrets-dev.yaml");
}

#[test]
fn stored_keys_are_sorted_and_unique() {
    let keys = keys_with(&strings(&["token", "alpha"]), "beta");
    assert_eq!(keys, strings(&["alpha", "beta", "token"]));
    let again = keys_with(&keys, "beta");
    assert_eq!(again, keys);
}

#[test]
fn store_then_delete_leaves_the_other_keys() {
    let before = strings(&["b", "a"]);
    let stored = keys_with(&before, "c");
    let after = keys_without(&stored, "c");
    assert_eq!(after, strings(&["a", "b"]));
    assert_eq!(keys_without(&strings(&["x", "y", "x"]), "x"), strings(&["y"]));
}

#[test]
fn metadata_of_a_missing_file_is_empty() {
    assert!(get_secret_metadata(None).is_empty());
    let m = SecretMetadata { keys: strings(&["k"]) };
    assert_eq!(get_secret_metadata(Some(m)), strings(&["k"]));
}
