use hermes::models::{HermesEnvironment, KeyValueRow};
use hermes::variables::{start_resolution, substitute, variable_sources, ResolveStart};
use hermes::workspace::create_workspace;

fn row(key: &str, value: &str, enabled: bool, secret: bool) -> KeyValueRow {
    KeyValueRow {
        id: key.to_string(),
        key: key.to_string(),
        value: value.to_string(),
        enabled,
        secret,
    }
}

/// The values the environment gives a text, secrets standing in as `secret-{key}`.
fn values_for(env: &HermesEnvironment, text: &str) -> Vec<(String, String)> {
    variable_sources(env, text)
        .into_iter()
        .map(|s| {
            let value = s.value.unwrap_or_else(|| format!("secret-{}", s.key));
            (s.key, value)
        })
        .collect()
}

fn resolve(env: &HermesEnvironment, text: &str) -> Result<String, hermes::error::AppError> {
    match start_resolution(&Some(env.id.clone()), text) {
        ResolveStart::Resolved(t) => Ok(t),
        ResolveStart::Failed(e) => Err(e),
        ResolveStart::NeedsEnvironment(_) => substitute(text, &values_for(env, text)),
    }
}

#[test]
fn resolves_environment_values() {
    let plan = create_workspace("/tmp/hermes-vars", "Test".to_string());
    assert_eq!(plan.environment.id, "local");
    let result = resolve(&plan.environment, "{{baseUrl}}/users").unwrap();
    assert_eq!(result, "https://api.example.com/users");
}

#[test]
fn fails_on_unresolved_values() {
    let plan = create_workspace("/tmp/hermes-vars", "Test".to_string());
    assert_eq!(plan.environment.id, "local");
    assert!(resolve(&plan.environment, "{{missing}}").is_err());
}

#[test]
fn text_without_placeholders_needs_no_environment() {
    match start_resolution(&None, "plain {text}") {
        ResolveStart::Resolved(t) => assert_eq!(t, "plain {text}"),
        _ => panic!("expected the text back"),
    }
    match start_resolution(&None, "{{ baseUrl }}") {
        ResolveStart::Failed(e) => assert_eq!(e.code(), "missing_environment"),
        _ => panic!("expected a missing environment"),
    }
}

#[test]
fn placeholders_allow_spaces_and_later_rows_win() {
    let env = HermesEnvironment {
        id: "e".to_string(),
        name: "E".to_string(),
        values: vec![
            row("host", "a.example", true, false),
            row("host", "b.example", true, false),
            row("off", "x", false, false),
            row("token", "", true, true),
        ],
    };
    assert_eq!(resolve(&env, "https://{{ host }}/{{token}}").unwrap(), "https://b.example/secret-token");
    let sources = variable_sources(&env, "{{token}}");
    assert_eq!(sources.len(), 1);
    assert_eq!(sources[0].key, "token");
    assert!(sources[0].value.is_none());
}

#[test]
fn unresolved_names_are_listed_sorted_once() {
    let env = HermesEnvironment { id: "e".to_string(), name: "E".to_string(), values: vec![row("off", "x", false, false)] };
    let e = resolve(&env, "{{zeta}} {{off}} {{alpha}} {{zeta}}").unwrap_err();
    assert_eq!(e.code(), "unresolved_variable");
    assert_eq!(e.message(), "Unresolved variables: alpha, off, zeta");
}
