use airbyte_to_flow::airbyte_interval_checkpoint::{AirbyteIntervalCheckpoint, INTERVAL_RUN_KEY};
use airbyte_to_flow::catalog::ConnectorSpec;
use airbyte_to_flow::config::adapt_config_json;
use airbyte_to_flow::error::AtfError;
use airbyte_to_flow::json::{read_json, Json};
use airbyte_to_flow::spec_response::{patch_spec, spec_response};

fn json(text: &str) -> Json {
    read_json(text.as_bytes()).unwrap()
}

fn spec() -> ConnectorSpec {
    ConnectorSpec {
        connection_specification: r#"{"type":"object","title":"x"}"#.to_string(),
        auth_specification: Some(r#"{"auth":1}"#.to_string()),
        documentation_url: Some("https://own".to_string()),
    }
}

#[test]
fn without_patches_the_spec_stands() {
    let patched = patch_spec(spec(), None, None, None).unwrap();
    assert_eq!(patched.endpoint_spec, json(r#"{"title":"x","type":"object"}"#));
    assert_eq!(patched.auth_spec, Some(json(r#"{"auth":1}"#)));
    assert_eq!(patched.documentation_url, "https://own");
}

#[test]
fn patches_change_the_spec() {
    let patched = patch_spec(
        spec(),
        Some(r#"{"title":null,"a":2}"#),
        Some(r#"{"other":3}"#),
        Some(r#"{"documentation_url":"https://patch"}"#),
    )
    .unwrap();
    assert_eq!(patched.endpoint_spec, json(r#"{"a":2,"type":"object"}"#));
    // This patch overrides, it is not merged.
    assert_eq!(patched.auth_spec, Some(json(r#"{"other":3}"#)));
    assert_eq!(patched.documentation_url, "https://patch");
}

#[test]
fn documentation_patch_without_an_address_leaves_none() {
    for patch in ["{}", "[]", r#"{"documentation_url":1}"#, "null"] {
        let patched = patch_spec(spec(), None, None, Some(patch)).unwrap();
        assert_eq!(patched.documentation_url, "");
    }
    let mut bare = spec();
    bare.documentation_url = None;
    bare.auth_specification = None;
    let patched = patch_spec(bare, None, None, None).unwrap();
    assert_eq!(patched.documentation_url, "");
    assert_eq!(patched.auth_spec, None);
}

#[test]
fn unreadable_specs_and_patches_are_errors() {
    let mut broken = spec();
    broken.connection_specification = "{".to_string();
    assert!(matches!(patch_spec(broken, None, None, None), Err(AtfError::Json(_))));
    let mut broken = spec();
    broken.auth_specification = Some("{".to_string());
    assert!(matches!(patch_spec(broken, None, None, None), Err(AtfError::Json(_))));
    assert!(matches!(patch_spec(spec(), Some("{"), None, None), Err(AtfError::Json(_))));
    assert!(matches!(patch_spec(spec(), None, Some("{"), None), Err(AtfError::Json(_))));
    assert!(matches!(patch_spec(spec(), None, None, Some("{")), Err(AtfError::Json(_))));
}

#[test]
fn spec_response_is_complete() {
    let patched = patch_spec(spec(), None, None, None).unwrap();
    let response = spec_response(patched, json(r#"{"b":1,"a":[]}"#), "{}".to_string()).unwrap();
    assert_eq!(response.protocol, 3032023);
    assert_eq!(response.config_schema_json, r#"{"a":[],"b":1}"#);
    assert_eq!(response.resource_config_schema_json, "{}");
    assert_eq!(response.oauth2, Some(json(r#"{"auth":1}"#)));
    assert_eq!(response.documentation_url, "https://own");
    assert_eq!(response.resource_path_pointers, vec!["/namespace", "/stream"]);
}

#[test]
fn config_comes_with_its_mapping() {
    let config = adapt_config_json(br#"{"a":1}"#, None).unwrap();
    assert_eq!(config.config, json(r#"{"a":1}"#));
    assert!(config.mapping.is_none());
    let config = adapt_config_json(br#"{"a":1}"#, Some(r#"{"/b":"/a"}"#)).unwrap();
    assert_eq!(config.mapping, Some(json(r#"{"/b":"/a"}"#)));
    assert!(matches!(adapt_config_json(b"", None), Err(AtfError::Json(_))));
    assert!(matches!(adapt_config_json(b"{}", Some("{")), Err(AtfError::Json(_))));
}

#[test]
fn interval_checkpoint_has_its_key() {
    let checkpoint =
        AirbyteIntervalCheckpoint { flow_interval_last_run: Some("2024-01-01".to_string()) };
    assert_eq!(INTERVAL_RUN_KEY, "_flow_interval_last_run");
    assert_eq!(checkpoint.flow_interval_last_run.as_deref(), Some("2024-01-01"));
}
