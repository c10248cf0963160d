use airbyte_to_flow::catalog::{ResourceSpec, SyncMode};
use airbyte_to_flow::names::{name_of_marked, stream_to_recommended_name};
use airbyte_to_flow::resource::resource_spec_to_resource_path;

#[test]
fn test_stream_to_recommended_name() {
    assert_eq!(stream_to_recommended_name("Hello-World"), "Hello-World");
    assert_eq!(
        stream_to_recommended_name("/&foo!/B ar// b+i-n.g /"),
        "foo/Bar/bi-n.g"
    );
}

#[test]
fn test_resource_paths() {
    let spec_a = ResourceSpec {
        stream: "foo".to_string(),
        namespace: None,
        sync_mode: SyncMode::Incremental,
        cursor_field: None,
    };

    let expected = vec!["foo".to_string()];
    assert_eq!(&expected, &resource_spec_to_resource_path(&spec_a));

    let spec_b = ResourceSpec {
        namespace: Some("toe".to_string()),
        ..spec_a
    };
    let expected = vec!["toe".to_string(), "foo".to_string()];
    assert_eq!(&expected, &resource_spec_to_resource_path(&spec_b));
}

#[test]
fn nothing_is_left_of_a_name_without_name_characters() {
    assert_eq!(stream_to_recommended_name(""), "");
    assert_eq!(stream_to_recommended_name("/ / + /"), "");
}

#[test]
fn letters_and_numbers_of_all_scripts_stay() {
    assert_eq!(stream_to_recommended_name("größe_Ⅷ/数 1"), "größe_Ⅷ/数1");
}

#[test]
fn recommended_names_are_stable() {
    for name in ["/&foo!/B ar// b+i-n.g /", "a//b", "x y", ""] {
        let once = stream_to_recommended_name(name);
        assert_eq!(stream_to_recommended_name(&once), once);
        assert!(!once.starts_with('/') && !once.ends_with('/') && !once.contains("//"));
    }
}

#[test]
fn marks_decide_what_is_alphanumeric() {
    let marked = vec![('/', true), ('a', true), ('b', false), ('/', false), ('.', false)];
    assert_eq!(name_of_marked(&marked), "a/.");
}

#[test]
fn paths_tell_streams_apart() {
    let path = |namespace: Option<&str>, stream: &str| {
        resource_spec_to_resource_path(&ResourceSpec {
            stream: stream.to_string(),
            namespace: namespace.map(|n| n.to_string()),
            sync_mode: SyncMode::FullRefresh,
            cursor_field: None,
        })
    };
    assert_ne!(path(Some("a"), "b"), path(Some("b"), "a"));
    assert_ne!(path(Some("a"), "b"), path(None, "b"));
    assert_eq!(path(Some("a"), "b"), path(Some("a"), "b"));
}
