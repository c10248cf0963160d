use airbyte_to_flow::catalog::{ResourceSpec, Stream, SyncMode};
use airbyte_to_flow::discover::{
    cursor_field_of, discover_stream, finish_binding, key_fields, patch_files, patched_key,
    patched_schema, plan_discovery, read_discover_options, schema_steps, sync_mode_of,
    DiscoverOptions, PlannedBinding, SchemaStep, StreamPlan, STREAM_PATCH_SUFFIX, STREAM_PK_SUFFIX,
};
use airbyte_to_flow::error::AtfError;
use airbyte_to_flow::json::{read_json, Json};
use airbyte_to_flow::resource::resource_spec_to_resource_path;

fn strings(list: &[&str]) -> Vec<String> {
    list.iter().map(|s| s.to_string()).collect()
}

fn json(text: &str) -> Json {
    read_json(text.as_bytes()).unwrap()
}

fn stream(name: &str) -> Stream {
    Stream {
        name: name.to_string(),
        namespace: None,
        json_schema: r#"{"type":"object"}"#.to_string(),
        supported_sync_modes: None,
        default_cursor_field: None,
        source_defined_cursor: None,
        source_defined_primary_key: None,
    }
}

fn plan(name: &str) -> StreamPlan {
    StreamPlan { index: 0, recommended_name: name.to_string(), disable: false }
}

#[test]
fn options_are_read_from_their_files() {
    let options =
        read_discover_options(Some(r#"["a"]"#), None, Some(r#"["date-to-datetime","x"]"#)).unwrap();
    assert_eq!(options.selected_streams, Some(strings(&["a"])));
    assert_eq!(options.omitted_streams, None);
    assert_eq!(options.schema_normalizations, strings(&["date-to-datetime", "x"]));

    let options = read_discover_options(None, Some(r#"["b"]"#), None).unwrap();
    assert_eq!(options.selected_streams, None);
    assert_eq!(options.omitted_streams, Some(strings(&["b"])));
    assert!(options.schema_normalizations.is_empty());
}

#[test]
fn unreadable_options_are_errors() {
    assert!(matches!(read_discover_options(Some("[1]"), None, None), Err(AtfError::Json(_))));
    assert!(matches!(read_discover_options(None, Some("{}"), None), Err(AtfError::Json(_))));
    assert!(matches!(read_discover_options(None, None, Some("[")), Err(AtfError::Json(_))));
}

#[test]
fn wrapped_lists_are_values_but_no_options() {
    // The reserved name makes the value of each of these texts the array that it wraps.
    for text in [
        r#"{"$serde_json::private::RawValue":"[\"a\"]"}"#,
        r#"[{"$serde_json::private::RawValue":"\"a\""}]"#,
    ] {
        assert_eq!(json(text), json(r#"["a"]"#));
        assert!(matches!(read_discover_options(Some(text), None, None), Err(AtfError::Json(_))));
        assert!(matches!(read_discover_options(None, Some(text), None), Err(AtfError::Json(_))));
        assert!(matches!(read_discover_options(None, None, Some(text)), Err(AtfError::Json(_))));
    }
}

#[test]
fn omitted_streams_are_left_out_and_unselected_ones_disabled() {
    let options = DiscoverOptions {
        selected_streams: Some(strings(&["a", "d"])),
        omitted_streams: Some(strings(&["b", "d"])),
        schema_normalizations: Vec::new(),
    };
    let streams = vec![stream("a"), stream("b"), stream("c c"), stream("d")];
    let plans = plan_discovery(&streams, &options);
    assert_eq!(plans.len(), 2);
    assert_eq!((plans[0].index, plans[0].disable), (0, false));
    assert_eq!(plans[0].recommended_name, "a");
    assert_eq!((plans[1].index, plans[1].disable), (2, true));
    assert_eq!(plans[1].recommended_name, "cc");
}

#[test]
fn without_lists_all_streams_are_offered_enabled() {
    let options = DiscoverOptions {
        selected_streams: None,
        omitted_streams: None,
        schema_normalizations: Vec::new(),
    };
    let plans = plan_discovery(&vec![stream("a"), stream("b")], &options);
    assert_eq!(plans.len(), 2);
    assert!(plans.iter().all(|plan| !plan.disable));
}

#[test]
fn patch_files_have_a_fallback() {
    assert_eq!(
        patch_files("foo/Bar", STREAM_PK_SUFFIX),
        ("streams/foo/Bar.pk.json".to_string(), "streams/*.pk.json".to_string())
    );
    assert_eq!(patch_files("x", STREAM_PATCH_SUFFIX).0, "streams/x.patch.json");
}

#[test]
fn incremental_is_preferred() {
    assert_eq!(sync_mode_of(&None), SyncMode::FullRefresh);
    assert_eq!(sync_mode_of(&Some(vec![])), SyncMode::FullRefresh);
    assert_eq!(
        sync_mode_of(&Some(vec![SyncMode::FullRefresh, SyncMode::Incremental])),
        SyncMode::Incremental
    );
    assert_eq!(sync_mode_of(&Some(vec![SyncMode::FullRefresh])), SyncMode::FullRefresh);
}

#[test]
fn key_patch_replaces_the_key() {
    assert_eq!(
        patched_key(strings(&["/id"]), Some(json(r#"["a","b/c"]"#))).unwrap(),
        strings(&["/a", "/b/c"])
    );
    assert_eq!(patched_key(strings(&["/id"]), None).unwrap(), strings(&["/id"]));
    assert!(matches!(
        patched_key(strings(&["/id"]), Some(json("{}"))),
        Err(AtfError::InvalidPKPatch(m)) if m == "expected an array"
    ));
}

#[test]
fn key_fields_lose_their_slash() {
    assert_eq!(key_fields(&strings(&["/id", "/a/b", "/"])), strings(&["id", "a/b", ""]));
}

#[test]
fn cursor_falls_back_to_the_key() {
    assert_eq!(cursor_field_of(None, strings(&["id"])), strings(&["id"]));
    assert_eq!(cursor_field_of(Some(vec![]), strings(&["id"])), strings(&["id"]));
    assert_eq!(cursor_field_of(Some(strings(&["t"])), strings(&["id"])), strings(&["t"]));
}

#[test]
fn schema_patch_is_merged() {
    let patched = patched_schema(
        json(r#"{"type":"object","properties":{"a":{}}}"#),
        Some(json(r#"{"properties":{"a":null,"b":{}}}"#)),
    );
    assert_eq!(
        patched.into_value(),
        serde_json::from_str::<serde_json::Value>(r#"{"type":"object","properties":{"b":{}}}"#)
            .unwrap()
    );
    assert_eq!(patched_schema(Json::Null, None), Json::Null);
}

#[test]
fn stream_becomes_a_binding() {
    let mut s = stream("My Stream");
    s.namespace = Some("ns".to_string());
    s.supported_sync_modes = Some(vec![SyncMode::Incremental]);
    let planned = discover_stream(
        s,
        StreamPlan { index: 3, recommended_name: "MyStream".to_string(), disable: true },
        strings(&["/id"]),
        None,
        Some(r#"{"x":1}"#),
    )
    .unwrap()
    .unwrap();
    assert_eq!(planned.recommended_name, "MyStream");
    assert!(planned.disable);
    assert_eq!(planned.key, strings(&["/id"]));
    assert_eq!(planned.resource.stream, "My Stream");
    assert_eq!(planned.resource.namespace.as_deref(), Some("ns"));
    assert_eq!(planned.resource.sync_mode, SyncMode::Incremental);
    assert_eq!(planned.resource.cursor_field, Some(strings(&["id"])));
    assert_eq!(
        resource_spec_to_resource_path(&planned.resource),
        strings(&["ns", "My Stream"])
    );
    assert_eq!(planned.schema, json(r#"{"type":"object","x":1}"#));
}

#[test]
fn patched_key_of_a_stream_is_its_cursor() {
    let planned =
        discover_stream(stream("s"), plan("s"), strings(&["/id"]), Some(r#"["a"]"#), None)
            .unwrap()
            .unwrap();
    assert_eq!(planned.key, strings(&["/a"]));
    assert_eq!(planned.resource.cursor_field, Some(strings(&["a"])));
}

#[test]
fn unreadable_patches_and_schemas_are_errors() {
    let keys = || strings(&["/id"]);
    assert!(matches!(
        discover_stream(stream("s"), plan("s"), keys(), Some("["), None),
        Some(Err(AtfError::Json(_)))
    ));
    assert!(matches!(
        discover_stream(stream("s"), plan("s"), keys(), Some("{}"), None),
        Some(Err(AtfError::InvalidPKPatch(_)))
    ));
    assert!(matches!(
        discover_stream(stream("s"), plan("s"), keys(), None, Some("x")),
        Some(Err(AtfError::Json(_)))
    ));
    let mut s = stream("s");
    s.json_schema = "{".to_string();
    assert!(matches!(
        discover_stream(s, plan("s"), keys(), None, None),
        Some(Err(AtfError::Json(_)))
    ));
}

#[test]
fn unusable_keys_have_no_outcome() {
    assert!(discover_stream(stream("s"), plan("s"), vec![], Some("[1]"), None).is_none());
    assert!(discover_stream(stream("s"), plan("s"), strings(&[""]), None, None).is_none());
    assert!(discover_stream(stream("s"), plan("s"), strings(&["\u{e4}"]), None, None).is_none());
    // A patch stands in place of a key that could not be used.
    assert!(matches!(
        discover_stream(stream("s"), plan("s"), strings(&[""]), Some("[]"), None),
        Some(Ok(_))
    ));
}

#[test]
fn steps_follow_the_normalizations() {
    let options = |normalizations: &[&str]| DiscoverOptions {
        selected_streams: None,
        omitted_streams: None,
        schema_normalizations: strings(normalizations),
    };
    assert_eq!(
        schema_steps(&options(&[])),
        vec![
            SchemaStep::FixNonstandardAttributes,
            SchemaStep::RemoveEnums,
            SchemaStep::FixKeys
        ]
    );
    assert_eq!(
        schema_steps(&options(&["x", "date-to-datetime", "y"])),
        vec![
            SchemaStep::FixNonstandardAttributes,
            SchemaStep::RemoveEnums,
            SchemaStep::DateToDatetime,
            SchemaStep::FixKeys
        ]
    );
}

#[test]
fn finished_binding_holds_the_texts() {
    let planned = PlannedBinding {
        recommended_name: "s".to_string(),
        disable: true,
        key: strings(&["/id"]),
        resource: ResourceSpec {
            stream: "s".to_string(),
            namespace: None,
            sync_mode: SyncMode::FullRefresh,
            cursor_field: None,
        },
        schema: Json::Null,
    };
    let binding =
        finish_binding(planned, r#"{"stream":"s"}"#.to_string(), json(r#"{ "a" : 1 }"#)).unwrap();
    assert_eq!(binding.recommended_name, "s");
    assert_eq!(binding.resource_config_json, r#"{"stream":"s"}"#);
    assert_eq!(binding.key, strings(&["/id"]));
    assert_eq!(binding.document_schema_json, r#"{"a":1}"#);
    assert!(binding.disable);
    assert!(binding.resource_path.is_empty());
    assert!(!binding.is_fallback_key);
}
