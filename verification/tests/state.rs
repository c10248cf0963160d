use airbyte_to_flow::catalog::{State, StreamDescriptor, StreamState};
use airbyte_to_flow::error::AtfError;
use airbyte_to_flow::json::{read_json, Json};
use airbyte_to_flow::state::{
    checkpoint_document, convert_state_for_connector, per_stream_state, state_file_content,
    state_to_checkpoint, unsupported_state, STATE_FORMAT_PER_STREAM,
};
use serde_json::value::RawValue;
use std::collections::BTreeMap;

type Members = BTreeMap<String, Box<RawValue>>;

fn members(text: &str) -> Members {
    serde_json::from_str(text).unwrap()
}

fn text_of(members: &Members, name: &str) -> Option<String> {
    members.get(name).map(|raw| raw.get().to_string())
}

fn string_of(members: &Members, name: &str) -> Option<String> {
    text_of(members, name).map(|text| serde_json::from_str(&text).unwrap())
}

// Reads a state message.
fn state_from(text: &str) -> State {
    let message = members(text);
    State {
        state_type: string_of(&message, "type"),
        data: text_of(&message, "data"),
        merge: text_of(&message, "merge").map(|text| serde_json::from_str(&text).unwrap()),
        stream: text_of(&message, "stream").map(|text| {
            let stream = members(&text);
            let descriptor = members(stream["stream_descriptor"].get());
            StreamState {
                stream_descriptor: StreamDescriptor {
                    name: string_of(&descriptor, "name").unwrap(),
                    namespace: string_of(&descriptor, "namespace"),
                },
                stream_state: text_of(&stream, "stream_state"),
            }
        }),
        global: text_of(&message, "global"),
    }
}

// Parses a state file's bytes back into a value for assertions.
fn parse(bytes: Vec<u8>) -> serde_json::Value {
    serde_json::from_slice(&bytes).unwrap()
}

fn value(text: &str) -> serde_json::Value {
    serde_json::from_str(text).unwrap()
}

fn json(text: &str) -> Json {
    read_json(text.as_bytes()).unwrap()
}

#[test]
fn test_convert_state_legacy_dict_to_per_stream_list() {
    // A persisted state: a JSON object keyed by stream name.
    let legacy = br#"{
        "sponsored_brands_report_stream": {"12345": "2024-01-01"},
        "sponsored_products_campaigns": {"cursor": "2024-02-02"}
    }"#;

    let got = parse(convert_state_for_connector(legacy).unwrap());

    let expected = value(
        r#"[
            {
                "type": "STREAM",
                "stream": {
                    "stream_descriptor": {"name": "sponsored_brands_report_stream"},
                    "stream_state": {"12345": "2024-01-01"}
                }
            },
            {
                "type": "STREAM",
                "stream": {
                    "stream_descriptor": {"name": "sponsored_products_campaigns"},
                    "stream_state": {"cursor": "2024-02-02"}
                }
            }
        ]"#,
    );
    assert_eq!(got, expected);
}

#[test]
fn test_convert_state_empty_and_passthrough() {
    // Empty input becomes an empty list.
    assert_eq!(parse(convert_state_for_connector(b"").unwrap()), value("[]"));
    assert_eq!(parse(convert_state_for_connector(b"{}").unwrap()), value("[]"));
    // So does null.
    assert_eq!(parse(convert_state_for_connector(b"null").unwrap()), value("[]"));
    // A list is already in the form that a connector reads and is passed through.
    let list = br#"[{"type":"STREAM","stream":{"stream_descriptor":{"name":"s"},"stream_state":{"c":1}}}]"#;
    assert_eq!(
        parse(convert_state_for_connector(list).unwrap()),
        parse(list.to_vec())
    );
}

#[test]
fn test_state_to_checkpoint_per_stream() {
    // A stream's state is persisted under the stream's name, to be merged, so that each
    // stream updates only its own member.
    let state = state_from(
        r#"{"type":"STREAM","stream":{"stream_descriptor":{"name":"sponsored_brands_v3_report_stream"},"stream_state":{"reportDate":"2024-03-03"}}}"#,
    );

    let (updated_json, merge_patch) = state_to_checkpoint(state).unwrap();
    assert!(merge_patch);
    assert_eq!(
        serde_json::from_str::<serde_json::Value>(&updated_json).unwrap(),
        value(r#"{"sponsored_brands_v3_report_stream": {"reportDate": "2024-03-03"}}"#)
    );
}

#[test]
fn test_state_to_checkpoint_legacy_data() {
    // A state as a whole is forwarded as it is, with its merge flag.
    let state = state_from(r#"{"data":{"some":"state"},"merge":true}"#);
    let (updated_json, merge_patch) = state_to_checkpoint(state).unwrap();
    assert!(merge_patch);
    assert_eq!(
        serde_json::from_str::<serde_json::Value>(&updated_json).unwrap(),
        value(r#"{"some": "state"}"#)
    );

    // Without a merge flag it replaces what is held.
    let state = state_from(r#"{"data":{"some":"state"}}"#);
    let (_, merge_patch) = state_to_checkpoint(state).unwrap();
    assert!(!merge_patch);
}

#[test]
fn test_state_to_checkpoint_prefers_data_when_both_present() {
    // Some connectors emit both; the state as a whole wins.
    let state = state_from(
        r#"{"type":"STREAM","data":{"legacy":"blob"},"stream":{"stream_descriptor":{"name":"s"},"stream_state":{"c":1}}}"#,
    );
    let (updated_json, merge_patch) = state_to_checkpoint(state).unwrap();
    assert!(!merge_patch);
    assert_eq!(
        serde_json::from_str::<serde_json::Value>(&updated_json).unwrap(),
        value(r#"{"legacy": "blob"}"#)
    );
}

#[test]
fn test_state_to_checkpoint_unrecognized_is_noop() {
    // A state of another kind becomes an empty merge patch rather than an error.
    let state = state_from(
        r#"{"type":"GLOBAL","global":{"shared_state":{"x":1},"stream_states":[]}}"#,
    );

    assert_eq!(state.state_type.as_deref(), Some("GLOBAL"));
    assert_eq!(
        serde_json::from_str::<serde_json::Value>(state.global.as_ref().unwrap()).unwrap(),
        value(r#"{"shared_state":{"x":1},"stream_states":[]}"#)
    );

    let (updated_json, merge_patch) = state_to_checkpoint(state).unwrap();
    assert!(merge_patch);
    assert_eq!(
        serde_json::from_str::<serde_json::Value>(&updated_json).unwrap(),
        value("{}")
    );
}

#[test]
fn test_state_round_trips_through_both_directions() {
    // A stream's checkpoint is persisted, then handed back to the connector.
    let state = state_from(
        r#"{"type":"STREAM","stream":{"stream_descriptor":{"name":"sponsored_products_campaigns"},"stream_state":{"cursor":"2024-04-04"}}}"#,
    );

    let (persisted, _) = state_to_checkpoint(state).unwrap();

    let for_connector = parse(convert_state_for_connector(persisted.as_bytes()).unwrap());

    assert_eq!(
        for_connector,
        value(
            r#"[
                {
                    "type": "STREAM",
                    "stream": {
                        "stream_descriptor": {"name": "sponsored_products_campaigns"},
                        "stream_state": {"cursor": "2024-04-04"}
                    }
                }
            ]"#
        )
    );
}

#[test]
fn data_is_forwarded_letter_by_letter() {
    let state = state_from("{\"data\":{\"b\" : 1.10,\n \"a\":  2},\"merge\":false}");
    let (updated_json, merge_patch) = state_to_checkpoint(state).unwrap();
    assert_eq!(updated_json, "{\"b\" : 1.10,\n \"a\":  2}");
    assert!(!merge_patch);
}

#[test]
fn stream_without_state_is_an_empty_object() {
    let state = state_from(r#"{"stream":{"stream_descriptor":{"name":"s","namespace":"n"}}}"#);
    let (updated_json, merge_patch) = state_to_checkpoint(state).unwrap();
    assert_eq!(updated_json, r#"{"s":{}}"#);
    assert!(merge_patch);
}

#[test]
fn unreadable_stream_state_is_an_error() {
    let state = State {
        state_type: None,
        data: None,
        merge: None,
        stream: Some(StreamState {
            stream_descriptor: StreamDescriptor { name: "s".to_string(), namespace: None },
            stream_state: Some("{".to_string()),
        }),
        global: None,
    };
    assert!(matches!(state_to_checkpoint(state), Err(AtfError::Json(_))));
}

#[test]
fn unreadable_persisted_state_is_an_error() {
    assert!(matches!(convert_state_for_connector(b"{\"a\""), Err(AtfError::Json(_))));
}

#[test]
fn other_values_are_no_state() {
    assert_eq!(convert_state_for_connector(b"3").unwrap(), b"[]".to_vec());
    assert_eq!(convert_state_for_connector(b"\"x\"").unwrap(), b"[]".to_vec());
    assert_eq!(convert_state_for_connector(b"true").unwrap(), b"[]".to_vec());
}

#[test]
fn streams_are_listed_in_order_of_their_names() {
    let got = convert_state_for_connector(br#"{"b":1,"a":2,"B":null}"#).unwrap();
    assert_eq!(
        String::from_utf8(got).unwrap(),
        concat_messages(&[("B", "null"), ("a", "2"), ("b", "1")])
    );
}

fn concat_messages(streams: &[(&str, &str)]) -> String {
    let mut text = String::from("[");
    for (i, (name, state)) in streams.iter().enumerate() {
        if i > 0 {
            text.push(',');
        }
        text.push_str(&format!(
            "{{\"stream\":{{\"stream_descriptor\":{{\"name\":\"{}\"}},\"stream_state\":{}}},\"type\":\"STREAM\"}}",
            name, state
        ));
    }
    text.push(']');
    text
}

#[test]
fn converting_twice_is_converting_once() {
    let once = convert_state_for_connector(br#"{"a":{"x":1}}"#).unwrap();
    let twice = convert_state_for_connector(&once).unwrap();
    assert_eq!(once, twice);
}

#[test]
fn state_file_follows_the_format() {
    let state = br#"{"a":  1}"#;
    assert_eq!(state_file_content(None, state).unwrap(), state.to_vec());
    assert_eq!(state_file_content(Some("other"), state).unwrap(), state.to_vec());
    assert_eq!(
        String::from_utf8(state_file_content(Some(STATE_FORMAT_PER_STREAM), state).unwrap())
            .unwrap(),
        concat_messages(&[("a", "1")])
    );
    // Without the format, an unreadable state is handed on too.
    assert_eq!(state_file_content(None, b"{").unwrap(), b"{".to_vec());
    assert!(matches!(
        state_file_content(Some("per_stream"), b"{"),
        Err(AtfError::Json(_))
    ));
}

#[test]
fn checkpoints_of_streams_accumulate() {
    let persisted = json(r#"{"a":{"x":1}}"#);
    let b = checkpoint_document("b".to_string(), json(r#"{"y":2}"#));
    let a = checkpoint_document("a".to_string(), json(r#"{"x":3}"#));
    let merged = airbyte_to_flow::merge::merge_json(
        airbyte_to_flow::merge::merge_json(persisted, b),
        a,
    );
    assert_eq!(merged.into_value(), value(r#"{"a":{"x":3},"b":{"y":2}}"#));

    // In the other order too.
    let b = checkpoint_document("b".to_string(), json(r#"{"y":2}"#));
    let a = checkpoint_document("a".to_string(), json(r#"{"x":3}"#));
    let merged = airbyte_to_flow::merge::merge_json(
        airbyte_to_flow::merge::merge_json(json(r#"{"a":{"x":1}}"#), a),
        b,
    );
    assert_eq!(merged.into_value(), value(r#"{"a":{"x":3},"b":{"y":2}}"#));
}

#[test]
fn messages_tell_their_streams_apart() {
    let list = |text: &str| parse(convert_state_for_connector(text.as_bytes()).unwrap());
    assert_ne!(list(r#"{"a":1}"#), list(r#"{"b":1}"#));
    assert_ne!(list(r#"{"a":1}"#), list(r#"{"a":2}"#));
    assert_eq!(list(r#"{"a":1}"#), list(r#" { "a" : 1 } "#));
}

#[test]
fn deepest_plain_state_round_trips() {
    for (depth, survives) in [(124, true), (125, false)] {
        let inner = format!("{}{}", "[".repeat(depth), "]".repeat(depth));
        let state = State {
            state_type: None,
            data: None,
            merge: None,
            stream: Some(StreamState {
                stream_descriptor: StreamDescriptor { name: "s".to_string(), namespace: None },
                stream_state: Some(inner.clone()),
            }),
            global: None,
        };
        let (persisted, _) = state_to_checkpoint(state).unwrap();
        let state_file = convert_state_for_connector(persisted.as_bytes()).unwrap();
        let read = serde_json::from_slice::<serde_json::Value>(&state_file);
        assert_eq!(read.is_ok(), survives);
        if survives {
            assert_eq!(read.unwrap(), value(&concat_messages(&[("s", &inner)])));
        }
    }
}

#[test]
fn checkpoint_document_is_listed() {
    let document = checkpoint_document("s".to_string(), json(r#"{"c":1}"#));
    assert_eq!(
        per_stream_state(document).into_value(),
        value(&concat_messages(&[("s", r#"{"c":1}"#)]))
    );
}

#[test]
fn states_without_data_and_stream_are_unsupported() {
    assert!(unsupported_state(&state_from(r#"{"type":"GLOBAL","global":{}}"#)));
    assert!(unsupported_state(&state_from("{}")));
    assert!(!unsupported_state(&state_from(r#"{"data":1}"#)));
    assert!(!unsupported_state(&state_from(
        r#"{"stream":{"stream_descriptor":{"name":"s"}}}"#
    )));
}

#[test]
fn merged_states_are_read_back() {
    let persisted = json(r#"{"a":{"x":1}}"#);
    let b = checkpoint_document("b".to_string(), json(r#"{"y":2}"#));
    let list = per_stream_state(airbyte_to_flow::merge::merge_json(persisted, b));
    assert_eq!(
        list.into_value(),
        value(&concat_messages(&[("a", r#"{"x":1}"#), ("b", r#"{"y":2}"#)]))
    );
}

#[test]
fn unrecognized_state_leaves_what_is_persisted() {
    let state = state_from(r#"{"type":"GLOBAL"}"#);
    let (patch, merge) = state_to_checkpoint(state).unwrap();
    assert!(merge);
    let merged = airbyte_to_flow::merge::merge_json(json(r#"{"a":{"x":1}}"#), json(&patch));
    assert_eq!(merged.into_value(), value(r#"{"a":{"x":1}}"#));
}
