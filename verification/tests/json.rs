use airbyte_to_flow::json::{read_file, read_json, write_json, Json};
use airbyte_to_flow::merge::merge_json;
use airbyte_to_flow::order::is_before;
use airbyte_to_flow::text_map::TextMap;

fn json(text: &str) -> Json {
    read_json(text.as_bytes()).unwrap()
}

fn merged(target: &str, patch: &str) -> String {
    write_json(merge_json(json(target), json(patch))).unwrap()
}

#[test]
fn values_go_through_serde_json_unchanged() {
    let text = r#"{"a":[null,true,-3,1.5,"x\n"],"b":{"c":{}}}"#;
    let value: serde_json::Value = serde_json::from_str(text).unwrap();
    let back = Json::from_value(value.clone()).into_value();
    assert_eq!(back, value);
    assert_eq!(write_json(json(text)).unwrap(), text);
}

#[test]
fn later_entry_of_a_name_counts() {
    let object = Json::Object(vec![
        ("a".to_string(), Json::Bool(true)),
        ("a".to_string(), Json::Bool(false)),
    ]);
    assert_eq!(object.get("a"), Some(&Json::Bool(false)));
    assert_eq!(write_json(object).unwrap(), r#"{"a":false}"#);
}

#[test]
fn members_are_found_by_name() {
    assert_eq!(json(r#"{"a":1,"b":"x"}"#).get("b"), Some(&Json::String("x".to_string())));
    assert_eq!(json(r#"{"a":1}"#).get("b"), None);
    assert_eq!(json(r#"["b"]"#).get("b"), None);
}

#[test]
fn unreadable_texts_are_errors() {
    assert!(read_json(b"").is_err());
    assert!(read_json(b"{} x").is_err());
    assert!(read_file(Some("[")).is_err());
    assert!(read_file(None).unwrap().is_none());
    assert_eq!(read_file(Some(" 1 ")).unwrap().unwrap().into_value(), serde_json::Value::from(1));
}

#[test]
fn empty_containers_are_two_brackets() {
    assert_eq!(write_json(Json::Object(Vec::new())).unwrap(), "{}");
    assert_eq!(write_json(Json::Array(Vec::new())).unwrap(), "[]");
}

#[test]
fn plain_values_read_back() {
    assert!(json(r#"{"a":[1,-2,"x",null,true]}"#).reads_back());
    assert!(!json("[1.5]").reads_back());
    let reserved = Json::Object(vec![(
        "$serde_json::private::RawValue".to_string(),
        Json::Null,
    )]);
    assert!(!reserved.reads_back());
    // The reserved name matters only where it comes first.
    let behind = Json::Object(vec![
        ("#".to_string(), Json::Null),
        ("$serde_json::private::RawValue".to_string(), Json::String("1".to_string())),
    ]);
    assert!(behind.reads_back());
    let text = write_json(behind).unwrap();
    assert_eq!(write_json(json(&text)).unwrap(), text);
}

#[test]
fn patch_into_nothing_is_what_then_stands_there() {
    assert_eq!(merged("null", r#"{"a":{"b":[null]}}"#), r#"{"a":{"b":[null]}}"#);
    assert_eq!(merged("[1]", "2"), "2");
}

#[test]
fn texts_are_ordered_by_code_points() {
    let texts = ["", "A", "Aa", "B", "a", "\u{e9}", "\u{ffff}", "\u{10000}"];
    for (i, a) in texts.iter().enumerate() {
        for (j, b) in texts.iter().enumerate() {
            assert_eq!(is_before(a, b), i < j);
            assert_eq!(is_before(a, b), a < b);
        }
    }
}

fn nested(depth: usize) -> Json {
    let mut value = Json::Null;
    for _ in 0..depth {
        value = Json::Array(vec![value]);
    }
    value
}

#[test]
fn nesting_is_limited() {
    assert!(nested(127).reads_back());
    assert!(!nested(128).reads_back());
    let text = write_json(nested(127)).unwrap();
    assert_eq!(write_json(json(&text)).unwrap(), text);
    let text = write_json(nested(128)).unwrap();
    assert!(read_json(text.as_bytes()).is_err());
}

// The examples of RFC 7396, appendix A.
#[test]
fn merge_patches_follow_the_rfc() {
    assert_eq!(merged(r#"{"a":"b"}"#, r#"{"a":"c"}"#), r#"{"a":"c"}"#);
    assert_eq!(merged(r#"{"a":"b"}"#, r#"{"b":"c"}"#), r#"{"a":"b","b":"c"}"#);
    assert_eq!(merged(r#"{"a":"b"}"#, r#"{"a":null}"#), "{}");
    assert_eq!(merged(r#"{"a":"b","b":"c"}"#, r#"{"a":null}"#), r#"{"b":"c"}"#);
    assert_eq!(merged(r#"{"a":["b"]}"#, r#"{"a":"c"}"#), r#"{"a":"c"}"#);
    assert_eq!(merged(r#"{"a":"c"}"#, r#"{"a":["b"]}"#), r#"{"a":["b"]}"#);
    assert_eq!(
        merged(r#"{"a":{"b":"c"}}"#, r#"{"a":{"b":"d","c":null}}"#),
        r#"{"a":{"b":"d"}}"#
    );
    assert_eq!(merged(r#"{"a":[{"b":"c"}]}"#, r#"{"a":[1]}"#), r#"{"a":[1]}"#);
    assert_eq!(merged(r#"["a","b"]"#, r#"["c","d"]"#), r#"["c","d"]"#);
    assert_eq!(merged(r#"{"a":"b"}"#, r#"["c"]"#), r#"["c"]"#);
    assert_eq!(merged(r#"{"a":"foo"}"#, "null"), "null");
    assert_eq!(merged(r#"{"a":"foo"}"#, r#""bar""#), r#""bar""#);
    assert_eq!(merged(r#"{"e":null}"#, r#"{"a":1}"#), r#"{"a":1,"e":null}"#);
    assert_eq!(merged("[1,2]", r#"{"a":"b","c":null}"#), r#"{"a":"b"}"#);
    assert_eq!(merged("{}", r#"{"a":{"bb":{"ccc":null}}}"#), r#"{"a":{"bb":{}}}"#);
}

#[test]
fn merging_twice_is_merging_once() {
    let patch = r#"{"a":{"b":null,"c":1},"d":[2]}"#;
    let once = merged(r#"{"a":{"b":3},"e":4}"#, patch);
    assert_eq!(merged(&once, patch), once);
}

#[test]
fn empty_patch_changes_nothing() {
    assert_eq!(merged(r#"{"a":{"b":null}}"#, "{}"), r#"{"a":{"b":null}}"#);
}

#[test]
fn text_maps_keep_the_last_value() {
    let mut map: TextMap<u8> = TextMap::new();
    assert!(map.get("a").is_none());
    map.insert("a".to_string(), 1);
    map.insert("b".to_string(), 2);
    map.insert("a".to_string(), 3);
    assert_eq!(map.get("a"), Some(&3));
    assert_eq!(map.entries().len(), 2);
    assert_eq!(map.remove("a"), Some(3));
    assert_eq!(map.remove("a"), None);
    assert_eq!(map.get("b"), Some(&2));
}
