//! The calls into `serde_json`, and what is taken on trust of them.

use crate::json::JsonView;
use crate::order::{ascending, text_before};
use crate::text::texts;
use vstd::prelude::*;
use vstd::utf8::encode_utf8;

verus! {

/// A JSON value as `serde_json` holds it.
#[verifier::external_type_specification]
#[verifier::external_body]
pub struct ExValue(serde_json::Value);

/// A JSON number as `serde_json` holds it.
#[verifier::external_type_specification]
#[verifier::external_body]
pub struct ExNumber(serde_json::Number);

/// The members of a JSON object as `serde_json` holds them.
#[verifier::external_type_specification]
#[verifier::external_body]
#[verifier::reject_recursive_types(K)]
#[verifier::reject_recursive_types(V)]
pub struct ExMap<K, V>(serde_json::Map<K, V>);

/// Why `serde_json` could not read or write a value.
#[verifier::external_type_specification]
#[verifier::external_body]
pub struct ExError(serde_json::Error);

/// What a `serde_json::Value` holds.
pub uninterp spec fn value_content(value: serde_json::Value) -> JsonView;

/// What a `serde_json::Map` holds.
pub uninterp spec fn map_content(map: serde_json::Map<String, serde_json::Value>) -> Map<
    Seq<char>,
    JsonView,
>;

/// Whether a `serde_json::Number` is kept as a floating-point number: what
/// `serde_json::Number::is_f64` answers.
pub uninterp spec fn number_is_float(number: serde_json::Number) -> bool;

/// What `serde_json::from_slice` reads as a JSON value from a text, and `None` where it
/// reports an error.
pub uninterp spec fn json_content(text: Seq<u8>) -> Option<JsonView>;

/// The strings that `serde_json::from_str` reads as a list of strings from a text, and `None`
/// where it reports an error.
pub uninterp spec fn strings_content(text: Seq<char>) -> Option<Seq<Seq<char>>>;

/// The text that `serde_json::to_string` writes for a JSON value.
pub uninterp spec fn json_text(content: JsonView) -> Seq<char>;

/// White space as it may stand around a JSON value.
pub open spec fn is_json_space(byte: u8) -> bool {
    byte == 0x20 || byte == 0x0a || byte == 0x0d || byte == 0x09
}

/// A text without the white space at its two ends.
pub open spec fn without_outer_space(text: Seq<u8>) -> Seq<u8>
    decreases text.len(),
{
    if text.len() > 0 && is_json_space(text[0]) {
        without_outer_space(text.drop_first())
    } else if text.len() > 0 && is_json_space(text.last()) {
        without_outer_space(text.drop_last())
    } else {
        text
    }
}

/// How many arrays and objects may stand inside each other in a text that is read.
pub const NESTING_LIMIT: usize = 127;

/// An object whose first member has this name is taken by `serde_json` for the wrapping of
/// a raw value.
pub const RAW_VALUE_KEY: &'static str = "$serde_json::private::RawValue";

/// The reserved name is the first of the members' names.
pub open spec fn taken_for_raw(members: Map<Seq<char>, JsonView>) -> bool {
    members.contains_key(RAW_VALUE_KEY@) && forall|name: Seq<char>| #[trigger]
        members.contains_key(name) ==> !text_before(name, RAW_VALUE_KEY@)
}

/// At most `depth` arrays and objects stand inside each other, no number is a
/// floating-point number, and no object has the reserved name as its first.
pub open spec fn plain_within(content: JsonView, depth: nat) -> bool
    decreases depth,
{
    match content {
        JsonView::Null => true,
        JsonView::Bool(_) => true,
        JsonView::Number(number) => !number_is_float(number),
        JsonView::String(_) => true,
        JsonView::Array(items) => depth > 0 && forall|i: int|
            0 <= i < items.len() ==> plain_within(#[trigger] items[i], (depth - 1) as nat),
        JsonView::Object(members) => depth > 0 && !taken_for_raw(members) && forall|
            name: Seq<char>,
        | #[trigger]
            members.contains_key(name) ==> plain_within(members[name], (depth - 1) as nat),
    }
}

/// The value is one that a text gives back as it was written.
///
/// Left out are floating-point numbers, whose last digit may change when their text is
/// read, values nested more deeply than a reader accepts, and objects with the reserved name
/// as their first.
pub open spec fn reads_back(content: JsonView) -> bool {
    plain_within(content, NESTING_LIMIT as nat)
}

/// The strings of an array that holds nothing else.
pub open spec fn string_list(content: Option<JsonView>) -> Option<Seq<Seq<char>>> {
    match content {
        Some(JsonView::Array(items)) => if forall|i: int|
            0 <= i < items.len() ==> #[trigger] items[i] is String {
            Some(items.map_values(|item: JsonView| item->String_0))
        } else {
            None
        },
        _ => None,
    }
}

/// One layer of a JSON value: the parts of an array or an object are still whole values.
pub(crate) enum Layer {
    Null,
    Bool(bool),
    Number(serde_json::Number),
    String(String),
    Array(Vec<serde_json::Value>),
    Object(serde_json::Map<String, serde_json::Value>),
}

pub(crate) open spec fn value_items(items: Seq<serde_json::Value>) -> Seq<JsonView> {
    items.map_values(|item: serde_json::Value| value_content(item))
}

/// The members that the entries give, a later entry replacing an earlier one of its name.
pub(crate) open spec fn value_members(
    entries: Seq<(String, serde_json::Value)>,
) -> Map<Seq<char>, JsonView>
    decreases entries.len(),
{
    if entries.len() == 0 {
        Map::empty()
    } else {
        value_members(entries.drop_last()).insert(
            entries.last().0@,
            value_content(entries.last().1),
        )
    }
}

pub(crate) open spec fn value_names(entries: Seq<(String, serde_json::Value)>) -> Seq<Seq<char>> {
    entries.map_values(|entry: (String, serde_json::Value)| entry.0@)
}

pub(crate) open spec fn layer_content(layer: Layer) -> JsonView {
    match layer {
        Layer::Null => JsonView::Null,
        Layer::Bool(b) => JsonView::Bool(b),
        Layer::Number(n) => JsonView::Number(n),
        Layer::String(s) => JsonView::String(s@),
        Layer::Array(items) => JsonView::Array(value_items(items@)),
        Layer::Object(map) => JsonView::Object(map_content(map)),
    }
}

/// Tells the variants of `serde_json::Value` apart.
///
/// Trusted: the parts are those of the value.
#[verifier::external_body]
pub(crate) fn take_apart(value: serde_json::Value) -> (layer: Layer)
    ensures
        layer_content(layer) == value_content(value),
{
    match value {
        serde_json::Value::Null => Layer::Null,
        serde_json::Value::Bool(b) => Layer::Bool(b),
        serde_json::Value::Number(n) => Layer::Number(n),
        serde_json::Value::String(s) => Layer::String(s),
        serde_json::Value::Array(items) => Layer::Array(items),
        serde_json::Value::Object(map) => Layer::Object(map),
    }
}

/// Calls the constructors of `serde_json::Value`.
///
/// Trusted: the value holds the given parts.
#[verifier::external_body]
pub(crate) fn put_together(layer: Layer) -> (value: serde_json::Value)
    ensures
        value_content(value) == layer_content(layer),
{
    match layer {
        Layer::Null => serde_json::Value::Null,
        Layer::Bool(b) => serde_json::Value::Bool(b),
        Layer::Number(n) => serde_json::Value::Number(n),
        Layer::String(s) => serde_json::Value::String(s),
        Layer::Array(items) => serde_json::Value::Array(items),
        Layer::Object(map) => serde_json::Value::Object(map),
    }
}

/// Calls `serde_json::Map::into_iter`.
///
/// Trusted: the entries are those of the map, in ascending order of their names.
#[verifier::external_body]
pub(crate) fn map_entries(map: serde_json::Map<String, serde_json::Value>) -> (entries: Vec<
    (String, serde_json::Value),
>)
    ensures
        value_members(entries@) == map_content(map),
        ascending(value_names(entries@)),
{
    map.into_iter().collect()
}

/// `serde_json::Map::new`.
///
/// Trusted: the map is empty.
pub assume_specification[ serde_json::Map::<
    std::string::String,
    serde_json::Value,
>::new ]() -> (map: serde_json::Map<std::string::String, serde_json::Value>)
    ensures
        map_content(map).dom() == Set::<Seq<char>>::empty(),
;

/// `serde_json::Map::insert`.
///
/// Trusted: the value stands under the name from then on, whatever stood there before; the
/// value that stood there is returned.
pub assume_specification[ serde_json::Map::<
    std::string::String,
    serde_json::Value,
>::insert ](
    map: &mut serde_json::Map<std::string::String, serde_json::Value>,
    k: std::string::String,
    v: serde_json::Value,
) -> (replaced: Option<serde_json::Value>)
    ensures
        map_content(*final(map)) == map_content(*old(map)).insert(k@, value_content(v)),
        match replaced {
            Some(r) => map_content(*old(map)).contains_key(k@) && map_content(*old(map))[k@]
                == value_content(r),
            None => !map_content(*old(map)).contains_key(k@),
        },
;

/// `serde_json::Number::is_f64`.
///
/// Trusted: the answer depends on the number alone.
pub assume_specification[ serde_json::Number::is_f64 ](number: &serde_json::Number) -> (float: bool)
    ensures
        float == number_is_float(*number),
;

/// Calls `serde_json::from_slice` for a `serde_json::Value`.
///
/// Trusted: what is read, and whether it can be read, depends on the text alone.
#[verifier::external_body]
pub(crate) fn value_from_slice(text: &[u8]) -> (value: Result<
    serde_json::Value,
    serde_json::Error,
>)
    ensures
        match value {
            Ok(v) => json_content(text@) == Some(value_content(v)),
            Err(_) => json_content(text@) is None,
        },
{
    serde_json::from_slice(text)
}

/// Calls `serde_json::from_str` for a `Vec<String>`.
///
/// Trusted: the strings, and whether they can be read, depend on the text alone; where they
/// can be read, the text reads as a JSON value too, and that is the array of these strings.
///
/// The converse is not claimed: a text whose value is such an array can still be refused, since
/// an object with the reserved name as its first is read as the value that it wraps, but not
/// as a list or a string.
#[verifier::external_body]
pub(crate) fn strings_from_str(text: &str) -> (list: Result<Vec<String>, serde_json::Error>)
    ensures
        match list {
            Ok(strings) => strings_content(text@) == Some(texts(strings@)) && string_list(
                json_content(encode_utf8(text@)),
            ) == Some(texts(strings@)),
            Err(_) => strings_content(text@) is None,
        },
{
    serde_json::from_str(text)
}

/// Calls `serde_json::from_slice` for a boxed `serde_json::value::RawValue`.
///
/// Trusted: of a text that can be read as a JSON value, what is kept is the text without the
/// white space at its two ends, and that reads as the same value.
#[verifier::external_body]
pub(crate) fn raw_from_slice(text: &[u8]) -> (raw: Result<String, serde_json::Error>)
    requires
        json_content(text@) is Some,
    ensures
        raw is Ok,
        encode_utf8(raw->Ok_0@) == without_outer_space(text@),
        json_content(encode_utf8(raw->Ok_0@)) == json_content(text@),
{
    serde_json::from_slice::<Box<serde_json::value::RawValue>>(text).map(|r| r.get().to_string())
}

/// Calls `serde_json::to_string` on a `serde_json::Value`.
///
/// Trusted: a value can always be written, its text is not empty and depends on what it
/// holds alone, an empty object and an empty array are written as two brackets, and a plain
/// value is read from its text as it was written.
#[verifier::external_body]
pub(crate) fn value_to_string(value: &serde_json::Value) -> (text: Result<
    String,
    serde_json::Error,
>)
    ensures
        text is Ok,
        text->Ok_0@.len() > 0,
        text->Ok_0@ == json_text(value_content(*value)),
        value_content(*value) == JsonView::Object(Map::empty()) ==> text->Ok_0@ == "{}"@,
        value_content(*value) == JsonView::Array(Seq::empty()) ==> text->Ok_0@ == "[]"@,
        reads_back(value_content(*value)) ==> json_content(encode_utf8(text->Ok_0@)) == Some(
            value_content(*value),
        ),
{
    serde_json::to_string(value)
}

} // verus!
