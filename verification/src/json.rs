//! JSON values.

use crate::order::{ascending, is_before, text_before};
use crate::serde_bridge::{
    json_content, json_text, map_content, map_entries, plain_within, put_together, reads_back,
    take_apart, taken_for_raw, value_content, value_from_slice, value_items, value_members,
    value_names, value_to_string, Layer, NESTING_LIMIT, RAW_VALUE_KEY,
};
use crate::text::same_text;
use vstd::prelude::*;
use vstd::utf8::encode_utf8;

verus! {

/// What a JSON value is.
#[verifier::ext_equal]
pub enum JsonView {
    Null,
    Bool(bool),
    Number(serde_json::Number),
    String(Seq<char>),
    Array(Seq<JsonView>),
    Object(Map<Seq<char>, JsonView>),
}

/// A JSON value. The members of an object are listed by name; where a name is listed
/// twice, the later entry counts.
#[derive(Debug, PartialEq)]
pub enum Json {
    Null,
    Bool(bool),
    Number(serde_json::Number),
    String(String),
    Array(Vec<Json>),
    Object(Vec<(String, Json)>),
}

pub open spec fn items_view(items: Seq<Json>) -> Seq<JsonView>
    decreases items,
{
    Seq::new(
        items.len(),
        |i: int|
            if 0 <= i < items.len() {
                items[i].view()
            } else {
                JsonView::Null
            },
    )
}

pub open spec fn members_view(entries: Seq<(String, Json)>) -> Map<Seq<char>, JsonView>
    decreases entries,
{
    if entries.len() == 0 {
        Map::empty()
    } else {
        members_view(entries.drop_last()).insert(entries.last().0@, entries.last().1.view())
    }
}

/// The names of the entries, in the order in which they are listed.
pub open spec fn names_of(entries: Seq<(String, Json)>) -> Seq<Seq<char>> {
    entries.map_values(|entry: (String, Json)| entry.0@)
}

impl Json {
    pub open spec fn view(&self) -> JsonView
        decreases *self,
    {
        match *self {
            Json::Null => JsonView::Null,
            Json::Bool(b) => JsonView::Bool(b),
            Json::Number(n) => JsonView::Number(n),
            Json::String(s) => JsonView::String(s@),
            Json::Array(items) => JsonView::Array(items_view(items@)),
            Json::Object(entries) => JsonView::Object(members_view(entries@)),
        }
    }

    /// If this is an object, its entries are listed in ascending order of their names.
    pub open spec fn in_order(&self) -> bool {
        match *self {
            Json::Object(entries) => ascending(names_of(entries@)),
            _ => true,
        }
    }

    /// The value that a `serde_json::Value` holds.
    pub fn from_value(value: serde_json::Value) -> (json: Json)
        ensures
            json@ == value_content(value),
            json.in_order(),
        decreases value_content(value),
    {
        let ghost content = value_content(value);
        match take_apart(value) {
            Layer::Null => Json::Null,
            Layer::Bool(b) => Json::Bool(b),
            Layer::Number(n) => Json::Number(n),
            Layer::String(s) => Json::String(s),
            Layer::Array(values) => {
                let mut items: Vec<Json> = Vec::new();
                for part in it: values
                    invariant
                        it.seq() == values@,
                        content == value_content(value),
                        content == JsonView::Array(value_items(values@)),
                        items@.len() == it.index(),
                        forall|i: int|
                            0 <= i < items@.len() ==> (#[trigger] items@[i])@ == value_content(
                                values@[i],
                            ),
                {
                    proof {
                        assert(content->Array_0[it.index()] == value_content(part));
                        assert(decreases_to!(content => content->Array_0));
                        assert(decreases_to!(content->Array_0 => content->Array_0[it.index()]));
                    }
                    items.push(Json::from_value(part));
                }
                proof {
                    assert(items_view(items@) =~= value_items(values@));
                }
                Json::Array(items)
            },
            Layer::Object(map) => {
                let values = map_entries(map);
                let mut entries: Vec<(String, Json)> = Vec::new();
                for entry in it: values
                    invariant
                        it.seq() == values@,
                        content == value_content(value),
                        content == JsonView::Object(value_members(values@)),
                        ascending(value_names(values@)),
                        entries@.len() == it.index(),
                        forall|i: int|
                            0 <= i < entries@.len() ==> (#[trigger] entries@[i]).0@ == values@[i].0@
                                && entries@[i].1@ == value_content(values@[i].1),
                {
                    let (name, part) = entry;
                    proof {
                        lemma_value_members(values@);
                        assert(values@[it.index()] == entry);
                        assert(content->Object_0[name@] == value_content(part));
                        assert(decreases_to!(content => content->Object_0));
                        assert(decreases_to!(content->Object_0 => content->Object_0[name@]));
                    }
                    entries.push((name, Json::from_value(part)));
                }
                proof {
                    lemma_same_members(entries@, values@);
                    assert(names_of(entries@) =~= value_names(values@));
                }
                Json::Object(entries)
            },
        }
    }

    /// The `serde_json::Value` that holds this value.
    pub fn into_value(self) -> (value: serde_json::Value)
        ensures
            value_content(value) == self@,
        decreases self,
    {
        match self {
            Json::Null => put_together(Layer::Null),
            Json::Bool(b) => put_together(Layer::Bool(b)),
            Json::Number(n) => put_together(Layer::Number(n)),
            Json::String(s) => put_together(Layer::String(s)),
            Json::Array(items) => {
                let mut values: Vec<serde_json::Value> = Vec::new();
                for item in it: items
                    invariant
                        it.seq() == items@,
                        self == Json::Array(items),
                        values@.len() == it.index(),
                        forall|i: int|
                            0 <= i < values@.len() ==> value_content(#[trigger] values@[i])
                                == items@[i]@,
                {
                    assert(items@[it.index()] == item);
                    assert(decreases_to!(self => self->Array_0));
                    assert(decreases_to!(items => items@));
                    assert(decreases_to!(items@ => items@[it.index()]));
                    values.push(item.into_value());
                }
                assert(value_items(values@) =~= items_view(items@));
                put_together(Layer::Array(values))
            },
            Json::Object(entries) => {
                let mut map: serde_json::Map<String, serde_json::Value> = serde_json::Map::new();
                assert(entries@.take(0) =~= Seq::<(String, Json)>::empty());
                assert(map_content(map) =~= Map::<Seq<char>, JsonView>::empty());
                for entry in it: entries
                    invariant
                        it.seq() == entries@,
                        self == Json::Object(entries),
                        map_content(map) == members_view(entries@.take(it.index())),
                {
                    assert(entries@[it.index()] == entry);
                    assert(decreases_to!(self => self->Object_0));
                    assert(decreases_to!(entries => entries@));
                    assert(decreases_to!(entries@ => entries@[it.index()]));
                    assert(decreases_to!(entry => entry.1));
                    assert(entries@.take(it.index() + 1).drop_last() =~= entries@.take(it.index()));
                    let (name, item) = entry;
                    map.insert(name, item.into_value());
                }
                assert(entries@.take(entries@.len() as int) =~= entries@);
                put_together(Layer::Object(map))
            },
        }
    }

    /// The value of the member called `name`, where this is an object that has one.
    pub fn get(&self, name: &str) -> (member: Option<&Json>)
        ensures
            match member {
                Some(json) => self@ matches JsonView::Object(members) && members.contains_key(name@)
                    && json@ == members[name@],
                None => self@ matches JsonView::Object(members) ==> !members.contains_key(name@),
            },
    {
        match self {
            Json::Object(entries) => match last_entry(entries, name) {
                Some(i) => Some(&entries[i].1),
                None => None,
            },
            _ => None,
        }
    }

    /// Whether the text of this value is sure to be read as the same value.
    pub fn reads_back(&self) -> (plain: bool)
        ensures
            plain == reads_back(self@),
    {
        self.plain_within(NESTING_LIMIT)
    }

    fn plain_within(&self, depth: usize) -> (plain: bool)
        ensures
            plain == plain_within(self@, depth as nat),
        decreases self,
    {
        match self {
            Json::Null => true,
            Json::Bool(_) => true,
            Json::Number(number) => !number.is_f64(),
            Json::String(_) => true,
            Json::Array(items) => {
                if depth == 0 {
                    return false;
                }
                for i in 0..items.len()
                    invariant
                        0 < depth,
                        *self == Json::Array(*items),
                        forall|k: int|
                            0 <= k < i ==> plain_within(
                                (#[trigger] items@[k])@,
                                (depth - 1) as nat,
                            ),
                {
                    assert(items_view(items@)[i as int] == items@[i as int]@);
                    assert(decreases_to!(self => self->Array_0));
                    assert(decreases_to!(items => items@));
                    assert(decreases_to!(items@ => items@[i as int]));
                    if !items[i].plain_within(depth - 1) {
                        assert(!plain_within(self@->Array_0[i as int], (depth - 1) as nat));
                        return false;
                    }
                }
                true
            },
            Json::Object(entries) => {
                if depth == 0 || begins_reserved(entries) {
                    return false;
                }
                for i in 0..entries.len()
                    invariant
                        0 < depth,
                        *self == Json::Object(*entries),
                        forall|k: int|
                            0 <= k < i ==> plain_within(
                                members_view(entries@)[(#[trigger] entries@[k]).0@],
                                (depth - 1) as nat,
                            ),
                {
                    proof {
                        lemma_member_names(entries@);
                    }
                    match last_entry(entries, entries[i].0.as_str()) {
                        Some(k) => {
                            assert(decreases_to!(self => self->Object_0));
                            assert(decreases_to!(entries => entries@));
                            assert(decreases_to!(entries@ => entries@[k as int]));
                            assert(decreases_to!(entries@[k as int] => entries@[k as int].1));
                            assert(members_view(entries@).contains_key(entries@[i as int].0@));
                            if !entries[k].1.plain_within(depth - 1) {
                                return false;
                            }
                        },
                        None => {
                            assert(members_view(entries@).contains_key(entries@[i as int].0@));
                        },
                    }
                }
                proof {
                    lemma_member_names(entries@);
                }
                true
            },
        }
    }
}

/// The last entry called `name`, which is the one that counts.
fn last_entry(entries: &Vec<(String, Json)>, name: &str) -> (found: Option<usize>)
    ensures
        match found {
            Some(i) => i < entries@.len() && entries@[i as int].0@ == name@ && members_view(
                entries@,
            ).contains_key(name@) && members_view(entries@)[name@] == entries@[i as int].1@,
            None => !members_view(entries@).contains_key(name@),
        },
{
    let mut i: usize = entries.len();
    assert(entries@.take(i as int) =~= entries@);
    while i > 0
        invariant
            i <= entries@.len(),
            members_view(entries@).contains_key(name@) == members_view(
                entries@.take(i as int),
            ).contains_key(name@),
            members_view(entries@)[name@] == members_view(entries@.take(i as int))[name@],
        decreases i,
    {
        i = i - 1;
        assert(entries@.take(i + 1).drop_last() =~= entries@.take(i as int));
        assert(entries@.take(i + 1).last() == entries@[i as int]);
        if same_text(entries[i].0.as_str(), name) {
            return Some(i);
        }
    }
    assert(entries@.take(0) =~= Seq::<(String, Json)>::empty());
    None
}

/// Whether the first of the members' names is the reserved one.
fn begins_reserved(entries: &Vec<(String, Json)>) -> (reserved: bool)
    ensures
        reserved == taken_for_raw(members_view(entries@)),
{
    proof {
        lemma_member_names(entries@);
    }
    if last_entry(entries, RAW_VALUE_KEY).is_none() {
        return false;
    }
    for i in 0..entries.len()
        invariant
            members_view(entries@).contains_key(RAW_VALUE_KEY@),
            forall|k: int|
                0 <= k < i ==> !text_before((#[trigger] entries@[k]).0@, RAW_VALUE_KEY@),
            forall|k: int|
                0 <= k < entries.len() ==> members_view(entries@).contains_key(
                    (#[trigger] entries@[k]).0@,
                ),
    {
        if is_before(entries[i].0.as_str(), RAW_VALUE_KEY) {
            assert(members_view(entries@).contains_key(entries@[i as int].0@));
            return false;
        }
    }
    true
}

/// The members are those that the entries name.
pub proof fn lemma_member_names(entries: Seq<(String, Json)>)
    ensures
        members_view(entries).dom() =~= names_of(entries).to_set(),
        forall|name: Seq<char>| #[trigger]
            members_view(entries).contains_key(name) ==> exists|i: int|
                0 <= i < entries.len() && (#[trigger] entries[i]).0@ == name,
        forall|i: int|
            0 <= i < entries.len() ==> members_view(entries).contains_key(
                (#[trigger] entries[i]).0@,
            ),
        members_view(entries).dom().finite(),
    decreases entries.len(),
{
    if entries.len() > 0 {
        let front = entries.drop_last();
        lemma_member_names(front);
        assert(names_of(entries) =~= names_of(front).push(entries.last().0@));
        names_of(front).lemma_push_to_set_commute(entries.last().0@);
        assert forall|name: Seq<char>| #[trigger]
            members_view(entries).contains_key(name) implies exists|i: int|
            0 <= i < entries.len() && (#[trigger] entries[i]).0@ == name by {
            if name == entries.last().0@ {
                assert(entries[entries.len() - 1].0@ == name);
            } else {
                let i = choose|i: int| 0 <= i < front.len() && (#[trigger] front[i]).0@ == name;
                assert(entries[i].0@ == name);
            }
        }
        assert forall|i: int| 0 <= i < entries.len() implies members_view(entries).contains_key(
            (#[trigger] entries[i]).0@,
        ) by {
            if i < front.len() {
                assert(front[i] == entries[i]);
            }
        }
    } else {
        assert(names_of(entries) =~= Seq::<Seq<char>>::empty());
    }
}

/// Reads the JSON value of a text.
pub fn read_json(text: &[u8]) -> (json: Result<Json, serde_json::Error>)
    ensures
        match json {
            Ok(j) => json_content(text@) == Some(j@) && j.in_order(),
            Err(_) => json_content(text@) is None,
        },
{
    match value_from_slice(text) {
        Ok(value) => Ok(Json::from_value(value)),
        Err(e) => Err(e),
    }
}

/// The text of a file, where there is one.
pub open spec fn file_text(file: Option<&str>) -> Option<Seq<char>> {
    match file {
        Some(text) => Some(text@),
        None => None,
    }
}

/// There is no file, or its JSON value can be read.
pub open spec fn readable_file(file: Option<&str>) -> bool {
    file matches Some(text) ==> json_content(encode_utf8(text@)) is Some
}

/// The JSON value of a file, where there is one that can be read.
pub open spec fn file_content(file: Option<&str>) -> Option<JsonView> {
    match file {
        Some(text) => json_content(encode_utf8(text@)),
        None => None,
    }
}

/// What a value that may be missing is.
pub open spec fn option_json(json: Option<Json>) -> Option<JsonView> {
    match json {
        Some(j) => Some(j@),
        None => None,
    }
}

/// Reads the JSON value of a file, where there is one.
pub fn read_file(file: Option<&str>) -> (json: Result<Option<Json>, serde_json::Error>)
    ensures
        match json {
            Ok(j) => readable_file(file) && option_json(j) == file_content(file),
            Err(_) => !readable_file(file),
        },
{
    match file {
        Some(text) => match read_json(text.as_bytes()) {
            Ok(json) => Ok(Some(json)),
            Err(e) => Err(e),
        },
        None => Ok(None),
    }
}

/// `text` is what is written for `content`, and reads as `content` again where that can be
/// relied on.
pub open spec fn written(text: Seq<char>, content: JsonView) -> bool {
    &&& text.len() > 0
    &&& text == json_text(content)
    &&& reads_back(content) ==> json_content(encode_utf8(text)) == Some(content)
}

/// Writes a JSON value as a text.
pub fn write_json(json: Json) -> (text: Result<String, serde_json::Error>)
    ensures
        text matches Ok(t) && written(t@, json@),
        json@ == JsonView::Object(Map::empty()) ==> text->Ok_0@ == "{}"@,
        json@ == JsonView::Array(Seq::empty()) ==> text->Ok_0@ == "[]"@,
{
    let value = json.into_value();
    value_to_string(&value)
}

proof fn lemma_same_members(entries: Seq<(String, Json)>, values: Seq<(String, serde_json::Value)>)
    requires
        entries.len() == values.len(),
        forall|i: int|
            0 <= i < entries.len() ==> (#[trigger] entries[i]).0@ == values[i].0@
                && entries[i].1@ == value_content(values[i].1),
    ensures
        members_view(entries) == value_members(values),
    decreases entries.len(),
{
    if entries.len() > 0 {
        lemma_same_members(entries.drop_last(), values.drop_last());
    }
}

/// Entries in ascending order of their names are the members that they give.
proof fn lemma_value_members(values: Seq<(String, serde_json::Value)>)
    requires
        ascending(value_names(values)),
    ensures
        forall|i: int|
            0 <= i < values.len() ==> value_members(values).contains_key(
                (#[trigger] values[i]).0@,
            ) && value_members(values)[values[i].0@] == value_content(values[i].1),
        value_members(values).dom().finite(),
    decreases values.len(),
{
    if values.len() > 0 {
        let front = values.drop_last();
        assert(value_names(front) =~= value_names(values).drop_last());
        lemma_value_members(front);
        crate::order::lemma_ascending_distinct(value_names(values));
        assert forall|i: int| 0 <= i < values.len() implies value_members(values).contains_key(
            (#[trigger] values[i]).0@,
        ) && value_members(values)[values[i].0@] == value_content(values[i].1) by {
            if i < front.len() {
                assert(front[i] == values[i]);
                assert(value_names(values)[i] == values[i].0@);
                assert(value_names(values)[values.len() - 1] == values.last().0@);
            }
        }
    }
}

/// The value of a file is what its text reads as; a file that is missing has none and stands in
/// the way of nothing.
pub proof fn law_file_is_read_as_it_is(text: &str)
    ensures
        file_text(Some(text)) == Some(text@),
        file_text(None) is None,
        file_content(Some(text)) == json_content(encode_utf8(text@)),
        file_content(None) is None,
        readable_file(Some(text)) <==> json_content(encode_utf8(text@)) is Some,
        readable_file(None),
{
}

/// A value holds what its parts hold: an array its items, in their order, and an object under
/// each name what the last entry of that name holds.
pub proof fn law_value_holds_its_parts(
    items: Vec<Json>,
    entries: Vec<(String, Json)>,
    other: Option<Json>,
)
    ensures
        Json::Array(items)@ matches JsonView::Array(held) && held.len() == items@.len() && (forall|
            i: int,
        |
            0 <= i < items@.len() ==> (#[trigger] held[i]) == items@[i]@),
        Json::Object(entries)@ matches JsonView::Object(held) && (forall|i: int|
            0 <= i < entries@.len() && (forall|later: int|
                i < later < entries@.len() ==> (#[trigger] entries@[later]).0@ != entries@[i].0@)
                ==> held.contains_key((#[trigger] entries@[i]).0@) && held[entries@[i].0@]
                == entries@[i].1@) && (forall|name: Seq<char>| #[trigger]
            held.contains_key(name) ==> exists|i: int|
                0 <= i < entries@.len() && (#[trigger] entries@[i]).0@ == name),
        option_json(other) is Some <==> other is Some,
        other matches Some(json) ==> option_json(other) == Some(json@),
{
    lemma_member_names(entries@);
    lemma_last_entries(entries@);
}

proof fn lemma_last_entries(entries: Seq<(String, Json)>)
    ensures
        forall|i: int|
            0 <= i < entries.len() && (forall|later: int|
                i < later < entries.len() ==> (#[trigger] entries[later]).0@ != entries[i].0@)
                ==> members_view(entries)[(#[trigger] entries[i]).0@] == entries[i].1@,
    decreases entries.len(),
{
    if entries.len() > 0 {
        let front = entries.drop_last();
        lemma_last_entries(front);
        assert forall|i: int|
            0 <= i < entries.len() && (forall|later: int|
                i < later < entries.len() ==> (#[trigger] entries[later]).0@
                    != entries[i].0@) implies members_view(entries)[(#[trigger] entries[i]).0@]
            == entries[i].1@ by {
            if i < front.len() {
                assert(front[i] == entries[i]);
                assert forall|later: int| i < later < front.len() implies (
                #[trigger] front[later]).0@ != front[i].0@ by {
                    assert(entries[later] == front[later]);
                }
                assert(entries[entries.len() - 1].0@ != entries[i].0@);
            }
        }
    }
}

/// What is written for a value is the one text that stands for it.
pub proof fn law_written_text_is_the_values(text: Seq<char>, content: JsonView)
    requires
        written(text, content),
    ensures
        text.len() > 0,
        text == json_text(content),
        reads_back(content) ==> json_content(encode_utf8(text)) == Some(content),
{
}

} // verus!
