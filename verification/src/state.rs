//! Connector state: from the state messages of a connector to the state that is persisted,
//! and back to the state file that a connector reads.

use crate::catalog::{State, StreamState};
use crate::error::AtfError;
use crate::json::{members_view, names_of, read_json, write_json, written, Json, JsonView};
use crate::merge::{member_or_null, members_of, merge_patch, without_null_members};
use crate::order::{
    ascending, in_ascending_order, lemma_ascending_distinct, lemma_can_be_ordered,
    lemma_in_ascending_order, text_before,
};
use crate::serde_bridge::{
    json_content, json_text, plain_within, reads_back, NESTING_LIMIT, RAW_VALUE_KEY,
};
use crate::text::same_text;
use vstd::prelude::*;
use vstd::slice::slice_to_vec;
use vstd::utf8::encode_utf8;

verus! {

/// The environment variable that says how a connector reads its state, and the value that
/// stands for a list of states, one per stream.
pub const STATE_FORMAT_ENV_VAR: &'static str = "AIRBYTE_TO_FLOW_STATE_FORMAT";

pub const STATE_FORMAT_PER_STREAM: &'static str = "per_stream";

/// The state of one stream as it is persisted: an object with the stream's name as the
/// name of its one member.
pub open spec fn stream_document(name: Seq<char>, state: JsonView) -> JsonView {
    JsonView::Object(Map::empty().insert(name, state))
}

/// The state of one stream as a connector reads it.
pub open spec fn stream_message(name: Seq<char>, state: JsonView) -> JsonView {
    let descriptor = JsonView::Object(Map::empty().insert("name"@, JsonView::String(name)));
    let stream = JsonView::Object(
        Map::empty().insert("stream_descriptor"@, descriptor).insert("stream_state"@, state),
    );
    JsonView::Object(
        Map::empty().insert("stream"@, stream).insert("type"@, JsonView::String("STREAM"@)),
    )
}

/// The list of states that a connector reads for a persisted state.
///
/// A list stays as it is. An object becomes one message per member, in ascending order of
/// the members' names. Anything else is no state.
pub open spec fn per_stream(state: JsonView) -> JsonView {
    match state {
        JsonView::Array(_) => state,
        JsonView::Object(members) => JsonView::Array(
            in_ascending_order(members.dom()).map_values(
                |name: Seq<char>| stream_message(name, members[name]),
            ),
        ),
        _ => JsonView::Array(Seq::empty()),
    }
}

/// What a stream's state message says the state is: an empty object where it says nothing,
/// and `None` where it cannot be read.
pub open spec fn stream_content(stream: StreamState) -> Option<JsonView> {
    match stream.stream_state {
        Some(raw) => json_content(encode_utf8(raw@)),
        None => Some(JsonView::Object(Map::empty())),
    }
}

/// What the text of a persisted state holds: an empty object where there is no text, and
/// `None` where it cannot be read.
pub open spec fn persisted_content(state_json: Seq<u8>) -> Option<JsonView> {
    if state_json.len() == 0 {
        Some(JsonView::Object(Map::empty()))
    } else {
        json_content(state_json)
    }
}

/// A state message that is neither a state as a whole nor a stream's state, such as one with
/// the state that streams share. It is not supported, and nothing of it is persisted.
pub open spec fn is_unsupported(state: State) -> bool {
    state.data is None && state.stream is None
}

/// The checkpoint that a state message gives: a text, and whether it is to be merged into
/// the state that is held.
///
/// A state given as a whole goes on as it is. A stream's state becomes a merge patch with
/// one member. Any other state message becomes a merge patch without members.
pub open spec fn is_checkpoint(state: State, checkpoint: Result<(String, bool), AtfError>) -> bool {
    match state.data {
        Some(data) => checkpoint matches Ok(c) && c.0@ == data@ && c.1 == match state.merge {
            Some(merge) => merge,
            None => false,
        },
        None => match state.stream {
            Some(stream) => match stream_content(stream) {
                Some(content) => checkpoint matches Ok(c) && written(
                    c.0@,
                    stream_document(stream.stream_descriptor.name@, content),
                ) && c.1,
                None => checkpoint matches Err(AtfError::Json(_)),
            },
            None => checkpoint matches Ok(c) && c.0@ == "{}"@ && c.1 && json_content(
                encode_utf8(c.0@),
            ) == Some(JsonView::Object(Map::empty())),
        },
    }
}

/// What stands in the state file of a connector that reads a list of states: the text of
/// that list, or an error where the persisted state cannot be read.
pub open spec fn is_connector_state(
    state_json: Seq<u8>,
    state_file: Result<Vec<u8>, AtfError>,
) -> bool {
    match persisted_content(state_json) {
        Some(state) => {
            &&& state_file matches Ok(bytes)
            &&& bytes@.len() > 0
            &&& bytes@ == encode_utf8(json_text(per_stream(state)))
            &&& reads_back(per_stream(state)) ==> json_content(bytes@) == Some(per_stream(state))
            &&& per_stream(state) == JsonView::Array(Seq::empty()) ==> bytes@ == encode_utf8("[]"@)
        },
        None => state_file matches Err(AtfError::Json(_)),
    }
}

/// The document that persists the state of one stream.
pub fn checkpoint_document(name: String, state: Json) -> (document: Json)
    ensures
        document@ == stream_document(name@, state@),
        document.in_order(),
{
    let ghost content = state@;
    let mut entries: Vec<(String, Json)> = Vec::new();
    entries.push((name, state));
    proof {
        reveal_with_fuel(members_view, 2);
        assert(entries@.drop_last() =~= Seq::empty());
        assert(members_view(entries@) =~= Map::empty().insert(name@, content));
    }
    Json::Object(entries)
}

/// Whether a state message is not supported.
pub fn unsupported_state(state: &State) -> (unsupported: bool)
    ensures
        unsupported == is_unsupported(*state),
{
    state.data.is_none() && state.stream.is_none()
}

/// Translates a state message of a connector into the checkpoint that is persisted: a
/// text, and whether it is to be merged into the state that is held.
///
/// A stream is told by its name alone; a namespace is dropped.
pub fn state_to_checkpoint(state: State) -> (checkpoint: Result<(String, bool), AtfError>)
    ensures
        is_checkpoint(state, checkpoint),
        state.data is None ==> (state.stream matches Some(stream) ==> (
        stream.stream_state matches Some(raw) ==> (json_content(
            encode_utf8(raw@),
        ) matches Some(content) ==> (checkpoint matches Ok(c) && c.1 && c.0@ == json_text(
            JsonView::Object(map![stream.stream_descriptor.name@ => content]),
        ))))),
{
    match state.data {
        Some(data) => {
            let merge = match state.merge {
                Some(merge) => merge,
                None => false,
            };
            Ok((data, merge))
        },
        None => match state.stream {
            Some(stream) => {
                let inner = match stream.stream_state {
                    Some(raw) => match read_json(raw.as_str().as_bytes()) {
                        Ok(json) => json,
                        Err(e) => return Err(AtfError::Json(e)),
                    },
                    None => Json::Object(Vec::new()),
                };
                let document = checkpoint_document(stream.stream_descriptor.name, inner);
                match write_json(document) {
                    Ok(text) => Ok((text, true)),
                    Err(e) => Err(AtfError::Json(e)),
                }
            },
            None => match write_json(Json::Object(Vec::new())) {
                Ok(text) => Ok((text, true)),
                Err(e) => Err(AtfError::Json(e)),
            },
        },
    }
}

/// What stands in the state file of a connector: the persisted state as it is, or a list of
/// states where `format` asks for it.
pub fn state_file_content(format: Option<&str>, state_json: &[u8]) -> (state_file: Result<
    Vec<u8>,
    AtfError,
>)
    ensures
        if format matches Some(f) && f@ == STATE_FORMAT_PER_STREAM@ {
            is_connector_state(state_json@, state_file)
        } else {
            state_file matches Ok(bytes) && bytes@ == state_json@
        },
{
    let wants_per_stream = match format {
        Some(f) => same_text(f, STATE_FORMAT_PER_STREAM),
        None => false,
    };
    if wants_per_stream {
        convert_state_for_connector(state_json)
    } else {
        Ok(slice_to_vec(state_json))
    }
}

/// The entries of an object are listed one by one in the order that `per_stream` names.
proof fn lemma_listed_in_order(entries: Seq<(String, Json)>)
    requires
        ascending(names_of(entries)),
    ensures
        in_ascending_order(members_view(entries).dom()) == names_of(entries),
        forall|i: int|
            0 <= i < entries.len() ==> members_view(entries)[(#[trigger] entries[i]).0@]
                == entries[i].1@,
    decreases entries.len(),
{
    crate::json::lemma_member_names(entries);
    lemma_in_ascending_order(names_of(entries));
    lemma_ascending_distinct(names_of(entries));
    if entries.len() > 0 {
        let front = entries.drop_last();
        assert(names_of(front) =~= names_of(entries).drop_last());
        lemma_listed_in_order(front);
        assert forall|i: int| 0 <= i < entries.len() implies members_view(
            entries,
        )[(#[trigger] entries[i]).0@] == entries[i].1@ by {
            if i < front.len() {
                assert(front[i] == entries[i]);
                assert(names_of(entries)[i] == entries[i].0@);
                assert(names_of(entries)[entries.len() - 1] == entries.last().0@);
            }
        }
    }
}

proof fn lemma_two_members(entries: Seq<(String, Json)>)
    requires
        entries.len() == 2,
    ensures
        members_view(entries) == Map::empty().insert(entries[0].0@, entries[0].1@).insert(
            entries[1].0@,
            entries[1].1@,
        ),
{
    reveal_with_fuel(members_view, 3);
    assert(entries.drop_last().drop_last() =~= Seq::empty());
}

/// The message with the state of one stream.
fn message_document(name: String, state: Json) -> (document: Json)
    ensures
        document@ == stream_message(name@, state@),
{
    let descriptor = checkpoint_document("name".to_owned(), Json::String(name));
    let mut stream: Vec<(String, Json)> = Vec::new();
    stream.push(("stream_descriptor".to_owned(), descriptor));
    stream.push(("stream_state".to_owned(), state));
    let mut message: Vec<(String, Json)> = Vec::new();
    proof {
        lemma_two_members(stream@);
    }
    message.push(("stream".to_owned(), Json::Object(stream)));
    message.push(("type".to_owned(), Json::String("STREAM".to_owned())));
    proof {
        lemma_two_members(message@);
    }
    Json::Object(message)
}

/// Turns a persisted state into the list of states that a connector reads.
pub fn per_stream_state(state: Json) -> (list: Json)
    requires
        state.in_order(),
    ensures
        list@ == per_stream(state@),
{
    match state {
        Json::Array(items) => Json::Array(items),
        Json::Object(entries) => {
            let mut messages: Vec<Json> = Vec::new();
            for entry in it: entries
                invariant
                    it.seq() == entries@,
                    messages@.len() == it.index(),
                    forall|i: int|
                        0 <= i < messages@.len() ==> (#[trigger] messages@[i])@ == stream_message(
                            entries@[i].0@,
                            entries@[i].1@,
                        ),
            {
                assert(entries@[it.index()] == entry);
                let (name, stream_state) = entry;
                messages.push(message_document(name, stream_state));
            }
            proof {
                lemma_listed_in_order(entries@);
                let members = members_view(entries@);
                let listed = names_of(entries@).map_values(
                    |name: Seq<char>| stream_message(name, members[name]),
                );
                assert forall|i: int| 0 <= i < messages@.len() implies (#[trigger] messages@[i])@
                    == listed[i] by {
                    assert(names_of(entries@)[i] == entries@[i].0@);
                    assert(members[entries@[i].0@] == entries@[i].1@);
                }
                assert(crate::json::items_view(messages@) =~= listed);
            }
            Json::Array(messages)
        },
        _ => {
            let none: Vec<Json> = Vec::new();
            assert(crate::json::items_view(none@) =~= Seq::empty());
            Json::Array(none)
        },
    }
}

/// Converts a persisted state into what stands in the state file of a connector that reads
/// a list of states, one per stream.
///
/// No text, an object without members and null become an empty list; a list stays as it is.
pub fn convert_state_for_connector(state_json: &[u8]) -> (state_file: Result<Vec<u8>, AtfError>)
    ensures
        is_connector_state(state_json@, state_file),
{
    let state = if state_json.len() == 0 {
        let none: Vec<(String, Json)> = Vec::new();
        proof {
            assert(names_of(none@) =~= Seq::empty());
        }
        Json::Object(none)
    } else {
        match read_json(state_json) {
            Ok(json) => json,
            Err(e) => return Err(AtfError::Json(e)),
        }
    };
    match write_json(per_stream_state(state)) {
        Ok(text) => Ok(slice_to_vec(text.as_str().as_bytes())),
        Err(e) => Err(AtfError::Json(e)),
    }
}

/// A stream's state makes the round trip: the state file that a connector gets for the
/// persisted checkpoint holds one message, for the stream that the state was given for, with
/// the state that was given.
///
/// The state must be one that a text gives back, in the document that persists it; for the
/// connector to find it in the file, also in the list that is written there.
pub proof fn law_state_round_trips(
    state: State,
    stream: StreamState,
    content: JsonView,
    checkpoint: Result<(String, bool), AtfError>,
    state_file: Result<Vec<u8>, AtfError>,
)
    requires
        is_checkpoint(state, checkpoint),
        state.data is None,
        state.stream == Some(stream),
        stream_content(stream) == Some(content),
        reads_back(stream_document(stream.stream_descriptor.name@, content)),
        is_connector_state(encode_utf8(checkpoint->Ok_0.0@), state_file),
    ensures
        checkpoint is Ok,
        state_file is Ok,
        ({
            let list = JsonView::Array(
                seq![stream_message(stream.stream_descriptor.name@, content)],
            );
            &&& state_file->Ok_0@ == encode_utf8(json_text(list))
            &&& reads_back(list) ==> json_content(state_file->Ok_0@) == Some(list)
        }),
{
    law_one_stream_one_message(stream.stream_descriptor.name@, content);
    assert(encode_utf8(checkpoint->Ok_0.0@).len() > 0);
}

/// A plain value that is nested no deeper than one limit is nested no deeper than a higher one.
proof fn lemma_plain_within_more(content: JsonView, depth: nat, more: nat)
    requires
        plain_within(content, depth),
        depth <= more,
    ensures
        plain_within(content, more),
    decreases depth,
{
    match content {
        JsonView::Array(items) => {
            assert forall|i: int| 0 <= i < items.len() implies plain_within(
                #[trigger] items[i],
                (more - 1) as nat,
            ) by {
                lemma_plain_within_more(items[i], (depth - 1) as nat, (more - 1) as nat);
            }
        },
        JsonView::Object(members) => {
            assert forall|name: Seq<char>| #[trigger] members.contains_key(name) implies plain_within(
                members[name],
                (more - 1) as nat,
            ) by {
                lemma_plain_within_more(members[name], (depth - 1) as nat, (more - 1) as nat);
            }
        },
        _ => {},
    }
}

/// How deep a state may be nested so that it can stand in the list that a connector reads.
pub open spec fn state_depth() -> nat {
    (NESTING_LIMIT - 3) as nat
}

/// A plain state, nested no deeper than it may be, reads back where it is persisted and where
/// a connector finds it, unless its stream has the reserved name.
proof fn lemma_plain_states_read_back(name: Seq<char>, content: JsonView)
    requires
        plain_within(content, state_depth()),
        name != RAW_VALUE_KEY@,
    ensures
        reads_back(stream_document(name, content)),
        reads_back(JsonView::Array(seq![stream_message(name, content)])),
{
    reveal_strlit("$serde_json::private::RawValue");
    reveal_strlit("stream");
    reveal_strlit("type");
    reveal_strlit("stream_descriptor");
    reveal_strlit("stream_state");
    reveal_strlit("name");
    let limit = NESTING_LIMIT as nat;
    lemma_plain_within_more(content, state_depth(), (limit - 1) as nat);
    assert(RAW_VALUE_KEY@.len() > "stream_descriptor"@.len());
    assert("stream"@.len() != "type"@.len());
    assert("stream_descriptor"@.len() != "stream_state"@.len());
    let message = stream_message(name, content);
    let stream = message->Object_0["stream"@];
    assert(message->Object_0["type"@] == JsonView::String("STREAM"@));
    assert(stream->Object_0["stream_state"@] == content);
    let descriptor = stream->Object_0["stream_descriptor"@];
    assert(plain_within(descriptor, (limit - 3) as nat)) by {
        assert(descriptor->Object_0["name"@] == JsonView::String(name));
        assert(plain_within(JsonView::String(name), (limit - 4) as nat));
    }
    assert(plain_within(JsonView::String("STREAM"@), (limit - 2) as nat));
    assert(plain_within(stream, (limit - 2) as nat));
    assert(plain_within(message, (limit - 1) as nat));
}

/// Any plain state makes the round trip: what a connector reads after its state was persisted
/// is one message, for the stream that the state was given for, with the state that was given.
///
/// A state is plain where it holds no floating-point number and no object with the reserved
/// name as its first; it must be nested no deeper than a reader accepts.
pub proof fn law_plain_state_round_trips(
    state: State,
    stream: StreamState,
    content: JsonView,
    checkpoint: Result<(String, bool), AtfError>,
    state_file: Result<Vec<u8>, AtfError>,
)
    requires
        is_checkpoint(state, checkpoint),
        state.data is None,
        state.stream == Some(stream),
        stream_content(stream) == Some(content),
        plain_within(content, state_depth()),
        stream.stream_descriptor.name@ != RAW_VALUE_KEY@,
        is_connector_state(encode_utf8(checkpoint->Ok_0.0@), state_file),
    ensures
        checkpoint is Ok,
        state_file is Ok,
        json_content(state_file->Ok_0@) == Some(
            JsonView::Array(seq![stream_message(stream.stream_descriptor.name@, content)]),
        ),
{
    lemma_plain_states_read_back(stream.stream_descriptor.name@, content);
    law_state_round_trips(state, stream, content, checkpoint, state_file);
}

/// A persisted document of one stream becomes a list of one message.
pub proof fn law_one_stream_one_message(name: Seq<char>, content: JsonView)
    ensures
        per_stream(stream_document(name, content)) == JsonView::Array(
            seq![stream_message(name, content)],
        ),
{
    let names = seq![name];
    let members = Map::<Seq<char>, JsonView>::empty().insert(name, content);
    assert(names.to_set() =~= members.dom()) by {
        assert(names[0] == name);
    }
    lemma_in_ascending_order(names);
    assert(in_ascending_order(members.dom()).map_values(
        |n: Seq<char>| stream_message(n, members[n]),
    ) =~= seq![stream_message(name, content)]);
}

/// A list of states is what a connector reads: converting it again changes nothing.
pub proof fn law_conversion_is_idempotent(state: JsonView)
    ensures
        per_stream(per_stream(state)) == per_stream(state),
{
}

/// Converting a state file again gives the same file, where the list in it is one that a text
/// gives back.
pub proof fn law_converted_file_stays(
    state_json: Seq<u8>,
    first: Result<Vec<u8>, AtfError>,
    second: Result<Vec<u8>, AtfError>,
)
    requires
        is_connector_state(state_json, first),
        persisted_content(state_json) is Some,
        reads_back(per_stream(persisted_content(state_json)->0)),
        is_connector_state(first->Ok_0@, second),
    ensures
        first is Ok,
        second is Ok,
        second->Ok_0@ == first->Ok_0@,
{
    law_conversion_is_idempotent(persisted_content(state_json)->0);
}

/// A message tells its stream and its state: two messages are the same only where both are.
pub proof fn law_message_tells_stream_and_state(
    name: Seq<char>,
    state: JsonView,
    other_name: Seq<char>,
    other_state: JsonView,
)
    requires
        stream_message(name, state) == stream_message(other_name, other_state),
    ensures
        name == other_name,
        state == other_state,
{
    reveal_strlit("stream");
    reveal_strlit("type");
    reveal_strlit("stream_descriptor");
    reveal_strlit("stream_state");
    assert("stream"@.len() != "type"@.len());
    assert("stream_descriptor"@.len() != "stream_state"@.len());
    let stream = stream_message(name, state)->Object_0["stream"@];
    let other_stream = stream_message(other_name, other_state)->Object_0["stream"@];
    assert(stream->Object_0["stream_state"@] == state);
    assert(other_stream->Object_0["stream_state"@] == other_state);
    let descriptor = stream->Object_0["stream_descriptor"@];
    let other_descriptor = other_stream->Object_0["stream_descriptor"@];
    assert(descriptor->Object_0["name"@] == JsonView::String(name));
    assert(other_descriptor->Object_0["name"@] == JsonView::String(other_name));
}

/// `message` carries the state of the stream called `name`.
pub open spec fn is_message_of(
    message: JsonView,
    members: Map<Seq<char>, JsonView>,
    name: Seq<char>,
) -> bool {
    members.contains_key(name) && message == stream_message(name, members[name])
}

/// `message` carries the state of one of the streams.
pub open spec fn is_message_of_some(message: JsonView, members: Map<Seq<char>, JsonView>) -> bool {
    exists|name: Seq<char>| is_message_of(message, members, name)
}

/// A connector finds each persisted stream, and no other, in the list that it reads, once
/// and with its state.
pub proof fn law_every_stream_is_listed(members: Map<Seq<char>, JsonView>)
    requires
        members.dom().finite(),
    ensures
        per_stream(JsonView::Object(members)) matches JsonView::Array(messages) && {
            &&& forall|name: Seq<char>| #[trigger]
                members.contains_key(name) ==> messages.contains(
                    stream_message(name, members[name]),
                )
            &&& forall|i: int|
                0 <= i < messages.len() ==> is_message_of_some(#[trigger] messages[i], members)
            &&& messages.no_duplicates()
        },
{
    let names = in_ascending_order(members.dom());
    lemma_can_be_ordered(members.dom());
    lemma_ascending_distinct(names);
    let messages = per_stream(JsonView::Object(members))->Array_0;
    assert forall|i: int| 0 <= i < names.len() implies members.contains_key(#[trigger] names[i])
        && messages[i] == stream_message(names[i], members[names[i]]) by {
        assert(names.to_set().contains(names[i]));
    }
    assert forall|name: Seq<char>| #[trigger] members.contains_key(name) implies messages.contains(
        stream_message(name, members[name]),
    ) by {
        assert(names.to_set().contains(name));
        let i = choose|i: int| 0 <= i < names.len() && names[i] == name;
        assert(messages[i] == stream_message(name, members[name]));
    }
    assert forall|i: int| 0 <= i < messages.len() implies is_message_of_some(
        #[trigger] messages[i],
        members,
    ) by {
        assert(is_message_of(messages[i], members, names[i]));
    }
    assert forall|i: int, j: int|
        0 <= i < messages.len() && 0 <= j < messages.len() && i != j implies messages[i]
        != messages[j] by {
        if messages[i] == messages[j] {
            law_message_tells_stream_and_state(
                names[i],
                members[names[i]],
                names[j],
                members[names[j]],
            );
        }
    }
}

/// A state message that is not supported leaves an object that is persisted as it is.
pub proof fn law_unrecognized_state_changes_nothing(
    state: State,
    checkpoint: Result<(String, bool), AtfError>,
    persisted: Map<Seq<char>, JsonView>,
)
    requires
        is_checkpoint(state, checkpoint),
        is_unsupported(state),
    ensures
        checkpoint is Ok,
        checkpoint->Ok_0.1,
        json_content(encode_utf8(checkpoint->Ok_0.0@)) matches Some(patch)
            && merge_patch(JsonView::Object(persisted), patch) == JsonView::Object(persisted),
{
    crate::merge::law_empty_patch_changes_nothing(persisted);
}

/// A state given as a whole goes on as it is, whatever else the message holds.
pub proof fn law_state_as_a_whole_wins(
    state: State,
    data: String,
    checkpoint: Result<(String, bool), AtfError>,
)
    requires
        is_checkpoint(state, checkpoint),
        state.data == Some(data),
    ensures
        checkpoint matches Ok(c) && c.0@ == data@ && (c.1 <==> state.merge == Some(true)),
{
}

/// A stream's checkpoint updates the member of that stream, and leaves the states of all
/// other streams as they are.
pub proof fn law_checkpoint_updates_its_own_stream(
    persisted: JsonView,
    name: Seq<char>,
    content: JsonView,
)
    ensures
        merge_patch(persisted, stream_document(name, content)) matches JsonView::Object(updated)
            && (updated.contains_key(name) <==> content !is Null) && (content !is Null
            ==> updated[name] == merge_patch(
            member_or_null(members_of(persisted), name),
            content,
        )) && (forall|other: Seq<char>|
            other != name ==> (#[trigger] updated.contains_key(other) <==> members_of(
                persisted,
            ).contains_key(other))) && (forall|other: Seq<char>|
            other != name && members_of(persisted).contains_key(other)
                ==> #[trigger] updated[other] == members_of(persisted)[other]),
{
}

/// The checkpoints of different streams accumulate: in whichever order two of them are
/// merged into what is persisted, the outcome is the same.
pub proof fn law_checkpoints_accumulate(
    persisted: JsonView,
    name: Seq<char>,
    content: JsonView,
    other: Seq<char>,
    other_content: JsonView,
)
    requires
        name != other,
    ensures
        merge_patch(
            merge_patch(persisted, stream_document(name, content)),
            stream_document(other, other_content),
        ) == merge_patch(
            merge_patch(persisted, stream_document(other, other_content)),
            stream_document(name, content),
        ),
{
    let a = merge_patch(
        merge_patch(persisted, stream_document(name, content)),
        stream_document(other, other_content),
    );
    let b = merge_patch(
        merge_patch(persisted, stream_document(other, other_content)),
        stream_document(name, content),
    );
    assert(a->Object_0 =~= b->Object_0);
}

/// After a stream's checkpoint was merged into what is persisted, the connector reads that
/// stream back with what the checkpoint makes of the state that it had, and every other stream
/// with the state that it had. Where the stream had no object as its state, and the new state
/// has no null members, it is read back with the new state as it was given.
pub proof fn law_merged_states_are_read_back(
    persisted: Map<Seq<char>, JsonView>,
    name: Seq<char>,
    content: JsonView,
)
    requires
        persisted.dom().finite(),
        content !is Null,
    ensures
        per_stream(
            merge_patch(JsonView::Object(persisted), stream_document(name, content)),
        ) matches JsonView::Array(messages) && {
            &&& messages.contains(
                stream_message(name, merge_patch(member_or_null(persisted, name), content)),
            )
            &&& member_or_null(persisted, name) !is Object && without_null_members(content)
                ==> messages.contains(stream_message(name, content))
            &&& forall|other: Seq<char>|
                other != name && #[trigger] persisted.contains_key(other) ==> messages.contains(
                    stream_message(other, persisted[other]),
                )
        },
{
    let updated = merge_patch(JsonView::Object(persisted), stream_document(name, content));
    if member_or_null(persisted, name) !is Object && without_null_members(content) {
        crate::merge::law_merge_into_nothing(member_or_null(persisted, name), content);
    }
    assert(updated->Object_0.dom() =~= persisted.dom().insert(name));
    law_every_stream_is_listed(updated->Object_0);
    let messages = per_stream(updated)->Array_0;
    assert(updated->Object_0.contains_key(name));
    assert forall|other: Seq<char>|
        other != name && #[trigger] persisted.contains_key(other) implies messages.contains(
        stream_message(other, persisted[other]),
    ) by {
        assert(updated->Object_0.contains_key(other));
    }
}

/// `message` is an object that says `"type": "STREAM"` and has, under `"stream"`, the state
/// `content` under `"stream_state"` and the name of the stream under `"stream_descriptor"`; it
/// says nothing else.
pub open spec fn says_state_of(message: JsonView, name: Seq<char>, content: JsonView) -> bool {
    &&& message matches JsonView::Object(parts)
    &&& parts.dom() == set!["type"@, "stream"@]
    &&& parts["type"@] == JsonView::String("STREAM"@)
    &&& parts["stream"@] matches JsonView::Object(stream)
    &&& stream.dom() == set!["stream_descriptor"@, "stream_state"@]
    &&& stream["stream_state"@] == content
    &&& stream["stream_descriptor"@] matches JsonView::Object(descriptor)
    &&& descriptor.dom() == set!["name"@]
    &&& descriptor["name"@] == JsonView::String(name)
}

proof fn lemma_message_says(name: Seq<char>, content: JsonView)
    ensures
        says_state_of(stream_message(name, content), name, content),
{
    reveal_strlit("stream");
    reveal_strlit("type");
    reveal_strlit("stream_descriptor");
    reveal_strlit("stream_state");
    assert("stream"@.len() != "type"@.len());
    assert("stream_descriptor"@.len() != "stream_state"@.len());
    let parts = stream_message(name, content)->Object_0;
    assert(parts.dom() =~= set!["type"@, "stream"@]);
    let stream = parts["stream"@]->Object_0;
    assert(stream.dom() =~= set!["stream_descriptor"@, "stream_state"@]);
    let descriptor = stream["stream_descriptor"@]->Object_0;
    assert(descriptor.dom() =~= set!["name"@]);
}

/// A stream's state is persisted as the message gives it, whatever it is: the checkpoint is the
/// text of the object whose one member, under the stream's name, is the value of the message's
/// text, to be merged into the state that is held. It reads back as that object where a text
/// can.
pub proof fn law_stream_state_is_persisted_as_given(
    state: State,
    stream: StreamState,
    raw: String,
    content: JsonView,
    checkpoint: Result<(String, bool), AtfError>,
)
    requires
        is_checkpoint(state, checkpoint),
        state.data is None,
        state.stream == Some(stream),
        stream.stream_state == Some(raw),
        json_content(encode_utf8(raw@)) == Some(content),
    ensures
        checkpoint matches Ok(c) && {
            let document = JsonView::Object(map![stream.stream_descriptor.name@ => content]);
            &&& c.0@ == json_text(document)
            &&& reads_back(document) ==> json_content(encode_utf8(c.0@)) == Some(document)
            &&& c.1
        },
{
}

/// A stream for which no state is given is persisted with an empty object, and one whose state
/// cannot be read is refused.
pub proof fn law_missing_and_unreadable_stream_states(
    state: State,
    stream: StreamState,
    checkpoint: Result<(String, bool), AtfError>,
)
    requires
        is_checkpoint(state, checkpoint),
        state.data is None,
        state.stream == Some(stream),
    ensures
        stream.stream_state is None ==> (checkpoint matches Ok(c) && c.1 && c.0@ == json_text(
            JsonView::Object(
                map![stream.stream_descriptor.name@ => JsonView::Object(Map::empty())],
            ),
        )),
        stream.stream_state matches Some(raw) && json_content(encode_utf8(raw@)) is None
            ==> checkpoint matches Err(AtfError::Json(_)),
        checkpoint is Err ==> (stream.stream_state matches Some(raw) && json_content(
            encode_utf8(raw@),
        ) is None),
{
}

/// What the text of a stream's state says comes back to the connector: the state file made of
/// the checkpoint reads as a list of one message, which names the stream and carries the very
/// value of that text.
///
/// The value must be plain, nested no deeper than a reader accepts, and the stream must not
/// have the reserved name.
pub proof fn law_state_comes_back_as_given(
    state: State,
    stream: StreamState,
    raw: String,
    content: JsonView,
    checkpoint: Result<(String, bool), AtfError>,
    state_file: Result<Vec<u8>, AtfError>,
)
    requires
        is_checkpoint(state, checkpoint),
        state.data is None,
        state.stream == Some(stream),
        stream.stream_state == Some(raw),
        json_content(encode_utf8(raw@)) == Some(content),
        plain_within(content, (NESTING_LIMIT - 3) as nat),
        stream.stream_descriptor.name@ != RAW_VALUE_KEY@,
        checkpoint is Ok,
        is_connector_state(encode_utf8(checkpoint->Ok_0.0@), state_file),
    ensures
        state_file matches Ok(bytes) && {
            &&& json_content(bytes@) matches Some(JsonView::Array(messages))
            &&& messages.len() == 1
            &&& says_state_of(messages[0], stream.stream_descriptor.name@, content)
        },
{
    law_plain_state_round_trips(state, stream, content, checkpoint, state_file);
    lemma_message_says(stream.stream_descriptor.name@, content);
}

/// A persisted object of any number of streams is handed to the connector as the text of a list
/// with one message per member, in ascending order of the names, each with the member's name
/// and its value as it is persisted.
pub proof fn law_persisted_streams_are_handed_on(
    state_json: Seq<u8>,
    members: Map<Seq<char>, JsonView>,
    state_file: Result<Vec<u8>, AtfError>,
)
    requires
        is_connector_state(state_json, state_file),
        state_json.len() > 0,
        json_content(state_json) == Some(JsonView::Object(members)),
        members.dom().finite(),
    ensures
        state_file matches Ok(bytes) && exists|names: Seq<Seq<char>>, messages: Seq<JsonView>|
            {
                &&& bytes@ == #[trigger] encode_utf8(json_text(JsonView::Array(messages)))
                &&& #[trigger] names.to_set() == members.dom()
                &&& messages.len() == names.len()
                &&& forall|i: int, j: int|
                    0 <= i < j < names.len() ==> text_before(#[trigger] names[i], #[trigger] names[j])
                &&& forall|i: int|
                    0 <= i < names.len() ==> says_state_of(
                        messages[i],
                        #[trigger] names[i],
                        members[names[i]],
                    )
            },
{
    let names = in_ascending_order(members.dom());
    lemma_can_be_ordered(members.dom());
    let messages = per_stream(JsonView::Object(members))->Array_0;
    assert forall|i: int| 0 <= i < names.len() implies says_state_of(
        messages[i],
        #[trigger] names[i],
        members[names[i]],
    ) by {
        lemma_message_says(names[i], members[names[i]]);
    }
    assert(state_file->Ok_0@ == encode_utf8(json_text(JsonView::Array(messages))));
    assert(names.to_set() == members.dom());
}

/// A persisted list is handed to the connector as it is; no text, and any value that is neither
/// a list nor an object, as an empty list; and only what cannot be read is refused.
pub proof fn law_other_persisted_states(state_json: Seq<u8>, state_file: Result<Vec<u8>, AtfError>)
    requires
        is_connector_state(state_json, state_file),
    ensures
        state_file is Err <==> state_json.len() > 0 && json_content(state_json) is None,
        state_file matches Err(e) ==> e is Json,
        state_json.len() == 0 ==> (state_file matches Ok(bytes) && bytes@ == encode_utf8("[]"@)),
        state_json.len() > 0 && json_content(state_json) is Some ==> {
            let content = json_content(state_json)->0;
            &&& content is Array ==> (state_file matches Ok(bytes) && bytes@ == encode_utf8(
                json_text(content),
            ))
            &&& content !is Array && content !is Object ==> (state_file matches Ok(bytes) && bytes@
                == encode_utf8("[]"@))
        },
        state_file matches Ok(bytes) ==> bytes@.len() > 0,
{
    if state_json.len() == 0 {
        let none = Seq::<Seq<char>>::empty();
        let members = Map::<Seq<char>, JsonView>::empty();
        assert(none.to_set() =~= members.dom());
        lemma_in_ascending_order(none);
        assert(per_stream(JsonView::Object(members))->Array_0 =~= Seq::empty());
    }
}

/// A state message with neither a state as a whole nor a stream's state is the one that is not
/// supported, and persists an empty patch.
pub proof fn law_unsupported_states_persist_nothing(
    state: State,
    checkpoint: Result<(String, bool), AtfError>,
)
    requires
        is_checkpoint(state, checkpoint),
    ensures
        is_unsupported(state) <==> state.data is None && state.stream is None,
        state.data is None && state.stream is None ==> (checkpoint matches Ok(c) && c.0@ == "{}"@
            && c.1),
{
}

/// The state of one stream is persisted in an object with that one member.
pub proof fn law_document_has_one_member(name: Seq<char>, content: JsonView)
    ensures
        stream_document(name, content) matches JsonView::Object(members) && members.dom() == set![
            name,
        ] && members[name] == content,
{
    assert(stream_document(name, content)->Object_0.dom() =~= set![name]);
}

/// How a connector says that it reads a list of states.
pub proof fn law_state_format_is_known()
    ensures
        STATE_FORMAT_ENV_VAR@ == "AIRBYTE_TO_FLOW_STATE_FORMAT"@,
        STATE_FORMAT_PER_STREAM@ == "per_stream"@,
{
}

} // verus!
