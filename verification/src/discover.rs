//! Discovery: from the catalog of a connector to the bindings that are offered.

use crate::catalog::{ResourceSpec, Stream, SyncMode};
use crate::error::AtfError;
use crate::json::{
    file_text, items_view, read_file, read_json, write_json, written, Json, JsonView,
};
use crate::merge::{
    law_patch_keeps_what_it_does_not_name, leaves_alone, member_at, merge_json, merge_patch,
};
use crate::names::{mark, recommended_name, stream_to_recommended_name};
use crate::resource::resource_path;
use crate::serde_bridge::{json_content, strings_content, strings_from_str};
use crate::text::{concat3, list_contains, option_text, option_texts, same_text, texts};
use vstd::prelude::*;
use vstd::utf8::encode_utf8;

verus! {

pub const SCHEMA_NORMALIZATIONS_FILE_NAME: &'static str = "schema_normalizations.json";

pub const SELECTED_STREAMS_FILE_NAME: &'static str = "selected_streams.json";

pub const OMITTED_STREAMS_FILE_NAME: &'static str = "omitted_streams.json";

pub const STREAM_PATCH_DIR_NAME: &'static str = "streams";

pub const STREAM_PK_SUFFIX: &'static str = ".pk.json";

pub const STREAM_PATCH_SUFFIX: &'static str = ".patch.json";

/// The normalization that turns dates in a schema into times.
pub const DATE_TO_DATETIME: &'static str = "date-to-datetime";

/// What the files beside a connector say about discovery.
#[derive(Debug)]
pub struct DiscoverOptions {
    /// Where given, the streams that are not disabled.
    pub selected_streams: Option<Vec<String>>,
    /// The streams that are left out.
    pub omitted_streams: Option<Vec<String>>,
    /// The normalizations of schemas that are asked for.
    pub schema_normalizations: Vec<String>,
}

/// The strings that the text of a file lists; `None` where they cannot be read.
pub open spec fn listed(text: Seq<char>) -> Option<Seq<Seq<char>>> {
    strings_content(text)
}

/// There is no file, or the strings that it lists can be read.
pub open spec fn readable_list(file: Option<&str>) -> bool {
    file matches Some(text) ==> listed(text@) is Some
}

/// The strings that a file lists, where there is one.
pub open spec fn file_list(file: Option<&str>) -> Option<Seq<Seq<char>>> {
    match file {
        Some(text) => listed(text@),
        None => None,
    }
}

fn read_list(file: Option<&str>) -> (list: Result<Option<Vec<String>>, AtfError>)
    ensures
        match list {
            Ok(l) => readable_list(file) && option_texts(l) == file_list(file),
            Err(e) => !readable_list(file) && e is Json,
        },
{
    match file {
        Some(text) => match strings_from_str(text) {
            Ok(strings) => Ok(Some(strings)),
            Err(e) => Err(AtfError::Json(e)),
        },
        None => Ok(None),
    }
}

/// Reads the files beside a connector that say which streams are selected, which are
/// omitted, and which normalizations of schemas are asked for.
pub fn read_discover_options(
    selected_streams: Option<&str>,
    omitted_streams: Option<&str>,
    schema_normalizations: Option<&str>,
) -> (options: Result<DiscoverOptions, AtfError>)
    ensures
        match options {
            Ok(o) => {
                &&& readable_list(selected_streams)
                &&& readable_list(omitted_streams)
                &&& readable_list(schema_normalizations)
                &&& option_texts(o.selected_streams) == file_list(selected_streams)
                &&& option_texts(o.omitted_streams) == file_list(omitted_streams)
                &&& texts(o.schema_normalizations@) == match file_list(schema_normalizations) {
                    Some(list) => list,
                    None => Seq::empty(),
                }
            },
            Err(e) => e is Json && !(readable_list(selected_streams) && readable_list(
                omitted_streams,
            ) && readable_list(schema_normalizations)),
        },
{
    let selected = match read_list(selected_streams) {
        Ok(list) => list,
        Err(e) => return Err(e),
    };
    let omitted = match read_list(omitted_streams) {
        Ok(list) => list,
        Err(e) => return Err(e),
    };
    let normalizations = match read_list(schema_normalizations) {
        Ok(Some(list)) => list,
        Ok(None) => {
            let none: Vec<String> = Vec::new();
            assert(texts(none@) =~= Seq::empty());
            none
        },
        Err(e) => return Err(e),
    };
    Ok(
        DiscoverOptions {
            selected_streams: selected,
            omitted_streams: omitted,
            schema_normalizations: normalizations,
        },
    )
}

/// What is decided of a stream by its name alone.
#[derive(Debug)]
pub struct StreamPlan {
    /// Where the stream stands in the catalog.
    pub index: usize,
    pub recommended_name: String,
    pub disable: bool,
}

impl DiscoverOptions {
    /// The stream is left out.
    pub open spec fn omits(&self, name: Seq<char>) -> bool {
        self.omitted_streams matches Some(omitted) && texts(omitted@).contains(name)
    }

    /// The stream is offered, but not captured unless it is asked for.
    pub open spec fn disables(&self, name: Seq<char>) -> bool {
        self.selected_streams matches Some(selected) && !texts(selected@).contains(name)
    }

    /// How many of the asked-for normalizations turn dates into times.
    pub open spec fn dates_to_times(&self) -> nat {
        texts(self.schema_normalizations@).filter(
            |name: Seq<char>| name == DATE_TO_DATETIME@,
        ).len()
    }
}

/// The streams of a catalog that are offered, by their places in it.
pub open spec fn offered(streams: Seq<Stream>, options: DiscoverOptions) -> Seq<int>
    decreases streams.len(),
{
    if streams.len() == 0 {
        Seq::empty()
    } else {
        let places = offered(streams.drop_last(), options);
        if options.omits(streams.last().name@) {
            places
        } else {
            places.push(streams.len() - 1)
        }
    }
}

/// `plan` is what is decided of the stream at a place in the catalog.
pub open spec fn is_plan(
    plan: StreamPlan,
    place: int,
    streams: Seq<Stream>,
    options: DiscoverOptions,
) -> bool {
    &&& plan.index == place
    &&& plan.recommended_name@ == recommended_name(mark(streams[place].name@))
    &&& plan.disable == options.disables(streams[place].name@)
}

/// Goes through a catalog and plans the streams that are offered, in their order. A stream
/// that is omitted has no plan.
pub fn plan_discovery(streams: &Vec<Stream>, options: &DiscoverOptions) -> (plans: Vec<StreamPlan>)
    ensures
        plans@.len() == offered(streams@, *options).len(),
        forall|i: int|
            0 <= i < plans@.len() ==> is_plan(
                #[trigger] plans@[i],
                offered(streams@, *options)[i],
                streams@,
                *options,
            ),
{
    let mut plans: Vec<StreamPlan> = Vec::new();
    for index in 0..streams.len()
        invariant
            plans@.len() == offered(streams@.take(index as int), *options).len(),
            forall|i: int|
                0 <= i < plans@.len() ==> is_plan(
                    #[trigger] plans@[i],
                    offered(streams@.take(index as int), *options)[i],
                    streams@,
                    *options,
                ),
    {
        assert(streams@.take(index + 1).drop_last() =~= streams@.take(index as int));
        let name = streams[index].name.as_str();
        let omit = match &options.omitted_streams {
            Some(omitted) => list_contains(omitted, name),
            None => false,
        };
        if !omit {
            let disable = match &options.selected_streams {
                Some(selected) => !list_contains(selected, name),
                None => false,
            };
            let recommended_name = stream_to_recommended_name(name);
            plans.push(StreamPlan { index, recommended_name, disable });
        }
    }
    assert(streams@.take(streams@.len() as int) =~= streams@);
    plans
}

/// The file that patches a stream, and the file that is used where that one is missing.
pub fn patch_files(recommended_name: &str, suffix: &str) -> (files: (String, String))
    ensures
        files.0@ == STREAM_PATCH_DIR_NAME@ + "/"@ + recommended_name@ + suffix@,
        files.1@ == STREAM_PATCH_DIR_NAME@ + "/*"@ + suffix@,
{
    let own = STREAM_PATCH_DIR_NAME.to_owned().concat("/").concat(recommended_name).concat(suffix);
    (own, concat3(STREAM_PATCH_DIR_NAME, "/*", suffix))
}

/// The mode in which a stream is captured.
pub fn sync_mode_of(supported_sync_modes: &Option<Vec<SyncMode>>) -> (mode: SyncMode)
    ensures
        mode == preferred_mode(*supported_sync_modes),
{
    if let Some(modes) = supported_sync_modes {
        for i in 0..modes.len()
            invariant
                *supported_sync_modes == Some(*modes),
                forall|k: int| 0 <= k < i ==> #[trigger] modes@[k] != SyncMode::Incremental,
        {
            if modes[i] == SyncMode::Incremental {
                return SyncMode::Incremental;
            }
        }
    }
    SyncMode::FullRefresh
}

/// The key of a stream, as JSON pointers, or why there is none.
pub enum KeyOutcome {
    /// The file that patches the key is no JSON text.
    Unreadable,
    /// The file that patches the key holds no array.
    NotAnArray,
    /// A part of the key is no string, or does not begin with an ASCII character.
    Unusable,
    Key(Seq<Seq<char>>),
}

/// The key with which a patch replaces the key of a stream.
pub open spec fn key_of_patch(items: Seq<JsonView>) -> Seq<Seq<char>> {
    items.map_values(|item: JsonView| "/"@ + item->String_0)
}

pub open spec fn all_strings(items: Seq<JsonView>) -> bool {
    forall|i: int| 0 <= i < items.len() ==> #[trigger] items[i] is String
}

/// The pointer begins with an ASCII character, which can be taken off.
pub open spec fn has_ascii_head(pointer: Seq<char>) -> bool {
    pointer.len() > 0 && pointer[0] <= '\x7f'
}

pub open spec fn all_have_ascii_heads(key: Seq<Seq<char>>) -> bool {
    forall|i: int| 0 <= i < key.len() ==> has_ascii_head(#[trigger] key[i])
}

/// The fields that a key points to, as names: the pointers without the character that they
/// begin with.
pub open spec fn field_names(key: Seq<Seq<char>>) -> Seq<Seq<char>> {
    key.map_values(|pointer: Seq<char>| pointer.drop_first())
}

/// The key of a stream whose own key is `key_pointers`, with what stands in the file that
/// patches it, if there is one.
pub open spec fn key_outcome(
    key_pointers: Seq<Seq<char>>,
    pk_patch: Option<Seq<char>>,
) -> KeyOutcome {
    match pk_patch {
        Some(text) => match json_content(encode_utf8(text)) {
            Some(JsonView::Array(items)) => if all_strings(items) {
                KeyOutcome::Key(key_of_patch(items))
            } else {
                KeyOutcome::Unusable
            },
            Some(_) => KeyOutcome::NotAnArray,
            None => KeyOutcome::Unreadable,
        },
        None => if all_have_ascii_heads(key_pointers) {
            KeyOutcome::Key(key_pointers)
        } else {
            KeyOutcome::Unusable
        },
    }
}

/// The key of a stream: its own, or what a patch replaces it with.
pub fn patched_key(key_pointers: Vec<String>, pk_patch: Option<Json>) -> (key: Result<
    Vec<String>,
    AtfError,
>)
    requires
        pk_patch matches Some(patch) ==> (patch@ matches JsonView::Array(items) ==> all_strings(
            items,
        )),
    ensures
        match pk_patch {
            Some(patch) => match patch@ {
                JsonView::Array(items) => key matches Ok(k) && texts(k@) == key_of_patch(items),
                _ => key matches Err(AtfError::InvalidPKPatch(m)) && m@ == "expected an array"@,
            },
            None => key == Ok::<Vec<String>, AtfError>(key_pointers),
        },
{
    match pk_patch {
        Some(Json::Array(items)) => {
            let mut key: Vec<String> = Vec::new();
            for i in 0..items.len()
                invariant
                    all_strings(items_view(items@)),
                    key@.len() == i,
                    forall|k: int|
                        0 <= k < i ==> (#[trigger] key@[k])@ == "/"@
                            + items_view(items@)[k]->String_0,
            {
                assert(items_view(items@)[i as int] is String);
                match &items[i] {
                    Json::String(field) => {
                        key.push("/".to_owned().concat(field.as_str()));
                    },
                    _ => {},
                }
            }
            assert(texts(key@) =~= key_of_patch(items_view(items@)));
            Ok(key)
        },
        Some(_) => Err(AtfError::InvalidPKPatch("expected an array".to_owned())),
        None => Ok(key_pointers),
    }
}

/// The fields that a key points to: its pointers without the character that they begin
/// with.
pub fn key_fields(key: &Vec<String>) -> (fields: Vec<String>)
    requires
        all_have_ascii_heads(texts(key@)),
    ensures
        texts(fields@) == field_names(texts(key@)),
{
    let mut fields: Vec<String> = Vec::new();
    for i in 0..key.len()
        invariant
            all_have_ascii_heads(texts(key@)),
            texts(fields@) == field_names(texts(key@)).take(i as int),
    {
        let pointer = key[i].as_str();
        assert(has_ascii_head(texts(key@)[i as int]));
        let field = pointer.substring_char(1, pointer.unicode_len()).to_owned();
        assert(field@ =~= pointer@.drop_first());
        let ghost before = fields@;
        fields.push(field);
        assert(texts(fields@) =~= texts(before).push(field@));
        assert(field_names(texts(key@)).take(i + 1) =~= field_names(texts(key@)).take(
            i as int,
        ).push(field@));
    }
    assert(field_names(texts(key@)).take(key@.len() as int) =~= field_names(texts(key@)));
    fields
}

/// The field by which a stream is read on: its own where it names one, and the fields of its
/// key, as given, otherwise.
pub fn cursor_field_of(
    default_cursor_field: Option<Vec<String>>,
    key_fields: Vec<String>,
) -> (cursor: Vec<String>)
    ensures
        texts(cursor@) == match default_cursor_field {
            Some(names) => if names@.len() == 0 {
                texts(key_fields@)
            } else {
                texts(names@)
            },
            None => texts(key_fields@),
        },
{
    match default_cursor_field {
        Some(names) => if names.len() == 0 {
            key_fields
        } else {
            names
        },
        None => key_fields,
    }
}

/// The field by which a stream is read on: the stream's own where it names one, and the
/// fields of its key otherwise.
pub open spec fn cursor_names(
    default_cursor_field: Option<Seq<Seq<char>>>,
    key: Seq<Seq<char>>,
) -> Seq<Seq<char>> {
    match default_cursor_field {
        Some(names) => if names.len() == 0 {
            field_names(key)
        } else {
            names
        },
        None => field_names(key),
    }
}

/// The mode in which a stream is captured: incremental where the stream supports it.
pub open spec fn preferred_mode(supported_sync_modes: Option<Vec<SyncMode>>) -> SyncMode {
    match supported_sync_modes {
        Some(modes) => if modes@.contains(SyncMode::Incremental) {
            SyncMode::Incremental
        } else {
            SyncMode::FullRefresh
        },
        None => SyncMode::FullRefresh,
    }
}

/// `resource` captures `stream`, whose key is `key`.
pub open spec fn is_resource(resource: ResourceSpec, stream: Stream, key: Seq<Seq<char>>) -> bool {
    &&& resource.stream@ == stream.name@
    &&& option_text(resource.namespace) == option_text(stream.namespace)
    &&& resource.sync_mode == preferred_mode(stream.supported_sync_modes)
    &&& option_texts(resource.cursor_field) == Some(
        cursor_names(option_texts(stream.default_cursor_field), key),
    )
}

/// The document schema of a stream: its own, with a patch merged into it.
pub fn patched_schema(schema: Json, patch: Option<Json>) -> (patched: Json)
    ensures
        patched@ == match patch {
            Some(p) => merge_patch(schema@, p@),
            None => schema@,
        },
{
    match patch {
        Some(p) => merge_json(schema, p),
        None => schema,
    }
}

/// The document schema of a stream with what stands in the file that patches it, if there
/// is one; `None` where one of the two cannot be read.
pub open spec fn schema_content(json_schema: Seq<char>, schema_patch: Option<Seq<char>>) -> Option<
    JsonView,
> {
    match (json_content(encode_utf8(json_schema)), schema_patch) {
        (Some(schema), Some(patch)) => match json_content(encode_utf8(patch)) {
            Some(changes) => Some(merge_patch(schema, changes)),
            None => None,
        },
        (schema, _) => schema,
    }
}

/// The key can be used: there is one, and its parts are pointers to fields.
fn usable_key(key_pointers: &Vec<String>, pk_patch: &Option<Json>) -> (usable: bool)
    ensures
        usable == match *pk_patch {
            Some(patch) => match patch@ {
                JsonView::Array(items) => all_strings(items),
                _ => true,
            },
            None => all_have_ascii_heads(texts(key_pointers@)),
        },
{
    match pk_patch {
        Some(Json::Array(items)) => {
            for i in 0..items.len()
                invariant
                    *pk_patch == Some(Json::Array(*items)),
                    forall|k: int| 0 <= k < i ==> (#[trigger] items_view(items@)[k]) is String,
            {
                assert(items_view(items@)[i as int] == items@[i as int]@);
                match &items[i] {
                    Json::String(_) => {},
                    _ => return false,
                }
            }
            true
        },
        Some(_) => true,
        None => {
            for i in 0..key_pointers.len()
                invariant
                    pk_patch is None,
                    forall|k: int|
                        0 <= k < i ==> has_ascii_head(#[trigger] texts(key_pointers@)[k]),
            {
                let pointer = key_pointers[i].as_str();
                assert(texts(key_pointers@)[i as int] == pointer@);
                if pointer.unicode_len() == 0 || pointer.get_char(0) > '\x7f' {
                    return false;
                }
            }
            true
        },
    }
}

/// A binding that is offered, up to the steps that its document schema still goes through.
#[derive(Debug)]
pub struct PlannedBinding {
    pub recommended_name: String,
    pub disable: bool,
    pub key: Vec<String>,
    pub resource: ResourceSpec,
    pub schema: Json,
}

/// The binding that is offered for a stream.
pub open spec fn is_planned(
    binding: PlannedBinding,
    stream: Stream,
    plan: StreamPlan,
    key: Seq<Seq<char>>,
    schema: JsonView,
) -> bool {
    &&& binding.recommended_name@ == plan.recommended_name@
    &&& binding.disable == plan.disable
    &&& texts(binding.key@) == key
    &&& is_resource(binding.resource, stream, key)
    &&& binding.schema@ == schema
}

/// Works out the binding for a stream of the catalog.
///
/// `key_pointers` are the parts of the stream's own key as JSON pointers, and the patches
/// are the texts of the files that patch the key and the document schema, as far as there
/// are any. The outcome is `None` where a patch of the key holds anything but strings, or a
/// pointer has no ASCII character at its head.
pub fn discover_stream(
    stream: Stream,
    plan: StreamPlan,
    key_pointers: Vec<String>,
    pk_patch: Option<&str>,
    schema_patch: Option<&str>,
) -> (binding: Option<Result<PlannedBinding, AtfError>>)
    ensures
        match key_outcome(texts(key_pointers@), file_text(pk_patch)) {
            KeyOutcome::Unreadable => binding matches Some(Err(AtfError::Json(_))),
            KeyOutcome::NotAnArray => binding matches Some(Err(AtfError::InvalidPKPatch(m)))
                && m@ == "expected an array"@,
            KeyOutcome::Unusable => binding is None,
            KeyOutcome::Key(key) => match schema_content(
                stream.json_schema@,
                file_text(schema_patch),
            ) {
                Some(schema) => binding matches Some(Ok(b)) && is_planned(
                    b,
                    stream,
                    plan,
                    key,
                    schema,
                ),
                None => binding matches Some(Err(AtfError::Json(_))),
            },
        },
        binding matches Some(Ok(b)) ==> (stream.default_cursor_field matches Some(names) ==> (
        names@.len() > 0 ==> (b.resource.cursor_field matches Some(cursor) && cursor@.map_values(
            |s: String| s@,
        ) == names@.map_values(|s: String| s@)))),
{
    let pk = match read_file(pk_patch) {
        Ok(json) => json,
        Err(e) => return Some(Err(AtfError::Json(e))),
    };
    if !usable_key(&key_pointers, &pk) {
        return None;
    }
    let key = match patched_key(key_pointers, pk) {
        Ok(key) => key,
        Err(e) => return Some(Err(e)),
    };
    proof {
        if pk_patch is Some {
            lemma_patched_keys_have_heads(json_content(encode_utf8(pk_patch->0@))->0->Array_0);
        }
    }
    let fields = key_fields(&key);
    let resource = ResourceSpec {
        stream: stream.name,
        namespace: stream.namespace,
        sync_mode: sync_mode_of(&stream.supported_sync_modes),
        cursor_field: Some(cursor_field_of(stream.default_cursor_field, fields)),
    };
    let own_schema = match read_json(stream.json_schema.as_str().as_bytes()) {
        Ok(json) => json,
        Err(e) => return Some(Err(AtfError::Json(e))),
    };
    let patch = match read_file(schema_patch) {
        Ok(json) => json,
        Err(e) => return Some(Err(AtfError::Json(e))),
    };
    let schema = patched_schema(own_schema, patch);
    Some(
        Ok(
            PlannedBinding {
                recommended_name: plan.recommended_name,
                disable: plan.disable,
                key,
                resource,
                schema,
            },
        ),
    )
}

proof fn lemma_patched_keys_have_heads(items: Seq<JsonView>)
    ensures
        all_have_ascii_heads(key_of_patch(items)),
{
    reveal_strlit("/");
    assert forall|i: int| 0 <= i < key_of_patch(items).len() implies has_ascii_head(
        #[trigger] key_of_patch(items)[i],
    ) by {
        assert(key_of_patch(items)[i] == "/"@ + items[i]->String_0);
    }
}

/// What a document schema goes through before it is offered.
#[derive(Debug, Clone, Copy, PartialEq, Eq, Structural)]
pub enum SchemaStep {
    /// Attributes that are no JSON schema are mended.
    FixNonstandardAttributes,
    /// Enumerations of values are taken out.
    RemoveEnums,
    /// Dates become times.
    DateToDatetime,
    /// The schema is brought in line with the key.
    FixKeys,
}

/// The steps that a document schema goes through, in their order.
pub open spec fn steps_of(options: DiscoverOptions) -> Seq<SchemaStep> {
    seq![SchemaStep::FixNonstandardAttributes, SchemaStep::RemoveEnums] + Seq::new(
        options.dates_to_times(),
        |i: int| SchemaStep::DateToDatetime,
    ) + seq![SchemaStep::FixKeys]
}

/// Lists the steps that a document schema goes through. Dates become times once for each
/// time that the options ask for it; a normalization of another name is passed over.
pub fn schema_steps(options: &DiscoverOptions) -> (steps: Vec<SchemaStep>)
    ensures
        steps@ == steps_of(*options),
{
    let normalizations = &options.schema_normalizations;
    let ghost names = texts(normalizations@);
    let ghost wanted = |name: Seq<char>| name == DATE_TO_DATETIME@;
    let mut steps: Vec<SchemaStep> = Vec::new();
    steps.push(SchemaStep::FixNonstandardAttributes);
    steps.push(SchemaStep::RemoveEnums);
    assert(names.take(0).filter(wanted).len() == 0) by {
        reveal(Seq::filter);
    }
    for i in 0..normalizations.len()
        invariant
            names == texts(normalizations@),
            wanted == (|name: Seq<char>| name == DATE_TO_DATETIME@),
            steps@ == seq![SchemaStep::FixNonstandardAttributes, SchemaStep::RemoveEnums]
                + Seq::new(
                names.take(i as int).filter(wanted).len(),
                |k: int| SchemaStep::DateToDatetime,
            ),
    {
        proof {
            names.take(i as int).lemma_filter_push(names[i as int], wanted);
            assert(names.take(i as int).push(names[i as int]) =~= names.take(i + 1));
        }
        if same_text(normalizations[i].as_str(), DATE_TO_DATETIME) {
            steps.push(SchemaStep::DateToDatetime);
        }
    }
    assert(names.take(names.len() as int) =~= names);
    steps.push(SchemaStep::FixKeys);
    steps
}

/// A binding as it is offered.
#[derive(Debug)]
pub struct DiscoveredBinding {
    pub recommended_name: String,
    /// The text of the resource spec.
    pub resource_config_json: String,
    pub key: Vec<String>,
    /// The text of the document schema.
    pub document_schema_json: String,
    pub disable: bool,
    pub resource_path: Vec<String>,
    pub is_fallback_key: bool,
}

/// Makes the binding that is offered, of what was planned, the text of its resource spec and
/// its document schema after all steps.
pub fn finish_binding(
    planned: PlannedBinding,
    resource_config_json: String,
    schema: Json,
) -> (binding: Result<DiscoveredBinding, AtfError>)
    ensures
        binding matches Ok(b) && {
            &&& b.recommended_name == planned.recommended_name
            &&& b.resource_config_json == resource_config_json
            &&& b.key == planned.key
            &&& written(b.document_schema_json@, schema@)
            &&& b.disable == planned.disable
            &&& b.resource_path@.len() == 0
            &&& !b.is_fallback_key
        },
{
    let document_schema_json = match write_json(schema) {
        Ok(text) => text,
        Err(e) => return Err(AtfError::Json(e)),
    };
    Ok(
        DiscoveredBinding {
            recommended_name: planned.recommended_name,
            resource_config_json,
            key: planned.key,
            document_schema_json,
            disable: planned.disable,
            resource_path: Vec::new(),
            is_fallback_key: false,
        },
    )
}

/// Exactly the streams that are not omitted are offered, each once and in the order of the
/// catalog.
pub proof fn law_streams_are_offered_unless_omitted(streams: Seq<Stream>, options: DiscoverOptions)
    ensures
        forall|place: int|
            0 <= place < streams.len() ==> (#[trigger] offered(streams, options).contains(place)
                <==> !options.omits(streams[place].name@)),
        forall|i: int, j: int|
            0 <= i < j < offered(streams, options).len() ==> #[trigger] offered(streams, options)[i]
                < #[trigger] offered(streams, options)[j],
        forall|i: int|
            0 <= i < offered(streams, options).len() ==> 0 <= #[trigger] offered(
                streams,
                options,
            )[i] < streams.len(),
    decreases streams.len(),
{
    if streams.len() > 0 {
        let front = streams.drop_last();
        let before = offered(front, options);
        let after = offered(streams, options);
        law_streams_are_offered_unless_omitted(front, options);
        assert forall|place: int| 0 <= place < streams.len() implies (#[trigger] after.contains(
            place,
        ) <==> !options.omits(streams[place].name@)) by {
            if place < front.len() {
                assert(front[place] == streams[place]);
                assert(before.contains(place) <==> !options.omits(front[place].name@));
                if before.contains(place) {
                    let i = choose|i: int| 0 <= i < before.len() && before[i] == place;
                    assert(after[i] == place);
                }
                if after.contains(place) {
                    let i = choose|i: int| 0 <= i < after.len() && after[i] == place;
                    assert(before[i] == place);
                }
            } else if !options.omits(streams[place].name@) {
                assert(after[before.len() as int] == place);
            } else if after.contains(place) {
                let i = choose|i: int| 0 <= i < after.len() && after[i] == place;
                assert(before[i] < front.len());
            }
        }
    }
}

/// The path of a resource that discovery offers is the path of the stream that it was offered
/// for, so that discovery and validation tell bindings apart alike.
pub proof fn law_discovered_path_is_the_streams_path(
    resource: ResourceSpec,
    stream: Stream,
    key: Seq<Seq<char>>,
)
    requires
        is_resource(resource, stream, key),
    ensures
        resource_path(option_text(resource.namespace), resource.stream@) == resource_path(
            option_text(stream.namespace),
            stream.name@,
        ),
{
}

/// The fields that a patched key points to are the strings of the patch.
pub proof fn law_patched_key_names_its_fields(items: Seq<JsonView>)
    requires
        all_strings(items),
    ensures
        field_names(key_of_patch(items)) == items.map_values(|item: JsonView| item->String_0),
{
    reveal_strlit("/");
    let names = items.map_values(|item: JsonView| item->String_0);
    assert forall|i: int| 0 <= i < items.len() implies field_names(key_of_patch(items))[i]
        == names[i] by {
        assert(key_of_patch(items)[i].drop_first() =~= items[i]->String_0);
    }
    assert(field_names(key_of_patch(items)) =~= names);
}

/// A stream is read on by a field wherever it names one or has a key.
pub proof fn law_cursor_falls_back_to_the_key(
    default_cursor_field: Option<Seq<Seq<char>>>,
    key: Seq<Seq<char>>,
)
    ensures
        cursor_names(default_cursor_field, key).len() == 0 <==> key.len() == 0 && (
        default_cursor_field matches Some(names) ==> names.len() == 0),
{
}

/// The options are what the files list: a list that is missing stays missing, but for the
/// normalizations, of which there are none then.
pub proof fn law_options_are_what_the_files_list(
    selected_streams: Option<&str>,
    omitted_streams: Option<&str>,
    schema_normalizations: Option<&str>,
    options: DiscoverOptions,
)
    requires
        readable_list(selected_streams),
        readable_list(omitted_streams),
        readable_list(schema_normalizations),
        option_texts(options.selected_streams) == file_list(selected_streams),
        option_texts(options.omitted_streams) == file_list(omitted_streams),
        texts(options.schema_normalizations@) == match file_list(schema_normalizations) {
            Some(list) => list,
            None => Seq::empty(),
        },
    ensures
        selected_streams matches Some(text) ==> (options.selected_streams matches Some(list)
            && strings_content(text@) == Some(list@.map_values(|s: String| s@))),
        selected_streams is None ==> options.selected_streams is None,
        omitted_streams matches Some(text) ==> (options.omitted_streams matches Some(list)
            && strings_content(text@) == Some(list@.map_values(|s: String| s@))),
        omitted_streams is None ==> options.omitted_streams is None,
        schema_normalizations matches Some(text) ==> strings_content(text@) == Some(
            options.schema_normalizations@.map_values(|s: String| s@),
        ),
        schema_normalizations is None ==> options.schema_normalizations@.len() == 0,
{
    if schema_normalizations is None {
        assert(texts(options.schema_normalizations@).len() == options.schema_normalizations@.len());
    }
}

/// A file of options is refused exactly where its text is no list of strings.
pub proof fn law_unreadable_lists_are_told(text: &str)
    ensures
        readable_list(Some(text)) <==> strings_content(text@) is Some,
        readable_list(None),
{
}

/// The list is there and holds the name.
pub open spec fn holds_name(list: Option<Vec<String>>, name: Seq<char>) -> bool {
    list matches Some(names) && exists|k: int|
        0 <= k < names@.len() && (#[trigger] names@[k])@ == name
}

/// Discovery plans a stream exactly where the list of omitted streams does not hold its name,
/// each stream once and in the order of the catalog. A planned stream is disabled exactly where
/// there is a list of selected streams that does not hold its name.
pub proof fn law_streams_are_planned_by_the_lists(
    streams: Seq<Stream>,
    options: DiscoverOptions,
    plans: Seq<StreamPlan>,
)
    requires
        plans.len() == offered(streams, options).len(),
        forall|i: int|
            0 <= i < plans.len() ==> is_plan(
                #[trigger] plans[i],
                offered(streams, options)[i],
                streams,
                options,
            ),
    ensures
        forall|i: int, j: int|
            0 <= i < j < plans.len() ==> (#[trigger] plans[i]).index < (#[trigger] plans[j]).index,
        forall|i: int| 0 <= i < plans.len() ==> (#[trigger] plans[i]).index < streams.len(),
        forall|place: int|
            0 <= place < streams.len() ==> (holds_name(
                options.omitted_streams,
                (#[trigger] streams[place]).name@,
            ) <==> !plans_place(plans, place)),
        forall|i: int|
            0 <= i < plans.len() ==> {
                let name = streams[(#[trigger] plans[i]).index as int].name@;
                &&& plans[i].disable <==> options.selected_streams is Some && !holds_name(
                    options.selected_streams,
                    name,
                )
                &&& plans[i].recommended_name@ == recommended_name(mark(name))
            },
{
    let places = offered(streams, options);
    law_streams_are_offered_unless_omitted(streams, options);
    assert forall|i: int| 0 <= i < plans.len() implies (#[trigger] plans[i]).index == places[i] by {
        assert(is_plan(plans[i], places[i], streams, options));
    }
    assert forall|place: int| 0 <= place < streams.len() implies (holds_name(
        options.omitted_streams,
        (#[trigger] streams[place]).name@,
    ) <==> !plans_place(plans, place)) by {
        lemma_list_holds(options.omitted_streams, streams[place].name@);
        assert(places.contains(place) <==> !options.omits(streams[place].name@));
        if places.contains(place) {
            let i = choose|i: int| 0 <= i < places.len() && places[i] == place;
            assert(plans[i].index == place);
        }
        if plans_place(plans, place) {
            let i = choose|i: int| 0 <= i < plans.len() && (#[trigger] plans[i]).index == place;
            assert(places[i] == place);
        }
    }
    assert forall|i: int| 0 <= i < plans.len() implies {
        let name = streams[(#[trigger] plans[i]).index as int].name@;
        &&& plans[i].disable <==> options.selected_streams is Some && !holds_name(
            options.selected_streams,
            name,
        )
        &&& plans[i].recommended_name@ == recommended_name(mark(name))
    } by {
        assert(is_plan(plans[i], places[i], streams, options));
        lemma_list_holds(options.selected_streams, streams[plans[i].index as int].name@);
    }
}

/// A plan stands for the stream at a place of the catalog.
pub open spec fn plans_place(plans: Seq<StreamPlan>, place: int) -> bool {
    exists|i: int| 0 <= i < plans.len() && (#[trigger] plans[i]).index == place
}

proof fn lemma_list_holds(list: Option<Vec<String>>, name: Seq<char>)
    ensures
        list matches Some(names) ==> (texts(names@).contains(name) <==> holds_name(list, name)),
{
    if let Some(names) = list {
        if texts(names@).contains(name) {
            let k = choose|k: int| 0 <= k < names@.len() && texts(names@)[k] == name;
            assert(names@[k]@ == name);
        }
        if holds_name(list, name) {
            let k = choose|k: int| 0 <= k < names@.len() && (#[trigger] names@[k])@ == name;
            assert(texts(names@)[k] == name);
        }
    }
}

/// A stream that names a cursor field is read on by that field, whatever its key is. Only one
/// that names none, or an empty one, is read on by the fields of its key, which are its pointers
/// without the character at their head.
pub proof fn law_own_cursor_field_comes_first(
    resource: ResourceSpec,
    stream: Stream,
    key: Seq<Seq<char>>,
)
    requires
        is_resource(resource, stream, key),
    ensures
        stream.default_cursor_field matches Some(names) ==> (names@.len() > 0 ==> (
        resource.cursor_field matches Some(cursor) && cursor@.len() == names@.len() && (forall|
            i: int,
        |
            0 <= i < names@.len() ==> (#[trigger] cursor@[i])@ == names@[i]@))),
        !(stream.default_cursor_field matches Some(names) && names@.len() > 0) ==> (
        resource.cursor_field matches Some(cursor) && cursor@.len() == key.len() && (forall|i: int|
            0 <= i < key.len() ==> (#[trigger] cursor@[i])@ == key[i].drop_first())),
{
    let cursor = resource.cursor_field->0;
    assert(texts(cursor@).len() == cursor@.len());
    assert forall|i: int| 0 <= i < cursor@.len() implies (#[trigger] cursor@[i])@ == texts(
        cursor@,
    )[i] by {}
    if let Some(names) = stream.default_cursor_field {
        assert(texts(names@).len() == names@.len());
        assert forall|i: int| 0 <= i < names@.len() implies texts(names@)[i] == (
        #[trigger] names@[i])@ by {}
    }
}

/// A resource captures the stream of its name and namespace, incrementally exactly where the
/// stream says that it supports that.
pub proof fn law_resource_captures_its_stream(
    resource: ResourceSpec,
    stream: Stream,
    key: Seq<Seq<char>>,
)
    requires
        is_resource(resource, stream, key),
    ensures
        resource.stream@ == stream.name@,
        resource.namespace is Some <==> stream.namespace is Some,
        stream.namespace matches Some(namespace) ==> resource.namespace->0@ == namespace@,
        resource.sync_mode == SyncMode::Incremental <==> (
        stream.supported_sync_modes matches Some(modes) && exists|k: int|
            0 <= k < modes@.len() && #[trigger] modes@[k] == SyncMode::Incremental),
{
    if let Some(modes) = stream.supported_sync_modes {
        if modes@.contains(SyncMode::Incremental) {
            let k = choose|k: int| 0 <= k < modes@.len() && modes@[k] == SyncMode::Incremental;
            assert(modes@[k] == SyncMode::Incremental);
        }
    }
}

/// A stream keeps its own key where no file patches it. A patch stands in its place: each of its
/// strings with a slash before it, in their order.
pub proof fn law_key_is_the_streams_or_the_patchs(
    key_pointers: Seq<Seq<char>>,
    pk_patch: Option<Seq<char>>,
    key: Seq<Seq<char>>,
)
    requires
        key_outcome(key_pointers, pk_patch) == KeyOutcome::Key(key),
    ensures
        pk_patch is None ==> key == key_pointers,
        pk_patch matches Some(text) ==> (json_content(
            encode_utf8(text),
        ) matches Some(JsonView::Array(items)) && key.len() == items.len() && (forall|i: int|
            0 <= i < items.len() ==> (#[trigger] items[i] matches JsonView::String(field) && key[i]
                == "/"@ + field))),
        forall|i: int| 0 <= i < key.len() ==> (#[trigger] key[i]).len() > 0 && key[i][0] <= '\x7f',
{
    if let Some(text) = pk_patch {
        let items = json_content(encode_utf8(text))->0->Array_0;
        lemma_patched_keys_have_heads(items);
        assert forall|i: int| 0 <= i < items.len() implies (
        #[trigger] items[i] matches JsonView::String(field) && key[i] == "/"@ + field) by {
            assert(key_of_patch(items)[i] == "/"@ + items[i]->String_0);
        }
    }
    assert forall|i: int| 0 <= i < key.len() implies (#[trigger] key[i]).len() > 0 && key[i][0]
        <= '\x7f' by {
        assert(has_ascii_head(key[i]));
    }
}

/// There is no key exactly where the file that patches it cannot be read, holds no array, or
/// holds an array with anything but strings, or where there is no such file and a pointer of the
/// stream's own key has no ASCII character at its head; each case is told from the others.
pub proof fn law_missing_keys_are_told_apart(
    key_pointers: Seq<Seq<char>>,
    pk_patch: Option<Seq<char>>,
)
    ensures
        key_outcome(key_pointers, pk_patch) is Unreadable <==> (pk_patch matches Some(text)
            && json_content(encode_utf8(text)) is None),
        key_outcome(key_pointers, pk_patch) is NotAnArray <==> (pk_patch matches Some(text) && (
        json_content(encode_utf8(text)) matches Some(content) && content !is Array)),
        key_outcome(key_pointers, pk_patch) is Unusable <==> match pk_patch {
            Some(text) => json_content(encode_utf8(text)) matches Some(JsonView::Array(items))
                && exists|i: int| 0 <= i < items.len() && #[trigger] items[i] !is String,
            None => exists|i: int|
                0 <= i < key_pointers.len() && !((#[trigger] key_pointers[i]).len() > 0
                    && key_pointers[i][0] <= '\x7f'),
        },
{
    if pk_patch is None && !all_have_ascii_heads(key_pointers) {
        let i = choose|i: int|
            0 <= i < key_pointers.len() && !has_ascii_head(#[trigger] key_pointers[i]);
        assert(!(key_pointers[i].len() > 0 && key_pointers[i][0] <= '\x7f'));
    }
    if pk_patch is None && all_have_ascii_heads(key_pointers) {
        assert forall|i: int| 0 <= i < key_pointers.len() implies (
        #[trigger] key_pointers[i]).len() > 0 && key_pointers[i][0] <= '\x7f' by {
            assert(has_ascii_head(key_pointers[i]));
        }
    }
}

/// The document schema of a stream is the stream's own with the patch merged into it, and the
/// stream's own where there is no patch: what the patch does not name stays as it is, at every
/// depth. It is refused exactly where one of the two cannot be read.
pub proof fn law_schema_patch_is_merged(
    json_schema: Seq<char>,
    schema_patch: Option<Seq<char>>,
    path: Seq<Seq<char>>,
)
    ensures
        schema_content(json_schema, schema_patch) is None <==> json_content(
            encode_utf8(json_schema),
        ) is None || (schema_patch matches Some(text) && json_content(encode_utf8(text)) is None),
        schema_patch is None ==> schema_content(json_schema, schema_patch) == json_content(
            encode_utf8(json_schema),
        ),
        schema_patch is Some && schema_content(json_schema, schema_patch) is Some ==> {
            let own = json_content(encode_utf8(json_schema))->0;
            let patch = json_content(encode_utf8(schema_patch->0))->0;
            let patched = schema_content(json_schema, schema_patch)->0;
            &&& patched == merge_patch(own, patch)
            &&& leaves_alone(patch, path) ==> member_at(patched, path) == member_at(own, path)
        },
{
    if schema_patch is Some && schema_content(json_schema, schema_patch) is Some {
        let own = json_content(encode_utf8(json_schema))->0;
        let patch = json_content(encode_utf8(schema_patch->0))->0;
        if leaves_alone(patch, path) {
            law_patch_keeps_what_it_does_not_name(own, patch, path);
        }
    }
}

/// A binding that is offered has the name and the switch that were planned for its stream, the
/// stream's key, and the patched schema.
pub proof fn law_offered_binding_is_as_planned(
    binding: PlannedBinding,
    stream: Stream,
    plan: StreamPlan,
    key: Seq<Seq<char>>,
    schema: JsonView,
)
    requires
        is_planned(binding, stream, plan, key, schema),
    ensures
        binding.recommended_name@ == plan.recommended_name@,
        binding.disable == plan.disable,
        binding.key@.len() == key.len(),
        forall|i: int| 0 <= i < key.len() ==> (#[trigger] binding.key@[i])@ == key[i],
        is_resource(binding.resource, stream, key),
        binding.schema@ == schema,
{
    assert(texts(binding.key@).len() == binding.key@.len());
    assert forall|i: int| 0 <= i < key.len() implies (#[trigger] binding.key@[i])@ == key[i] by {
        assert(texts(binding.key@)[i] == binding.key@[i]@);
    }
}

/// Without normalizations a schema is mended, loses its enumerations and is brought in line with
/// the key. Asking for times in place of dates adds that step, once for each time that it is
/// asked for, before the last; asking for anything else adds nothing.
pub proof fn law_steps_follow_what_is_asked_for(
    options: DiscoverOptions,
    more: DiscoverOptions,
    name: String,
)
    requires
        more.schema_normalizations@ == options.schema_normalizations@.push(name),
    ensures
        options.schema_normalizations@.len() == 0 ==> steps_of(options) == seq![
            SchemaStep::FixNonstandardAttributes,
            SchemaStep::RemoveEnums,
            SchemaStep::FixKeys,
        ],
        name@ == "date-to-datetime"@ ==> steps_of(more) == steps_of(options).drop_last().push(
            SchemaStep::DateToDatetime,
        ).push(steps_of(options).last()),
        name@ != "date-to-datetime"@ ==> steps_of(more) == steps_of(options),
{
    let names = texts(options.schema_normalizations@);
    let wanted = |name: Seq<char>| name == DATE_TO_DATETIME@;
    assert(texts(more.schema_normalizations@) =~= names.push(name@));
    names.lemma_filter_push(name@, wanted);
    if names.len() == 0 {
        assert(names.filter(wanted).len() == 0) by {
            reveal(Seq::filter);
        }
        assert(steps_of(options) =~= seq![
            SchemaStep::FixNonstandardAttributes,
            SchemaStep::RemoveEnums,
            SchemaStep::FixKeys,
        ]);
    }
    if name@ == "date-to-datetime"@ {
        assert(steps_of(more) =~= steps_of(options).drop_last().push(
            SchemaStep::DateToDatetime,
        ).push(steps_of(options).last()));
    }
}

/// The files beside a connector that discovery reads.
pub proof fn law_discovery_files_are_known()
    ensures
        SCHEMA_NORMALIZATIONS_FILE_NAME@ == "schema_normalizations.json"@,
        SELECTED_STREAMS_FILE_NAME@ == "selected_streams.json"@,
        OMITTED_STREAMS_FILE_NAME@ == "omitted_streams.json"@,
        STREAM_PATCH_DIR_NAME@ == "streams"@,
        STREAM_PK_SUFFIX@ == ".pk.json"@,
        STREAM_PATCH_SUFFIX@ == ".patch.json"@,
{
}

} // verus!
