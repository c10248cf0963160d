//! The capture of documents: the catalog that a connector is asked to read, and the responses
//! that its messages become.

use crate::catalog::{
    ConfiguredCatalog, ConfiguredStream, DestinationSyncMode, Message, Range, Record, ResourceSpec,
    State, Stream, SyncMode,
};
use crate::discover::STREAM_PATCH_DIR_NAME;
use crate::error::AtfError;
use crate::interceptor::AirbyteSourceInterceptor;
use crate::json::{read_json, write_json, written, Json, JsonView};
use crate::protocol::{KeyRange, Projection, Response};
use crate::serde_bridge::{
    json_content, json_text, raw_from_slice, reads_back, without_outer_space,
};
use crate::state::{is_checkpoint, state_to_checkpoint};
use crate::text::option_text;
use crate::text_map::TextMap;
use vstd::prelude::*;
use vstd::utf8::encode_utf8;

verus! {

pub const STREAM_NORMALIZE_SUFFIX: &'static str = ".normalize.json";

/// What is remembered of a binding while its documents are captured.
#[derive(Debug)]
pub struct SavedBinding {
    /// Which of the bindings of the capture it is.
    pub i: usize,
    /// The text of the list of normalizations that its documents go through.
    pub normalizations: Option<String>,
    pub doc_schema: Json,
}

/// What is remembered of a binding.
pub struct SavedView {
    pub i: int,
    pub normalizations: Option<Seq<char>>,
    pub doc_schema: JsonView,
}

impl SavedBinding {
    pub open spec fn view(&self) -> SavedView {
        SavedView {
            i: self.i as int,
            normalizations: option_text(self.normalizations),
            doc_schema: self.doc_schema@,
        }
    }
}

/// What is remembered of the bindings, by the names of their streams.
pub open spec fn saved_view(saved: Map<Seq<char>, SavedBinding>) -> Map<Seq<char>, SavedView> {
    saved.map_values(|binding: SavedBinding| binding@)
}

/// A collection that a binding captures into.
#[derive(Debug)]
pub struct ReadCollection {
    /// Each part of the key is the path to a field.
    pub key: Vec<Vec<String>>,
    pub projections: Vec<Projection>,
    pub write_schema_json: Vec<u8>,
}

/// A binding of a capture, as far as it could be read.
#[derive(Debug)]
pub struct ReadBinding {
    pub resource: Result<ResourceSpec, serde_json::Error>,
    /// The text of the list of normalizations, where there is a file with one.
    pub normalizations: Result<Option<String>, serde_json::Error>,
    pub collection: Option<ReadCollection>,
}

impl ReadBinding {
    /// Nothing of the binding failed to be read.
    pub open spec fn readable(&self) -> bool {
        &&& self.resource is Ok
        &&& self.normalizations is Ok
        &&& self.collection matches Some(collection) ==> json_content(
            collection.write_schema_json@,
        ) is Some
    }

    /// The name of the stream that is captured.
    pub open spec fn stream(&self) -> Seq<char> {
        self.resource->Ok_0.stream@
    }

    /// `error` says why the binding could not be read: the resource counts before the
    /// normalizations, and these before the schema.
    pub open spec fn fails_with(&self, error: serde_json::Error) -> bool {
        &&& !self.readable()
        &&& self.resource matches Err(e) ==> error == e
        &&& self.resource is Ok ==> (self.normalizations matches Err(e) ==> error == e)
    }
}

/// What is remembered once the bindings were gone through, where `saved` was remembered
/// before. A binding without a collection is passed over, and a later binding of a stream
/// stands in place of an earlier one.
pub open spec fn saved_after(
    saved: Map<Seq<char>, SavedView>,
    bindings: Seq<ReadBinding>,
) -> Map<Seq<char>, SavedView>
    decreases bindings.len(),
{
    if bindings.len() == 0 {
        saved
    } else {
        let before = saved_after(saved, bindings.drop_last());
        let binding = bindings.last();
        match binding.collection {
            Some(collection) => before.insert(
                binding.stream(),
                SavedView {
                    i: bindings.len() - 1,
                    normalizations: option_text(binding.normalizations->Ok_0),
                    doc_schema: json_content(collection.write_schema_json@)->0,
                },
            ),
            None => before,
        }
    }
}

/// The places of the bindings that have a collection.
pub open spec fn with_collection(bindings: Seq<ReadBinding>) -> Seq<int>
    decreases bindings.len(),
{
    if bindings.len() == 0 {
        Seq::empty()
    } else {
        let places = with_collection(bindings.drop_last());
        if bindings.last().collection is Some {
            places.push(bindings.len() - 1)
        } else {
            places
        }
    }
}

/// Where each field is found. Of two projections of a field the later counts.
pub open spec fn projection_map(projections: Seq<Projection>) -> Map<Seq<char>, String>
    decreases projections.len(),
{
    if projections.len() == 0 {
        Map::empty()
    } else {
        projection_map(projections.drop_last()).insert(
            projections.last().field@,
            projections.last().ptr,
        )
    }
}

/// `stream` asks for what `binding` captures.
pub open spec fn is_configured(stream: ConfiguredStream, binding: ReadBinding) -> bool {
    let resource = binding.resource->Ok_0;
    let collection = binding.collection->0;
    &&& stream.sync_mode == resource.sync_mode
    &&& stream.destination_sync_mode == DestinationSyncMode::Append
    &&& stream.cursor_field == resource.cursor_field
    &&& stream.primary_key == Some(collection.key)
    &&& stream.projections@ == projection_map(collection.projections@)
    &&& stream.stream.name@ == resource.stream@
    &&& stream.stream.namespace == resource.namespace
    &&& encode_utf8(stream.stream.json_schema@) == without_outer_space(
        collection.write_schema_json@,
    )
    &&& json_content(encode_utf8(stream.stream.json_schema@)) == json_content(
        collection.write_schema_json@,
    )
    &&& stream.stream.supported_sync_modes matches Some(modes) && modes@ == seq![
        resource.sync_mode,
    ]
    &&& stream.stream.default_cursor_field is None
    &&& stream.stream.source_defined_cursor is None
    &&& stream.stream.source_defined_primary_key is None
}

pub open spec fn are_configured(
    streams: Seq<ConfiguredStream>,
    bindings: Seq<ReadBinding>,
) -> bool {
    &&& streams.len() == with_collection(bindings).len()
    &&& forall|i: int|
        0 <= i < streams.len() ==> is_configured(
            #[trigger] streams[i],
            bindings[with_collection(bindings)[i]],
        )
}

/// One of the streams asks for what the binding captures.
pub open spec fn has_stream_for(streams: Seq<ConfiguredStream>, binding: ReadBinding) -> bool {
    exists|i: int| 0 <= i < streams.len() && is_configured(#[trigger] streams[i], binding)
}

pub open spec fn all_readable(bindings: Seq<ReadBinding>) -> bool {
    forall|i: int| 0 <= i < bindings.len() ==> (#[trigger] bindings[i]).readable()
}

/// The first binding that could not be read stands at `place`.
pub open spec fn is_first_unreadable(bindings: Seq<ReadBinding>, place: int) -> bool {
    &&& 0 <= place < bindings.len()
    &&& !bindings[place].readable()
    &&& all_readable(bindings.take(place))
}

fn collect_projections(projections: Vec<Projection>) -> (map: TextMap<String>)
    ensures
        map@ == projection_map(projections@),
{
    let mut map: TextMap<String> = TextMap::new();
    assert(projections@.take(0) =~= Seq::empty());
    for projection in it: projections
        invariant
            it.seq() == projections@,
            map@ == projection_map(projections@.take(it.index())),
    {
        assert(projections@.take(it.index() + 1).drop_last() =~= projections@.take(it.index()));
        assert(projections@[it.index()] == projection);
        map.insert(projection.field, projection.ptr);
    }
    assert(projections@.take(projections@.len() as int) =~= projections@);
    map
}

/// The file with the normalizations of a stream's documents.
pub fn normalize_file(stream: &str) -> (file: String)
    ensures
        file@ == STREAM_PATCH_DIR_NAME@ + "/"@ + stream@ + STREAM_NORMALIZE_SUFFIX@,
{
    STREAM_PATCH_DIR_NAME.to_owned().concat("/").concat(stream).concat(STREAM_NORMALIZE_SUFFIX)
}

/// Lets a catalog pass, unless it breaks a rule; `violation` says which.
pub fn check_catalog(catalog: ConfiguredCatalog, violation: Option<String>) -> (checked: Result<
    ConfiguredCatalog,
    AtfError,
>)
    ensures
        checked == match violation {
            Some(v) => Err(AtfError::InvalidCatalog(v)),
            None => Ok(catalog),
        },
{
    match violation {
        Some(v) => Err(AtfError::InvalidCatalog(v)),
        None => Ok(catalog),
    }
}

impl AirbyteSourceInterceptor {
    /// Makes the catalog that the connector is asked to read, and remembers the bindings.
    pub fn adapt_pull_request(
        &mut self,
        range: Option<KeyRange>,
        bindings: Vec<ReadBinding>,
    ) -> (catalog: Result<ConfiguredCatalog, AtfError>)
        ensures
            final(self).validate_request == old(self).validate_request,
            final(self).tmp_dir == old(self).tmp_dir,
            match catalog {
                Ok(c) => {
                    &&& all_readable(bindings@)
                    &&& saved_view(final(self).stream_to_binding@) == saved_after(
                        saved_view(old(self).stream_to_binding@),
                        bindings@,
                    )
                    &&& are_configured(c.streams@, bindings@)
                    &&& forall|place: int|
                        0 <= place < bindings@.len() && (#[trigger] bindings@[place]).collection is Some
                            ==> has_stream_for(c.streams@, bindings@[place])
                    &&& c.range == match range {
                        Some(r) => Some(Range { begin: r.key_begin, end: r.key_end }),
                        None => None,
                    }
                },
                Err(e) => e matches AtfError::Json(error) && exists|place: int|
                    {
                        &&& #[trigger] is_first_unreadable(bindings@, place)
                        &&& bindings@[place].fails_with(error)
                        &&& saved_view(final(self).stream_to_binding@) == saved_after(
                            saved_view(old(self).stream_to_binding@),
                            bindings@.take(place),
                        )
                    },
            },
    {
        let mut streams: Vec<ConfiguredStream> = Vec::new();
        let mut i: usize = 0;
        let total: usize = bindings.len();
        assert(bindings@.take(0) =~= Seq::empty());
        for binding in it: bindings
            invariant
                it.seq() == bindings@,
                i == it.index(),
                total == bindings@.len(),
                self.validate_request == old(self).validate_request,
                self.tmp_dir == old(self).tmp_dir,
                all_readable(bindings@.take(i as int)),
                saved_view(self.stream_to_binding@) == saved_after(
                    saved_view(old(self).stream_to_binding@),
                    bindings@.take(i as int),
                ),
                are_configured(streams@, bindings@.take(i as int)),
        {
            let ghost so_far = bindings@.take(i as int);
            let ghost now = bindings@.take(i + 1);
            assert(now.drop_last() =~= so_far);
            assert(bindings@[i as int] == binding);
            assert(now.last() == binding);
            let resource = match binding.resource {
                Ok(resource) => resource,
                Err(e) => {
                    assert(is_first_unreadable(bindings@, i as int));
                    return Err(AtfError::Json(e));
                },
            };
            let normalizations = match binding.normalizations {
                Ok(normalizations) => normalizations,
                Err(e) => {
                    assert(is_first_unreadable(bindings@, i as int));
                    return Err(AtfError::Json(e));
                },
            };
            if let Some(collection) = binding.collection {
                let doc_schema = match read_json(collection.write_schema_json.as_slice()) {
                    Ok(json) => json,
                    Err(e) => {
                        assert(is_first_unreadable(bindings@, i as int));
                        return Err(AtfError::Json(e));
                    },
                };
                let json_schema = match raw_from_slice(collection.write_schema_json.as_slice()) {
                    Ok(raw) => raw,
                    Err(e) => return Err(AtfError::Json(e)),
                };
                let ghost before = self.stream_to_binding@;
                let saved = SavedBinding { i, normalizations, doc_schema };
                let ghost saved_now = saved;
                self.stream_to_binding.insert(resource.stream.clone(), saved);
                assert(saved_view(self.stream_to_binding@) =~= saved_view(before).insert(
                    resource.stream@,
                    saved_now@,
                ));
                let mut modes: Vec<SyncMode> = Vec::new();
                modes.push(resource.sync_mode);
                assert(modes@ =~= seq![resource.sync_mode]);
                streams.push(
                    ConfiguredStream {
                        sync_mode: resource.sync_mode,
                        destination_sync_mode: DestinationSyncMode::Append,
                        cursor_field: resource.cursor_field,
                        primary_key: Some(collection.key),
                        stream: Stream {
                            name: resource.stream,
                            namespace: resource.namespace,
                            json_schema,
                            supported_sync_modes: Some(modes),
                            default_cursor_field: None,
                            source_defined_cursor: None,
                            source_defined_primary_key: None,
                        },
                        projections: collect_projections(collection.projections),
                    },
                );
            }
            proof {
                lemma_places_in_range(so_far);
                assert forall|k: int| 0 <= k < now.len() implies (#[trigger] now[k]).readable() by {
                    if k < i {
                        assert(so_far[k] == now[k]);
                    }
                }
                assert forall|k: int| 0 <= k < streams@.len() implies is_configured(
                    #[trigger] streams@[k],
                    now[with_collection(now)[k]],
                ) by {
                    if k < with_collection(so_far).len() {
                        assert(so_far[with_collection(so_far)[k]] == now[with_collection(now)[k]]);
                    }
                }
            }
            i = i + 1;
        }
        assert(bindings@.take(bindings@.len() as int) =~= bindings@);
        proof {
            lemma_places_with_collection(bindings@);
            assert forall|place: int|
                0 <= place < bindings@.len() && (
                #[trigger] bindings@[place]).collection is Some implies has_stream_for(
                streams@,
                bindings@[place],
            ) by {
                let places = with_collection(bindings@);
                let k = choose|k: int| 0 <= k < places.len() && places[k] == place;
                assert(is_configured(streams@[k], bindings@[place]));
            }
        }
        let range = match range {
            Some(r) => Some(Range { begin: r.key_begin, end: r.key_end }),
            None => None,
        };
        Ok(ConfiguredCatalog { streams, range })
    }
}

proof fn lemma_places_in_range(bindings: Seq<ReadBinding>)
    ensures
        forall|k: int|
            0 <= k < with_collection(bindings).len() ==> 0 <= #[trigger] with_collection(
                bindings,
            )[k] < bindings.len(),
    decreases bindings.len(),
{
    if bindings.len() > 0 {
        let before = with_collection(bindings.drop_last());
        let after = with_collection(bindings);
        lemma_places_in_range(bindings.drop_last());
        assert forall|k: int| 0 <= k < after.len() implies 0 <= #[trigger] after[k]
            < bindings.len() by {
            if k < before.len() {
                assert(after[k] == before[k]);
            }
        }
    }
}

/// How far the responses of a capture have come.
#[derive(Debug, Clone, Copy, PartialEq, Eq, Structural)]
pub enum PullPhase {
    /// Nothing was answered yet.
    Opening,
    /// Messages are answered one by one.
    Streaming,
    /// There is nothing more to answer.
    Finished,
}

/// What a message of the connector leads to.
#[derive(Debug)]
pub enum PullStep {
    /// A response.
    Respond(Response),
    /// A document, which is still to be normalized by what is remembered of its binding.
    Normalize { stream: String, binding: SavedBinding, data: Json },
    /// The end of the capture.
    Done,
    /// A failure, which ends the capture.
    Fail(AtfError),
}

/// Begins the responses of a capture: the first of them says that it is open.
pub fn open_pull(phase: &mut PullPhase) -> (response: Response)
    requires
        *old(phase) == PullPhase::Opening,
    ensures
        response == Response::Opened,
        *final(phase) == PullPhase::Streaming,
{
    *phase = PullPhase::Streaming;
    Response::Opened
}

/// What the next message, or the end of the messages, leads to, where `saved` is remembered
/// of the bindings.
pub open spec fn is_pull_step(
    saved: Map<Seq<char>, SavedBinding>,
    next: Option<Result<Message, AtfError>>,
    step: PullStep,
) -> bool {
    match next {
        Some(Ok(message)) => match message.state {
            Some(state) => match step {
                PullStep::Respond(Response::Checkpoint { updated_json, merge_patch }) =>
                    is_checkpoint(state, Ok((updated_json, merge_patch))),
                PullStep::Fail(e) => is_checkpoint(state, Err(e)),
                _ => false,
            },
            None => match message.record {
                Some(record) => if saved.contains_key(record.stream@) {
                    step == PullStep::Normalize {
                        stream: record.stream,
                        binding: saved[record.stream@],
                        data: record.data,
                    }
                } else {
                    step == PullStep::Fail(AtfError::DanglingConnectorRecord(record.stream))
                },
                None => step == PullStep::Fail(AtfError::InvalidPullResponse),
            },
        },
        Some(Err(e)) => step == PullStep::Fail(e),
        None => step is Done,
    }
}

/// What is still remembered of the bindings after a step: all but the binding that the step
/// handed out.
pub open spec fn left_after(saved: Map<Seq<char>, SavedBinding>, step: PullStep) -> Map<
    Seq<char>,
    SavedBinding,
> {
    match step {
        PullStep::Normalize { stream, binding, data } => saved.remove(stream@),
        _ => saved,
    }
}

/// How far the responses have come after a step.
pub open spec fn phase_after(step: PullStep) -> PullPhase {
    match step {
        PullStep::Done => PullPhase::Finished,
        PullStep::Fail(_) => PullPhase::Finished,
        _ => PullPhase::Streaming,
    }
}

/// `response` hands on a document of a binding.
pub open spec fn is_captured(
    binding: SavedBinding,
    document: JsonView,
    response: Response,
) -> bool {
    response matches Response::Captured { binding: place, doc_json } && place == binding.i as u32
        && written(doc_json@, document)
}

impl AirbyteSourceInterceptor {
    /// Says what the next message of the connector leads to; `next` is `None` at the end of
    /// the messages. A binding that is handed out with a document comes back through
    /// [`Self::finish_record`].
    pub fn adapt_pull_response(
        &mut self,
        phase: &mut PullPhase,
        next: Option<Result<Message, AtfError>>,
    ) -> (step: PullStep)
        requires
            *old(phase) == PullPhase::Streaming,
        ensures
            final(self).validate_request == old(self).validate_request,
            final(self).tmp_dir == old(self).tmp_dir,
            is_pull_step(old(self).stream_to_binding@, next, step),
            final(self).stream_to_binding@ == left_after(old(self).stream_to_binding@, step),
            *final(phase) == phase_after(step),
            next matches Some(Ok(message)) ==> (message.state is None ==> (
            message.record matches Some(record) ==> (old(self).stream_to_binding@.contains_key(
                record.stream@,
            ) ==> (step matches PullStep::Normalize { stream, binding, data } && stream@
                == record.stream@ && data@ == record.data@)))),
    {
        let message = match next {
            Some(Ok(message)) => message,
            Some(Err(e)) => {
                *phase = PullPhase::Finished;
                return PullStep::Fail(e);
            },
            None => {
                *phase = PullPhase::Finished;
                return PullStep::Done;
            },
        };
        if let Some(state) = message.state {
            match state_to_checkpoint(state) {
                Ok((updated_json, merge_patch)) => PullStep::Respond(
                    Response::Checkpoint { updated_json, merge_patch },
                ),
                Err(e) => {
                    *phase = PullPhase::Finished;
                    PullStep::Fail(e)
                },
            }
        } else if let Some(record) = message.record {
            match self.stream_to_binding.remove(record.stream.as_str()) {
                Some(binding) => PullStep::Normalize {
                    stream: record.stream,
                    binding,
                    data: record.data,
                },
                None => {
                    assert(old(self).stream_to_binding@.remove(record.stream@)
                        =~= old(self).stream_to_binding@);
                    *phase = PullPhase::Finished;
                    PullStep::Fail(AtfError::DanglingConnectorRecord(record.stream))
                },
            }
        } else {
            *phase = PullPhase::Finished;
            PullStep::Fail(AtfError::InvalidPullResponse)
        }
    }

    /// Answers with a document once it was normalized, and takes its binding back, with the
    /// document schema as it is by then. The place of a binding is given in 32 bits.
    pub fn finish_record(
        &mut self,
        stream: String,
        binding: SavedBinding,
        data: Json,
    ) -> (response: Result<Response, AtfError>)
        ensures
            final(self).validate_request == old(self).validate_request,
            final(self).tmp_dir == old(self).tmp_dir,
            final(self).stream_to_binding@ == old(self).stream_to_binding@.insert(stream@, binding),
            response matches Ok(r) && is_captured(binding, data@, r),
            binding.i <= u32::MAX ==> response->Ok_0->Captured_binding == binding.i,
    {
        let place: u32 = #[verifier::truncate] (binding.i as u32);
        self.stream_to_binding.insert(stream, binding);
        match write_json(data) {
            Ok(doc_json) => Ok(Response::Captured { binding: place, doc_json }),
            Err(e) => Err(AtfError::Json(e)),
        }
    }
}

/// The documents of a stream belong to the last binding of that stream that has a collection:
/// this is the binding that is remembered for it, with its place among all bindings.
pub proof fn law_last_binding_of_a_stream_is_remembered(
    saved: Map<Seq<char>, SavedView>,
    bindings: Seq<ReadBinding>,
    place: int,
)
    requires
        0 <= place < bindings.len(),
        bindings[place].collection is Some,
        forall|later: int|
            place < later < bindings.len() && (#[trigger] bindings[later]).collection is Some
                ==> bindings[later].stream() != bindings[place].stream(),
    ensures
        saved_after(saved, bindings).contains_key(bindings[place].stream()),
        ({
            let remembered = saved_after(saved, bindings)[bindings[place].stream()];
            let binding = bindings[place];
            &&& remembered.i == place
            &&& remembered.normalizations == option_text(binding.normalizations->Ok_0)
            &&& remembered.doc_schema == json_content(binding.collection->0.write_schema_json@)->0
        }),
    decreases bindings.len(),
{
    let front = bindings.drop_last();
    if place < front.len() {
        assert(front[place] == bindings[place]);
        assert forall|later: int|
            place < later < front.len() && (#[trigger] front[later]).collection is Some implies
            front[later].stream() != front[place].stream() by {
            assert(bindings[later] == front[later]);
        }
        law_last_binding_of_a_stream_is_remembered(saved, front, place);
        assert(bindings[bindings.len() - 1] == bindings.last());
    }
}

/// Only streams of bindings with a collection come to be remembered, and none is forgotten.
pub proof fn law_only_bound_streams_are_remembered(
    saved: Map<Seq<char>, SavedView>,
    bindings: Seq<ReadBinding>,
    stream: Seq<char>,
)
    ensures
        saved_after(saved, bindings).contains_key(stream) <==> saved.contains_key(stream) || exists|
            place: int,
        |
            0 <= place < bindings.len() && (#[trigger] bindings[place]).collection is Some
                && bindings[place].stream() == stream,
    decreases bindings.len(),
{
    if bindings.len() > 0 {
        let front = bindings.drop_last();
        law_only_bound_streams_are_remembered(saved, front, stream);
        assert(bindings[bindings.len() - 1] == bindings.last());
        if exists|place: int|
            0 <= place < front.len() && (#[trigger] front[place]).collection is Some
                && front[place].stream() == stream {
            let place = choose|place: int|
                0 <= place < front.len() && (#[trigger] front[place]).collection is Some
                    && front[place].stream() == stream;
            assert(bindings[place] == front[place]);
        }
        if exists|place: int|
            0 <= place < bindings.len() && (#[trigger] bindings[place]).collection is Some
                && bindings[place].stream() == stream {
            let place = choose|place: int|
                0 <= place < bindings.len() && (#[trigger] bindings[place]).collection is Some
                    && bindings[place].stream() == stream;
            if place < front.len() {
                assert(front[place] == bindings[place]);
            }
        }
    }
}

/// What was remembered of a stream stays as it is where no binding with a collection captures
/// that stream.
pub proof fn law_unbound_streams_are_kept(
    saved: Map<Seq<char>, SavedView>,
    bindings: Seq<ReadBinding>,
    stream: Seq<char>,
)
    requires
        saved.contains_key(stream),
        forall|place: int|
            0 <= place < bindings.len() && (#[trigger] bindings[place]).collection is Some
                ==> bindings[place].stream() != stream,
    ensures
        saved_after(saved, bindings).contains_key(stream),
        saved_after(saved, bindings)[stream] == saved[stream],
    decreases bindings.len(),
{
    if bindings.len() > 0 {
        let front = bindings.drop_last();
        assert forall|place: int|
            0 <= place < front.len() && (#[trigger] front[place]).collection is Some implies
            front[place].stream() != stream by {
            assert(bindings[place] == front[place]);
        }
        law_unbound_streams_are_kept(saved, front, stream);
        assert(bindings[bindings.len() - 1] == bindings.last());
    }
}

/// Answering with a document changes nothing of what is remembered but the document schema of
/// its binding: the streams stay, each with its place and its normalizations.
pub proof fn law_documents_keep_the_bindings(
    saved: Map<Seq<char>, SavedBinding>,
    next: Option<Result<Message, AtfError>>,
    step: PullStep,
    returned: SavedBinding,
)
    requires
        is_pull_step(saved, next, step),
        step matches PullStep::Normalize { stream, binding, data } && returned.i == binding.i
            && returned.normalizations == binding.normalizations,
    ensures
        ({
            let stream = step->Normalize_stream@;
            let after = left_after(saved, step).insert(stream, returned);
            &&& after.dom() == saved.dom()
            &&& after[stream].i == saved[stream].i
            &&& after[stream].normalizations == saved[stream].normalizations
            &&& forall|other: Seq<char>|
                other != stream && saved.contains_key(other) ==> #[trigger] after[other]
                    == saved[other]
        }),
{
    let stream = step->Normalize_stream@;
    let after = left_after(saved, step).insert(stream, returned);
    assert(after.dom() =~= saved.dom());
}

/// A message that carries a state is answered with a checkpoint, whatever else it carries;
/// only one that carries neither a state nor a document is refused.
pub proof fn law_states_come_before_documents(
    saved: Map<Seq<char>, SavedBinding>,
    message: Message,
    step: PullStep,
)
    requires
        is_pull_step(saved, Some(Ok(message)), step),
    ensures
        message.state is Some ==> step is Respond || step is Fail,
        step is Normalize ==> message.state is None && message.record is Some,
        step == PullStep::Fail(AtfError::InvalidPullResponse) ==> message.state is None
            && message.record is None,
        message.state is None && message.record is None ==> step == PullStep::Fail(
            AtfError::InvalidPullResponse,
        ),
{
}

/// One turn of a capture: a message, or the end of the messages, and what it leads to.
pub struct PullTurn {
    /// What is remembered of the bindings before the turn.
    pub saved: Map<Seq<char>, SavedBinding>,
    pub phase: PullPhase,
    pub step: PullStep,
    /// Where the step hands out a binding: what comes back of it.
    pub returned: SavedBinding,
    /// Where the step hands out a document: the document once it was normalized.
    pub document: JsonView,
    pub response: Option<Response>,
    /// What is remembered of the bindings after the turn.
    pub left: Map<Seq<char>, SavedBinding>,
}

/// A turn takes a step and, where the step hands out a document, finishes it: the binding
/// comes back with its place and its normalizations.
pub open spec fn is_turn(turn: PullTurn, next: Option<Result<Message, AtfError>>) -> bool {
    &&& turn.phase == PullPhase::Streaming
    &&& is_pull_step(turn.saved, next, turn.step)
    &&& match turn.step {
        PullStep::Respond(response) => turn.response == Some(response) && turn.left == left_after(
            turn.saved,
            turn.step,
        ),
        PullStep::Normalize { stream, binding, data } => {
            &&& turn.returned.i == binding.i
            &&& turn.returned.normalizations == binding.normalizations
            &&& turn.response matches Some(response) && is_captured(
                turn.returned,
                turn.document,
                response,
            )
            &&& turn.left == left_after(turn.saved, turn.step).insert(stream@, turn.returned)
        },
        _ => turn.response is None && turn.left == left_after(turn.saved, turn.step),
    }
}

/// The turns of a capture, one for each message so far and then one for the end, where `saved`
/// is remembered when it is opened. Each turn goes on from where the one before it ended.
pub open spec fn is_run(
    saved: Map<Seq<char>, SavedBinding>,
    messages: Seq<Result<Message, AtfError>>,
    turns: Seq<PullTurn>,
) -> bool
    decreases turns.len(),
{
    turns.len() == 0 || {
        let front = turns.drop_last();
        let turn = turns.last();
        &&& is_run(saved, messages, front)
        &&& front.len() <= messages.len()
        &&& turn.saved == left_by(saved, front)
        &&& turn.phase == if front.len() == 0 {
            PullPhase::Streaming
        } else {
            phase_after(front.last().step)
        }
        &&& is_turn(
            turn,
            if front.len() < messages.len() {
                Some(messages[front.len() as int])
            } else {
                None
            },
        )
    }
}

/// What is remembered of the bindings after the turns.
pub open spec fn left_by(saved: Map<Seq<char>, SavedBinding>, turns: Seq<PullTurn>) -> Map<
    Seq<char>,
    SavedBinding,
> {
    if turns.len() == 0 {
        saved
    } else {
        turns.last().left
    }
}

/// The responses of a capture: that it is open, and then those of its turns.
pub open spec fn responses_of(turns: Seq<PullTurn>) -> Seq<Response>
    decreases turns.len(),
{
    if turns.len() == 0 {
        seq![Response::Opened]
    } else {
        match turns.last().response {
            Some(response) => responses_of(turns.drop_last()).push(response),
            None => responses_of(turns.drop_last()),
        }
    }
}

/// `response` answers a message, where `saved` is remembered of the bindings: a state with its
/// checkpoint, and a record with `document` and the place of its stream's binding.
pub open spec fn answers(
    saved: Map<Seq<char>, SavedBinding>,
    message: Result<Message, AtfError>,
    document: JsonView,
    response: Response,
) -> bool {
    match message {
        Ok(m) => match m.state {
            Some(state) => response matches Response::Checkpoint { updated_json, merge_patch }
                && is_checkpoint(state, Ok((updated_json, merge_patch))),
            None => m.record matches Some(record) && saved.contains_key(record.stream@)
                && is_captured(saved[record.stream@], document, response),
        },
        Err(_) => false,
    }
}

/// The same streams are remembered, each with the same place and the same normalizations.
pub open spec fn same_bindings(
    saved: Map<Seq<char>, SavedBinding>,
    left: Map<Seq<char>, SavedBinding>,
) -> bool {
    &&& left.dom() == saved.dom()
    &&& forall|stream: Seq<char>| #[trigger]
        saved.contains_key(stream) ==> left[stream].i == saved[stream].i
            && left[stream].normalizations == saved[stream].normalizations
}

/// The step ends the capture.
pub open spec fn ends(step: PullStep) -> bool {
    step is Done || step is Fail
}

/// A whole capture: it is opened first, and then each message is answered with one response,
/// in order, up to a turn that ends the capture. Nothing follows that turn, and it has no
/// response. The same streams are remembered throughout, each with its place and its
/// normalizations, so that a record is answered with the place that its stream's binding had
/// when the capture was opened.
pub proof fn law_capture_answers_each_message(
    saved: Map<Seq<char>, SavedBinding>,
    messages: Seq<Result<Message, AtfError>>,
    turns: Seq<PullTurn>,
)
    requires
        is_run(saved, messages, turns),
    ensures
        responses_of(turns)[0] == Response::Opened,
        responses_of(turns).len() == 1 + turns.len() - if turns.len() > 0 && ends(
            turns.last().step,
        ) {
            1int
        } else {
            0int
        },
        forall|i: int| 0 <= i < turns.len() - 1 ==> !ends((#[trigger] turns[i]).step),
        forall|i: int|
            0 <= i < turns.len() && !ends((#[trigger] turns[i]).step) ==> i < messages.len()
                && answers(saved, messages[i], turns[i].document, responses_of(turns)[i + 1]),
        forall|i: int| 0 <= i < turns.len() ==> same_bindings(saved, (#[trigger] turns[i]).left),
    decreases turns.len(),
{
    if turns.len() > 0 {
        let front = turns.drop_last();
        let turn = turns.last();
        law_capture_answers_each_message(saved, messages, front);
        let before = responses_of(front);
        let after = responses_of(turns);
        if front.len() > 0 {
            assert(front.last() == turns[front.len() - 1]);
            assert(same_bindings(saved, front[front.len() - 1].left));
        }
        assert(same_bindings(saved, turn.saved));
        if let PullStep::Normalize { stream, binding, data } = turn.step {
            assert(turn.left.dom() =~= turn.saved.dom());
            assert(saved.contains_key(stream@));
        }
        assert(same_bindings(saved, turn.left));
        assert forall|i: int| 0 <= i < turns.len() - 1 implies !ends((#[trigger] turns[i]).step) by {
            assert(turns[i] == front[i]);
        }
        assert forall|i: int| 0 <= i < turns.len() && !ends((#[trigger] turns[i]).step) implies i
            < messages.len() && answers(saved, messages[i], turns[i].document, after[i + 1]) by {
            if i < front.len() {
                assert(turns[i] == front[i]);
                assert(after[i + 1] == before[i + 1]);
            } else {
                assert(after[i + 1] == turn.response->0);
            }
        }
        assert forall|i: int| 0 <= i < turns.len() implies same_bindings(
            saved,
            (#[trigger] turns[i]).left,
        ) by {
            if i < front.len() {
                assert(turns[i] == front[i]);
            }
        }
    }
}

/// A capture that comes to its end has answered every message with one response.
pub proof fn law_finished_capture_answered_every_message(
    saved: Map<Seq<char>, SavedBinding>,
    messages: Seq<Result<Message, AtfError>>,
    turns: Seq<PullTurn>,
)
    requires
        is_run(saved, messages, turns),
        turns.len() > 0,
        turns.last().step is Done,
    ensures
        turns.len() == messages.len() + 1,
        responses_of(turns).len() == messages.len() + 1,
        forall|i: int|
            0 <= i < messages.len() ==> answers(
                saved,
                #[trigger] messages[i],
                turns[i].document,
                responses_of(turns)[i + 1],
            ),
{
    law_capture_answers_each_message(saved, messages, turns);
    assert forall|i: int| 0 <= i < messages.len() implies answers(
        saved,
        #[trigger] messages[i],
        turns[i].document,
        responses_of(turns)[i + 1],
    ) by {
        assert(!ends(turns[i].step));
    }
}

/// The catalog's streams stand for the bindings at `places`: these are the places of the
/// bindings with a collection, all of them and no other, in their order.
pub open spec fn stand_for(
    streams: Seq<ConfiguredStream>,
    bindings: Seq<ReadBinding>,
    places: Seq<int>,
) -> bool {
    &&& places.len() == streams.len()
    &&& forall|i: int, j: int| 0 <= i < j < places.len() ==> #[trigger] places[i] < #[trigger] places[j]
    &&& forall|place: int| #[trigger]
        places.contains(place) ==> 0 <= place < bindings.len() && bindings[place].collection is Some
    &&& forall|place: int|
        0 <= place < bindings.len() && (#[trigger] bindings[place]).collection is Some
            ==> places.contains(place)
    &&& forall|i: int|
        0 <= i < streams.len() ==> is_configured(#[trigger] streams[i], bindings[places[i]])
}

proof fn lemma_places_with_collection(bindings: Seq<ReadBinding>)
    ensures
        forall|i: int, j: int|
            0 <= i < j < with_collection(bindings).len() ==> #[trigger] with_collection(bindings)[i]
                < #[trigger] with_collection(bindings)[j],
        forall|place: int| #[trigger]
            with_collection(bindings).contains(place) ==> 0 <= place < bindings.len()
                && bindings[place].collection is Some,
        forall|place: int|
            0 <= place < bindings.len() && (#[trigger] bindings[place]).collection is Some
                ==> with_collection(bindings).contains(place),
    decreases bindings.len(),
{
    if bindings.len() > 0 {
        let front = bindings.drop_last();
        let before = with_collection(front);
        let after = with_collection(bindings);
        lemma_places_with_collection(front);
        lemma_places_in_range(front);
        assert forall|i: int, j: int| 0 <= i < j < after.len() implies #[trigger] after[i]
            < #[trigger] after[j] by {
            assert(before[i] < front.len());
            if j < before.len() {
                assert(before[i] < before[j]);
            }
        }
        assert forall|place: int| #[trigger] after.contains(place) implies 0 <= place
            < bindings.len() && bindings[place].collection is Some by {
            let i = choose|i: int| 0 <= i < after.len() && after[i] == place;
            if i < before.len() {
                assert(before[i] == place);
                assert(before.contains(place));
                assert(bindings[place] == front[place]);
            }
        }
        assert forall|place: int|
            0 <= place < bindings.len() && (#[trigger] bindings[place]).collection is Some implies
            after.contains(place) by {
            if place < front.len() {
                assert(front[place] == bindings[place]);
                let i = choose|i: int| 0 <= i < before.len() && before[i] == place;
                assert(after[i] == place);
            } else {
                assert(after[before.len() as int] == place);
            }
        }
    }
}

/// Every binding that has a collection has exactly one stream in the catalog, and no other
/// binding has one; the streams come in the order of the bindings.
pub proof fn law_each_bound_binding_has_one_stream(
    streams: Seq<ConfiguredStream>,
    bindings: Seq<ReadBinding>,
)
    requires
        are_configured(streams, bindings),
    ensures
        exists|places: Seq<int>| stand_for(streams, bindings, places),
{
    lemma_places_with_collection(bindings);
    assert(stand_for(streams, bindings, with_collection(bindings)));
}

/// A stream of the catalog asks for what its binding captures: the stream of the binding's
/// resource, in the resource's mode and by its cursor field, with the key and the projections of
/// the collection, and with the text of the collection's schema.
pub proof fn law_configured_stream_asks_for_its_binding(
    stream: ConfiguredStream,
    binding: ReadBinding,
    resource: ResourceSpec,
    collection: ReadCollection,
)
    requires
        is_configured(stream, binding),
        binding.resource == Ok::<ResourceSpec, serde_json::Error>(resource),
        binding.collection == Some(collection),
    ensures
        stream.stream.name@ == resource.stream@,
        stream.stream.namespace == resource.namespace,
        stream.sync_mode == resource.sync_mode,
        stream.cursor_field == resource.cursor_field,
        stream.destination_sync_mode == DestinationSyncMode::Append,
        stream.primary_key matches Some(key) && key@ == collection.key@,
        stream.stream.supported_sync_modes matches Some(modes) && modes@.len() == 1 && modes@[0]
            == resource.sync_mode,
        encode_utf8(stream.stream.json_schema@) == without_outer_space(
            collection.write_schema_json@,
        ),
        json_content(encode_utf8(stream.stream.json_schema@)) == json_content(
            collection.write_schema_json@,
        ),
        stream.stream.default_cursor_field is None,
        stream.stream.source_defined_cursor is None,
        stream.stream.source_defined_primary_key is None,
        forall|place: int|
            0 <= place < collection.projections@.len() && is_last_of_its_field(
                collection.projections@,
                place,
            ) ==> stream.projections@.contains_key((#[trigger] collection.projections@[place]).field@)
                && stream.projections@[collection.projections@[place].field@]@
                == collection.projections@[place].ptr@,
        forall|field: Seq<char>| #[trigger]
            stream.projections@.contains_key(field) ==> exists|place: int|
                0 <= place < collection.projections@.len() && (
                #[trigger] collection.projections@[place]).field@ == field,
{
    let given = collection.projections@;
    assert forall|place: int|
        0 <= place < given.len() && is_last_of_its_field(given, place) implies projection_map(
        given,
    ).contains_key((#[trigger] given[place]).field@) && projection_map(given)[given[place].field@]@
        == given[place].ptr@ by {
        lemma_last_projection(given, place);
    }
    assert forall|field: Seq<char>| #[trigger]
        projection_map(given).contains_key(field) implies exists|place: int|
        0 <= place < given.len() && (#[trigger] given[place]).field@ == field by {
        lemma_projected_field(given, field);
    }
}

/// No later projection is of the same field.
pub open spec fn is_last_of_its_field(projections: Seq<Projection>, place: int) -> bool {
    forall|later: int|
        place < later < projections.len() ==> (#[trigger] projections[later]).field@
            != projections[place].field@
}

proof fn lemma_last_projection(projections: Seq<Projection>, place: int)
    requires
        0 <= place < projections.len(),
        is_last_of_its_field(projections, place),
    ensures
        projection_map(projections).contains_key(projections[place].field@),
        projection_map(projections)[projections[place].field@] == projections[place].ptr,
    decreases projections.len(),
{
    let front = projections.drop_last();
    if place < front.len() {
        assert(projections[projections.len() - 1].field@ != projections[place].field@);
        assert forall|later: int| place < later < front.len() implies (
        #[trigger] front[later]).field@ != front[place].field@ by {
            assert(projections[later].field@ != projections[place].field@);
        }
        lemma_last_projection(front, place);
    }
}

proof fn lemma_projected_field(projections: Seq<Projection>, field: Seq<char>)
    requires
        projection_map(projections).contains_key(field),
    ensures
        exists|place: int|
            0 <= place < projections.len() && (#[trigger] projections[place]).field@ == field,
    decreases projections.len(),
{
    let front = projections.drop_last();
    if projections.last().field@ == field {
        assert(projections[projections.len() - 1].field@ == field);
    } else {
        lemma_projected_field(front, field);
        let place = choose|place: int|
            0 <= place < front.len() && (#[trigger] front[place]).field@ == field;
        assert(projections[place].field@ == field);
    }
}

/// What is remembered after the bindings were gone through: for the stream of the last binding
/// with a collection, that binding's place among all bindings, its normalizations and the value
/// of its collection's schema; for a stream without such a binding, what was remembered before;
/// and of no other stream anything.
pub proof fn law_bindings_are_remembered(
    before: Map<Seq<char>, SavedBinding>,
    after: Map<Seq<char>, SavedBinding>,
    bindings: Seq<ReadBinding>,
    stream: Seq<char>,
)
    requires
        saved_view(after) == saved_after(saved_view(before), bindings),
        all_readable(bindings),
    ensures
        forall|place: int|
            0 <= place < bindings.len() && captures(bindings[place], stream) && (forall|later: int|
                place < later < bindings.len() ==> !captures(#[trigger] bindings[later], stream))
                ==> after.contains_key(stream) && {
                let binding = #[trigger] bindings[place];
                let saved = after[stream];
                &&& saved.i == place
                &&& match (saved.normalizations, binding.normalizations) {
                    (Some(kept), Ok(Some(given))) => kept@ == given@,
                    (None, Ok(None)) => true,
                    _ => false,
                }
                &&& json_content(binding.collection->0.write_schema_json@) == Some(
                    saved.doc_schema@,
                )
            },
        (forall|place: int|
            0 <= place < bindings.len() ==> !captures(#[trigger] bindings[place], stream)) ==> {
            &&& after.contains_key(stream) <==> before.contains_key(stream)
            &&& before.contains_key(stream) ==> after[stream].i == before[stream].i
                && after[stream].doc_schema@ == before[stream].doc_schema@ && option_text(
                after[stream].normalizations,
            ) == option_text(before[stream].normalizations)
        },
{
    let saved = saved_view(before);
    assert(after.contains_key(stream) <==> saved_view(after).contains_key(stream));
    assert(before.contains_key(stream) <==> saved.contains_key(stream));
    if after.contains_key(stream) {
        assert(saved_view(after)[stream] == after[stream]@);
    }
    if before.contains_key(stream) {
        assert(saved[stream] == before[stream]@);
    }
    assert forall|place: int|
        0 <= place < bindings.len() && captures(bindings[place], stream) && (forall|later: int|
            place < later < bindings.len() ==> !captures(
                #[trigger] bindings[later],
                stream,
            )) implies after.contains_key(stream) && {
        let binding = #[trigger] bindings[place];
        let saved = after[stream];
        &&& saved.i == place
        &&& match (saved.normalizations, binding.normalizations) {
            (Some(kept), Ok(Some(given))) => kept@ == given@,
            (None, Ok(None)) => true,
            _ => false,
        }
        &&& json_content(binding.collection->0.write_schema_json@) == Some(saved.doc_schema@)
    } by {
        assert(bindings[place].readable());
        assert forall|later: int|
            place < later < bindings.len() && (#[trigger] bindings[later]).collection is Some implies
            bindings[later].stream() != bindings[place].stream() by {
            assert(bindings[later].readable());
            assert(!captures(bindings[later], stream));
        }
        law_last_binding_of_a_stream_is_remembered(saved, bindings, place);
    }
    if forall|place: int|
        0 <= place < bindings.len() ==> !captures(#[trigger] bindings[place], stream) {
        assert forall|place: int|
            0 <= place < bindings.len() && (#[trigger] bindings[place]).collection is Some implies
            bindings[place].stream() != stream by {
            assert(bindings[place].readable());
            assert(!captures(bindings[place], stream));
        }
        law_only_bound_streams_are_remembered(saved, bindings, stream);
        if saved.contains_key(stream) {
            law_unbound_streams_are_kept(saved, bindings, stream);
        }
    }
}

/// The binding captures the stream into a collection.
pub open spec fn captures(binding: ReadBinding, stream: Seq<char>) -> bool {
    binding.collection is Some && (binding.resource matches Ok(resource) && resource.stream@
        == stream)
}

/// A capture is refused exactly where a binding has a resource, normalizations or a schema that
/// cannot be read, and with the error of the first such binding, the resource's before that of
/// the normalizations.
pub proof fn law_unreadable_bindings_are_told(
    bindings: Seq<ReadBinding>,
    place: int,
    error: serde_json::Error,
)
    requires
        0 <= place < bindings.len(),
    ensures
        bindings[place].readable() <==> bindings[place].resource is Ok
            && bindings[place].normalizations is Ok && (
        bindings[place].collection matches Some(collection) ==> json_content(
            collection.write_schema_json@,
        ) is Some),
        all_readable(bindings) ==> bindings[place].readable(),
        is_first_unreadable(bindings, place) ==> !bindings[place].readable() && forall|earlier: int|
            0 <= earlier < place ==> (#[trigger] bindings[earlier]).readable(),
        bindings[place].fails_with(error) ==> !bindings[place].readable() && (
        bindings[place].resource matches Err(e) ==> error == e),
        bindings[place].fails_with(error) && bindings[place].resource is Ok ==> (
        bindings[place].normalizations matches Err(e) ==> error == e),
{
    if is_first_unreadable(bindings, place) {
        assert forall|earlier: int| 0 <= earlier < place implies (
        #[trigger] bindings[earlier]).readable() by {
            assert(bindings.take(place)[earlier] == bindings[earlier]);
        }
    }
}

/// A record of a remembered stream is handed out with its data as it came, member for member,
/// and with the binding that is remembered for its stream. Where that data is handed back as it
/// is, the document that is captured is the text of it, at the binding's place, and reads as
/// that data where a text can.
pub proof fn law_record_is_captured_as_it_came(
    saved: Map<Seq<char>, SavedBinding>,
    message: Message,
    record: Record,
    step: PullStep,
    document: JsonView,
    response: Response,
)
    requires
        is_pull_step(saved, Some(Ok(message)), step),
        message.state is None,
        message.record == Some(record),
        saved.contains_key(record.stream@),
    ensures
        step matches PullStep::Normalize { stream, binding, data } && {
            &&& stream@ == record.stream@
            &&& binding == saved[record.stream@]
            &&& data == record.data
            &&& data@ == record.data@
            &&& document == data@ && is_captured(binding, document, response) ==> {
                &&& response matches Response::Captured { binding: place, doc_json }
                &&& place == saved[record.stream@].i as u32
                &&& saved[record.stream@].i <= u32::MAX ==> place == saved[record.stream@].i
                &&& doc_json@ == json_text(record.data@)
                &&& reads_back(record.data@) ==> json_content(encode_utf8(doc_json@)) == Some(
                    record.data@,
                )
            }
        },
{
}

/// What a normalized document is captured as: its text, at its binding's place.
pub proof fn law_document_is_captured_as_it_is(
    binding: SavedBinding,
    document: JsonView,
    response: Response,
)
    requires
        is_captured(binding, document, response),
    ensures
        response matches Response::Captured { binding: place, doc_json } && {
            &&& place == binding.i as u32
            &&& binding.i <= u32::MAX ==> place == binding.i
            &&& doc_json@ == json_text(document)
            &&& reads_back(document) ==> json_content(encode_utf8(doc_json@)) == Some(document)
        },
{
}

/// A state is answered with its checkpoint: a state as a whole with its own text and flag, a
/// stream's state with the object of that one stream, to be merged, and any other with an empty
/// object, to be merged. Only a stream's state that cannot be read ends the capture.
pub proof fn law_state_is_answered_with_its_checkpoint(
    saved: Map<Seq<char>, SavedBinding>,
    message: Message,
    state: State,
    step: PullStep,
)
    requires
        is_pull_step(saved, Some(Ok(message)), step),
        message.state == Some(state),
    ensures
        state.data matches Some(data) ==> (step matches PullStep::Respond(
            Response::Checkpoint { updated_json, merge_patch },
        ) && updated_json@ == data@ && (merge_patch <==> state.merge == Some(true))),
        state.data is None && state.stream is None ==> (step matches PullStep::Respond(
            Response::Checkpoint { updated_json, merge_patch },
        ) && updated_json@ == "{}"@ && merge_patch),
        state.data is None ==> (state.stream matches Some(stream) ==> (
        stream.stream_state matches Some(raw) ==> match json_content(encode_utf8(raw@)) {
            Some(content) => step matches PullStep::Respond(
                Response::Checkpoint { updated_json, merge_patch },
            ) && merge_patch && updated_json@ == json_text(
                JsonView::Object(map![stream.stream_descriptor.name@ => content]),
            ),
            None => step matches PullStep::Fail(AtfError::Json(_)),
        })),
{
}

/// The end of the messages ends the capture, an error among them ends it with that error, a
/// record of a stream that is not remembered with the name of that stream, and a message that is
/// neither a state nor a record with an error of its own. Nothing else but an unreadable state
/// ends it, and only a record that is handed out changes what is remembered, by its own stream.
pub proof fn law_what_ends_a_capture(
    saved: Map<Seq<char>, SavedBinding>,
    next: Option<Result<Message, AtfError>>,
    step: PullStep,
)
    requires
        is_pull_step(saved, next, step),
    ensures
        next is None <==> step is Done,
        next matches Some(Err(e)) ==> step == PullStep::Fail(e),
        next matches Some(Ok(message)) ==> (message.state is None ==> match message.record {
            Some(record) => !saved.contains_key(record.stream@) ==> (step matches PullStep::Fail(
                AtfError::DanglingConnectorRecord(stream),
            ) && stream@ == record.stream@),
            None => step == PullStep::Fail(AtfError::InvalidPullResponse),
        }),
        phase_after(step) == PullPhase::Finished <==> step is Done || step is Fail,
        phase_after(step) != PullPhase::Finished ==> phase_after(step) == PullPhase::Streaming,
        step !is Normalize ==> left_after(saved, step) == saved,
        step matches PullStep::Normalize { stream, binding, data } ==> left_after(saved, step)
            == saved.remove(stream@),
{
}

/// The file with the normalizations of a stream stands among the files that patch streams.
pub proof fn law_normalize_file_is_known()
    ensures
        STREAM_NORMALIZE_SUFFIX@ == ".normalize.json"@,
        STREAM_PATCH_DIR_NAME@ == "streams"@,
{
}

} // verus!
