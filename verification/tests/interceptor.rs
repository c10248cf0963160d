use airbyte_to_flow::catalog::{
    ConnectionStatus, Message, MessageType, Record, ResourceSpec, State, Status, SyncMode,
};
use airbyte_to_flow::error::AtfError;
use airbyte_to_flow::interceptor::{
    AirbyteSourceInterceptor, Awaited, Operation, RequestPlan, ResponsePlan,
};
use airbyte_to_flow::json::{read_json, Json};
use airbyte_to_flow::protocol::{
    ApplyRequest, DiscoverRequest, KeyRange, Open, Projection, Request, Response, SpecRequest,
    ValidateBinding, ValidateRequest,
};
use airbyte_to_flow::pull::{
    check_catalog, normalize_file, open_pull, PullPhase, PullStep, ReadBinding, ReadCollection,
    SavedBinding,
};

fn interceptor() -> AirbyteSourceInterceptor {
    AirbyteSourceInterceptor::new("/var/tmp/atf-1".to_string())
}

fn json(text: &str) -> Json {
    read_json(text.as_bytes()).unwrap()
}

fn no_request() -> Request {
    Request { spec: None, discover: None, validate: None, apply: None, open: None }
}

fn full_request() -> Request {
    Request {
        spec: Some(SpecRequest {}),
        discover: Some(DiscoverRequest { config_json: b"{\"d\":1}".to_vec() }),
        validate: Some(ValidateRequest {
            config_json: b"{\"v\":1}".to_vec(),
            bindings: vec![ValidateBinding { resource_config_json: b"{}".to_vec() }],
        }),
        apply: Some(ApplyRequest {}),
        open: Some(Open { capture: None, range: None, state_json: b"{}".to_vec() }),
    }
}

fn operation_of(request: Request) -> Operation {
    interceptor().next_request_from_lines(Some(Ok(request)), "").unwrap().0
}

#[test]
fn operations_have_a_precedence() {
    let mut request = full_request();
    assert_eq!(operation_of(request), Operation::Spec);
    request = full_request();
    request.spec = None;
    assert_eq!(operation_of(request), Operation::Discover);
    request = full_request();
    request.spec = None;
    request.discover = None;
    assert_eq!(operation_of(request), Operation::Validate);
    request = full_request();
    request.spec = None;
    request.discover = None;
    request.validate = None;
    assert_eq!(operation_of(request), Operation::Apply);
    request = full_request();
    request.spec = None;
    request.discover = None;
    request.validate = None;
    request.apply = None;
    assert_eq!(operation_of(request), Operation::Capture);
}

#[test]
fn request_comes_back_with_its_operation() {
    let (_, request) =
        interceptor().next_request_from_lines(Some(Ok(full_request())), "").unwrap();
    assert_eq!(request.discover.unwrap().config_json, b"{\"d\":1}".to_vec());
}

#[test]
fn requests_without_an_operation_are_errors() {
    assert!(matches!(
        interceptor().next_request_from_lines(None, "x"),
        Err(AtfError::EmptyStream)
    ));
    assert!(matches!(
        interceptor().next_request_from_lines(Some(Ok(no_request())), "Request {}"),
        Err(AtfError::UnknownOperation(d)) if d == "Request {}"
    ));
    assert!(matches!(
        interceptor().next_request_from_lines(Some(Err(AtfError::InvalidPullResponse)), "x"),
        Err(AtfError::InvalidPullResponse)
    ));
}

#[test]
fn connectors_are_called_by_operation() {
    let mut i = interceptor();
    assert_eq!(i.adapt_command_args(&Operation::Spec), vec!["spec"]);
    assert_eq!(i.adapt_command_args(&Operation::Apply), vec!["spec"]);
    assert_eq!(
        i.adapt_command_args(&Operation::Discover),
        vec!["discover", "--config", "/var/tmp/atf-1/config.json"]
    );
    assert_eq!(
        i.adapt_command_args(&Operation::Validate),
        vec!["check", "--config", "/var/tmp/atf-1/config.json"]
    );
    assert_eq!(
        i.adapt_command_args(&Operation::Capture),
        vec![
            "read",
            "--config",
            "/var/tmp/atf-1/config.json",
            "--catalog",
            "/var/tmp/atf-1/catalog.json",
            "--state",
            "/var/tmp/atf-1/state.json"
        ]
    );
}

#[test]
fn paths_join_as_std_joins_them() {
    for dir in ["", "/", "a", "a/", "/x/y"] {
        let mut i = AirbyteSourceInterceptor::new(dir.to_string());
        let expected = std::path::Path::new(dir).join("config.json");
        assert_eq!(
            i.adapt_command_args(&Operation::Discover)[2],
            expected.to_str().unwrap()
        );
    }
}

#[test]
fn request_plans_say_what_is_written() {
    let mut i = interceptor();
    assert!(matches!(
        i.adapt_request_stream(&Operation::Spec, full_request()),
        Ok(RequestPlan::Ready)
    ));
    assert!(matches!(
        i.adapt_request_stream(&Operation::Apply, full_request()),
        Ok(RequestPlan::Ready)
    ));
    assert!(i.validate_request.is_none());
    match i.adapt_request_stream(&Operation::Discover, full_request()).unwrap() {
        RequestPlan::WriteConfig { config_file_path, config_json } => {
            assert_eq!(config_file_path, "/var/tmp/atf-1/config.json");
            assert_eq!(config_json, b"{\"d\":1}".to_vec());
        }
        _ => panic!("expected a configuration"),
    }
    assert!(i.validate_request.is_none());
    match i.adapt_request_stream(&Operation::Validate, full_request()).unwrap() {
        RequestPlan::WriteConfig { config_json, .. } => {
            assert_eq!(config_json, b"{\"v\":1}".to_vec());
        }
        _ => panic!("expected a configuration"),
    }
    assert_eq!(i.validate_request.as_ref().unwrap().bindings.len(), 1);
    match i.adapt_request_stream(&Operation::Capture, full_request()).unwrap() {
        RequestPlan::Configure { config_file_path, catalog_file_path, state_file_path, open } => {
            assert_eq!(config_file_path, "/var/tmp/atf-1/config.json");
            assert_eq!(catalog_file_path, "/var/tmp/atf-1/catalog.json");
            assert_eq!(state_file_path, "/var/tmp/atf-1/state.json");
            assert_eq!(open.state_json, b"{}".to_vec());
        }
        _ => panic!("expected a capture"),
    }
}

#[test]
fn connectors_are_called_with_the_files_that_are_written() {
    let mut i = interceptor();
    let args = i.adapt_command_args(&Operation::Capture);
    match i.adapt_request_stream(&Operation::Capture, full_request()).unwrap() {
        RequestPlan::Configure { config_file_path, catalog_file_path, state_file_path, .. } => {
            assert_eq!(args[2], config_file_path);
            assert_eq!(args[4], catalog_file_path);
            assert_eq!(args[6], state_file_path);
            assert_ne!(config_file_path, catalog_file_path);
            assert_ne!(config_file_path, state_file_path);
            assert_ne!(catalog_file_path, state_file_path);
        }
        _ => panic!("expected a capture"),
    }
}

#[test]
fn discovered_resources_are_validated_with_the_path_of_their_stream() {
    let stream = airbyte_to_flow::catalog::Stream {
        name: "My Stream".to_string(),
        namespace: Some("n".to_string()),
        json_schema: "{}".to_string(),
        supported_sync_modes: None,
        default_cursor_field: None,
        source_defined_cursor: None,
        source_defined_primary_key: None,
    };
    let plan = airbyte_to_flow::discover::StreamPlan {
        index: 0,
        recommended_name: "MyStream".to_string(),
        disable: false,
    };
    let planned = airbyte_to_flow::discover::discover_stream(stream, plan, vec![], None, None)
        .unwrap()
        .unwrap();
    let mut i = interceptor();
    i.adapt_request_stream(&Operation::Validate, full_request()).unwrap();
    let response =
        i.adapt_validate_response(status(Status::Succeeded, None), vec![Ok(planned.resource)]);
    assert!(matches!(
        response,
        Ok(Response::Validated { resource_paths }) if resource_paths == vec![vec!["n", "My Stream"]]
    ));
}

#[test]
fn response_plans_say_what_is_awaited() {
    let mut i = interceptor();
    let one = ResponsePlan::One;
    assert_eq!(i.adapt_response_stream(&Operation::Spec).unwrap(), one(Awaited::Spec));
    assert_eq!(i.adapt_response_stream(&Operation::Discover).unwrap(), one(Awaited::Catalog));
    assert_eq!(
        i.adapt_response_stream(&Operation::Validate).unwrap(),
        one(Awaited::ConnectionStatus)
    );
    assert_eq!(i.adapt_response_stream(&Operation::Apply).unwrap(), one(Awaited::Spec));
    assert_eq!(i.adapt_response_stream(&Operation::Capture).unwrap(), ResponsePlan::Pull);
    assert_eq!(Awaited::Spec.descriptor(), "spec");
    assert_eq!(Awaited::Catalog.descriptor(), "catalog");
    assert_eq!(Awaited::ConnectionStatus.descriptor(), "connection status");
}

fn resource(namespace: Option<&str>, stream: &str) -> ResourceSpec {
    ResourceSpec {
        stream: stream.to_string(),
        namespace: namespace.map(|n| n.to_string()),
        sync_mode: SyncMode::Incremental,
        cursor_field: Some(vec!["t".to_string()]),
    }
}

fn unreadable() -> serde_json::Error {
    serde_json::from_str::<u8>("x").unwrap_err()
}

fn status(status: Status, message: Option<&str>) -> ConnectionStatus {
    ConnectionStatus { status, message: message.map(|m| m.to_string()) }
}

#[test]
fn validation_is_answered_with_paths() {
    let mut i = interceptor();
    i.adapt_request_stream(&Operation::Validate, full_request()).unwrap();
    let response = i
        .adapt_validate_response(
            status(Status::Succeeded, None),
            vec![Ok(resource(Some("n"), "a")), Ok(resource(None, "b"))],
        )
        .unwrap();
    match response {
        Response::Validated { resource_paths } => {
            assert_eq!(resource_paths, vec![vec!["n", "a"], vec!["b"]]);
        }
        _ => panic!("expected a validation"),
    }
}

#[test]
fn failed_validations_are_errors() {
    let mut i = interceptor();
    assert!(matches!(
        i.adapt_validate_response(status(Status::Failed, Some("no route")), vec![]),
        Err(AtfError::ConnectionStatusUnsuccessful(m)) if m == "no route"
    ));
    assert!(matches!(
        i.adapt_validate_response(status(Status::Failed, None), vec![]),
        Err(AtfError::ConnectionStatusUnsuccessful(m)) if m.is_empty()
    ));
    assert!(matches!(
        i.adapt_validate_response(status(Status::Succeeded, None), vec![]),
        Err(AtfError::MissingValidateRequest)
    ));
    i.adapt_request_stream(&Operation::Validate, full_request()).unwrap();
    assert!(matches!(
        i.adapt_validate_response(
            status(Status::Succeeded, None),
            vec![Ok(resource(None, "a")), Err(unreadable())]
        ),
        Err(AtfError::Json(_))
    ));
}

fn collection(schema: &str, projections: &[(&str, &str)]) -> ReadCollection {
    ReadCollection {
        key: vec![vec!["id".to_string()]],
        projections: projections
            .iter()
            .map(|(field, ptr)| Projection { field: field.to_string(), ptr: ptr.to_string() })
            .collect(),
        write_schema_json: schema.as_bytes().to_vec(),
    }
}

fn binding(stream: &str, collection: Option<ReadCollection>) -> ReadBinding {
    ReadBinding {
        resource: Ok(resource(Some("n"), stream)),
        normalizations: Ok(Some("[]".to_string())),
        collection,
    }
}

#[test]
fn bindings_become_a_catalog() {
    let mut i = interceptor();
    let catalog = i
        .adapt_pull_request(
            Some(KeyRange { key_begin: 1, key_end: 9 }),
            vec![
                binding("a", None),
                binding("b", Some(collection(" {\"type\": \"object\"} ", &[("x", "/x"), ("x", "/y")]))),
            ],
        )
        .unwrap();
    let range = catalog.range.unwrap();
    assert_eq!((range.begin, range.end), (1, 9));
    assert_eq!(catalog.streams.len(), 1);
    let configured = &catalog.streams[0];
    assert_eq!(configured.stream.name, "b");
    assert_eq!(configured.stream.namespace.as_deref(), Some("n"));
    // The schema goes on letter by letter, without the white space around it.
    assert_eq!(configured.stream.json_schema, "{\"type\": \"object\"}");
    assert_eq!(configured.stream.supported_sync_modes, Some(vec![SyncMode::Incremental]));
    assert!(configured.stream.default_cursor_field.is_none());
    assert!(configured.stream.source_defined_cursor.is_none());
    assert!(configured.stream.source_defined_primary_key.is_none());
    assert_eq!(configured.sync_mode, SyncMode::Incremental);
    assert_eq!(configured.cursor_field, Some(vec!["t".to_string()]));
    assert_eq!(configured.primary_key, Some(vec![vec!["id".to_string()]]));
    assert_eq!(configured.projections.get("x").map(|p| p.as_str()), Some("/y"));
    // Places count all bindings.
    let saved = i.stream_to_binding.get("b").unwrap();
    assert_eq!(saved.i, 1);
    assert_eq!(saved.normalizations.as_deref(), Some("[]"));
    assert_eq!(saved.doc_schema, json("{\"type\":\"object\"}"));
    assert!(i.stream_to_binding.get("a").is_none());
}

#[test]
fn later_binding_of_a_stream_counts() {
    let mut i = interceptor();
    i.adapt_pull_request(
        None,
        vec![
            binding("s", Some(collection("1", &[]))),
            binding("s", Some(collection("2", &[]))),
            binding("s", None),
        ],
    )
    .unwrap();
    let saved = i.stream_to_binding.get("s").unwrap();
    assert_eq!(saved.i, 1);
    assert_eq!(saved.doc_schema, json("2"));
}

#[test]
fn unbound_streams_are_kept() {
    let mut i = interceptor();
    i.adapt_pull_request(None, vec![binding("a", Some(collection("1", &[])))]).unwrap();
    i.adapt_pull_request(
        None,
        vec![binding("a", None), binding("b", Some(collection("2", &[])))],
    )
    .unwrap();
    let saved = i.stream_to_binding.get("a").unwrap();
    assert_eq!(saved.i, 0);
    assert_eq!(saved.doc_schema, json("1"));
    assert_eq!(i.stream_to_binding.get("b").unwrap().i, 1);
}

#[test]
fn unreadable_bindings_are_errors() {
    let mut i = interceptor();
    let broken = ReadBinding {
        resource: Err(unreadable()),
        normalizations: Ok(None),
        collection: None,
    };
    assert!(matches!(
        i.adapt_pull_request(None, vec![binding("a", Some(collection("{}", &[]))), broken]),
        Err(AtfError::Json(_))
    ));
    // What came before it is remembered all the same.
    assert!(i.stream_to_binding.get("a").is_some());
    let broken = ReadBinding {
        resource: Ok(resource(None, "b")),
        normalizations: Err(unreadable()),
        collection: Some(collection("{}", &[])),
    };
    assert!(matches!(i.adapt_pull_request(None, vec![broken]), Err(AtfError::Json(_))));
    assert!(i.stream_to_binding.get("b").is_none());
    assert!(matches!(
        i.adapt_pull_request(None, vec![binding("c", Some(collection("{", &[])))]),
        Err(AtfError::Json(_))
    ));
    assert!(i.stream_to_binding.get("c").is_none());
}

#[test]
fn catalogs_are_checked() {
    let catalog = interceptor().adapt_pull_request(None, vec![]).unwrap();
    assert!(catalog.streams.is_empty() && catalog.range.is_none());
    assert!(matches!(
        check_catalog(catalog, Some("empty".to_string())),
        Err(AtfError::InvalidCatalog(v)) if v == "empty"
    ));
    let catalog = interceptor().adapt_pull_request(None, vec![]).unwrap();
    assert!(check_catalog(catalog, None).is_ok());
}

#[test]
fn normalizations_have_their_file() {
    assert_eq!(normalize_file("My Stream"), "streams/My Stream.normalize.json");
}

fn message(state: Option<State>, record: Option<Record>) -> Message {
    Message {
        message_type: MessageType::Record,
        connection_status: None,
        state,
        record,
        spec: None,
        catalog: None,
        log: None,
        trace: None,
    }
}

fn data_state(data: &str) -> State {
    State {
        state_type: None,
        data: Some(data.to_string()),
        merge: Some(true),
        stream: None,
        global: None,
    }
}

fn record(stream: &str) -> Record {
    Record { stream: stream.to_string(), data: json("{\"id\": 1}") }
}

#[test]
fn capture_is_opened_first() {
    let mut phase = PullPhase::Opening;
    assert!(matches!(open_pull(&mut phase), Response::Opened));
    assert_eq!(phase, PullPhase::Streaming);
}

#[test]
fn states_become_checkpoints() {
    let mut i = interceptor();
    let mut phase = PullPhase::Streaming;
    let next = Some(Ok(message(Some(data_state("{\"c\":1}")), Some(record("unknown")))));
    match i.adapt_pull_response(&mut phase, next) {
        PullStep::Respond(Response::Checkpoint { updated_json, merge_patch }) => {
            assert_eq!(updated_json, "{\"c\":1}");
            assert!(merge_patch);
        }
        _ => panic!("expected a checkpoint"),
    }
    assert_eq!(phase, PullPhase::Streaming);
}

#[test]
fn records_become_documents_of_their_binding() {
    let mut i = interceptor();
    i.adapt_pull_request(
        None,
        vec![binding("a", None), binding("b", Some(collection("{}", &[])))],
    )
    .unwrap();
    let mut phase = PullPhase::Streaming;
    for _ in 0..2 {
        let next = Some(Ok(message(None, Some(record("b")))));
        match i.adapt_pull_response(&mut phase, next) {
            PullStep::Normalize { stream, binding, data } => {
                assert_eq!(stream, "b");
                assert_eq!(binding.i, 1);
                assert_eq!(data, json("{\"id\":1}"));
                let binding = SavedBinding { doc_schema: json("{\"seen\":true}"), ..binding };
                match i.finish_record(stream, binding, data).unwrap() {
                    Response::Captured { binding, doc_json } => {
                        assert_eq!(binding, 1);
                        assert_eq!(doc_json, "{\"id\":1}");
                    }
                    _ => panic!("expected a document"),
                }
            }
            _ => panic!("expected a record"),
        }
        let saved = i.stream_to_binding.get("b").unwrap();
        assert_eq!(saved.doc_schema, json("{\"seen\":true}"));
        assert_eq!(saved.normalizations.as_deref(), Some("[]"));
    }
    assert_eq!(phase, PullPhase::Streaming);
}

#[test]
fn schemas_lose_the_white_space_around_them() {
    for (text, kept) in [
        (" \n\t\r{ \"a\" : 1 }\r\n", "{ \"a\" : 1 }"),
        ("3 ", "3"),
        ("\t\" x \"", "\" x \""),
        ("[ ]", "[ ]"),
    ] {
        let catalog = interceptor()
            .adapt_pull_request(None, vec![binding("s", Some(collection(text, &[])))])
            .unwrap();
        assert_eq!(catalog.streams[0].stream.json_schema, kept);
    }
}

#[test]
fn apply_is_answered() {
    assert!(matches!(interceptor().adapt_apply_response(), Response::Applied));
}

#[test]
fn whole_capture_answers_each_message() {
    let mut i = interceptor();
    i.adapt_pull_request(
        None,
        vec![
            binding("a", Some(collection("{}", &[]))),
            binding("b", Some(collection("{}", &[]))),
        ],
    )
    .unwrap();
    let mut phase = PullPhase::Opening;
    let mut responses = vec![open_pull(&mut phase)];
    let mut messages = vec![
        message(None, Some(record("b"))),
        message(Some(data_state("1")), None),
        message(None, Some(record("a"))),
        message(None, Some(record("b"))),
    ]
    .into_iter();
    while phase == PullPhase::Streaming {
        match i.adapt_pull_response(&mut phase, messages.next().map(Ok)) {
            PullStep::Respond(response) => responses.push(response),
            PullStep::Normalize { stream, binding, data } => {
                responses.push(i.finish_record(stream, binding, data).unwrap());
            }
            PullStep::Done => {}
            PullStep::Fail(_) => panic!("expected an answer"),
        }
    }
    assert_eq!(responses.len(), 5);
    assert!(matches!(responses[0], Response::Opened));
    assert!(matches!(responses[1], Response::Captured { binding: 1, .. }));
    assert!(matches!(responses[2], Response::Checkpoint { .. }));
    assert!(matches!(responses[3], Response::Captured { binding: 0, .. }));
    assert!(matches!(responses[4], Response::Captured { binding: 1, .. }));
    assert_eq!(i.stream_to_binding.get("a").unwrap().i, 0);
    assert_eq!(i.stream_to_binding.get("b").unwrap().i, 1);
}

#[test]
fn captures_end() {
    let mut i = interceptor();
    let mut phase = PullPhase::Streaming;
    assert!(matches!(i.adapt_pull_response(&mut phase, None), PullStep::Done));
    assert_eq!(phase, PullPhase::Finished);

    let mut phase = PullPhase::Streaming;
    let next = Some(Ok(message(None, Some(record("s")))));
    assert!(matches!(
        i.adapt_pull_response(&mut phase, next),
        PullStep::Fail(AtfError::DanglingConnectorRecord(s)) if s == "s"
    ));
    assert_eq!(phase, PullPhase::Finished);

    let mut phase = PullPhase::Streaming;
    assert!(matches!(
        i.adapt_pull_response(&mut phase, Some(Ok(message(None, None)))),
        PullStep::Fail(AtfError::InvalidPullResponse)
    ));
    assert_eq!(phase, PullPhase::Finished);

    let mut phase = PullPhase::Streaming;
    assert!(matches!(
        i.adapt_pull_response(&mut phase, Some(Err(AtfError::EmptyStream))),
        PullStep::Fail(AtfError::EmptyStream)
    ));
    assert_eq!(phase, PullPhase::Finished);

    let mut phase = PullPhase::Streaming;
    let broken = State {
        state_type: None,
        data: None,
        merge: None,
        stream: Some(airbyte_to_flow::catalog::StreamState {
            stream_descriptor: airbyte_to_flow::catalog::StreamDescriptor {
                name: "s".to_string(),
                namespace: None,
            },
            stream_state: Some("{".to_string()),
        }),
        global: None,
    };
    assert!(matches!(
        i.adapt_pull_response(&mut phase, Some(Ok(message(Some(broken), None)))),
        PullStep::Fail(AtfError::Json(_))
    ));
    assert_eq!(phase, PullPhase::Finished);
}
