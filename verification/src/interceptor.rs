//! Between whoever drives a capture and an Airbyte connector: which operation a request asks
//! for, how the connector is run for it, and what is awaited of the connector.

use crate::catalog::{ConnectionStatus, Message, ResourceSpec, Status, Stream};
use crate::discover::{is_resource, law_discovered_path_is_the_streams_path};
use crate::error::AtfError;
use crate::protocol::{Open, Request, Response, ValidateRequest};
use crate::pull::SavedBinding;
use crate::resource::{
    law_path_is_namespace_and_stream, resource_path, resource_spec_to_resource_path,
};
use crate::text::{option_text, texts};
use crate::text_map::TextMap;
use vstd::prelude::*;
use vstd::slice::slice_to_vec;

verus! {

pub const CONFIG_FILE_NAME: &'static str = "config.json";

pub const CATALOG_FILE_NAME: &'static str = "catalog.json";

pub const STATE_FILE_NAME: &'static str = "state.json";

/// What a request asks for.
#[derive(Debug, Clone, Copy, PartialEq, Eq, Structural)]
pub enum Operation {
    Spec,
    Discover,
    Validate,
    Apply,
    Capture,
}

/// The request has the part that the operation works on.
pub open spec fn has_part(request: Request, op: Operation) -> bool {
    match op {
        Operation::Spec => request.spec is Some,
        Operation::Discover => request.discover is Some,
        Operation::Validate => request.validate is Some,
        Operation::Apply => request.apply is Some,
        Operation::Capture => request.open is Some,
    }
}

/// Which of two parts of a request counts, where it has both: that of the lower rank.
pub open spec fn rank(op: Operation) -> int {
    match op {
        Operation::Spec => 0,
        Operation::Discover => 1,
        Operation::Validate => 2,
        Operation::Apply => 3,
        Operation::Capture => 4,
    }
}

/// The operation that a request asks for: the first, by rank, that it has a part for.
pub open spec fn asks_for(request: Request, op: Operation) -> bool {
    has_part(request, op) && forall|other: Operation| #[trigger]
        has_part(request, other) ==> rank(op) <= rank(other)
}

/// The request has a part for some operation.
pub open spec fn asks_for_any(request: Request) -> bool {
    exists|op: Operation| has_part(request, op)
}

/// A file in a directory: the name behind the directory, with a slash between them unless the
/// directory is empty or ends in one. A name that begins with a slash stands for itself.
pub open spec fn path_in(dir: Seq<char>, file_name: Seq<char>) -> Seq<char> {
    if file_name.len() > 0 && file_name[0] == '/' {
        file_name
    } else if dir.len() == 0 || dir.last() == '/' {
        dir + file_name
    } else {
        dir + "/"@ + file_name
    }
}

/// How a connector is called for an operation, with its files in `dir`.
pub open spec fn command_args(op: Operation, dir: Seq<char>) -> Seq<Seq<char>> {
    let config = path_in(dir, CONFIG_FILE_NAME@);
    match op {
        Operation::Spec => seq!["spec"@],
        Operation::Discover => seq!["discover"@, "--config"@, config],
        Operation::Validate => seq!["check"@, "--config"@, config],
        Operation::Apply => seq!["spec"@],
        Operation::Capture => seq![
            "read"@,
            "--config"@,
            config,
            "--catalog"@,
            path_in(dir, CATALOG_FILE_NAME@),
            "--state"@,
            path_in(dir, STATE_FILE_NAME@),
        ],
    }
}

/// What is to be done before the connector is run.
#[derive(Debug)]
pub enum RequestPlan {
    /// Nothing.
    Ready,
    /// The configuration is adapted and written to a file.
    WriteConfig { config_file_path: String, config_json: Vec<u8> },
    /// The state, the configuration and the catalog are written to their files.
    Configure {
        config_file_path: String,
        catalog_file_path: String,
        state_file_path: String,
        open: Open,
    },
}

/// The kind of message that an operation is answered from.
#[derive(Debug, Clone, Copy, PartialEq, Eq, Structural)]
pub enum Awaited {
    Spec,
    Catalog,
    ConnectionStatus,
}

impl Awaited {
    /// The message is of this kind.
    pub open spec fn met_by(self, message: Message) -> bool {
        match self {
            Awaited::Spec => message.spec is Some,
            Awaited::Catalog => message.catalog is Some,
            Awaited::ConnectionStatus => message.connection_status is Some,
        }
    }

    pub fn is_met_by(&self, message: &Message) -> (met: bool)
        ensures
            met == self.met_by(*message),
    {
        match self {
            Awaited::Spec => message.spec.is_some(),
            Awaited::Catalog => message.catalog.is_some(),
            Awaited::ConnectionStatus => message.connection_status.is_some(),
        }
    }

    /// What the kind is called where it is missed.
    pub open spec fn called(self) -> Seq<char> {
        match self {
            Awaited::Spec => "spec"@,
            Awaited::Catalog => "catalog"@,
            Awaited::ConnectionStatus => "connection status"@,
        }
    }

    pub fn descriptor(&self) -> (descriptor: &'static str)
        ensures
            descriptor@ == self.called(),
    {
        match self {
            Awaited::Spec => "spec",
            Awaited::Catalog => "catalog",
            Awaited::ConnectionStatus => "connection status",
        }
    }
}

/// How a connector is answered.
#[derive(Debug, Clone, Copy, PartialEq, Eq, Structural)]
pub enum ResponsePlan {
    /// From one message.
    One(Awaited),
    /// Message by message.
    Pull,
}

/// How a connector is answered in the course of an operation.
pub open spec fn response_plan(op: Operation) -> ResponsePlan {
    match op {
        Operation::Spec => ResponsePlan::One(Awaited::Spec),
        Operation::Discover => ResponsePlan::One(Awaited::Catalog),
        Operation::Validate => ResponsePlan::One(Awaited::ConnectionStatus),
        Operation::Apply => ResponsePlan::One(Awaited::Spec),
        Operation::Capture => ResponsePlan::Pull,
    }
}

/// What is remembered from one request to the next, and the directory for the connector's
/// files.
pub struct AirbyteSourceInterceptor {
    pub validate_request: Option<ValidateRequest>,
    pub stream_to_binding: TextMap<SavedBinding>,
    pub tmp_dir: String,
}

impl AirbyteSourceInterceptor {
    /// `tmp_dir` is the directory for the connector's files.
    pub fn new(tmp_dir: String) -> (interceptor: Self)
        ensures
            interceptor.validate_request is None,
            interceptor.stream_to_binding@ == Map::<Seq<char>, SavedBinding>::empty(),
            interceptor.tmp_dir == tmp_dir,
    {
        AirbyteSourceInterceptor {
            validate_request: None,
            stream_to_binding: TextMap::new(),
            tmp_dir,
        }
    }

    fn input_file_path(&self, file_name: &str) -> (path: String)
        ensures
            path@ == path_in(self.tmp_dir@, file_name@),
    {
        let dir = self.tmp_dir.as_str();
        if file_name.unicode_len() > 0 && file_name.get_char(0) == '/' {
            return file_name.to_owned();
        }
        let length = dir.unicode_len();
        if length == 0 || dir.get_char(length - 1) == '/' {
            dir.to_owned().concat(file_name)
        } else {
            dir.to_owned().concat("/").concat(file_name)
        }
    }

    /// Says which operation the next request asks for. `head` is that request, `None` at the
    /// end of the requests, and `description` describes it.
    pub fn next_request_from_lines(
        &mut self,
        head: Option<Result<Request, AtfError>>,
        description: &str,
    ) -> (next: Result<(Operation, Request), AtfError>)
        ensures
            *final(self) == *old(self),
            match head {
                Some(Ok(request)) => match next {
                    Ok((op, r)) => asks_for(request, op) && r == request,
                    Err(e) => !asks_for_any(request) && (e matches AtfError::UnknownOperation(d)
                        && d@ == description@),
                },
                Some(Err(e)) => next == Err::<(Operation, Request), AtfError>(e),
                None => next matches Err(AtfError::EmptyStream),
            },
    {
        let req = match head {
            Some(Ok(request)) => request,
            Some(Err(e)) => return Err(e),
            None => return Err(AtfError::EmptyStream),
        };
        assert(has_part(req, Operation::Spec) == req.spec is Some);
        assert(has_part(req, Operation::Discover) == req.discover is Some);
        assert(has_part(req, Operation::Validate) == req.validate is Some);
        assert(has_part(req, Operation::Apply) == req.apply is Some);
        assert(has_part(req, Operation::Capture) == req.open is Some);
        if req.spec.is_some() {
            Ok((Operation::Spec, req))
        } else if req.discover.is_some() {
            Ok((Operation::Discover, req))
        } else if req.validate.is_some() {
            Ok((Operation::Validate, req))
        } else if req.apply.is_some() {
            Ok((Operation::Apply, req))
        } else if req.open.is_some() {
            Ok((Operation::Capture, req))
        } else {
            Err(AtfError::UnknownOperation(description.to_owned()))
        }
    }

    /// How the connector is called for an operation.
    pub fn adapt_command_args(&mut self, op: &Operation) -> (args: Vec<String>)
        ensures
            *final(self) == *old(self),
            texts(args@) == command_args(*op, old(self).tmp_dir@),
    {
        let config_file_path = self.input_file_path(CONFIG_FILE_NAME);
        let mut args: Vec<String> = Vec::new();
        match op {
            Operation::Spec => {
                args.push("spec".to_owned());
            },
            Operation::Discover => {
                args.push("discover".to_owned());
                args.push("--config".to_owned());
                args.push(config_file_path);
            },
            Operation::Validate => {
                args.push("check".to_owned());
                args.push("--config".to_owned());
                args.push(config_file_path);
            },
            Operation::Apply => {
                args.push("spec".to_owned());
            },
            Operation::Capture => {
                args.push("read".to_owned());
                args.push("--config".to_owned());
                args.push(config_file_path);
                args.push("--catalog".to_owned());
                args.push(self.input_file_path(CATALOG_FILE_NAME));
                args.push("--state".to_owned());
                args.push(self.input_file_path(STATE_FILE_NAME));
            },
        }
        assert(texts(args@) =~= command_args(*op, self.tmp_dir@));
        args
    }

    /// Says what is to be done before the connector is run. A request to validate is
    /// remembered, since its bindings are answered for later.
    pub fn adapt_request_stream(&mut self, op: &Operation, first_request: Request) -> (plan: Result<
        RequestPlan,
        AtfError,
    >)
        requires
            has_part(first_request, *op),
        ensures
            final(self).tmp_dir == old(self).tmp_dir,
            final(self).stream_to_binding == old(self).stream_to_binding,
            final(self).validate_request == if *op == Operation::Validate {
                first_request.validate
            } else {
                old(self).validate_request
            },
            match *op {
                Operation::Spec => plan matches Ok(RequestPlan::Ready),
                Operation::Apply => plan matches Ok(RequestPlan::Ready),
                Operation::Discover => plan matches Ok(
                    RequestPlan::WriteConfig { config_file_path, config_json },
                ) && config_file_path@ == path_in(old(self).tmp_dir@, CONFIG_FILE_NAME@)
                    && config_json@ == first_request.discover->0.config_json@,
                Operation::Validate => plan matches Ok(
                    RequestPlan::WriteConfig { config_file_path, config_json },
                ) && config_file_path@ == path_in(old(self).tmp_dir@, CONFIG_FILE_NAME@)
                    && config_json@ == first_request.validate->0.config_json@,
                Operation::Capture => plan matches Ok(
                    RequestPlan::Configure {
                        config_file_path,
                        catalog_file_path,
                        state_file_path,
                        open,
                    },
                ) && config_file_path@ == path_in(old(self).tmp_dir@, CONFIG_FILE_NAME@)
                    && catalog_file_path@ == path_in(old(self).tmp_dir@, CATALOG_FILE_NAME@)
                    && state_file_path@ == path_in(old(self).tmp_dir@, STATE_FILE_NAME@) && open
                    == first_request.open->0,
            },
    {
        let config_file_path = self.input_file_path(CONFIG_FILE_NAME);
        match op {
            Operation::Spec => Ok(RequestPlan::Ready),
            Operation::Discover => {
                let request = first_request.discover.unwrap();
                Ok(RequestPlan::WriteConfig { config_file_path, config_json: request.config_json })
            },
            Operation::Validate => {
                let request = first_request.validate.unwrap();
                let config_json = slice_to_vec(request.config_json.as_slice());
                self.validate_request = Some(request);
                Ok(RequestPlan::WriteConfig { config_file_path, config_json })
            },
            Operation::Apply => Ok(RequestPlan::Ready),
            Operation::Capture => {
                let open = first_request.open.unwrap();
                Ok(
                    RequestPlan::Configure {
                        config_file_path,
                        catalog_file_path: self.input_file_path(CATALOG_FILE_NAME),
                        state_file_path: self.input_file_path(STATE_FILE_NAME),
                        open,
                    },
                )
            },
        }
    }

    /// Says how the connector is answered.
    pub fn adapt_response_stream(&mut self, op: &Operation) -> (plan: Result<
        ResponsePlan,
        AtfError,
    >)
        ensures
            *final(self) == *old(self),
            plan == Ok::<ResponsePlan, AtfError>(response_plan(*op)),
    {
        match op {
            Operation::Spec => Ok(ResponsePlan::One(Awaited::Spec)),
            Operation::Discover => Ok(ResponsePlan::One(Awaited::Catalog)),
            Operation::Validate => Ok(ResponsePlan::One(Awaited::ConnectionStatus)),
            Operation::Apply => Ok(ResponsePlan::One(Awaited::Spec)),
            Operation::Capture => Ok(ResponsePlan::Pull),
        }
    }

    /// Answers a request to prepare for a capture: nothing needs to be done for it.
    pub fn adapt_apply_response(&self) -> (response: Response)
        ensures
            response == Response::Applied,
    {
        Response::Applied
    }

    /// Answers a request to validate. `resources` is what the bindings of the remembered
    /// request say, in their order, each as far as it could be read.
    pub fn adapt_validate_response(
        &self,
        connection_status: ConnectionStatus,
        resources: Vec<Result<ResourceSpec, serde_json::Error>>,
    ) -> (response: Result<Response, AtfError>)
        ensures
            if connection_status.status != Status::Succeeded {
                response matches Err(AtfError::ConnectionStatusUnsuccessful(m)) && m@ == (
                match connection_status.message {
                    Some(message) => message@,
                    None => Seq::empty(),
                })
            } else if self.validate_request is None {
                response matches Err(AtfError::MissingValidateRequest)
            } else {
                match response {
                    Ok(r) => r matches Response::Validated { resource_paths }
                        && are_paths_of(resource_paths@, resources@),
                    Err(e) => e matches AtfError::Json(j) && is_first_error(resources@, j),
                }
            },
    {
        if connection_status.status != Status::Succeeded {
            let message = match connection_status.message {
                Some(message) => message,
                None => String::new(),
            };
            return Err(AtfError::ConnectionStatusUnsuccessful(message));
        }
        if self.validate_request.is_none() {
            return Err(AtfError::MissingValidateRequest);
        }
        let mut resource_paths: Vec<Vec<String>> = Vec::new();
        for resource in it: resources
            invariant
                connection_status.status == Status::Succeeded,
                self.validate_request is Some,
                it.seq() == resources@,
                are_paths_of(resource_paths@, resources@.take(it.index())),
        {
            assert(resources@[it.index()] == resource);
            match resource {
                Ok(res) => {
                    let path = resource_spec_to_resource_path(&res);
                    resource_paths.push(path);
                },
                Err(e) => {
                    assert forall|k: int| 0 <= k < it.index() implies (
                    #[trigger] resources@[k]) is Ok by {
                        assert(resources@.take(it.index())[k] is Ok);
                    }
                    return Err(AtfError::Json(e));
                },
            }
        }
        assert(resources@.take(resources@.len() as int) =~= resources@);
        Ok(Response::Validated { resource_paths })
    }
}

/// All resources could be read, and these are their paths.
pub open spec fn are_paths_of(
    paths: Seq<Vec<String>>,
    resources: Seq<Result<ResourceSpec, serde_json::Error>>,
) -> bool {
    &&& paths.len() == resources.len()
    &&& forall|i: int|
        0 <= i < resources.len() ==> (#[trigger] resources[i] matches Ok(resource) && texts(
            paths[i]@,
        ) == resource_path(option_text(resource.namespace), resource.stream@))
}

/// `error` is that of the first resource that could not be read.
pub open spec fn is_first_error(
    resources: Seq<Result<ResourceSpec, serde_json::Error>>,
    error: serde_json::Error,
) -> bool {
    exists|i: int|
        0 <= i < resources.len() && (#[trigger] resources[i]) == Err::<
            ResourceSpec,
            serde_json::Error,
        >(error) && forall|k: int| 0 <= k < i ==> (#[trigger] resources[k]) is Ok
}

/// A request that has any part asks for exactly one operation, and has the part that this
/// operation works on.
pub proof fn law_request_asks_for_one_operation(request: Request)
    requires
        asks_for_any(request),
    ensures
        exists|op: Operation| #[trigger] asks_for(request, op),
        forall|op: Operation, other: Operation| #[trigger]
            asks_for(request, op) && #[trigger] asks_for(request, other) ==> op == other,
        forall|op: Operation| #[trigger] asks_for(request, op) ==> has_part(request, op),
{
    assert forall|op: Operation, other: Operation| #[trigger]
        asks_for(request, op) && #[trigger] asks_for(request, other) implies op == other by {
        assert(has_part(request, op) && has_part(request, other));
        assert(rank(op) == rank(other));
    }
    if has_part(request, Operation::Spec) {
        assert(asks_for(request, Operation::Spec));
    } else if has_part(request, Operation::Discover) {
        assert(asks_for(request, Operation::Discover));
    } else if has_part(request, Operation::Validate) {
        assert(asks_for(request, Operation::Validate));
    } else if has_part(request, Operation::Apply) {
        assert(asks_for(request, Operation::Apply));
    } else {
        assert(asks_for(request, Operation::Capture));
    }
}

/// Preparing for a capture runs the connector as if it were asked what it says of itself, and
/// awaits the same message.
pub proof fn law_apply_runs_as_spec(dir: Seq<char>)
    ensures
        command_args(Operation::Apply, dir) == command_args(Operation::Spec, dir),
        response_plan(Operation::Apply) == response_plan(Operation::Spec),
{
}

/// A connector that reads files is called with the paths that these are written to: that of
/// its configuration behind `--config`, and for a capture those of its catalog behind
/// `--catalog` and of its state behind `--state`.
pub proof fn law_connector_is_called_with_its_files(dir: Seq<char>)
    ensures
        forall|op: Operation|
            op == Operation::Discover || op == Operation::Validate || op == Operation::Capture ==> (
            #[trigger] command_args(op, dir))[1] == "--config"@ && command_args(op, dir)[2]
                == path_in(dir, CONFIG_FILE_NAME@),
        command_args(Operation::Capture, dir)[3] == "--catalog"@,
        command_args(Operation::Capture, dir)[4] == path_in(dir, CATALOG_FILE_NAME@),
        command_args(Operation::Capture, dir)[5] == "--state"@,
        command_args(Operation::Capture, dir)[6] == path_in(dir, STATE_FILE_NAME@),
{
}

/// The configuration, the catalog and the state of a connector are different files.
pub proof fn law_files_are_different(dir: Seq<char>)
    ensures
        path_in(dir, CONFIG_FILE_NAME@) != path_in(dir, CATALOG_FILE_NAME@),
        path_in(dir, CONFIG_FILE_NAME@) != path_in(dir, STATE_FILE_NAME@),
        path_in(dir, CATALOG_FILE_NAME@) != path_in(dir, STATE_FILE_NAME@),
{
    reveal_strlit("config.json");
    reveal_strlit("catalog.json");
    reveal_strlit("state.json");
    reveal_strlit("/");
    let config = path_in(dir, CONFIG_FILE_NAME@);
    let catalog = path_in(dir, CATALOG_FILE_NAME@);
    let state = path_in(dir, STATE_FILE_NAME@);
    assert(config.len() != catalog.len());
    assert(config.len() != state.len());
    assert(catalog.len() != state.len());
}

/// Validation gives a binding that discovery offered the path of the stream that it was
/// offered for.
pub proof fn law_validated_paths_are_discovered_paths(
    paths: Seq<Vec<String>>,
    resources: Seq<Result<ResourceSpec, serde_json::Error>>,
    stream: Stream,
    key: Seq<Seq<char>>,
    i: int,
)
    requires
        are_paths_of(paths, resources),
        0 <= i < resources.len(),
        is_resource(resources[i]->Ok_0, stream, key),
    ensures
        texts(paths[i]@) == resource_path(option_text(stream.namespace), stream.name@),
{
    assert(resources[i] is Ok);
    law_discovered_path_is_the_streams_path(resources[i]->Ok_0, stream, key);
}

/// A request asks for its spec part, where it has one; else for its discover part, else for its
/// validate part, else for its apply part, else for its open part; and for nothing where it has
/// none of them.
pub proof fn law_first_part_of_a_request_counts(request: Request)
    ensures
        asks_for(request, Operation::Spec) <==> request.spec is Some,
        asks_for(request, Operation::Discover) <==> request.spec is None
            && request.discover is Some,
        asks_for(request, Operation::Validate) <==> request.spec is None && request.discover is None
            && request.validate is Some,
        asks_for(request, Operation::Apply) <==> request.spec is None && request.discover is None
            && request.validate is None && request.apply is Some,
        asks_for(request, Operation::Capture) <==> request.spec is None && request.discover is None
            && request.validate is None && request.apply is None && request.open is Some,
        asks_for_any(request) <==> request.spec is Some || request.discover is Some
            || request.validate is Some || request.apply is Some || request.open is Some,
        has_part(request, Operation::Spec) <==> request.spec is Some,
        has_part(request, Operation::Discover) <==> request.discover is Some,
        has_part(request, Operation::Validate) <==> request.validate is Some,
        has_part(request, Operation::Apply) <==> request.apply is Some,
        has_part(request, Operation::Capture) <==> request.open is Some,
{
    assert(has_part(request, Operation::Spec) == request.spec is Some);
    assert(has_part(request, Operation::Discover) == request.discover is Some);
    assert(has_part(request, Operation::Validate) == request.validate is Some);
    assert(has_part(request, Operation::Apply) == request.apply is Some);
    assert(has_part(request, Operation::Capture) == request.open is Some);
}

/// The files of a connector stand in its directory, under their names.
pub proof fn law_files_stand_in_the_directory(dir: Seq<char>)
    ensures
        dir.len() > 0 && dir.last() != '/' ==> {
            &&& path_in(dir, CONFIG_FILE_NAME@) == dir + "/"@ + "config.json"@
            &&& path_in(dir, CATALOG_FILE_NAME@) == dir + "/"@ + "catalog.json"@
            &&& path_in(dir, STATE_FILE_NAME@) == dir + "/"@ + "state.json"@
        },
        dir.len() == 0 || dir.last() == '/' ==> {
            &&& path_in(dir, CONFIG_FILE_NAME@) == dir + "config.json"@
            &&& path_in(dir, CATALOG_FILE_NAME@) == dir + "catalog.json"@
            &&& path_in(dir, STATE_FILE_NAME@) == dir + "state.json"@
        },
{
    reveal_strlit("config.json");
    reveal_strlit("catalog.json");
    reveal_strlit("state.json");
}

/// How a connector is called: by the word for the operation, and where it reads files with the
/// path of each behind its option.
pub proof fn law_connector_is_called_by_operation(
    op: Operation,
    dir: Seq<char>,
    args: Seq<String>,
)
    requires
        texts(args) == command_args(op, dir),
    ensures
        op == Operation::Spec || op == Operation::Apply ==> args.len() == 1 && args[0]@ == "spec"@,
        op == Operation::Discover ==> args.len() == 3 && args[0]@ == "discover"@,
        op == Operation::Validate ==> args.len() == 3 && args[0]@ == "check"@,
        op == Operation::Capture ==> args.len() == 7 && args[0]@ == "read"@,
        op == Operation::Discover || op == Operation::Validate || op == Operation::Capture
            ==> args[1]@ == "--config"@ && args[2]@ == path_in(dir, CONFIG_FILE_NAME@),
        op == Operation::Capture ==> args[3]@ == "--catalog"@ && args[4]@ == path_in(
            dir,
            CATALOG_FILE_NAME@,
        ) && args[5]@ == "--state"@ && args[6]@ == path_in(dir, STATE_FILE_NAME@),
{
    assert(texts(args).len() == args.len());
    assert forall|i: int| 0 <= i < args.len() implies (#[trigger] args[i])@ == texts(args)[i] by {}
}

/// What an operation is answered from: a spec for what the connector says of itself and for
/// preparing a capture, a catalog for discovery, a connection status for validation, and message
/// by message for a capture. Where it is missed, it is called by its name.
pub proof fn law_operations_await_their_message(message: Message)
    ensures
        response_plan(Operation::Capture) == ResponsePlan::Pull,
        response_plan(Operation::Spec) matches ResponsePlan::One(awaited) && awaited.called()
            == "spec"@ && (awaited.met_by(message) <==> message.spec is Some),
        response_plan(Operation::Apply) matches ResponsePlan::One(awaited) && awaited.called()
            == "spec"@ && (awaited.met_by(message) <==> message.spec is Some),
        response_plan(Operation::Discover) matches ResponsePlan::One(awaited) && awaited.called()
            == "catalog"@ && (awaited.met_by(message) <==> message.catalog is Some),
        response_plan(Operation::Validate) matches ResponsePlan::One(awaited) && awaited.called()
            == "connection status"@ && (awaited.met_by(message)
            <==> message.connection_status is Some),
{
}

/// A validation gives each binding one path, in the order of the bindings: the name of its
/// stream, behind its namespace where it has one.
pub proof fn law_every_binding_is_given_its_path(
    paths: Seq<Vec<String>>,
    resources: Seq<Result<ResourceSpec, serde_json::Error>>,
    i: int,
)
    requires
        are_paths_of(paths, resources),
        0 <= i < resources.len(),
    ensures
        paths.len() == resources.len(),
        resources[i] matches Ok(resource) && {
            &&& paths[i]@.len() == if resource.namespace is Some {
                2int
            } else {
                1int
            }
            &&& paths[i]@.last()@ == resource.stream@
            &&& resource.namespace matches Some(namespace) ==> paths[i]@[0]@ == namespace@
        },
{
    assert(resources[i] is Ok);
    law_path_is_namespace_and_stream(resources[i]->Ok_0, paths[i]);
}

/// A validation is refused with the error of the first resource that could not be read, and all
/// those before it could be.
pub proof fn law_first_unreadable_resource_is_told(
    resources: Seq<Result<ResourceSpec, serde_json::Error>>,
    error: serde_json::Error,
)
    requires
        is_first_error(resources, error),
    ensures
        exists|i: int|
            {
                &&& 0 <= i < resources.len()
                &&& #[trigger] resources[i] matches Err(e)
                &&& e == error
                &&& forall|earlier: int| 0 <= earlier < i ==> (#[trigger] resources[earlier]) is Ok
            },
{
    let i = choose|i: int|
        0 <= i < resources.len() && (#[trigger] resources[i]) == Err::<
            ResourceSpec,
            serde_json::Error,
        >(error) && forall|k: int| 0 <= k < i ==> (#[trigger] resources[k]) is Ok;
    assert(resources[i] matches Err(e) && e == error);
}

} // verus!
