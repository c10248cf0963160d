//! The messages of a connector as they come in, one after the other.

use crate::catalog::{Log, LogLevel, Message, MessageType};
use crate::error::AtfError;
use crate::text::concat3;
use vstd::prelude::*;

verus! {

/// The text that is logged for a line that is no message.
pub open spec fn parse_complaint(error: Seq<char>, line: Seq<char>) -> Seq<char> {
    "Encountered error while trying to parse ATF Message: "@ + error + " in line "@ + line
}

/// `message` carries a log entry and nothing else.
pub open spec fn is_log_message(message: Message, level: LogLevel, text: Seq<char>) -> bool {
    &&& message.message_type == MessageType::Log
    &&& message.log matches Some(log) && log.level == level && log.message@ == text
    &&& message.connection_status is None
    &&& message.state is None
    &&& message.record is None
    &&& message.spec is None
    &&& message.catalog is None
    &&& message.trace is None
}

/// The message that a line gives: what was parsed, and where that failed a log entry that
/// says so. `line` describes the line, and an error that came up describes itself.
///
/// Whether a connector may write plain text between its messages is not settled, so a line
/// that is no message is no reason to fail.
pub fn message_of_line(parsed: Result<Message, String>, line: &str) -> (message: Message)
    ensures
        match parsed {
            Ok(m) => message == m,
            Err(error) => is_log_message(
                message,
                LogLevel::Debug,
                parse_complaint(error@, line@),
            ),
        },
{
    match parsed {
        Ok(message) => message,
        Err(error) => {
            let complaint = concat3(
                "Encountered error while trying to parse ATF Message: ",
                error.as_str(),
                " in line ",
            ).concat(line);
            Message {
                message_type: MessageType::Log,
                connection_status: None,
                state: None,
                record: None,
                spec: None,
                catalog: None,
                log: Some(Log { level: LogLevel::Debug, message: complaint }),
                trace: None,
            }
        },
    }
}

/// What becomes of a message.
#[derive(Debug)]
pub enum ResponseStep {
    /// The entry is logged, and the message goes no further.
    Log(Log),
    /// The trace is logged, and the message goes no further.
    Trace(String),
    /// The message goes on.
    Yield(Message),
    /// The message breaks a rule. Whoever reads the messages stops here.
    Fail(AtfError),
}

/// What becomes of a message: where it breaks a rule, `violation` says which.
pub open spec fn is_response_step(
    message: Message,
    violation: Option<String>,
    step: ResponseStep,
) -> bool {
    match violation {
        Some(v) => step matches ResponseStep::Fail(AtfError::InvalidMessage(m)) && m@
            == "error in validating message "@ + v@,
        None => match message.log {
            Some(log) => step == ResponseStep::Log(log),
            None => match message.trace {
                Some(trace) => step == ResponseStep::Trace(trace),
                None => step == ResponseStep::Yield(message),
            },
        },
    }
}

/// Decides what becomes of a message. Log entries and traces are taken out, so that nothing
/// else has to deal with them.
pub fn airbyte_response(message: Message, violation: Option<String>) -> (step: ResponseStep)
    ensures
        is_response_step(message, violation, step),
{
    if let Some(v) = violation {
        return ResponseStep::Fail(
            AtfError::InvalidMessage("error in validating message ".to_owned().concat(v.as_str())),
        );
    }
    if message.log.is_some() {
        match message.log {
            Some(log) => ResponseStep::Log(log),
            None => ResponseStep::Yield(message),
        }
    } else if message.trace.is_some() {
        match message.trace {
            Some(trace) => ResponseStep::Trace(trace),
            None => ResponseStep::Yield(message),
        }
    } else {
        ResponseStep::Yield(message)
    }
}

/// How far the search for a message has come.
#[derive(Debug)]
pub enum SearchStep {
    /// This is the message.
    Found(Message),
    /// The message is of another kind and is ignored; the next one is to be looked at.
    Ignored,
    /// There is no such message.
    Failed(AtfError),
}

/// What the next message, or the end of the messages, means for a search.
pub open spec fn is_search_step(
    next: Option<Result<Message, AtfError>>,
    any_ignored: bool,
    wanted: spec_fn(Message) -> bool,
    descriptor: &'static str,
    step: SearchStep,
) -> bool {
    match next {
        Some(Ok(message)) => step == if wanted(message) {
            SearchStep::Found(message)
        } else {
            SearchStep::Ignored
        },
        Some(Err(e)) => step == SearchStep::Failed(e),
        None => step == SearchStep::Failed(
            if any_ignored {
                AtfError::MessageNotFound(descriptor)
            } else {
                AtfError::EmptyStream
            },
        ),
    }
}

/// Looks for a message that meets the predicate, ignoring messages of other kinds: says what
/// the next message means for the search. `next` is `None` at the end of the messages, and
/// `any_ignored` says whether a message was ignored before it.
pub fn get_airbyte_response<F: Fn(&Message) -> bool>(
    next: Option<Result<Message, AtfError>>,
    any_ignored: bool,
    predicate: &F,
    descriptor: &'static str,
) -> (step: SearchStep)
    requires
        forall|message: &Message| call_requires(*predicate, (message,)),
    ensures
        match next {
            Some(Ok(message)) => exists|found: bool| #[trigger]
                call_ensures(*predicate, (&message,), found) && step == if found {
                    SearchStep::Found(message)
                } else {
                    SearchStep::Ignored
                },
            Some(Err(e)) => step == SearchStep::Failed(e),
            None => step == SearchStep::Failed(
                if any_ignored {
                    AtfError::MessageNotFound(descriptor)
                } else {
                    AtfError::EmptyStream
                },
            ),
        },
        forall|wanted: spec_fn(Message) -> bool|
            (forall|message: &Message, found: bool| #[trigger]
                call_ensures(*predicate, (message,), found) ==> found == wanted(*message))
                ==> #[trigger] is_search_step(next, any_ignored, wanted, descriptor, step),
{
    match next {
        Some(Ok(message)) => {
            let found = predicate(&message);
            assert(call_ensures(*predicate, (&message,), found));
            if found {
                SearchStep::Found(message)
            } else {
                SearchStep::Ignored
            }
        },
        Some(Err(e)) => SearchStep::Failed(e),
        None => SearchStep::Failed(
            if any_ignored {
                AtfError::MessageNotFound(descriptor)
            } else {
                AtfError::EmptyStream
            },
        ),
    }
}

/// The line that holds a message for this side of the connector: the first of the lines,
/// as `head` gives it. `expected` says what was expected of it.
pub fn get_decoded_message(
    head: Option<Result<Vec<u8>, AtfError>>,
    expected: &'static str,
) -> (line: Result<Vec<u8>, AtfError>)
    ensures
        line == match head {
            Some(line) => line,
            None => Err(AtfError::MessageNotFound(expected)),
        },
{
    match head {
        Some(line) => line,
        None => Err(AtfError::MessageNotFound(expected)),
    }
}

/// A line that is no message is ignored: it is logged for debugging, and nothing goes on.
pub proof fn law_plain_text_is_ignored(
    error: Seq<char>,
    line: Seq<char>,
    message: Message,
    step: ResponseStep,
)
    requires
        is_log_message(message, LogLevel::Debug, parse_complaint(error, line)),
        is_response_step(message, None, step),
    ensures
        step matches ResponseStep::Log(log) && log.level == LogLevel::Debug && log.message@
            == parse_complaint(error, line),
{
}

/// What goes on carries neither a log entry nor a trace, and is the message as it came.
pub proof fn law_logs_and_traces_go_no_further(
    message: Message,
    violation: Option<String>,
    step: ResponseStep,
)
    requires
        is_response_step(message, violation, step),
    ensures
        step matches ResponseStep::Yield(yielded) ==> yielded == message && message.log is None
            && message.trace is None && violation is None,
        violation is None && message.log is None && message.trace is None ==> step
            == ResponseStep::Yield(message),
{
}

/// What a search among messages comes to, once some were ignored or none.
pub open spec fn search_outcome(
    messages: Seq<Result<Message, AtfError>>,
    any_ignored: bool,
    wanted: spec_fn(Message) -> bool,
    descriptor: &'static str,
) -> Result<Message, AtfError>
    decreases messages.len(),
{
    if messages.len() == 0 {
        if any_ignored {
            Err(AtfError::MessageNotFound(descriptor))
        } else {
            Err(AtfError::EmptyStream)
        }
    } else {
        match messages[0] {
            Ok(message) => if wanted(message) {
                Ok(message)
            } else {
                search_outcome(messages.drop_first(), true, wanted, descriptor)
            },
            Err(e) => Err(e),
        }
    }
}

/// A search finds the first message that is wanted, and ignores those before it.
pub proof fn law_first_wanted_message_is_found(
    messages: Seq<Result<Message, AtfError>>,
    any_ignored: bool,
    wanted: spec_fn(Message) -> bool,
    descriptor: &'static str,
    place: int,
)
    requires
        0 <= place < messages.len(),
        messages[place] matches Ok(message) && wanted(message),
        forall|i: int|
            0 <= i < place ==> (#[trigger] messages[i] matches Ok(message) && !wanted(message)),
    ensures
        search_outcome(messages, any_ignored, wanted, descriptor) == messages[place],
    decreases messages.len(),
{
    if place > 0 {
        assert(messages[0] is Ok);
        let rest = messages.drop_first();
        assert forall|i: int| 0 <= i < place - 1 implies (#[trigger] rest[i] matches Ok(message)
            && !wanted(message)) by {
            assert(rest[i] == messages[i + 1]);
        }
        law_first_wanted_message_is_found(rest, true, wanted, descriptor, place - 1);
    }
}

/// A search among messages of which none is wanted finds nothing, and tells the case in which
/// there was no message at all from the other.
pub proof fn law_search_without_wanted_message_fails(
    messages: Seq<Result<Message, AtfError>>,
    any_ignored: bool,
    wanted: spec_fn(Message) -> bool,
    descriptor: &'static str,
)
    requires
        forall|i: int|
            0 <= i < messages.len() ==> (#[trigger] messages[i] matches Ok(message) && !wanted(
                message,
            )),
    ensures
        search_outcome(messages, any_ignored, wanted, descriptor) == Err::<Message, AtfError>(
            if any_ignored || messages.len() > 0 {
                AtfError::MessageNotFound(descriptor)
            } else {
                AtfError::EmptyStream
            },
        ),
    decreases messages.len(),
{
    if messages.len() > 0 {
        assert(messages[0] is Ok);
        let rest = messages.drop_first();
        assert forall|i: int| 0 <= i < rest.len() implies (#[trigger] rest[i] matches Ok(message)
            && !wanted(message)) by {
            assert(rest[i] == messages[i + 1]);
        }
        law_search_without_wanted_message_fails(rest, true, wanted, descriptor);
    }
}

/// A step of a search agrees with what the search among the messages from there on comes to:
/// a step that finds or fails gives the outcome, and one that ignores leaves it to the rest.
pub proof fn law_step_of_search(
    messages: Seq<Result<Message, AtfError>>,
    any_ignored: bool,
    wanted: spec_fn(Message) -> bool,
    descriptor: &'static str,
    step: SearchStep,
)
    requires
        is_search_step(
            if messages.len() == 0 {
                None
            } else {
                Some(messages[0])
            },
            any_ignored,
            wanted,
            descriptor,
            step,
        ),
    ensures
        search_outcome(messages, any_ignored, wanted, descriptor) == match step {
            SearchStep::Found(message) => Ok(message),
            SearchStep::Ignored => search_outcome(messages.drop_first(), true, wanted, descriptor),
            SearchStep::Failed(e) => Err(e),
        },
        step is Ignored ==> messages.len() > 0,
{
}

/// The log entry for a line that is no message tells the error and the line, for debugging, and
/// the message carries nothing else.
pub proof fn law_complaint_tells_error_and_line(
    error: Seq<char>,
    line: Seq<char>,
    message: Message,
)
    requires
        is_log_message(message, LogLevel::Debug, parse_complaint(error, line)),
    ensures
        message.message_type == MessageType::Log,
        message.log matches Some(log) && log.level == LogLevel::Debug && log.message@
            == "Encountered error while trying to parse ATF Message: "@ + error + " in line "@
            + line,
        message.connection_status is None,
        message.state is None,
        message.record is None,
        message.spec is None,
        message.catalog is None,
        message.trace is None,
{
}

/// What becomes of each message: one that breaks a rule fails with that rule, a log entry is
/// logged before anything else is looked at, then a trace, and every other message goes on as it
/// came.
pub proof fn law_every_message_has_its_step(
    message: Message,
    violation: Option<String>,
    step: ResponseStep,
)
    requires
        is_response_step(message, violation, step),
    ensures
        violation matches Some(rule) ==> (step matches ResponseStep::Fail(
            AtfError::InvalidMessage(complaint),
        ) && complaint@ == "error in validating message "@ + rule@),
        violation is None ==> (message.log matches Some(log) ==> step == ResponseStep::Log(log)),
        violation is None && message.log is None ==> (message.trace matches Some(trace) ==> step
            == ResponseStep::Trace(trace)),
        violation is None && message.log is None && message.trace is None ==> step
            == ResponseStep::Yield(message),
{
}

/// A step of a search finds a message exactly where it is wanted, ignores it where it is not,
/// and fails with an error that comes in its place, or at the end of the messages.
pub proof fn law_every_search_step_is_told(
    next: Option<Result<Message, AtfError>>,
    any_ignored: bool,
    wanted: spec_fn(Message) -> bool,
    descriptor: &'static str,
    step: SearchStep,
)
    requires
        is_search_step(next, any_ignored, wanted, descriptor, step),
    ensures
        next matches Some(Ok(message)) ==> (wanted(message) ==> step == SearchStep::Found(message)),
        next matches Some(Ok(message)) ==> (!wanted(message) ==> step is Ignored),
        next matches Some(Err(e)) ==> step == SearchStep::Failed(e),
        next is None && any_ignored ==> step == SearchStep::Failed(
            AtfError::MessageNotFound(descriptor),
        ),
        next is None && !any_ignored ==> step == SearchStep::Failed(AtfError::EmptyStream),
{
}

} // verus!
