use airbyte_to_flow::catalog::{
    ConnectionStatus, Log, LogLevel, Message, MessageType, Status,
};
use airbyte_to_flow::error::AtfError;
use airbyte_to_flow::interceptor::Awaited;
use airbyte_to_flow::stream::{
    airbyte_response, get_airbyte_response, get_decoded_message, message_of_line, ResponseStep,
    SearchStep,
};

fn message(message_type: MessageType) -> Message {
    Message {
        message_type,
        connection_status: None,
        state: None,
        record: None,
        spec: None,
        catalog: None,
        log: None,
        trace: None,
    }
}

fn connected() -> Message {
    let mut m = message(MessageType::ConnectionStatus);
    m.connection_status =
        Some(ConnectionStatus { status: Status::Succeeded, message: Some("test".to_string()) });
    m
}

#[test]
fn parsed_lines_are_their_messages() {
    let m = message_of_line(Ok(connected()), "ignored");
    assert_eq!(m.message_type, MessageType::ConnectionStatus);
    assert_eq!(m.connection_status.unwrap().message.as_deref(), Some("test"));
}

#[test]
fn plain_text_is_logged_and_skipped() {
    let m = message_of_line(Err("Error(\"x\")".to_string()), "b\"I am plaintext!\"");
    assert_eq!(m.message_type, MessageType::Log);
    match airbyte_response(m, None) {
        ResponseStep::Log(log) => {
            assert_eq!(log.level, LogLevel::Debug);
            assert_eq!(
                log.message,
                "Encountered error while trying to parse ATF Message: Error(\"x\") in line b\"I am plaintext!\""
            );
        }
        _ => panic!("expected a log entry"),
    }
}

#[test]
fn logs_come_before_traces_and_both_before_the_rest() {
    let mut m = connected();
    m.trace = Some("{}".to_string());
    m.log = Some(Log { level: LogLevel::Info, message: "x".to_string() });
    assert!(matches!(airbyte_response(m, None), ResponseStep::Log(log) if log.message == "x"));
    let mut m = connected();
    m.trace = Some("{\"t\":1}".to_string());
    assert!(matches!(airbyte_response(m, None), ResponseStep::Trace(t) if t == "{\"t\":1}"));
    assert!(matches!(
        airbyte_response(connected(), None),
        ResponseStep::Yield(m) if m.connection_status.is_some()
    ));
}

#[test]
fn broken_rules_fail() {
    assert!(matches!(
        airbyte_response(connected(), Some("too short".to_string())),
        ResponseStep::Fail(AtfError::InvalidMessage(m)) if m == "error in validating message too short"
    ));
}

#[test]
fn messages_of_other_kinds_are_ignored() {
    let wanted = |m: &Message| Awaited::ConnectionStatus.is_met_by(m);
    let descriptor = Awaited::ConnectionStatus.descriptor();
    let other = message(MessageType::Spec);
    assert!(matches!(
        get_airbyte_response(Some(Ok(other)), false, &wanted, descriptor),
        SearchStep::Ignored
    ));
    assert!(matches!(
        get_airbyte_response(Some(Ok(connected())), true, &wanted, descriptor),
        SearchStep::Found(m) if m.connection_status.is_some()
    ));
}

#[test]
fn first_match_is_found() {
    let wanted = |m: &Message| m.connection_status.is_some();
    let mut second = connected();
    second.connection_status.as_mut().unwrap().message = Some("second".to_string());
    let messages =
        vec![message(MessageType::Spec), message(MessageType::Catalog), connected(), second];
    let mut any_ignored = false;
    let mut ignored = 0;
    for m in messages {
        match get_airbyte_response(Some(Ok(m)), any_ignored, &wanted, "connection status") {
            SearchStep::Found(found) => {
                assert_eq!(ignored, 2);
                assert_eq!(found.connection_status.unwrap().message.as_deref(), Some("test"));
                return;
            }
            SearchStep::Ignored => {
                any_ignored = true;
                ignored += 1;
            }
            SearchStep::Failed(_) => panic!("expected a message"),
        }
    }
    panic!("expected a match");
}

#[test]
fn search_without_a_match_fails() {
    let wanted = |m: &Message| m.spec.is_some();
    assert!(matches!(
        get_airbyte_response(None, false, &wanted, "spec"),
        SearchStep::Failed(AtfError::EmptyStream)
    ));
    assert!(matches!(
        get_airbyte_response(None, true, &wanted, "spec"),
        SearchStep::Failed(AtfError::MessageNotFound("spec"))
    ));
    assert!(matches!(
        get_airbyte_response(Some(Err(AtfError::InvalidPullResponse)), false, &wanted, "spec"),
        SearchStep::Failed(AtfError::InvalidPullResponse)
    ));
}

#[test]
fn decoded_message_is_the_first_line() {
    assert_eq!(get_decoded_message(Some(Ok(b"{}".to_vec())), "T").unwrap(), b"{}".to_vec());
    assert!(matches!(get_decoded_message(None, "T"), Err(AtfError::MessageNotFound("T"))));
    assert!(matches!(
        get_decoded_message(Some(Err(AtfError::EmptyStream)), "T"),
        Err(AtfError::EmptyStream)
    ));
}
