use relay::contracts::{is_false, negotiate_protocol, CommandRequest, CommandResponse, Producer, RequestContext, ENVELOPE_SCHEMA_VERSION};
use relay::json::Json;

fn object(entries: Vec<(&str, Json)>) -> Json {
    Json::Object(entries.into_iter().map(|(k, v)| (k.to_string(), v)).collect())
}

#[test]
fn protocol_negotiation_fails_closed() {
    assert_eq!(negotiate_protocol(1, 1), Some(1));
    assert_eq!(negotiate_protocol(2, 3), None);
}

#[test]
fn negotiation_picks_the_highest_shared_version() {
    assert_eq!(negotiate_protocol(0, 5), Some(1));
    assert_eq!(negotiate_protocol(0, 0), None);
    assert_eq!(negotiate_protocol(1, 0), None);
}

#[test]
fn response_envelope_is_versioned_and_structured() {
    let request = CommandRequest {
        request_id: "REQ-fixture".to_string(),
        command: "system.echo".to_string(),
        command_version: Some(1),
        arguments: object(vec![("value", Json::Int(1))]),
        idempotency_key: None,
        context: RequestContext::default(),
    };
    let response = CommandResponse::success(
        &request,
        1,
        Producer { name: "relay-core".to_string(), version: "0.1.0".to_string() },
        object(vec![("echo", request.arguments.duplicate())]),
    );
    assert!(response.ok);
    assert_eq!(response.schema_version, 1);
    assert_eq!(response.command_version, 1);
}

#[test]
fn failure_envelope_carries_the_error() {
    let request = CommandRequest {
        request_id: "REQ-2".to_string(),
        command: "system.status".to_string(),
        command_version: None,
        arguments: object(vec![]),
        idempotency_key: None,
        context: RequestContext::default(),
    };
    let response = CommandResponse::failure(
        &request,
        1,
        Producer { name: "relay-core".to_string(), version: "0.1.0".to_string() },
        "VALIDATION_FAILED".to_string(),
        "bad".to_string(),
    );
    assert!(!response.ok);
    assert_eq!(response.schema_version, ENVELOPE_SCHEMA_VERSION);
    assert_eq!(response.request_id, "REQ-2");
    assert_eq!(response.message_type, "command_result");
    let error = response.error.unwrap();
    assert_eq!(error.code, "VALIDATION_FAILED");
    assert_eq!(error.message, "bad");
    assert!(response.result.is_none());
    assert!(is_false(&response.replayed));
}
