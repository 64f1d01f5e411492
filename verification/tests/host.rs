use relay::contracts::{CommandRequest, CommandResponse, HelloRequest, Producer, RequestContext};
use relay::host::{
    boot_status, fnv1a64, handshake, hex16, pipe_name, pipe_security_accepted, pipe_security_state,
    secure_equal, shutdown_accepted, state_dir_from, state_path,
};
use relay::json::Json;
use relay::registry::{CommandRegistry, CommandSpec};

#[test]
fn fnv1a64_matches_reference_values() {
    assert_eq!(fnv1a64(""), 0xcbf29ce484222325);
    assert_eq!(fnv1a64("a"), 0xaf63dc4c8601ec8c);
    assert_eq!(fnv1a64("foobar"), 0x85944171f73967e8);
}

#[test]
fn pipe_names_use_the_instance_or_the_user_hash() {
    assert_eq!(pipe_name(Some("dev box!"), "S-1-5-21"), r"\\.\pipe\dsi-relay-devbox-v1");
    assert_eq!(pipe_name(Some("!!!"), ""), r"\\.\pipe\dsi-relay-cbf29ce484222325-v1");
    assert_eq!(pipe_name(None, ""), r"\\.\pipe\dsi-relay-cbf29ce484222325-v1");
    let long = "x".repeat(60);
    assert_eq!(pipe_name(Some(&long), ""), format!(r"\\.\pipe\dsi-relay-{}-v1", "x".repeat(48)));
    assert_eq!(hex16(255), "00000000000000ff");
}

#[test]
fn tokens_compare_exactly() {
    assert!(secure_equal("fixture-token", "fixture-token"));
    assert!(!secure_equal("fixture-token", "fixture-tokem"));
    assert!(!secure_equal("short", "longer"));
    assert!(secure_equal("", ""));
}

#[test]
fn state_lives_in_the_configured_directory() {
    let joined = |dir: &str, name: &str| std::path::Path::new(dir).join(name).to_string_lossy().into_owned();
    assert_eq!(state_dir_from(Some("/srv/relay"), Some("/home/u/AppData"), "/tmp"), "/srv/relay");
    assert_eq!(state_dir_from(None, Some("/home/u/AppData"), "/tmp"), joined(&joined("/home/u/AppData", "DSI"), "RELAY"));
    assert_eq!(state_dir_from(None, None, "/tmp"), joined(&joined("/tmp", "DSI"), "RELAY"));
    assert_eq!(state_path("/srv/relay"), joined("/srv/relay", "host.json"));
}

fn producer(name: &str) -> Producer {
    Producer { name: name.to_string(), version: "0.1.0".to_string() }
}

fn hello(kind: &str, token: &str, min: u32, max: u32) -> HelloRequest {
    HelloRequest {
        message_type: kind.to_string(),
        auth_token: token.to_string(),
        protocol_min: min,
        protocol_max: max,
        client: producer("relay-cli"),
    }
}

fn one_command_registry() -> CommandRegistry {
    CommandRegistry {
        registry_format: 1,
        registry_id: "relay.commands".to_string(),
        schema_dialect: "https://json-schema.org/draft/2020-12/schema".to_string(),
        compatibility: Json::Object(vec![]),
        reserved_command_ids: vec![],
        deprecated_command_ids: vec![],
        common_errors: vec![],
        error_schema: Json::Object(vec![]),
        commands: vec![CommandSpec {
            id: "system.status".to_string(),
            version: 1,
            stability: "stable".to_string(),
            summary: "status".to_string(),
            effect_class: "observe".to_string(),
            permission: "read".to_string(),
            idempotency: "safe".to_string(),
            surfaces: vec!["cli".to_string()],
            arguments_schema: Json::Object(vec![]),
            result_schema: Json::Object(vec![]),
            errors: vec![],
        }],
    }
}

#[test]
fn handshakes_check_the_token_and_the_protocol() {
    let registry = one_command_registry();
    let refused = handshake(&registry, None, "secret", producer("relayd")).err().unwrap();
    assert_eq!(refused.code, "BAD_HANDSHAKE");
    assert_eq!(refused.message, "hello request was invalid");
    let wrong = hello("hello", "guess", 1, 1);
    let refused = handshake(&registry, Some(&wrong), "secret", producer("relayd")).err().unwrap();
    assert_eq!(refused.code, "UNAUTHORIZED");
    assert_eq!(refused.message, "local host authentication failed");
    let kind = hello("greeting", "secret", 1, 1);
    assert_eq!(handshake(&registry, Some(&kind), "secret", producer("relayd")).err().unwrap().code, "UNAUTHORIZED");
    let future = hello("hello", "secret", 2, 5);
    let refused = handshake(&registry, Some(&future), "secret", producer("relayd")).err().unwrap();
    assert_eq!(refused.code, "PROTOCOL_INCOMPATIBLE");
    assert_eq!(refused.message, "client/host protocol ranges do not overlap");
    let good = hello("hello", "secret", 1, 3);
    let greeting = handshake(&registry, Some(&good), "secret", producer("relayd")).ok().unwrap();
    assert_eq!(greeting.message_type, "hello_ok");
    assert_eq!(greeting.protocol, 1);
    assert_eq!(greeting.schema_version, 1);
    assert_eq!(greeting.server.name, "relayd");
    assert_eq!(
        greeting.capabilities,
        vec![
            "diagnostics.structured-jsonl@1",
            "ipc.named-pipe.current-user@1",
            "protocol.handshake@1",
            "system.status@1",
        ]
    );
}

#[test]
fn pipe_security_must_match_the_request() {
    assert!(pipe_security_accepted(true, true, true, true, true, 1));
    assert!(!pipe_security_accepted(true, true, true, true, true, 2));
    assert!(!pipe_security_accepted(false, true, true, true, true, 1));
    assert!(!pipe_security_accepted(true, true, true, false, true, 1));
    let state = pipe_security_state(1);
    assert_eq!(state.transport, "windows_named_pipe");
    assert_eq!(state.scope, "current_user");
    assert_eq!(state.acl_ace_count, 1);
    assert!(state.explicit_dacl && state.kernel_acl_verified && state.owner_current_user && state.auth_token);
}

fn status_request(command: &str) -> CommandRequest {
    CommandRequest {
        request_id: "BOOT-status".to_string(),
        command: command.to_string(),
        command_version: Some(1),
        arguments: Json::Object(vec![]),
        idempotency_key: None,
        context: RequestContext::default(),
    }
}

#[test]
fn boot_status_names_recovery_and_schema() {
    let request = status_request("system.status");
    let result = Json::Object(vec![
        ("recovery_state".to_string(), Json::Str("Healthy".to_string())),
        ("storage".to_string(), Json::Object(vec![("schema_version".to_string(), Json::Int(7))])),
    ]);
    let ok = CommandResponse::success(&request, 1, producer("relayd"), result);
    assert_eq!(boot_status(&ok), Ok(("Healthy".to_string(), Some(7))));
    let bare = CommandResponse::success(&request, 1, producer("relayd"), Json::Object(vec![]));
    assert_eq!(boot_status(&bare), Ok(("Degraded".to_string(), None)));
    let failed = CommandResponse::failure(&request, 1, producer("relayd"), "X".to_string(), "y".to_string());
    assert_eq!(boot_status(&failed), Err("initial Core status failed".to_string()));
}

#[test]
fn only_an_accepted_shutdown_stops_the_host() {
    let shutdown = status_request("system.shutdown");
    let ok = CommandResponse::success(&shutdown, 1, producer("relayd"), Json::Object(vec![]));
    assert!(shutdown_accepted(&shutdown, &ok));
    let refused = CommandResponse::failure(&shutdown, 1, producer("relayd"), "X".to_string(), "y".to_string());
    assert!(!shutdown_accepted(&shutdown, &refused));
    let status = status_request("system.status");
    assert!(!shutdown_accepted(&status, &ok));
}
