use relay::cli::{
    check_greeting, check_host_state, doctor_lines, exit_code, failure_line, has_json_flag,
    hello_request, machine_error, machine_request, parse_cli, status_lines, CliAction, CliView,
};
use relay::contracts::{
    CommandRequest, CommandResponse, IpcSecurityState, LocalHostState, Producer, ProtocolRange,
    RequestContext,
};
use relay::framing::{frame_line, LineReader, LineStep, MAX_LINE_BYTES};
use relay::json::{to_compact, Json};

fn args(words: &[&str]) -> Vec<String> {
    words.iter().map(|w| w.to_string()).collect()
}

fn invoked(action: Result<CliAction, String>) -> (CommandRequest, bool, CliView) {
    match action {
        Ok(CliAction::Invoke { request, json_output, view }) => (request, json_output, view),
        _ => panic!("expected a request"),
    }
}

#[test]
fn command_lines_become_requests() {
    assert!(matches!(parse_cli(&args(&["commands"]), "R".to_string()), Ok(CliAction::Catalog)));
    assert!(matches!(parse_cli(&args(&["exec", "--stdin"]), "R".to_string()), Ok(CliAction::MachineExec)));
    assert_eq!(parse_cli(&args(&["exec"]), "R".to_string()).err().unwrap(), "unknown relay command: exec");
    assert_eq!(
        parse_cli(&args(&[]), "R".to_string()).err().unwrap(),
        "usage: relay <status|doctor|commands|project-list|project-register|result-get|job-get|shutdown|exec>"
    );

    let (request, json, view) = invoked(parse_cli(&args(&["status", "--json"]), "REQ-1".to_string()));
    assert_eq!(request.request_id, "REQ-1");
    assert_eq!(request.command, "system.status");
    assert_eq!(request.command_version, Some(1));
    assert_eq!(to_compact(&request.arguments), "{}");
    assert!(json);
    assert!(matches!(view, CliView::Status));
    let (request, json, view) = invoked(parse_cli(&args(&["doctor"]), "REQ-1".to_string()));
    assert_eq!(request.command, "system.doctor");
    assert!(!json);
    assert!(matches!(view, CliView::Doctor));

    let (request, _, view) = invoked(parse_cli(&args(&["result-get", "RES-1"]), "REQ-2".to_string()));
    assert_eq!(request.command, "result.get");
    assert_eq!(to_compact(&request.arguments), "{\"result_id\":\"RES-1\"}");
    assert!(matches!(view, CliView::Plain));
    assert_eq!(parse_cli(&args(&["job-get"]), "R".to_string()).err().unwrap(), "job-get requires job ID");

    let (request, _, _) = invoked(parse_cli(&args(&["project-register", "Game", "C:/game", "PRJ-7"]), "REQ-3".to_string()));
    assert_eq!(request.command, "project.register");
    assert_eq!(to_compact(&request.arguments), "{\"id\":\"PRJ-7\",\"name\":\"Game\",\"root_uri\":\"C:/game\"}");
    assert_eq!(request.idempotency_key.as_deref(), Some("CLI-REQ-3"));
    let (request, json, _) = invoked(parse_cli(&args(&["project-register", "Game", "C:/game", "--json"]), "REQ-4".to_string()));
    assert_eq!(to_compact(&request.arguments), "{\"name\":\"Game\",\"root_uri\":\"C:/game\"}");
    assert!(json);
    assert_eq!(parse_cli(&args(&["project-register", "Game"]), "R".to_string()).err().unwrap(), "project-register requires root URI");
    assert_eq!(parse_cli(&args(&["fly"]), "R".to_string()).err().unwrap(), "unknown relay command: fly");
    assert!(has_json_flag(&args(&["x", "--json"])));
    assert!(!has_json_flag(&args(&["x", "--jsonx"])));
}

fn producer() -> Producer {
    Producer { name: "relayd".to_string(), version: "0.1.0".to_string() }
}

fn request() -> CommandRequest {
    machine_request(None, "GEN-1".to_string(), "system.status".to_string(), Some(1), Json::Object(vec![]), None)
}

#[test]
fn answers_are_shown_with_their_exit_codes() {
    let req = request();
    assert_eq!(req.request_id, "GEN-1");
    let own = machine_request(Some("MINE".to_string()), "GEN-1".to_string(), "x".to_string(), None, Json::Null, Some("K".to_string()));
    assert_eq!(own.request_id, "MINE");
    assert_eq!(own.idempotency_key.as_deref(), Some("K"));

    let failed = CommandResponse::failure(&req, 1, producer(), "DENIED".to_string(), "no".to_string());
    assert_eq!(failure_line(&failed), "DENIED: no");
    assert_eq!(exit_code(&failed), 2);
    let mut bare = CommandResponse::failure(&req, 1, producer(), "X".to_string(), "y".to_string());
    bare.error = None;
    assert_eq!(failure_line(&bare), "RELAY_ERROR: command failed");

    let status = Json::Object(vec![
        ("recovery_state".to_string(), Json::Str("Healthy".to_string())),
        ("pid".to_string(), Json::Int(42)),
        ("storage".to_string(), Json::Object(vec![("ok".to_string(), Json::Bool(true))])),
        ("diagnostics".to_string(), Json::Object(vec![("ok".to_string(), Json::Bool(false))])),
    ]);
    let ok = CommandResponse::success(&req, 1, producer(), Json::Null);
    assert_eq!(exit_code(&ok), 0);
    assert_eq!(status_lines(&status), vec!["RELAY Healthy", "PID: 42", "Storage: healthy", "Diagnostics: degraded"]);
    assert_eq!(status_lines(&Json::Object(vec![])), vec!["RELAY Unknown", "PID: null", "Storage: degraded", "Diagnostics: degraded"]);

    let doctor = Json::Object(vec![
        ("summary".to_string(), Json::Str("All good.".to_string())),
        (
            "checks".to_string(),
            Json::Array(vec![Json::Object(vec![
                ("id".to_string(), Json::Str("core.process".to_string())),
                ("status".to_string(), Json::Str("pass".to_string())),
                ("detail".to_string(), Json::Str("PID 1".to_string())),
            ])]),
        ),
    ]);
    assert_eq!(doctor_lines(&doctor), vec!["All good.", "- core.process: pass — PID 1"]);
    assert_eq!(doctor_lines(&Json::Object(vec![])), vec!["RELAY diagnostics"]);
    assert_eq!(machine_error("bad \"input\""), "{\"error\":{\"code\":\"RELAY_CLI_ERROR\",\"message\":\"bad \\\"input\\\"\"},\"ok\":false}");
}

fn host_state(format: u32) -> LocalHostState {
    LocalHostState {
        state_format: format,
        pid: 1,
        pipe: r"\\.\pipe\dsi-relay-x-v1".to_string(),
        auth_token: "token".to_string(),
        version: "0.1.0".to_string(),
        protocol: ProtocolRange { min: 1, max: 1 },
        capabilities: vec![],
        recovery_state: "Healthy".to_string(),
        storage_schema_version: None,
        ipc_security: IpcSecurityState {
            transport: "windows_named_pipe".to_string(),
            explicit_dacl: true,
            kernel_acl_verified: true,
            owner_current_user: true,
            acl_ace_count: 1,
            scope: "current_user".to_string(),
            auth_token: true,
        },
        started_at_unix_ms: 1,
    }
}

#[test]
fn clients_check_the_state_file_and_the_greeting() {
    assert!(check_host_state(&host_state(1)).is_ok());
    assert_eq!(check_host_state(&host_state(3)).err().unwrap(), "HOST_STATE_INCOMPATIBLE: expected 1, got 3");
    let hello = hello_request(&host_state(1), "0.1.0".to_string());
    assert_eq!(hello.message_type, "hello");
    assert_eq!(hello.auth_token, "token");
    assert_eq!(hello.client.name, "relay-cli");
    assert_eq!((hello.protocol_min, hello.protocol_max), (1, 1));
    let ok = Json::Object(vec![("type".to_string(), Json::Str("hello_ok".to_string()))]);
    assert!(check_greeting(&ok).is_ok());
    let refused = Json::Object(vec![
        ("type".to_string(), Json::Str("hello_error".to_string())),
        ("code".to_string(), Json::Str("UNAUTHORIZED".to_string())),
    ]);
    assert_eq!(check_greeting(&refused).err().unwrap(), "UNAUTHORIZED");
    assert_eq!(check_greeting(&Json::Null).err().unwrap(), "BAD_HANDSHAKE");
    let _ = RequestContext::default();
}

#[test]
fn lines_are_framed_by_newlines_and_bounded() {
    assert_eq!(frame_line("{}"), b"{}\n".to_vec());
    let mut reader = LineReader::new(MAX_LINE_BYTES);
    assert!(matches!(reader.feed(b"{\"a\""), LineStep::NeedMore));
    match reader.feed(b":1}\nrest") {
        LineStep::Line(line) => assert_eq!(line, b"{\"a\":1}".to_vec()),
        _ => panic!("a newline ends the line"),
    }
    match reader.feed(b"\n") {
        LineStep::Line(line) => assert!(line.is_empty()),
        _ => panic!("an empty line is a line"),
    }
    let mut small = LineReader::new(4);
    assert!(matches!(small.feed(b"1234"), LineStep::NeedMore));
    assert!(matches!(small.feed(b"5"), LineStep::TooLarge));
    let mut exact = LineReader::new(4);
    match exact.feed(b"1234\n") {
        LineStep::Line(line) => assert_eq!(line, b"1234".to_vec()),
        _ => panic!("a line at the bound is accepted"),
    }
}

#[test]
fn framed_messages_read_back_whole() {
    let text = "{\"command\":\"system.status\",\"note\":\"h\u{e9}llo\"}";
    let framed = frame_line(text);
    let mut reader = LineReader::new(MAX_LINE_BYTES);
    match reader.feed(&framed) {
        LineStep::Line(line) => assert_eq!(line, text.as_bytes().to_vec()),
        _ => panic!("a framed message is one line"),
    }
    let mut tight = LineReader::new(text.len());
    assert!(matches!(tight.feed(&frame_line(text)), LineStep::Line(_)));
}
