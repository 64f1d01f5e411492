use relay::pipeline::{command_step, CommandRun, RunAction, RunPhase, StoreEvent};
use relay::execution::{command_route, CoreRoute};
use relay::canonical::canonical_json;
use relay::contracts::{CommandRequest, CommandResponse, ErrorEnvelope, Producer, RequestContext};
use relay::execution::{
    admit_command, attribute_request, closed_transaction, command_outcome, contended_outcome,
    enforce_error_contract, error_envelope_json, idempotency_key, intended_summary,
    new_transaction, persist_step, registry_describe, registry_list, replay_outcome,
    request_fingerprint, shutdown_result, echo_result, transaction_fingerprint, transaction_outcome,
    usage_project_id, version_list_text, PersistStep, StoredOutcome,
};
use relay::json::{to_compact, Json};
use relay::policy::ExecutionAuthority;
use relay::registry::{CommandRegistry, CommandSpec};
use relay::service::CoreCommandError;
use relay::storage::IdempotencyRecord;
use sha2::{Digest, Sha256};

fn s(v: &str) -> Json {
    Json::Str(v.to_string())
}

fn object(entries: Vec<(&str, Json)>) -> Json {
    Json::Object(entries.into_iter().map(|(k, v)| (k.to_string(), v)).collect())
}

fn strings(values: &[&str]) -> Vec<String> {
    values.iter().map(|v| v.to_string()).collect()
}

fn string_type() -> Json {
    object(vec![("type", s("string"))])
}

fn command(id: &str, version: u32) -> CommandSpec {
    CommandSpec {
        id: id.to_string(),
        version,
        stability: "stable".to_string(),
        summary: "a command".to_string(),
        effect_class: "observe".to_string(),
        permission: "read".to_string(),
        idempotency: "safe".to_string(),
        surfaces: strings(&["cli"]),
        arguments_schema: object(vec![("type", s("object"))]),
        result_schema: object(vec![
            ("type", s("object")),
            ("required", Json::Array(vec![s("id")])),
            ("properties", object(vec![("id", string_type())])),
        ]),
        errors: strings(&["RESULT_NOT_FOUND"]),
    }
}

fn registry() -> CommandRegistry {
    let mut put = command("result.put", 1);
    put.effect_class = "relay_state_write".to_string();
    put.permission = "state_write".to_string();
    put.idempotency = "keyed".to_string();
    put.arguments_schema = object(vec![
        ("type", s("object")),
        ("required", Json::Array(vec![s("project_id")])),
        ("properties", object(vec![("project_id", string_type())])),
    ]);
    let mut publish = command("result.publish", 1);
    publish.effect_class = "publish_external".to_string();
    CommandRegistry {
        registry_format: 1,
        registry_id: "relay.commands".to_string(),
        schema_dialect: "https://json-schema.org/draft/2020-12/schema".to_string(),
        compatibility: object(vec![]),
        reserved_command_ids: vec![],
        deprecated_command_ids: vec![],
        common_errors: strings(&["PERMISSION_DENIED"]),
        error_schema: object(vec![
            ("type", s("object")),
            ("required", Json::Array(vec![s("code"), s("message")])),
            ("properties", object(vec![("code", string_type()), ("message", string_type())])),
        ]),
        commands: vec![command("result.get", 1), command("result.get", 2), put, publish],
    }
}

fn request(command: &str, version: Option<u32>, arguments: Json) -> CommandRequest {
    CommandRequest {
        request_id: "REQ-7".to_string(),
        command: command.to_string(),
        command_version: version,
        arguments,
        idempotency_key: None,
        context: RequestContext::default(),
    }
}

fn producer() -> Producer {
    Producer { name: "relayd".to_string(), version: "0.1.0".to_string() }
}

fn error_code(response: &CommandResponse) -> String {
    response.error.as_ref().map(|e| e.code.clone()).unwrap_or_default()
}

fn error_message(response: &CommandResponse) -> String {
    response.error.as_ref().map(|e| e.message.clone()).unwrap_or_default()
}

fn sha256_hex_of(text: &str) -> String {
    Sha256::digest(text.as_bytes()).iter().map(|b| format!("{b:02x}")).collect()
}

#[test]
fn version_lists_print_as_debug_lists() {
    assert_eq!(version_list_text(&vec![1, 2, 10]), "[1, 2, 10]");
    assert_eq!(version_list_text(&vec![]), "[]");
}

#[test]
fn admission_resolves_validates_and_authorizes() {
    let reg = registry();
    let authority = ExecutionAuthority::local_user("cli".to_string());

    let refusal = admit_command(&reg, &request("result.delete", Some(3), object(vec![])), &authority).err().unwrap();
    assert_eq!(refusal.command_version, 3);
    assert_eq!(refusal.code, "COMMAND_UNKNOWN");
    assert_eq!(refusal.message, "unknown command result.delete");
    assert_eq!(refusal.effect_class, "unknown");
    assert_eq!(refusal.permission, "unknown");

    let refusal = admit_command(&reg, &request("result.get", Some(5), object(vec![])), &authority).err().unwrap();
    assert_eq!(refusal.command_version, 5);
    assert_eq!(refusal.code, "COMMAND_VERSION_INCOMPATIBLE");
    assert_eq!(refusal.message, "unsupported version for result.get; supported: [1, 2]");

    let refusal = admit_command(&reg, &request("result.put", None, object(vec![])), &authority).err().unwrap();
    assert_eq!(refusal.command_version, 1);
    assert_eq!(refusal.code, "VALIDATION_FAILED");
    assert_eq!(refusal.message, "$ missing required property project_id");
    assert_eq!(refusal.effect_class, "relay_state_write");
    assert_eq!(refusal.permission, "state_write");

    let refusal = admit_command(&reg, &request("result.publish", None, object(vec![])), &authority).err().unwrap();
    assert_eq!(refusal.code, "EFFECT_NOT_ALLOWED");
    assert_eq!(refusal.message, "effect class publish_external is not granted");

    let latest = admit_command(&reg, &request("result.get", None, object(vec![])), &authority).ok().unwrap();
    assert_eq!(latest.version, 2);
    let pinned = admit_command(&reg, &request("result.get", Some(1), object(vec![])), &authority).ok().unwrap();
    assert_eq!(pinned.version, 1);
}

#[test]
fn requests_are_attributed_to_their_authority() {
    let mut req = request("result.get", None, object(vec![]));
    let authority = ExecutionAuthority::local_user("cli".to_string());
    attribute_request(&mut req, &authority);
    assert_eq!(req.context.actor_id.as_deref(), Some("local-user"));
    assert_eq!(req.context.client_id.as_deref(), Some("cli"));
    assert_eq!(req.context.delegator_id, None);
    assert_eq!(req.request_id, "REQ-7");
}

#[test]
fn canonical_json_orders_members_recursively() {
    let value = object(vec![
        ("b", Json::Int(2)),
        ("a", Json::Array(vec![object(vec![("z", Json::Null), ("y", Json::Bool(true))])])),
        ("c", s("x")),
    ]);
    let canonical = canonical_json(&value);
    assert_eq!(to_compact(&canonical), "{\"a\":[{\"y\":true,\"z\":null}],\"b\":2,\"c\":\"x\"}");
}

#[test]
fn fingerprints_hash_the_canonical_request() {
    let mut req = request("result.put", Some(1), object(vec![("b", s("x")), ("a", Json::Int(1))]));
    req.context = RequestContext {
        actor_id: Some("ACTOR-1".to_string()),
        client_id: Some("CLIENT-1".to_string()),
        delegator_id: None,
    };
    let expected = sha256_hex_of(
        "{\"arguments\":{\"a\":1,\"b\":\"x\"},\"command\":\"result.put\",\"command_version\":1,\"context\":{\"actor_id\":\"ACTOR-1\",\"client_id\":\"CLIENT-1\"}}",
    );
    assert_eq!(request_fingerprint(&req, 1), expected);

    let mut reordered = request("result.put", Some(1), object(vec![("a", Json::Int(1)), ("b", s("x"))]));
    reordered.context = RequestContext {
        actor_id: Some("ACTOR-1".to_string()),
        client_id: Some("CLIENT-1".to_string()),
        delegator_id: None,
    };
    assert_eq!(request_fingerprint(&reordered, 1), expected);
    assert_ne!(request_fingerprint(&req, 2), expected);

    let unversioned = request("result.put", None, object(vec![]));
    assert_eq!(transaction_fingerprint(&unversioned), request_fingerprint(&unversioned, 1));
}

#[test]
fn business_outcomes_are_held_to_the_result_schema() {
    let reg = registry();
    let spec = &reg.commands[2];
    let req = request("result.put", Some(1), object(vec![]));

    let ok = command_outcome(&req, spec, producer(), Ok(object(vec![("id", s("RES-1"))])));
    assert!(ok.ok);
    assert_eq!(ok.message_type, "command_result");
    assert_eq!(ok.request_id, "REQ-7");
    assert_eq!(ok.command_version, 1);
    assert_eq!(to_compact(ok.result.as_ref().unwrap()), "{\"id\":\"RES-1\"}");

    let bad = command_outcome(&req, spec, producer(), Ok(object(vec![("id", Json::Int(4))])));
    assert!(!bad.ok);
    assert_eq!(error_code(&bad), "RESULT_SCHEMA_VIOLATION");
    assert_eq!(error_message(&bad), "$.id expected type \"string\", got integer");

    let failed = command_outcome(
        &req,
        spec,
        producer(),
        Err(CoreCommandError::new("RESULT_NOT_FOUND", "no such result".to_string())),
    );
    assert_eq!(error_code(&failed), "RESULT_NOT_FOUND");
    assert_eq!(error_message(&failed), "no such result");
}

#[test]
fn idempotency_keys_apply_to_unsafe_commands_only() {
    let reg = registry();
    let mut req = request("result.put", Some(1), object(vec![]));
    assert_eq!(idempotency_key(&reg.commands[2], &req), None);
    req.idempotency_key = Some("KEY-1".to_string());
    assert_eq!(idempotency_key(&reg.commands[2], &req), Some("KEY-1"));
    assert_eq!(idempotency_key(&reg.commands[0], &req), None);
}

fn stored_response() -> CommandResponse {
    let mut original = request("result.put", Some(1), object(vec![]));
    original.request_id = "REQ-1".to_string();
    CommandResponse::success(
        &original,
        1,
        Producer { name: "old".to_string(), version: "0.0.1".to_string() },
        object(vec![("id", s("RES-1"))]),
    )
}

#[test]
fn replays_return_the_kept_response() {
    let req = request("result.put", Some(1), object(vec![("project_id", s("PRJ-1"))]));
    let fingerprint = request_fingerprint(&req, 1);
    let record = |command: &str, sha: &str| IdempotencyRecord {
        key: "KEY-1".to_string(),
        command: command.to_string(),
        request_sha256: sha.to_string(),
        response_json: "{}".to_string(),
    };

    assert!(replay_outcome(&req, 1, producer(), StoredOutcome::Missing).is_none());

    let unreadable = replay_outcome(
        &req,
        1,
        producer(),
        StoredOutcome::Unreadable(CoreCommandError::new("STORAGE_UNAVAILABLE", "down".to_string())),
    )
    .unwrap();
    assert_eq!(error_code(&unreadable), "STORAGE_UNAVAILABLE");

    let replayed = replay_outcome(
        &req,
        1,
        producer(),
        StoredOutcome::Found { record: record("result.put", &fingerprint), response: Ok(stored_response()) },
    )
    .unwrap();
    assert!(replayed.replayed);
    assert!(replayed.ok);
    assert_eq!(replayed.request_id, "REQ-7");
    assert_eq!(replayed.producer.name, "relayd");
    assert_eq!(to_compact(replayed.result.as_ref().unwrap()), "{\"id\":\"RES-1\"}");

    let conflict = replay_outcome(
        &req,
        1,
        producer(),
        StoredOutcome::Found { record: record("result.put", "0000"), response: Ok(stored_response()) },
    )
    .unwrap();
    assert!(!conflict.replayed);
    assert_eq!(error_code(&conflict), "IDEMPOTENCY_CONFLICT");
    assert_eq!(error_message(&conflict), "idempotency key was already used for a different request");

    let other_command = replay_outcome(
        &req,
        1,
        producer(),
        StoredOutcome::Found { record: record("result.get", &fingerprint), response: Ok(stored_response()) },
    )
    .unwrap();
    assert_eq!(error_code(&other_command), "IDEMPOTENCY_CONFLICT");

    let invalid = replay_outcome(
        &req,
        1,
        producer(),
        StoredOutcome::Found { record: record("result.put", &fingerprint), response: Err("eof".to_string()) },
    )
    .unwrap();
    assert_eq!(error_code(&invalid), "STORAGE_ERROR");
    assert_eq!(error_message(&invalid), "stored idempotency response is invalid: eof");
}

#[test]
fn keeping_an_outcome_handles_races_and_failures() {
    let req = request("result.put", Some(1), object(vec![]));
    match persist_step(&req, 1, producer(), stored_response(), Ok(())) {
        PersistStep::Answer(r) => assert!(r.ok),
        PersistStep::Contended => panic!("kept outcome must be answered"),
    }
    let contended = persist_step(
        &req,
        1,
        producer(),
        stored_response(),
        Err(CoreCommandError::new("IDEMPOTENCY_CONFLICT", "taken".to_string())),
    );
    assert!(matches!(contended, PersistStep::Contended));
    match persist_step(
        &req,
        1,
        producer(),
        stored_response(),
        Err(CoreCommandError::new("STORAGE_ERROR", "disk full".to_string())),
    ) {
        PersistStep::Answer(r) => {
            assert_eq!(error_code(&r), "IDEMPOTENCY_PERSIST_FAILED");
            assert_eq!(error_message(&r), "write completed but replay metadata failed: disk full");
        }
        PersistStep::Contended => panic!("a storage failure is not a race"),
    }
    let unresolved = contended_outcome(&req, 1, producer(), None);
    assert_eq!(error_code(&unresolved), "IDEMPOTENCY_CONFLICT");
    assert_eq!(error_message(&unresolved), "idempotency race could not be resolved");
    assert!(contended_outcome(&req, 1, producer(), Some(stored_response())).ok);
}

#[test]
fn transactions_record_intent_and_outcome() {
    let req = request("result.put", Some(1), object(vec![("project_id", s("PRJ-1"))]));
    let authority = ExecutionAuthority::local_user("cli".to_string());
    let summary = intended_summary(&req.command);
    assert_eq!(summary, "result.put requested through validated command contract");
    let sha = transaction_fingerprint(&req);
    let record = new_transaction(&req, "relay_state_write", "state_write", &authority, &sha, &summary);
    assert_eq!(record.project_id, Some("PRJ-1"));
    assert_eq!(record.actor_id, "local-user");
    assert_eq!(record.client_id, "cli");
    assert_eq!(record.rollback_status, "not_available");
    assert_eq!(record.request_sha256, sha);

    let ok = command_outcome(&req, &registry().commands[2], producer(), Ok(object(vec![("id", s("RES-9"))])));
    let outcome = transaction_outcome(&req, &ok);
    assert_eq!(outcome.state, "COMPLETED");
    assert_eq!(outcome.verification, "verified");
    assert_eq!(outcome.after_ref.as_deref(), Some("RES-9"));
    assert_eq!(outcome.result_id.as_deref(), Some("RES-9"));
    assert_eq!(outcome.job_id, None);
    assert_eq!(outcome.project_id.as_deref(), Some("PRJ-1"));

    let register = request("project.register", Some(1), object(vec![("name", s("demo"))]));
    let registered = command_outcome(&register, &registry().commands[2], producer(), Ok(object(vec![("id", s("PRJ-5"))])));
    let outcome = transaction_outcome(&register, &registered);
    assert_eq!(outcome.project_id.as_deref(), Some("PRJ-5"));
    assert_eq!(outcome.result_id, None);

    let failed = CommandResponse::failure(&req, 1, producer(), "X".to_string(), "y".to_string());
    let outcome = transaction_outcome(&req, &failed);
    assert_eq!(outcome.state, "FAILED");
    assert_eq!(outcome.verification, "failed");
    assert_eq!(outcome.after_ref, None);

    let kept = closed_transaction(&req, producer(), stored_response(), Ok(()));
    assert!(kept.ok);
    let lost = closed_transaction(
        &req,
        producer(),
        stored_response(),
        Err(CoreCommandError::new("STORAGE_ERROR", "locked".to_string())),
    );
    assert_eq!(error_code(&lost), "TRANSACTION_RECORD_INCOMPLETE");
    assert_eq!(error_message(&lost), "command outcome could not be durably finalized: locked");
}

#[test]
fn failures_are_held_to_the_error_contract() {
    let reg = registry();
    let spec = &reg.commands[0];
    let req = request("result.get", Some(1), object(vec![]));

    let envelope = error_envelope_json(&ErrorEnvelope { code: "A".to_string(), message: "b".to_string() });
    assert_eq!(to_compact(&envelope), "{\"code\":\"A\",\"message\":\"b\"}");

    let declared = CommandResponse::failure(&req, 1, producer(), "RESULT_NOT_FOUND".to_string(), "gone".to_string());
    let checked = enforce_error_contract(&reg, spec, &req, producer(), declared);
    assert_eq!(error_code(&checked), "RESULT_NOT_FOUND");

    let common = CommandResponse::failure(&req, 1, producer(), "PERMISSION_DENIED".to_string(), "no".to_string());
    assert_eq!(error_code(&enforce_error_contract(&reg, spec, &req, producer(), common)), "PERMISSION_DENIED");

    let undeclared = CommandResponse::failure(&req, 1, producer(), "SURPRISE".to_string(), "?".to_string());
    let checked = enforce_error_contract(&reg, spec, &req, producer(), undeclared);
    assert_eq!(error_code(&checked), "INTERNAL_CONTRACT_VIOLATION");
    assert_eq!(error_message(&checked), "command result.get emitted undeclared error SURPRISE");

    let mut bare = CommandResponse::failure(&req, 1, producer(), "X".to_string(), "y".to_string());
    bare.error = None;
    let checked = enforce_error_contract(&reg, spec, &req, producer(), bare);
    assert_eq!(error_message(&checked), "failed response did not contain an error envelope");

    let mut strict = registry();
    strict.error_schema = object(vec![
        ("type", s("object")),
        ("properties", object(vec![("code", object(vec![("type", s("integer"))]))])),
    ]);
    let any = CommandResponse::failure(&req, 1, producer(), "RESULT_NOT_FOUND".to_string(), "gone".to_string());
    let checked = enforce_error_contract(&strict, &strict.commands[0], &req, producer(), any);
    assert_eq!(error_code(&checked), "INTERNAL_CONTRACT_VIOLATION");
    assert_eq!(error_message(&checked), "error envelope violated registry schema: $.code expected type \"integer\", got string");

    let ok = command_outcome(&req, spec, producer(), Ok(object(vec![("id", s("R"))])));
    assert!(enforce_error_contract(&reg, spec, &req, producer(), ok).ok);
}

#[test]
fn usage_is_recorded_against_the_project() {
    let reg = registry();
    let spec = &reg.commands[0];
    let scoped = request("result.get", Some(1), object(vec![("project_id", s("PRJ-1"))]));
    let answer = command_outcome(&scoped, spec, producer(), Ok(object(vec![("id", s("R"))])));
    assert_eq!(usage_project_id(&scoped, &answer).as_deref(), Some("PRJ-1"));

    let register = request("project.register", Some(1), object(vec![]));
    let answer = command_outcome(&register, spec, producer(), Ok(object(vec![("id", s("PRJ-3"))])));
    assert_eq!(usage_project_id(&register, &answer).as_deref(), Some("PRJ-3"));

    let other = request("result.get", Some(1), object(vec![]));
    let answer = command_outcome(&other, spec, producer(), Ok(object(vec![("id", s("R")), ("project_id", s("PRJ-4"))])));
    assert_eq!(usage_project_id(&other, &answer).as_deref(), Some("PRJ-4"));
    let answer = command_outcome(&other, spec, producer(), Ok(object(vec![("id", s("R"))])));
    assert_eq!(usage_project_id(&other, &answer), None);
}

fn listed_ids(list: &Json) -> Vec<String> {
    match list {
        Json::Object(entries) => match &entries[0].1 {
            Json::Array(items) => items
                .iter()
                .map(|item| item.get("id").and_then(|v| v.as_str()).unwrap_or("").to_string())
                .collect(),
            _ => vec![],
        },
        _ => vec![],
    }
}

#[test]
fn registry_list_reads_its_filters_and_clamps_the_limit() {
    let reg = registry();
    let all = registry_list(&reg, &object(vec![]));
    assert_eq!(listed_ids(&all), vec!["result.get", "result.publish", "result.put"]);
    let one = registry_list(&reg, &object(vec![("limit", Json::Int(0))]));
    assert_eq!(listed_ids(&one), vec!["result.get"]);
    let prefixed = registry_list(&reg, &object(vec![("prefix", s("result.pu"))]));
    assert_eq!(listed_ids(&prefixed), vec!["result.publish", "result.put"]);
    let elsewhere = registry_list(&reg, &object(vec![("surface", s("dashboard"))]));
    assert_eq!(listed_ids(&elsewhere), Vec::<String>::new());
}

#[test]
fn registry_describe_reads_command_and_version() {
    let reg = registry();
    let missing = registry_describe(&reg, &object(vec![])).err().unwrap();
    assert_eq!(missing.code, "VALIDATION_FAILED");
    assert_eq!(missing.message, "command is required");
    let unknown = registry_describe(&reg, &object(vec![("command", s("nope"))])).err().unwrap();
    assert_eq!(unknown.code, "COMMAND_UNKNOWN");
    assert_eq!(unknown.message, "unknown command nope");
    let wrong = registry_describe(&reg, &object(vec![("command", s("result.get")), ("version", Json::Int(9))]))
        .err()
        .unwrap();
    assert_eq!(wrong.code, "COMMAND_VERSION_INCOMPATIBLE");
    assert_eq!(wrong.message, "supported versions: [1, 2]");
    let described = registry_describe(&reg, &object(vec![("command", s("result.get"))])).ok().unwrap();
    let command = described.get("command").unwrap();
    assert_eq!(command.get("version").and_then(|v| v.as_i64()), Some(2));
    let pinned = registry_describe(&reg, &object(vec![("command", s("result.get")), ("version", Json::Int(1))]))
        .ok()
        .unwrap();
    assert_eq!(pinned.get("command").unwrap().get("version").and_then(|v| v.as_i64()), Some(1));
    let wrapped = registry_describe(
        &reg,
        &object(vec![("command", s("result.get")), ("version", Json::Int(4294967297))]),
    )
    .ok()
    .unwrap();
    assert_eq!(wrapped.get("command").unwrap().get("version").and_then(|v| v.as_i64()), Some(1));
}

#[test]
fn echo_and_shutdown_answer_fixed_shapes() {
    assert_eq!(to_compact(&echo_result(object(vec![("x", Json::Int(1))]))), "{\"echo\":{\"x\":1}}");
    assert_eq!(to_compact(&shutdown_result()), "{\"shutting_down\":true}");
}

#[test]
fn commands_route_to_their_handlers_and_unknown_ones_are_named() {
    assert_eq!(command_route("system.status", 1).ok(), Some(CoreRoute::Status));
    assert_eq!(command_route("policy.egress.check", 1).ok(), Some(CoreRoute::PolicyEgressCheck));
    assert_eq!(command_route("project.dependencies.list", 2).ok(), Some(CoreRoute::ProjectDependenciesList));
    let error = command_route("project.delete", 3).err().unwrap();
    assert_eq!(error.code, "COMMAND_UNKNOWN");
    assert_eq!(error.message, "command project.delete@3 is not implemented");
}

fn keyed_put() -> CommandRequest {
    let mut req = request("result.put", Some(1), object(vec![("project_id", s("p"))]));
    req.idempotency_key = Some("K-1".to_string());
    req
}

#[test]
fn a_command_run_steps_through_lookup_transaction_handler_keep_and_close() {
    let reg = registry();
    let authority = ExecutionAuthority::local_user("cli".to_string());
    let producer = producer();
    let (run, action) = command_step(&reg, &authority, &producer, CommandRun::new(keyed_put()), StoreEvent::Start);
    assert_eq!(run.phase, RunPhase::AwaitLookup);
    assert_eq!(run.request.context.actor_id.as_deref(), Some(authority.actor_id.as_str()));
    assert!(matches!(action, RunAction::LookUp { ref key } if key == "K-1"));
    let (run, action) = command_step(&reg, &authority, &producer, run, StoreEvent::Looked(StoredOutcome::Missing));
    assert_eq!(run.phase, RunPhase::AwaitBegin);
    match action {
        RunAction::BeginTransaction { request_sha256, intended_summary, effect_class, permission } => {
            assert_eq!(request_sha256, transaction_fingerprint(&run.request));
            assert_eq!(intended_summary, "result.put requested through validated command contract");
            assert_eq!((effect_class.as_str(), permission.as_str()), ("relay_state_write", "state_write"));
        }
        _ => panic!("a transactional command opens its transaction"),
    }
    let (run, action) = command_step(&reg, &authority, &producer, run, StoreEvent::Began(Ok("TX-1".to_string())));
    assert_eq!(run.phase, RunPhase::AwaitHandler);
    assert!(matches!(action, RunAction::Dispatch { command_version: 1 }));
    let result = object(vec![("id", s("RES-1"))]);
    let (run, action) = command_step(&reg, &authority, &producer, run, StoreEvent::Handled(Ok(result)));
    assert_eq!(run.phase, RunPhase::AwaitKeep);
    match action {
        RunAction::Keep { key, request_sha256 } => {
            assert_eq!(key, "K-1");
            assert_eq!(request_sha256, request_fingerprint(&run.request, 1));
        }
        _ => panic!("a keyed outcome is kept"),
    }
    assert!(run.response.as_ref().unwrap().ok);
    let (run, action) = command_step(&reg, &authority, &producer, run, StoreEvent::Kept(Ok(())));
    assert_eq!(run.phase, RunPhase::AwaitClose);
    match action {
        RunAction::CloseTransaction { transaction_id, outcome } => {
            assert_eq!(transaction_id, "TX-1");
            assert_eq!(outcome.state, "COMPLETED");
            assert_eq!(outcome.result_id.as_deref(), Some("RES-1"));
        }
        _ => panic!("an opened transaction is closed"),
    }
    let (run, action) = command_step(&reg, &authority, &producer, run, StoreEvent::Closed(Ok(())));
    assert_eq!(run.phase, RunPhase::Finished);
    match action {
        RunAction::Answer { response, effect_class, .. } => {
            assert!(response.ok && !response.replayed);
            assert_eq!(effect_class, "relay_state_write");
        }
        _ => panic!("a finished run answers"),
    }
}

#[test]
fn a_refused_command_answers_before_any_work_and_a_kept_outcome_replays() {
    let reg = registry();
    let authority = ExecutionAuthority::local_user("cli".to_string());
    let producer = producer();
    let unknown = request("nothing.here", None, object(vec![]));
    let (run, action) = command_step(&reg, &authority, &producer, CommandRun::new(unknown), StoreEvent::Start);
    assert_eq!(run.phase, RunPhase::Finished);
    match action {
        RunAction::Answer { response, .. } => assert_eq!(error_code(&response), "COMMAND_UNKNOWN"),
        _ => panic!("an unknown command is answered at once"),
    }

    let (run, _) = command_step(&reg, &authority, &producer, CommandRun::new(keyed_put()), StoreEvent::Start);
    let kept = CommandResponse::success(&run.request, 1, producer.clone(), object(vec![("id", s("RES-1"))]));
    let record = IdempotencyRecord {
        key: "K-1".to_string(),
        command: "result.put".to_string(),
        request_sha256: request_fingerprint(&run.request, 1),
        response_json: String::new(),
    };
    let (run2, action) = command_step(&reg, &authority, &producer, run, StoreEvent::Looked(StoredOutcome::Found { record, response: Ok(kept) }));
    assert_eq!(run2.phase, RunPhase::Finished);
    match action {
        RunAction::Answer { response, .. } => assert!(response.ok && response.replayed),
        _ => panic!("a kept outcome replays"),
    }

    let (run, _) = command_step(&reg, &authority, &producer, CommandRun::new(keyed_put()), StoreEvent::Start);
    let other = IdempotencyRecord {
        key: "K-1".to_string(),
        command: "result.put".to_string(),
        request_sha256: "0".repeat(64),
        response_json: String::new(),
    };
    let kept = CommandResponse::success(&run.request, 1, producer.clone(), object(vec![("id", s("RES-1"))]));
    let (_, action) = command_step(&reg, &authority, &producer, run, StoreEvent::Looked(StoredOutcome::Found { record: other, response: Ok(kept) }));
    match action {
        RunAction::Answer { response, .. } => {
            assert!(!response.replayed);
            assert_eq!(error_code(&response), "IDEMPOTENCY_CONFLICT");
        }
        _ => panic!("a different request under the same key conflicts"),
    }
}

/// Runs a keyed command up to the point where its outcome is kept, and
/// returns what the run asks the store to keep.
fn first_run_kept(req: CommandRequest) -> (IdempotencyRecord, CommandResponse) {
    let reg = registry();
    let authority = ExecutionAuthority::local_user("cli".to_string());
    let producer = producer();
    let (run, _) = command_step(&reg, &authority, &producer, CommandRun::new(req), StoreEvent::Start);
    let (run, _) = command_step(&reg, &authority, &producer, run, StoreEvent::Looked(StoredOutcome::Missing));
    let (run, _) = command_step(&reg, &authority, &producer, run, StoreEvent::Began(Ok("TX-1".to_string())));
    let (run, action) =
        command_step(&reg, &authority, &producer, run, StoreEvent::Handled(Ok(object(vec![("id", s("RES-1"))]))));
    match action {
        RunAction::Keep { key, request_sha256 } => {
            let record = IdempotencyRecord {
                key,
                command: run.request.command.clone(),
                request_sha256,
                response_json: String::new(),
            };
            (record, run.response.unwrap())
        }
        _ => panic!("a keyed outcome is kept"),
    }
}

#[test]
fn a_second_run_under_the_same_key_replays_what_the_first_kept() {
    let reg = registry();
    let authority = ExecutionAuthority::local_user("cli".to_string());
    let producer = producer();
    let (record, first) = first_run_kept(keyed_put());
    assert!(first.ok && !first.replayed);

    let mut second = keyed_put();
    second.request_id = "REQ-second".to_string();
    let (run, _) = command_step(&reg, &authority, &producer, CommandRun::new(second), StoreEvent::Start);
    let found = StoredOutcome::Found { record, response: Ok(first) };
    let (_, action) = command_step(&reg, &authority, &producer, run, StoreEvent::Looked(found));
    match action {
        RunAction::Answer { response, .. } => {
            assert!(response.ok && response.replayed);
            assert_eq!(response.request_id, "REQ-second");
            assert_eq!(to_compact(response.result.as_ref().unwrap()), "{\"id\":\"RES-1\"}");
        }
        _ => panic!("a kept outcome replays"),
    }

    let mut conflicting = keyed_put();
    conflicting.request_id = "REQ-conflict".to_string();
    conflicting.arguments = object(vec![("project_id", s("q"))]);
    let (run, _) = command_step(&reg, &authority, &producer, CommandRun::new(conflicting), StoreEvent::Start);
    let (record, first) = first_run_kept(keyed_put());
    let found = StoredOutcome::Found { record, response: Ok(first) };
    let (_, action) = command_step(&reg, &authority, &producer, run, StoreEvent::Looked(found));
    match action {
        RunAction::Answer { response, .. } => {
            assert!(!response.ok);
            assert_eq!(error_code(&response), "IDEMPOTENCY_CONFLICT");
        }
        _ => panic!("a different request under the same key conflicts"),
    }
}
