use relay::backend::{select_backend_for, WindowsVersion};
use relay::broker::{
    find_binding, invocation_request, launch_backend_check, minimal_environment, safe_segment,
    sandbox_identity, validate_worker_response, worker_parent, AdapterBroker, MINIMAL_ENVIRONMENT_KEYS,
};
use relay::json::Json;
use relay::manifest::{
    sha256_hex, validate_manifest, AdapterIdentity, AdapterManifest, ArtifactMetadata, BrokerPolicy,
    CommandBinding, ComponentMetadata, PublisherMetadata, RelayCompatibility, RequestedPermissions,
    TargetRequirement, TrustMetadata, UpdateMetadata,
};
use relay::registry::{resolve_command, CommandRegistry, CommandSpec};

const WORKER: &[u8] = b"synthetic worker executable";

fn s(v: &str) -> Json {
    Json::Str(v.to_string())
}

fn object(entries: Vec<(&str, Json)>) -> Json {
    Json::Object(entries.into_iter().map(|(k, v)| (k.to_string(), v)).collect())
}

fn registry() -> CommandRegistry {
    let spec = |id: &str, surfaces: &[&str]| CommandSpec {
        id: id.to_string(),
        version: 1,
        stability: "stable".to_string(),
        summary: id.to_string(),
        effect_class: "observe".to_string(),
        permission: "read".to_string(),
        idempotency: "safe".to_string(),
        surfaces: surfaces.iter().map(|v| v.to_string()).collect(),
        arguments_schema: object(vec![
            ("type", s("object")),
            ("properties", object(vec![("value", object(vec![("type", s("integer"))]))])),
            ("additionalProperties", Json::Bool(false)),
        ]),
        result_schema: object(vec![
            ("type", s("object")),
            ("required", Json::Array(vec![s("echo")])),
            ("properties", object(vec![("echo", object(vec![("type", s("integer"))]))])),
        ]),
        errors: vec!["ECHO_FAILED".to_string()],
    };
    CommandRegistry {
        registry_format: 1,
        registry_id: "relay.commands".to_string(),
        schema_dialect: "https://json-schema.org/draft/2020-12/schema".to_string(),
        compatibility: object(vec![]),
        reserved_command_ids: vec![],
        deprecated_command_ids: vec![],
        common_errors: vec!["INTERNAL_ERROR".to_string()],
        error_schema: object(vec![
            ("type", s("object")),
            ("required", Json::Array(vec![s("code"), s("message")])),
            ("properties", object(vec![("code", object(vec![("type", s("string"))])), ("message", object(vec![("type", s("string"))]))])),
        ]),
        commands: vec![spec("system.echo", &["adapter", "cli"]), spec("system.shutdown", &["cli"])],
    }
}

fn binding(command: &str, capability: &str) -> CommandBinding {
    CommandBinding { command: command.to_string(), command_version: 1, capability: capability.to_string() }
}

fn manifest() -> AdapterManifest {
    let digest = sha256_hex(WORKER);
    AdapterManifest {
        manifest_format: 1,
        adapter: AdapterIdentity { id: "dsi.synthetic".to_string(), version: "1.0.0".to_string(), display_name: "Synthetic".to_string() },
        publisher: PublisherMetadata { id: "dsi".to_string(), source: "local".to_string() },
        artifact: ArtifactMetadata { sha256: digest.to_uppercase(), source: "local-build".to_string() },
        relay: RelayCompatibility { protocol_min: 1, protocol_max: 1, command_bindings: vec![binding("system.echo", "echo")] },
        permissions: RequestedPermissions::default(),
        target: TargetRequirement { tool: "synthetic".to_string(), version: "1.0.0".to_string() },
        components: vec![ComponentMetadata {
            id: "worker".to_string(),
            kind: "worker".to_string(),
            version: "1.0.0".to_string(),
            sha256: digest,
            source: "local-build".to_string(),
        }],
        dependencies: vec![],
        update: UpdateMetadata { channel: "local".to_string(), source: "local".to_string() },
        trust: TrustMetadata { build_provenance: "fixture".to_string(), review_status: "reviewed".to_string() },
    }
}

fn worker() -> Result<Vec<u8>, String> {
    Ok(WORKER.to_vec())
}

fn code_of(manifest: &AdapterManifest, policy: &BrokerPolicy, worker: &Result<Vec<u8>, String>) -> &'static str {
    validate_manifest(manifest, policy, &registry(), worker).err().map(|e| e.code).unwrap_or("OK")
}

#[test]
fn sha256_hex_is_the_digest_of_the_bytes() {
    assert_eq!(sha256_hex(b"abc"), "ba7816bf8f01cfea414140de5dae2223b00361a396177a9cb410ff61f20015ad");
    assert_eq!(sha256_hex(b""), "e3b0c44298fc1c149afbf4c8996fb92427ae41e4649b934ca495991b7852b855");
}

#[test]
fn valid_manifest_passes_and_digest_case_is_ignored() {
    let policy = BrokerPolicy::synthetic_default();
    assert_eq!(code_of(&manifest(), &policy, &worker()), "OK");
}

#[test]
fn manifest_checks_fail_closed_in_order() {
    let policy = BrokerPolicy::synthetic_default();
    let mut m = manifest();
    m.manifest_format = 2;
    let error = validate_manifest(&m, &policy, &registry(), &worker()).err().unwrap();
    assert_eq!(error.code, "ADAPTER_MANIFEST_INCOMPATIBLE");
    assert_eq!(error.message, "unsupported manifest format 2");

    let mut m = manifest();
    m.publisher.id = "  ".to_string();
    assert_eq!(code_of(&m, &policy, &worker()), "ADAPTER_MANIFEST_INVALID");

    let mut m = manifest();
    m.relay.protocol_min = 2;
    m.relay.protocol_max = 3;
    assert_eq!(code_of(&m, &policy, &worker()), "ADAPTER_PROTOCOL_INCOMPATIBLE");

    let mut m = manifest();
    m.target.version = "2.0.0".to_string();
    let error = validate_manifest(&m, &policy, &registry(), &worker()).err().unwrap();
    assert_eq!(error.code, "ADAPTER_TARGET_INCOMPATIBLE");
    assert_eq!(error.message, "adapter target synthetic@2.0.0 does not match available synthetic@1.0.0");

    let mut m = manifest();
    m.relay.command_bindings = vec![];
    assert_eq!(code_of(&m, &policy, &worker()), "ADAPTER_MANIFEST_INVALID");

    let mut m = manifest();
    m.relay.command_bindings = vec![binding("system.echo", "echo"), binding("system.echo", "echo")];
    assert_eq!(code_of(&m, &policy, &worker()), "ADAPTER_MANIFEST_INVALID");

    let mut m = manifest();
    m.relay.command_bindings = vec![binding("system.unknown", "x")];
    let error = validate_manifest(&m, &policy, &registry(), &worker()).err().unwrap();
    assert_eq!(error.code, "ADAPTER_COMMAND_INCOMPATIBLE");
    assert_eq!(error.message, "unknown or incompatible command system.unknown@1");

    let mut m = manifest();
    m.relay.command_bindings = vec![binding("system.shutdown", "stop")];
    let error = validate_manifest(&m, &policy, &registry(), &worker()).err().unwrap();
    assert_eq!(error.message, "system.shutdown@1 is not exposed to adapters");

    let error = validate_manifest(&manifest(), &policy, &registry(), &Err("not found".to_string())).err().unwrap();
    assert_eq!(error.code, "ADAPTER_ARTIFACT_UNREADABLE");
    assert_eq!(error.message, "read worker artifact: not found");

    assert_eq!(code_of(&manifest(), &policy, &Ok(b"tampered".to_vec())), "ADAPTER_INTEGRITY_MISMATCH");

    let mut m = manifest();
    m.components[0].kind = "library".to_string();
    let error = validate_manifest(&m, &policy, &registry(), &worker()).err().unwrap();
    assert_eq!(error.message, "worker component digest does not match launched artifact");

    let mut m = manifest();
    m.update.source = String::new();
    assert_eq!(code_of(&m, &policy, &worker()), "ADAPTER_MANIFEST_INVALID");
}

#[test]
fn every_ungranted_permission_class_is_refused() {
    let policy = BrokerPolicy::synthetic_default();
    let cases: Vec<(Box<dyn Fn(&mut RequestedPermissions)>, &str)> = vec![
        (Box::new(|p| p.network = true), "manifest requests network access not granted by policy"),
        (Box::new(|p| p.subprocess = true), "manifest requests subprocess access not granted by policy"),
        (Box::new(|p| p.project_read = vec!["src".to_string()]), "ungranted project-read scope src"),
        (Box::new(|p| p.project_write = vec!["out".to_string()]), "ungranted project-write scope out"),
        (Box::new(|p| p.credentials = vec!["CRED-1".to_string()]), "ungranted credential handle CRED-1"),
        (Box::new(|p| p.external_apps = vec!["excel".to_string()]), "ungranted external app excel"),
    ];
    for (change, message) in cases {
        let mut m = manifest();
        change(&mut m.permissions);
        let error = validate_manifest(&m, &policy, &registry(), &worker()).err().unwrap();
        assert_eq!(error.code, "ADAPTER_PERMISSION_DENIED");
        assert_eq!(error.message, message);
    }
    let mut granted = BrokerPolicy::synthetic_default();
    granted.allowed_project_read.insert("src".to_string());
    let mut m = manifest();
    m.permissions.project_read = vec!["src".to_string()];
    assert!(validate_manifest(&m, &granted, &registry(), &worker()).is_ok());
}

#[test]
fn broker_install_backoff_quarantine_and_uninstall() {
    let policy = BrokerPolicy::synthetic_default();
    let mut broker = AdapterBroker::new(policy, "/tmp/mailboxes".to_string());
    assert_eq!(broker.installed_count(), 0);
    assert!(broker.install(&registry(), manifest(), "".to_string(), &worker()).is_err());
    broker.install(&registry(), manifest(), "pkg/worker.exe".to_string(), &worker()).ok().unwrap();
    assert_eq!(broker.installed_count(), 1);
    broker.install(&registry(), manifest(), "/srv/pkg/worker.exe".to_string(), &worker()).ok().unwrap();
    assert_eq!(broker.installed_count(), 1);

    assert!(broker.preflight_runtime("dsi.synthetic", 0).is_ok());
    broker.record_failure("dsi.synthetic", 1_000);
    assert_eq!(broker.preflight_runtime("dsi.synthetic", 1_010).err().unwrap().code, "ADAPTER_BACKOFF");
    assert!(broker.preflight_runtime("dsi.synthetic", 1_075).is_ok());
    assert!(!broker.is_quarantined("dsi.synthetic"));
    broker.record_failure("dsi.synthetic", 1_100);
    assert!(broker.is_quarantined("dsi.synthetic"));
    assert_eq!(broker.preflight_runtime("dsi.synthetic", 99_999).err().unwrap().code, "ADAPTER_QUARANTINED");
    broker.clear_quarantine("dsi.synthetic");
    assert!(!broker.is_quarantined("dsi.synthetic"));

    broker.record_failure("dsi.synthetic", 0);
    broker.record_success("dsi.synthetic");
    assert!(broker.preflight_runtime("dsi.synthetic", 0).is_ok());

    assert!(broker.uninstall("dsi.synthetic").is_ok());
    let error = broker.uninstall("dsi.synthetic").err().unwrap();
    assert_eq!(error.code, "ADAPTER_NOT_INSTALLED");
    assert_eq!(error.message, "adapter dsi.synthetic is not installed");
}

#[test]
fn uninstall_clears_quarantine_and_reinstall_starts_fresh() {
    let policy = BrokerPolicy::synthetic_default();
    let mut broker = AdapterBroker::new(policy, "/tmp/mailboxes".to_string());
    broker.install(&registry(), manifest(), "pkg/worker.exe".to_string(), &worker()).ok().unwrap();
    broker.record_failure("dsi.synthetic", 1_000);
    broker.record_failure("dsi.synthetic", 1_100);
    assert!(broker.is_quarantined("dsi.synthetic"));
    assert!(broker.uninstall("dsi.synthetic").is_ok());
    assert!(!broker.is_quarantined("dsi.synthetic"));
    assert_eq!(broker.installed_count(), 0);
    broker.install(&registry(), manifest(), "pkg/worker.exe".to_string(), &worker()).ok().unwrap();
    assert!(broker.preflight_runtime("dsi.synthetic", 1_101).is_ok());
}

#[test]
fn invocation_is_checked_before_and_recorded_after_the_worker() {
    let mut broker = AdapterBroker::new(BrokerPolicy::synthetic_default(), "/tmp/mailboxes".to_string());
    let args = object(vec![("value", Json::Int(3))]);
    let error = broker.prepare_invoke(&registry(), "dsi.synthetic", "system.echo", 1, &args, &worker(), 0).err().unwrap();
    assert_eq!(error.code, "ADAPTER_NOT_INSTALLED");
    broker.install(&registry(), manifest(), "pkg/worker.exe".to_string(), &worker()).ok().unwrap();
    let bound = broker.prepare_invoke(&registry(), "dsi.synthetic", "system.echo", 1, &args, &worker(), 0).ok().unwrap();
    assert_eq!(bound.capability, "echo");
    let error = broker.prepare_invoke(&registry(), "dsi.synthetic", "system.echo", 2, &args, &worker(), 0).err().unwrap();
    assert_eq!(error.code, "ADAPTER_COMMAND_NOT_BOUND");
    assert_eq!(error.message, "system.echo@2 is not bound by this adapter");
    let bad = object(vec![("value", s("three"))]);
    let error = broker.prepare_invoke(&registry(), "dsi.synthetic", "system.echo", 1, &bad, &worker(), 0).err().unwrap();
    assert_eq!(error.code, "VALIDATION_FAILED");
    let error = broker.prepare_invoke(&registry(), "dsi.synthetic", "system.echo", 1, &args, &Ok(b"changed".to_vec()), 0).err().unwrap();
    assert_eq!(error.code, "ADAPTER_INTEGRITY_MISMATCH");

    let outcome = broker.complete_invoke("dsi.synthetic", Ok(Json::Null), 5);
    assert!(outcome.is_ok());
    let failed = broker.complete_invoke("dsi.synthetic", Err(relay::manifest::AdapterError::new("ADAPTER_TIMEOUT", "late".to_string())), 5);
    assert_eq!(failed.err().unwrap().code, "ADAPTER_TIMEOUT");
    assert_eq!(broker.prepare_invoke(&registry(), "dsi.synthetic", "system.echo", 1, &args, &worker(), 6).err().unwrap().code, "ADAPTER_BACKOFF");
}

fn response(entries: Vec<(&str, Json)>) -> Json {
    let mut all = vec![
        ("type", s("adapter_result")),
        ("request_id", s("REQ-1")),
        ("adapter_id", s("dsi.synthetic")),
        ("adapter_version", s("1.0.0")),
        ("protocol", Json::Int(1)),
        ("pid", Json::Int(42)),
        ("capabilities", Json::Array(vec![s("echo")])),
    ];
    for (k, v) in entries {
        all.retain(|(key, _)| *key != k);
        all.push((k, v));
    }
    object(all)
}

#[test]
fn worker_responses_fail_closed() {
    let registry = registry();
    let m = manifest();
    let b = find_binding(&m, "system.echo", 1).ok().unwrap();
    let spec = resolve_command(&registry, "system.echo", Some(1)).ok().unwrap();
    let check = |message: Json| validate_worker_response(&message, "REQ-1", &m, b, spec, 42, &registry);

    let ok = check(response(vec![("ok", Json::Bool(true)), ("result", object(vec![("echo", Json::Int(3))]))])).ok().unwrap();
    assert_eq!(ok.get("command").unwrap().as_str(), Some("system.echo"));
    assert_eq!(ok.get("ok").unwrap().as_bool(), Some(true));
    assert_eq!(ok.get("result").unwrap().get("echo").unwrap().as_i64(), Some(3));

    assert_eq!(check(response(vec![("type", s("other"))])).err().unwrap().code, "ADAPTER_INVALID_MESSAGE");
    assert_eq!(check(response(vec![("request_id", s("REQ-2"))])).err().unwrap().code, "ADAPTER_INVALID_MESSAGE");
    assert_eq!(check(response(vec![("adapter_version", s("2.0.0"))])).err().unwrap().code, "ADAPTER_IDENTITY_MISMATCH");
    assert_eq!(check(response(vec![("protocol", Json::Int(2))])).err().unwrap().code, "ADAPTER_PROTOCOL_INCOMPATIBLE");
    let pid = check(response(vec![("pid", Json::Int(7))])).err().unwrap();
    assert_eq!(pid.message, "worker-reported PID does not match launched process");
    assert_eq!(check(response(vec![("capabilities", Json::Array(vec![s("echo"), s("extra")]))])).err().unwrap().code, "ADAPTER_CAPABILITY_MISMATCH");
    assert_eq!(check(response(vec![])).err().unwrap().message, "worker response is missing boolean ok");
    assert_eq!(check(response(vec![("ok", Json::Bool(true))])).err().unwrap().message, "successful worker response is missing result");
    let schema = check(response(vec![("ok", Json::Bool(true)), ("result", object(vec![]))])).err().unwrap();
    assert_eq!(schema.code, "ADAPTER_RESULT_SCHEMA_VIOLATION");

    let declared = check(response(vec![("ok", Json::Bool(false)), ("error", object(vec![("code", s("ECHO_FAILED")), ("message", s("no"))]))])).ok().unwrap();
    assert_eq!(declared.get("ok").unwrap().as_bool(), Some(false));
    assert_eq!(declared.get("error").unwrap().get("code").unwrap().as_str(), Some("ECHO_FAILED"));
    let undeclared = check(response(vec![("ok", Json::Bool(false)), ("error", object(vec![("code", s("SURPRISE")), ("message", s("no"))]))])).err().unwrap();
    assert_eq!(undeclared.code, "ADAPTER_UNDECLARED_ERROR");
    assert_eq!(undeclared.message, "worker returned undeclared command error SURPRISE");
    let malformed = check(response(vec![("ok", Json::Bool(false)), ("error", object(vec![("code", s("X"))]))])).err().unwrap();
    assert_eq!(malformed.code, "ADAPTER_ERROR_SCHEMA_VIOLATION");
}

#[test]
fn invocation_request_names_the_binding_and_capabilities() {
    let m = manifest();
    let b = find_binding(&m, "system.echo", 1).ok().unwrap();
    let request = invocation_request(&m, b, "REQ-9", object(vec![("value", Json::Int(1))]));
    assert_eq!(request.get("type").unwrap().as_str(), Some("adapter_invoke"));
    assert_eq!(request.get("request_id").unwrap().as_str(), Some("REQ-9"));
    assert_eq!(request.get("capability").unwrap().as_str(), Some("echo"));
    assert_eq!(request.get("protocol").unwrap().as_i64(), Some(1));
    assert_eq!(request.get("capabilities").unwrap().as_array().unwrap().len(), 1);
}

#[test]
fn mailbox_segments_and_sandbox_names_are_safe() {
    assert_eq!(safe_segment("dsi.synthetic/../x"), "dsisyntheticx");
    assert_eq!(safe_segment("..//"), "adapter");
    assert_eq!(safe_segment(&"a".repeat(60)).len(), 40);
    let m = manifest();
    let name = sandbox_identity(&m, "REQ-1");
    assert!(name.starts_with("DSIRelay.Adapter."));
    assert_eq!(name.len(), "DSIRelay.Adapter.".len() + 24);
    assert_ne!(name, sandbox_identity(&m, "REQ-2"));
    assert_eq!(name, sandbox_identity(&m, "REQ-1"));
}

#[test]
fn worker_launches_need_a_strong_backend() {
    let error = launch_backend_check(None).err().unwrap();
    assert_eq!(error.code, "ADAPTER_SANDBOX_UNAVAILABLE");
    assert_eq!(error.message, "Windows sandbox backend could not be classified");
    let measured = select_backend_for(WindowsVersion { major: 10, minor: 0, build: 26200 }, true);
    assert!(launch_backend_check(Some(&measured)).is_ok());
    let unmeasured = select_backend_for(WindowsVersion { major: 10, minor: 0, build: 19045 }, true);
    let error = launch_backend_check(Some(&unmeasured)).err().unwrap();
    assert_eq!(error.code, "ADAPTER_SANDBOX_UNAVAILABLE");
    assert_eq!(error.message, unmeasured.reason);
}

#[test]
fn workers_run_from_their_package_directory() {
    assert_eq!(worker_parent("/srv/pkg/worker.exe").ok(), Some("/srv/pkg".to_string()));
    let error = worker_parent("").err().unwrap();
    assert_eq!(error.code, "ADAPTER_WORKER_PATH_INVALID");
    assert_eq!(error.message, "adapter worker must have a parent directory");
}

#[test]
fn worker_environments_keep_only_known_variables() {
    let mut values: Vec<Option<String>> = vec![None; MINIMAL_ENVIRONMENT_KEYS.len()];
    values[0] = Some("C:\\Windows".to_string());
    values[4] = Some("C:\\bin".to_string());
    let environment = minimal_environment(&values);
    assert_eq!(
        environment,
        vec![
            ("SystemRoot".to_string(), "C:\\Windows".to_string()),
            ("Path".to_string(), "C:\\bin".to_string()),
        ]
    );
    assert!(minimal_environment(&vec![None; 20]).is_empty());
}

#[test]
fn worker_sandboxes_confine_the_worker_to_its_mailbox() {
    let broker = AdapterBroker::new(BrokerPolicy::synthetic_default(), "/tmp/mailboxes".to_string());
    let m = manifest();
    let environment = vec![("TEMP".to_string(), "x".to_string())];
    let policy = broker.worker_sandbox_policy(&m, "ADP-1", "/tmp/mailboxes/a".to_string(), "/srv/pkg".to_string(), environment);
    assert_eq!(policy.identity, sandbox_identity(&m, "ADP-1"));
    assert_eq!(policy.read_write_paths, vec!["/tmp/mailboxes/a".to_string()]);
    assert_eq!(policy.read_only_paths, vec!["/srv/pkg".to_string()]);
    assert!(policy.capabilities.is_empty());
    assert!(policy.disallow_win32k);
    assert_eq!(policy.max_process_memory_bytes, BrokerPolicy::synthetic_default().max_process_memory_bytes);
    assert_eq!(policy.timeout_ms, BrokerPolicy::synthetic_default().request_timeout_ms);
    assert_eq!(policy.environment, vec![("TEMP".to_string(), "x".to_string())]);
    let provenance = AdapterBroker::invocation_provenance(&m, 42);
    assert_eq!(provenance.adapter_id, m.adapter.id);
    assert_eq!(provenance.artifact_sha256, m.artifact.sha256);
    assert_eq!(provenance.worker_pid, 42);
}

#[test]
fn errors_read_as_code_and_message() {
    assert_eq!(relay::manifest::AdapterError::new("ADAPTER_NOT_INSTALLED", "adapter x is not installed".to_string()).to_string(), "ADAPTER_NOT_INSTALLED: adapter x is not installed");
    assert_eq!(relay::indexing::IndexError::new("PROJECT_PATH_ESCAPE", "m".to_string()).to_string(), "PROJECT_PATH_ESCAPE: m");
    assert_eq!(relay::storage::StorageError::new("STORAGE_ERROR", "m".to_string()).to_string(), "STORAGE_ERROR: m");
    let deferred = relay::indexing::ensure_continue(false).err().unwrap();
    assert_eq!((deferred.code, deferred.message.as_str()), ("INDEX_RECOVERY_DEFERRED", "background index recovery was deferred"));
    assert!(relay::indexing::ensure_continue(true).is_ok());
}
