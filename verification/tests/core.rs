use relay::storage::{next_migration, STORAGE_SCHEMA_VERSION};
use relay::storage::baseline_index_state;
use relay::collections::StrSet;
use relay::contracts::{CommandRequest, RequestContext};
use relay::indexing::IndexChange;
use relay::json::Json;
use relay::policy::{CredentialHandle, DataClass, EgressDecision, ExecutionAuthority};
use relay::service::{
    authorize_preflight, data_class_name, durable_handle_check, egress_check_request,
    egress_check_result, parse_data_class, trust_label, transaction_project_id,
    transactional_effect, CoreConfig,
};
use relay::storage::{
    check_dependency_replacement, check_index_commit, committed_index_state, invalidated_paths,
    removed_file, sql_i64, DependencyReplacement, IndexCommitMode, ProjectIndexCommit,
    ProjectIndexState, StorageHealth,
};

fn s(v: &str) -> Json {
    Json::Str(v.to_string())
}

fn object(entries: Vec<(&str, Json)>) -> Json {
    Json::Object(entries.into_iter().map(|(k, v)| (k.to_string(), v)).collect())
}

fn request(command: &str, arguments: Json, actor: Option<&str>) -> CommandRequest {
    CommandRequest {
        request_id: "REQ-1".to_string(),
        command: command.to_string(),
        command_version: Some(1),
        arguments,
        idempotency_key: None,
        context: RequestContext { actor_id: actor.map(|a| a.to_string()), client_id: None, delegator_id: None },
    }
}

fn commit<'a>(mode: IndexCommitMode, verified: bool) -> ProjectIndexCommit<'a> {
    ProjectIndexCommit {
        project_id: "PRJ-1",
        expected_generation: 4,
        touched_files: &[],
        changes: &[],
        file_count: 10,
        total_bytes: 100,
        mode,
        content_verified: verified,
    }
}

fn state() -> ProjectIndexState {
    ProjectIndexState {
        project_id: "PRJ-1".to_string(),
        generation: 4,
        baseline_generation: 1,
        status: "stale".to_string(),
        content_verification_required: true,
        file_count: 9,
        total_bytes: 90,
        last_reconciled_at: "t0".to_string(),
        updated_at: "t0".to_string(),
    }
}

#[test]
fn index_commits_are_guarded_by_generation_and_verification() {
    let error = check_index_commit(None, &commit(IndexCommitMode::Authoritative, true)).err().unwrap();
    assert_eq!(error.code, "INDEX_BASELINE_MISSING");
    let error = check_index_commit(Some((5, false)), &commit(IndexCommitMode::Authoritative, true)).err().unwrap();
    assert_eq!(error.code, "INDEX_GENERATION_CONFLICT");
    assert_eq!(error.message, "expected project index generation 4, found 5");
    let error = check_index_commit(Some((4, true)), &commit(IndexCommitMode::Authoritative, false)).err().unwrap();
    assert_eq!(error.code, "INDEX_CONTENT_VERIFICATION_REQUIRED");
    assert_eq!(check_index_commit(Some((4, true)), &commit(IndexCommitMode::HintsOnly, false)).ok(), Some(5));
    assert_eq!(check_index_commit(Some((4, true)), &commit(IndexCommitMode::Authoritative, true)).ok(), Some(5));
    let mut at_max = commit(IndexCommitMode::HintsOnly, false);
    at_max.expected_generation = i64::MAX;
    assert_eq!(check_index_commit(Some((i64::MAX, false)), &at_max).ok(), Some(i64::MAX));
}

#[test]
fn committed_state_is_ready_only_after_authoritative_commit() {
    let ready = committed_index_state(&state(), 5, &commit(IndexCommitMode::Authoritative, true), "t1");
    assert_eq!(ready.status, "ready");
    assert!(!ready.content_verification_required);
    assert_eq!(ready.last_reconciled_at, "t1");
    assert_eq!(ready.generation, 5);
    assert_eq!(ready.file_count, 10);
    let stale = committed_index_state(&state(), 5, &commit(IndexCommitMode::HintsOnly, false), "t1");
    assert_eq!(stale.status, "stale");
    assert!(stale.content_verification_required);
    assert_eq!(stale.last_reconciled_at, "t0");
    assert_eq!(stale.updated_at, "t1");
    assert_eq!(sql_i64(u64::MAX), i64::MAX);
    assert_eq!(sql_i64(7), 7);
}

#[test]
fn changes_name_the_paths_they_invalidate_and_remove() {
    let renamed = IndexChange {
        change_kind: "renamed".to_string(),
        relative_path: "new.txt".to_string(),
        previous_path: Some("old.txt".to_string()),
        before_sha256: Some("h".to_string()),
        after_sha256: Some("h".to_string()),
    };
    assert_eq!(invalidated_paths(&renamed), vec!["new.txt".to_string(), "old.txt".to_string()]);
    assert_eq!(removed_file(&renamed), Some("old.txt".to_string()));
    let deleted = IndexChange { change_kind: "deleted".to_string(), previous_path: None, after_sha256: None, ..renamed };
    assert_eq!(removed_file(&deleted), Some("new.txt".to_string()));
    let modified = IndexChange { change_kind: "modified".to_string(), ..deleted };
    assert_eq!(removed_file(&modified), None);
}

#[test]
fn dependency_replacement_requires_a_ready_matching_index() {
    let targets = vec!["b.txt".to_string()];
    let replacement = DependencyReplacement {
        project_id: "PRJ-1",
        expected_generation: 3,
        source_path: "a.txt",
        expected_source_sha256: "ha",
        producer_id: "p",
        producer_version: "1",
        targets: &targets,
    };
    let code = |state: Option<(i64, &str)>, source: Option<&str>, found: &[bool]| {
        check_dependency_replacement(state, &replacement, source, found).err().map(|e| e.code).unwrap_or("OK")
    };
    assert_eq!(code(None, Some("ha"), &[true]), "INDEX_BASELINE_MISSING");
    assert_eq!(code(Some((3, "stale")), Some("ha"), &[true]), "INDEX_RECONCILIATION_REQUIRED");
    assert_eq!(code(Some((2, "ready")), Some("ha"), &[true]), "INDEX_GENERATION_CONFLICT");
    assert_eq!(code(Some((3, "ready")), None, &[true]), "INDEX_FILE_NOT_FOUND");
    assert_eq!(code(Some((3, "ready")), Some("hx"), &[true]), "INDEX_SOURCE_CHANGED");
    assert_eq!(code(Some((3, "ready")), Some("ha"), &[false]), "INDEX_FILE_NOT_FOUND");
    assert_eq!(code(Some((3, "ready")), Some("ha"), &[true]), "OK");
}

#[test]
fn storage_health_reports_an_unavailable_store() {
    let health = StorageHealth::unavailable("locked".to_string());
    assert!(!health.ok);
    assert_eq!(health.check, "unavailable");
    assert_eq!(health.error.as_deref(), Some("locked"));
}

#[test]
fn core_configuration_lays_out_the_data_directory() {
    let joined = |dir: &str, name: &str| std::path::Path::new(dir).join(name).to_string_lossy().into_owned();
    let config = CoreConfig::new("/var/relay".to_string());
    assert_eq!(config.database_path(), joined("/var/relay", "relay.sqlite3"));
    assert_eq!(config.diagnostics_dir(), joined("/var/relay", "diagnostics"));
    assert!(config.database_path().starts_with("/var/relay"));
    assert!(config.database_path().ends_with("relay.sqlite3"));
    assert_eq!(CoreConfig::new("C:\\relay\\".to_string()).database_path(), joined("C:\\relay\\", "relay.sqlite3"));
}

#[test]
fn effects_labels_and_transaction_projects() {
    assert!(transactional_effect("project_write"));
    assert!(transactional_effect("credential_change"));
    assert!(!transactional_effect("observe"));
    assert_eq!(trust_label(&request("x", object(vec![]), Some("alice"))), "local-attributed");
    assert_eq!(trust_label(&request("x", object(vec![]), None)), "local-unattributed");
    assert_eq!(transaction_project_id(&request("result.put", object(vec![("project_id", s("PRJ-1"))]), None)), Some("PRJ-1"));
    assert_eq!(transaction_project_id(&request("project.register", object(vec![("project_id", s("PRJ-1"))]), None)), None);
}

#[test]
fn preflight_checks_permission_effect_and_scope() {
    let mut authority = ExecutionAuthority::local_user("test".to_string());
    let read = request("project.changes", object(vec![("project_id", s("PRJ-1"))]), None);
    assert!(authorize_preflight(&read, "observe", "read", &authority).is_ok());
    assert_eq!(authorize_preflight(&read, "observe", "project_write", &authority).err().unwrap().code, "PERMISSION_DENIED");
    assert_eq!(authorize_preflight(&read, "destructive", "read", &authority).err().unwrap().code, "EFFECT_NOT_ALLOWED");
    let mut scope = StrSet::new();
    scope.insert("PRJ-2".to_string());
    authority.project_ids = Some(scope);
    assert_eq!(authorize_preflight(&read, "observe", "read", &authority).err().unwrap().code, "PROJECT_SCOPE_DENIED");
    let register = request("project.register", object(vec![("name", s("x"))]), None);
    assert_eq!(authorize_preflight(&register, "relay_state_write", "state_write", &authority).err().unwrap().code, "PROJECT_SCOPE_REQUIRED");
    let unscoped_status = request("system.status", object(vec![]), None);
    assert!(authorize_preflight(&unscoped_status, "observe", "read", &authority).is_ok());
}

#[test]
fn data_class_names_round_trip() {
    for class in [DataClass::Public, DataClass::Project, DataClass::Sensitive, DataClass::Credential] {
        assert_eq!(parse_data_class(data_class_name(class)).ok(), Some(class));
    }
    let error = parse_data_class("secret").err().unwrap();
    assert_eq!(error.code, "VALIDATION_FAILED");
    assert_eq!(error.message, "unsupported data class secret");
}

#[test]
fn egress_check_reads_its_arguments_and_reports_the_decision() {
    let authority = ExecutionAuthority::local_user("test".to_string());
    let arguments = object(vec![
        ("destination", s("local")),
        ("purpose", s("diagnose")),
        ("data_classes", Json::Array(vec![s("project"), Json::Int(1), s("public")])),
        ("modalities", Json::Array(vec![s("text")])),
        ("approx_bytes", Json::Int(12)),
    ]);
    let plan = egress_check_request(&arguments, &authority).ok().unwrap();
    assert_eq!(plan.request.data_classes, vec![DataClass::Project, DataClass::Public]);
    assert_eq!(plan.class_names, vec!["project".to_string(), "public".to_string()]);
    assert_eq!(plan.request.approx_bytes, 12);
    assert_eq!(plan.approx_tokens, 0);
    assert_eq!(plan.request.modalities, vec!["text".to_string()]);
    let decision = authority.evaluate_egress(&plan.request);
    let result = egress_check_result(&decision, "EGR-1");
    assert_eq!(result.get("allowed").unwrap().as_bool(), Some(true));
    assert_eq!(result.get("strongest_class").unwrap().as_str(), Some("project"));
    assert_eq!(result.get("ledger_id").unwrap().as_str(), Some("EGR-1"));

    let none = object(vec![("destination", s("local")), ("purpose", s("x")), ("data_classes", Json::Array(vec![]))]);
    assert_eq!(egress_check_request(&none, &authority).err().unwrap().message, "data_classes must contain at least one class");
    let bad = object(vec![("destination", s("local")), ("purpose", s("x")), ("data_classes", Json::Array(vec![s("secret")]))]);
    assert_eq!(egress_check_request(&bad, &authority).err().unwrap().message, "unsupported data class secret");
    let handle = object(vec![
        ("destination", s("local")),
        ("purpose", s("x")),
        ("data_classes", Json::Array(vec![s("public")])),
        ("credential_handle", s("CRED-1")),
    ]);
    assert_eq!(egress_check_request(&handle, &authority).err().unwrap().code, "CREDENTIAL_HANDLE_DENIED");
    let mut granted = ExecutionAuthority::local_user("test".to_string());
    granted.credential_handles.insert(
        "CRED-1".to_string(),
        CredentialHandle::active("CRED-1".to_string(), "svc".to_string(), vec!["egress".to_string()]),
    );
    assert!(egress_check_request(&handle, &granted).is_ok());
}

#[test]
fn durable_handles_must_be_active() {
    assert!(durable_handle_check(Some("active")).is_ok());
    assert_eq!(durable_handle_check(Some("revoked")).err().unwrap().code, "CREDENTIAL_HANDLE_REVOKED");
    assert_eq!(durable_handle_check(None).err().unwrap().message, "credential handle is not registered");
    let blocked = EgressDecision {
        allowed: false,
        reason: "destination is not configured".to_string(),
        strongest_class: DataClass::Credential,
        destination: "x".to_string(),
    };
    let result = egress_check_result(&blocked, "EGR-2");
    assert_eq!(result.get("allowed").unwrap().as_bool(), Some(false));
    assert_eq!(result.get("strongest_class").unwrap().as_str(), Some("credential"));
}

#[test]
fn migrations_step_through_each_schema_and_refuse_future_stores() {
    assert_eq!(STORAGE_SCHEMA_VERSION, 7);
    assert_eq!(next_migration(0).ok(), Some(Some(1)));
    assert_eq!(next_migration(-2).ok(), Some(Some(1)));
    assert_eq!(next_migration(3).ok(), Some(Some(4)));
    assert_eq!(next_migration(6).ok(), Some(Some(7)));
    assert_eq!(next_migration(7).ok(), Some(None));
    let mut applied = Vec::new();
    let mut current = 0;
    while let Some(next) = next_migration(current).ok().unwrap() {
        applied.push(next);
        current = next;
    }
    assert_eq!(applied, vec![1, 2, 3, 4, 5, 6, 7]);
    let error = next_migration(8).err().unwrap();
    assert_eq!(error.code, "STORAGE_SCHEMA_FUTURE");
    assert_eq!(error.message, "storage schema 8 is newer than supported 7");
}

#[test]
fn baselines_start_a_new_ready_generation() {
    let first = baseline_index_state("alpha", None, 3, 120, "2024-01-01T00:00:00Z");
    assert_eq!((first.generation, first.baseline_generation), (1, 1));
    assert_eq!(first.status, "ready");
    assert!(!first.content_verification_required);
    assert_eq!((first.file_count, first.total_bytes), (3, 120));
    assert_eq!(first.last_reconciled_at, "2024-01-01T00:00:00Z");
    let again = baseline_index_state("alpha", Some(4), 0, u64::MAX, "later");
    assert_eq!((again.generation, again.baseline_generation), (5, 5));
    assert_eq!(again.total_bytes, i64::MAX as u64);
    let saturated = baseline_index_state("alpha", Some(i64::MAX), 0, 0, "later");
    assert_eq!(saturated.generation, i64::MAX);
}
