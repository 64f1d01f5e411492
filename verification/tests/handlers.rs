use relay::handlers::{stored_read, StoredKind};
use relay::collections::StrSet;
use relay::contracts::{CommandRequest, RequestContext};
use relay::handlers::{
    bounded_rows, changes_window, core_capabilities, dependency_request, doctor_report,
    listing_limit, project_capabilities_report, provenance, recovery_state, redacted_project,
    transaction_list_limit, visible_projects, visible_transactions,
};
use relay::json::{to_compact, Json};
use relay::policy::ExecutionAuthority;
use relay::registry::{CommandRegistry, CommandSpec};
use relay::storage::{ProjectIndexState, ProjectRecord, StorageHealth, TransactionRecord};

fn s(v: &str) -> Json {
    Json::Str(v.to_string())
}

fn object(entries: Vec<(&str, Json)>) -> Json {
    Json::Object(entries.into_iter().map(|(k, v)| (k.to_string(), v)).collect())
}

const SHA: &str = "0123456789abcdef0123456789abcdef0123456789abcdef0123456789abcdef";

fn replacement(source: &str, targets: Vec<&str>) -> Json {
    object(vec![
        ("project_id", s("PRJ-1")),
        ("expected_generation", Json::Int(4)),
        ("source_path", s(source)),
        ("source_sha256", s(SHA)),
        ("producer_id", s("parser")),
        ("producer_version", s("1.0")),
        ("targets", Json::Array(targets.into_iter().map(s).collect())),
    ])
}

#[test]
fn dependency_replacements_normalize_and_bound_their_fields() {
    let ok = dependency_request(&replacement("src\\main.rs", vec!["lib/b.rs", "lib\\a.rs"]), true).ok().unwrap();
    assert_eq!(ok.project_id, "PRJ-1");
    assert_eq!(ok.expected_generation, 4);
    assert_eq!(ok.source_path, "src/main.rs");
    assert_eq!(ok.targets, vec!["lib/a.rs", "lib/b.rs"]);

    let error = dependency_request(&replacement("src/main.rs", vec!["src/main.rs"]), true).err().unwrap();
    assert_eq!(error.code, "VALIDATION_FAILED");
    assert_eq!(error.message, "dependency targets must be distinct project-relative files other than the source");
    let error = dependency_request(&replacement("src/main.rs", vec!["a.rs", "a.rs"]), true).err().unwrap();
    assert_eq!(error.code, "VALIDATION_FAILED");
    let error = dependency_request(&replacement("src/main.rs", vec!["./a.rs"]), true).err().unwrap();
    assert_eq!(error.code, "PROJECT_PATH_ESCAPE");
    let error = dependency_request(&replacement("C:/abs/main.rs", vec![]), true).err().unwrap();
    assert_eq!(error.code, "PROJECT_PATH_INVALID");
    let error = dependency_request(&replacement("src/main.rs", vec!["../up.rs"]), true).err().unwrap();
    assert_eq!(error.code, "PROJECT_PATH_ESCAPE");

    let mut bad_sha = replacement("src/main.rs", vec![]);
    if let Json::Object(entries) = &mut bad_sha {
        entries[3].1 = s("xyz");
    }
    let error = dependency_request(&bad_sha, true).err().unwrap();
    assert_eq!(error.message, "dependency replacement exceeds bounded field limits");
    let many: Vec<String> = (0..501).map(|i| format!("t{i}.rs")).collect();
    let error = dependency_request(&replacement("src/main.rs", many.iter().map(|t| t.as_str()).collect()), true).err().unwrap();
    assert_eq!(error.message, "dependency replacement exceeds bounded field limits");
}

fn index_state(baseline: i64, generation: i64, status: &str) -> ProjectIndexState {
    ProjectIndexState {
        project_id: "PRJ-1".to_string(),
        generation,
        baseline_generation: baseline,
        status: status.to_string(),
        content_verification_required: false,
        file_count: 1,
        total_bytes: 1,
        last_reconciled_at: "t".to_string(),
        updated_at: "t".to_string(),
    }
}

#[test]
fn change_windows_stay_between_baseline_and_current() {
    let state = index_state(3, 7, "ready");
    assert_eq!(changes_window(&state, &object(vec![])).ok(), Some(3));
    assert_eq!(changes_window(&state, &object(vec![("after_generation", Json::Int(5))])).ok(), Some(5));
    let error = changes_window(&state, &object(vec![("after_generation", Json::Int(2))])).err().unwrap();
    assert_eq!(error.code, "INDEX_CONTINUITY_LOST");
    assert_eq!(error.message, "requested generation precedes the current baseline");
    let error = changes_window(&state, &object(vec![("after_generation", Json::Int(8))])).err().unwrap();
    assert_eq!(error.code, "INDEX_GENERATION_CONFLICT");
    assert_eq!(listing_limit(&object(vec![])), 100);
    assert_eq!(listing_limit(&object(vec![("limit", Json::Int(7))])), 7);
    assert!(bounded_rows(7, 7, "INDEX_DELTA_TOO_LARGE", "too large").is_ok());
    let error = bounded_rows(8, 7, "INDEX_DELTA_TOO_LARGE", "too large").err().unwrap();
    assert_eq!(error.code, "INDEX_DELTA_TOO_LARGE");
    assert_eq!(transaction_list_limit(&object(vec![])), 50);
    assert_eq!(transaction_list_limit(&object(vec![("limit", Json::Int(0))])), 1);
    assert_eq!(transaction_list_limit(&object(vec![("limit", Json::Int(900))])), 200);
}

fn transaction(id: &str, project: Option<&str>) -> TransactionRecord {
    TransactionRecord {
        id: id.to_string(),
        project_id: project.map(|p| p.to_string()),
        request_id: "REQ".to_string(),
        command: "result.put".to_string(),
        effect_class: "relay_state_write".to_string(),
        permission: "state_write".to_string(),
        state: "COMPLETED".to_string(),
        actor_id: "a".to_string(),
        client_id: "c".to_string(),
        delegator_id: None,
        request_sha256: SHA.to_string(),
        intended_summary: "x".to_string(),
        before_ref: None,
        after_ref: None,
        verification: "verified".to_string(),
        result_id: None,
        job_id: None,
        rollback_status: "not_available".to_string(),
        created_at: "t".to_string(),
        updated_at: "t".to_string(),
    }
}

fn scoped(projects: &[&str]) -> ExecutionAuthority {
    let mut authority = ExecutionAuthority::local_user("cli".to_string());
    let mut scope = StrSet::new();
    for p in projects {
        scope.insert(p.to_string());
    }
    authority.project_ids = Some(scope);
    authority
}

#[test]
fn scoped_authorities_see_only_their_transactions() {
    let records = || vec![transaction("T1", Some("PRJ-1")), transaction("T2", None), transaction("T3", Some("PRJ-2")), transaction("T4", Some("PRJ-1"))];
    let ids = |v: Vec<TransactionRecord>| v.into_iter().map(|t| t.id).collect::<Vec<_>>();
    let unscoped = ExecutionAuthority::local_user("cli".to_string());
    assert_eq!(ids(visible_transactions(records(), None, &unscoped, 1)), vec!["T1", "T2", "T3", "T4"]);
    assert_eq!(ids(visible_transactions(records(), None, &scoped(&["PRJ-1"]), 50)), vec!["T1", "T4"]);
    assert_eq!(ids(visible_transactions(records(), None, &scoped(&["PRJ-1"]), 1)), vec!["T1"]);
    assert_eq!(ids(visible_transactions(records(), Some("PRJ-2"), &scoped(&["PRJ-1"]), 1)).len(), 4);
}

fn project(id: &str, root: &str) -> ProjectRecord {
    ProjectRecord {
        id: id.to_string(),
        name: id.to_lowercase(),
        root_uri: root.to_string(),
        created_at: "t".to_string(),
        updated_at: "t".to_string(),
    }
}

#[test]
fn project_lists_hide_local_paths_and_other_scopes() {
    let shown = redacted_project(project("PRJ-1", "/home/me/game"), true);
    assert_eq!(shown.root_uri, "local-project:PRJ-1");
    assert_eq!(shown.name, "prj-1");
    let kept = redacted_project(project("PRJ-1", "relative/game"), false);
    assert_eq!(kept.root_uri, "relative/game");

    let projects = || vec![project("PRJ-1", "/home/me/game"), project("PRJ-2", "shared/game")];
    let listed = visible_projects(projects(), &ExecutionAuthority::local_user("cli".to_string()));
    assert_eq!(listed.len(), 2);
    assert_eq!(listed[0].root_uri, "local-project:PRJ-1");
    assert_eq!(listed[1].root_uri, "shared/game");
    let listed = visible_projects(projects(), &scoped(&["PRJ-2"]));
    assert_eq!(listed.len(), 1);
    assert_eq!(listed[0].id, "PRJ-2");
}

#[test]
fn provenance_names_the_request_and_its_actors() {
    let request = CommandRequest {
        request_id: "REQ-9".to_string(),
        command: "result.put".to_string(),
        command_version: Some(1),
        arguments: object(vec![]),
        idempotency_key: None,
        context: RequestContext { actor_id: Some("ACTOR".to_string()), client_id: None, delegator_id: None },
    };
    assert_eq!(
        to_compact(&provenance(&request)),
        "{\"actor_id\":\"ACTOR\",\"client_id\":null,\"command\":\"result.put\",\"delegator_id\":null,\"request_id\":\"REQ-9\",\"source\":\"relay-core\"}"
    );
}

#[test]
fn core_capabilities_merge_the_registry_and_the_runtime() {
    let registry = CommandRegistry {
        registry_format: 1,
        registry_id: "relay.commands".to_string(),
        schema_dialect: "https://json-schema.org/draft/2020-12/schema".to_string(),
        compatibility: object(vec![]),
        reserved_command_ids: vec![],
        deprecated_command_ids: vec![],
        common_errors: vec![],
        error_schema: object(vec![]),
        commands: vec![CommandSpec {
            id: "system.status".to_string(),
            version: 1,
            stability: "stable".to_string(),
            summary: "status".to_string(),
            effect_class: "observe".to_string(),
            permission: "read".to_string(),
            idempotency: "safe".to_string(),
            surfaces: vec![],
            arguments_schema: object(vec![]),
            result_schema: object(vec![]),
            errors: vec![],
        }],
    };
    let runtime = vec!["protocol.handshake@1".to_string(), "system.status@1".to_string(), "a@1".to_string()];
    assert_eq!(core_capabilities(&registry, &runtime), vec!["a@1", "protocol.handshake@1", "system.status@1"]);
}

#[test]
fn capability_reports_follow_root_and_baseline() {
    let ready = index_state(1, 2, "ready");
    let report = project_capabilities_report("PRJ-1", Some(&ready), true);
    let text = to_compact(&report);
    assert!(text.starts_with("{\"baseline_state\":\"ready\",\"capabilities\":[{\"detail\":\"canonical project root is readable\",\"id\":\"filesystem.read\",\"state\":\"available\"}"));
    assert!(text.contains("{\"detail\":\"metadata reconciliation hashes only new or metadata-changed files\",\"id\":\"index.changed_only\",\"state\":\"available\"}"));
    assert!(text.ends_with("],\"project_id\":\"PRJ-1\"}"));
    let stale = index_state(1, 2, "stale");
    let text = to_compact(&project_capabilities_report("PRJ-1", Some(&stale), true));
    assert!(text.starts_with("{\"baseline_state\":\"missing\""));
    assert!(text.contains("\"id\":\"dependency_edges\",\"state\":\"unknown\""));
    let text = to_compact(&project_capabilities_report("PRJ-1", None, false));
    assert!(text.starts_with("{\"baseline_state\":\"unavailable\""));
    assert!(text.contains("{\"detail\":\"project root is unavailable\",\"id\":\"index.baseline\",\"state\":\"unavailable\"}"));
}

#[test]
fn doctor_names_the_first_part_needing_attention() {
    let healthy = StorageHealth { ok: true, check: "ok".to_string(), schema_version: Some(7), sqlite_version: None, error: None };
    let report = doctor_report(42, &healthy, true, &None, true);
    assert_eq!(
        to_compact(&report),
        "{\"checks\":[{\"detail\":\"PID 42\",\"id\":\"core.process\",\"status\":\"pass\"},{\"detail\":\"SQLite quick_check: ok\",\"id\":\"storage.integrity\",\"status\":\"pass\"},{\"detail\":\"bounded structured diagnostics available\",\"id\":\"diagnostics.capture\",\"status\":\"pass\"},{\"detail\":\"local transport healthy\",\"id\":\"transport.local\",\"status\":\"pass\"}],\"healthy\":true,\"next_action\":null,\"summary\":\"RELAY Core, storage, diagnostics, and local transport are healthy.\"}"
    );
    let broken = StorageHealth::unavailable("disk gone".to_string());
    let text = to_compact(&doctor_report(1, &broken, false, &Some("log full".to_string()), true));
    assert!(text.contains("{\"detail\":\"disk gone\",\"id\":\"storage.integrity\",\"status\":\"fail\"}"));
    assert!(text.contains("{\"detail\":\"log full\",\"id\":\"diagnostics.capture\",\"status\":\"fail\"}"));
    assert!(text.contains("\"next_action\":\"Protect and inspect operational storage before writes.\""));
    let text = to_compact(&doctor_report(1, &healthy, true, &None, false));
    assert!(text.contains("\"summary\":\"RELAY Core is healthy, but local transport needs attention.\""));
    assert_eq!(recovery_state(true, true, true), "Healthy");
    assert_eq!(recovery_state(true, false, true), "Degraded");
}

#[test]
fn stored_reads_are_found_and_scoped() {
    let unscoped = ExecutionAuthority::local_user("cli".to_string());
    let error = stored_read(StoredKind::Result, None, &unscoped).err().unwrap();
    assert_eq!((error.code, error.message.as_str()), ("RESULT_NOT_FOUND", "result not found"));
    let error = stored_read(StoredKind::Job, None, &unscoped).err().unwrap();
    assert_eq!((error.code, error.message.as_str()), ("JOB_NOT_FOUND", "job not found"));
    assert!(stored_read(StoredKind::Result, Some(None), &unscoped).is_ok());
    let alpha = scoped(&["alpha"]);
    assert!(stored_read(StoredKind::Job, Some(Some("alpha")), &alpha).is_ok());
    let error = stored_read(StoredKind::Result, Some(None), &alpha).err().unwrap();
    assert_eq!(error.code, "PROJECT_SCOPE_REQUIRED");
    let error = stored_read(StoredKind::Job, Some(Some("beta")), &alpha).err().unwrap();
    assert_eq!((error.code, error.message.as_str()), ("PROJECT_SCOPE_DENIED", "project beta is outside the granted scope"));
}
