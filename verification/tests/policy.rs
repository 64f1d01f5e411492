use relay::collections::StrSet;
use relay::policy::{CredentialHandle, DataClass, DataClassSet, DestinationPolicy, EgressRequest, ExecutionAuthority};

fn set(values: &[&str]) -> StrSet {
    let mut s = StrSet::new();
    for v in values {
        s.insert(v.to_string());
    }
    s
}

fn request(destination: &str, classes: Vec<DataClass>, bytes: u64) -> EgressRequest {
    EgressRequest {
        destination: destination.to_string(),
        project_id: Some("PRJ-fixture".to_string()),
        data_classes: classes,
        modalities: vec!["text".to_string()],
        approx_bytes: bytes,
        source_refs: vec!["RES-fixture".to_string()],
        purpose: "diagnose".to_string(),
        credential_handle: None,
    }
}

fn remote_policy() -> DestinationPolicy {
    DestinationPolicy {
        remote: true,
        allowed_classes: DataClassSet::from_slice(&[DataClass::Project]),
        allowed_modalities: set(&["text"]),
        allowed_projects: None,
        max_bytes: Some(1024),
    }
}

#[test]
fn data_class_propagation_uses_strongest_source() {
    assert_eq!(
        DataClass::strongest(&[DataClass::Public, DataClass::Sensitive, DataClass::Project]),
        DataClass::Sensitive
    );
}

#[test]
fn strongest_of_nothing_is_public() {
    assert_eq!(DataClass::strongest(&[]), DataClass::Public);
    assert_eq!(DataClass::strongest(&[DataClass::Credential, DataClass::Public]), DataClass::Credential);
}

#[test]
fn local_only_blocks_remote_egress() {
    let mut authority = ExecutionAuthority::local_user("test".to_string());
    authority.egress.destinations.insert("remote-ai".to_string(), remote_policy());
    let decision = authority.evaluate_egress(&request("remote-ai", vec![DataClass::Project], 100));
    assert!(!decision.allowed);
    assert!(decision.reason.contains("local-only"));
}

#[test]
fn credentials_are_handles_not_egress_payload() {
    let authority = ExecutionAuthority::local_user("test".to_string());
    let decision = authority.evaluate_egress(&EgressRequest {
        destination: "local".to_string(),
        project_id: None,
        data_classes: vec![DataClass::Credential],
        modalities: vec!["text".to_string()],
        approx_bytes: 1,
        source_refs: vec![],
        purpose: "fixture".to_string(),
        credential_handle: None,
    });
    assert!(!decision.allowed);
    assert!(decision.reason.contains("credential"));
}

#[test]
fn project_scope_fails_closed() {
    let mut authority = ExecutionAuthority::local_user("test".to_string());
    authority.project_ids = Some(set(&["PRJ-allowed"]));
    assert!(authority.require_project(Some("PRJ-allowed")).is_ok());
    let error = authority.require_project(Some("PRJ-other")).unwrap_err();
    assert_eq!(error.code, "PROJECT_SCOPE_DENIED");
    assert_eq!(error.message, "project PRJ-other is outside the granted scope");
    let error = authority.require_project(None).unwrap_err();
    assert_eq!(error.code, "PROJECT_SCOPE_REQUIRED");
}

#[test]
fn unscoped_authority_admits_every_project() {
    let authority = ExecutionAuthority::local_user("test".to_string());
    assert!(authority.require_project(None).is_ok());
    assert!(authority.require_project(Some("PRJ-any")).is_ok());
}

#[test]
fn local_destination_allows_project_data_within_policy() {
    let authority = ExecutionAuthority::local_user("test".to_string());
    let decision = authority.evaluate_egress(&request("local", vec![DataClass::Project, DataClass::Public], 10));
    assert!(decision.allowed);
    assert_eq!(decision.reason, "egress request is within configured policy");
    assert_eq!(decision.strongest_class, DataClass::Project);
    assert_eq!(decision.destination, "local");
}

#[test]
fn egress_checks_report_each_refusal() {
    let mut authority = ExecutionAuthority::local_user("test".to_string());
    authority.egress.local_only = false;
    authority.egress.destinations.insert("remote-ai".to_string(), remote_policy());
    let unknown = authority.evaluate_egress(&request("elsewhere", vec![DataClass::Project], 1));
    assert_eq!(unknown.reason, "destination is not configured");
    let class = authority.evaluate_egress(&request("remote-ai", vec![DataClass::Sensitive], 1));
    assert_eq!(class.reason, "data class Sensitive is not allowed for destination");
    let budget = authority.evaluate_egress(&request("remote-ai", vec![DataClass::Project], 2048));
    assert_eq!(budget.reason, "payload exceeds destination byte budget 1024");
    let mut images = request("remote-ai", vec![DataClass::Project], 1);
    images.modalities = vec!["image".to_string()];
    let modality = authority.evaluate_egress(&images);
    assert_eq!(modality.reason, "one or more modalities are not allowed");
    let ok = authority.evaluate_egress(&request("remote-ai", vec![DataClass::Project], 1024));
    assert!(ok.allowed);
}

#[test]
fn permission_and_effect_checks_name_what_is_missing() {
    let authority = ExecutionAuthority::local_user("test".to_string());
    assert!(authority.require_permission("read").is_ok());
    let error = authority.require_permission("project_write").unwrap_err();
    assert_eq!(error.code, "PERMISSION_DENIED");
    assert_eq!(error.message, "permission project_write is not granted");
    assert!(authority.require_effect("observe").is_ok());
    let error = authority.require_effect("destructive").unwrap_err();
    assert_eq!(error.code, "EFFECT_NOT_ALLOWED");
}

#[test]
fn credential_handles_must_be_granted_active_and_scoped() {
    let mut authority = ExecutionAuthority::local_user("test".to_string());
    assert_eq!(authority.require_credential_handle("CRED-1", None).err().unwrap().code, "CREDENTIAL_HANDLE_DENIED");
    authority.credential_handles.insert(
        "CRED-1".to_string(),
        CredentialHandle::active("CRED-1".to_string(), "github".to_string(), vec!["read".to_string()]),
    );
    assert!(authority.require_credential_handle("CRED-1", Some("read")).is_ok());
    let error = authority.require_credential_handle("CRED-1", Some("egress")).err().unwrap();
    assert_eq!(error.code, "CREDENTIAL_SCOPE_DENIED");
    assert_eq!(error.message, "credential handle does not grant scope egress");
    let mut revoked = CredentialHandle::active("CRED-2".to_string(), "github".to_string(), vec![]);
    revoked.status = "revoked".to_string();
    authority.credential_handles.insert("CRED-2".to_string(), revoked);
    assert_eq!(authority.require_credential_handle("CRED-2", None).err().unwrap().code, "CREDENTIAL_HANDLE_REVOKED");
}
