use relay::catalog::{compact_list, describe};
use relay::host::host_capabilities;
use relay::json::Json;
use relay::registry::{
    capability_ids, compare_object_schema_backward, is_error_allowed, is_surface_exposed,
    registry_source, render_cli_catalog, resolve_command, surface_command_ids, validate_registry,
    CommandRegistry, CommandSpec, ResolveError,
};
use relay::schema::validate_value;

fn s(v: &str) -> Json {
    Json::Str(v.to_string())
}

fn object(entries: Vec<(&str, Json)>) -> Json {
    Json::Object(entries.into_iter().map(|(k, v)| (k.to_string(), v)).collect())
}

fn strings(values: &[&str]) -> Vec<String> {
    values.iter().map(|v| v.to_string()).collect()
}

fn string_type() -> Json {
    object(vec![("type", s("string"))])
}

fn empty_object_schema() -> Json {
    object(vec![
        ("type", s("object")),
        ("properties", object(vec![])),
        ("additionalProperties", Json::Bool(false)),
    ])
}

fn command(id: &str, version: u32, surfaces: &[&str], summary: &str) -> CommandSpec {
    CommandSpec {
        id: id.to_string(),
        version,
        stability: "stable".to_string(),
        summary: summary.to_string(),
        effect_class: "observe".to_string(),
        permission: "read".to_string(),
        idempotency: "safe".to_string(),
        surfaces: strings(surfaces),
        arguments_schema: empty_object_schema(),
        result_schema: object(vec![("type", s("object"))]),
        errors: vec![],
    }
}

fn register_schema() -> Json {
    object(vec![
        ("type", s("object")),
        ("required", Json::Array(vec![s("name"), s("root_uri")])),
        ("properties", object(vec![("name", string_type()), ("root_uri", string_type())])),
        ("additionalProperties", Json::Bool(false)),
    ])
}

fn fixture() -> CommandRegistry {
    let mut register = command("project.register", 1, &["cli", "ai"], "Register a project");
    register.arguments_schema = register_schema();
    register.effect_class = "relay_state_write".to_string();
    register.permission = "state_write".to_string();
    register.errors = strings(&["PROJECT_PATH_INVALID"]);
    CommandRegistry {
        registry_format: 1,
        registry_id: "relay.commands".to_string(),
        schema_dialect: "https://json-schema.org/draft/2020-12/schema".to_string(),
        compatibility: object(vec![]),
        reserved_command_ids: strings(&["system.legacy"]),
        deprecated_command_ids: vec![],
        common_errors: strings(&["PERMISSION_DENIED", "INTERNAL_ERROR"]),
        error_schema: object(vec![
            ("type", s("object")),
            ("required", Json::Array(vec![s("code"), s("message")])),
            ("properties", object(vec![("code", string_type()), ("message", string_type())])),
        ]),
        commands: vec![
            command("system.status", 1, &["cli", "dashboard", "adapter"], "Host status"),
            command("registry.list", 1, &["cli", "dashboard"], "List commands"),
            command("system.shutdown", 1, &["cli"], "Stop the host"),
            register,
            command("result.put", 1, &["ai"], "Store a result"),
            command("result.get", 1, &["ai"], "Read a result"),
            command("result.get", 2, &["ai"], "Read a result, second contract"),
        ],
    }
}

#[test]
fn fixture_registry_is_valid() {
    assert!(validate_registry(&fixture()).is_ok());
}

#[test]
fn reserved_and_deprecated_ids_cannot_be_reused() {
    let mut candidate = fixture();
    candidate.reserved_command_ids.push("system.status".to_string());
    let error = validate_registry(&candidate).err().expect("reserved reuse must fail");
    assert_eq!(error.code, "REGISTRY_ID_REUSE");

    let mut candidate = fixture();
    candidate.deprecated_command_ids.push("system.status".to_string());
    let error = validate_registry(&candidate).err().expect("deprecated reuse must fail");
    assert_eq!(error.code, "REGISTRY_ID_REUSE");
}

#[test]
fn registry_rejects_wrong_format_dialect_and_duplicates() {
    let mut candidate = fixture();
    candidate.registry_format = 2;
    let error = validate_registry(&candidate).err().unwrap();
    assert_eq!(error.code, "REGISTRY_FORMAT_INCOMPATIBLE");
    assert_eq!(error.message, "registry format 2 is unsupported; expected 1");

    let mut candidate = fixture();
    candidate.schema_dialect = "draft-04".to_string();
    assert_eq!(validate_registry(&candidate).err().unwrap().code, "REGISTRY_SCHEMA_DIALECT_UNSUPPORTED");

    let mut candidate = fixture();
    candidate.commands.push(command("system.status", 1, &["cli"], "again"));
    let error = validate_registry(&candidate).err().unwrap();
    assert_eq!(error.code, "REGISTRY_INVALID");
    assert_eq!(error.message, "duplicate command contract system.status@1");

    let mut candidate = fixture();
    candidate.commands.push(command("system.zero", 0, &["cli"], "zero"));
    assert_eq!(validate_registry(&candidate).err().unwrap().code, "REGISTRY_INVALID");
}

#[test]
fn project_register_arguments_are_deterministically_validated() {
    let registry = fixture();
    let command = resolve_command(&registry, "project.register", Some(1)).ok().unwrap();
    validate_value(
        &command.arguments_schema,
        &object(vec![("name", s("Fixture")), ("root_uri", s("file:///fixture"))]),
    )
    .ok()
    .expect("valid args");

    let missing = validate_value(&command.arguments_schema, &object(vec![("root_uri", s("file:///fixture"))]))
        .err()
        .expect("missing name must fail");
    assert!(missing.message.contains("missing required property name"));

    let extra = validate_value(
        &command.arguments_schema,
        &object(vec![("name", s("Fixture")), ("root_uri", s("file:///fixture")), ("surprise", Json::Bool(true))]),
    )
    .err()
    .expect("unknown property must fail");
    assert!(extra.message.contains("additional property"));
}

#[test]
fn additive_optional_property_is_backward_compatible() {
    let old = object(vec![
        ("type", s("object")),
        ("required", Json::Array(vec![s("name")])),
        ("properties", object(vec![("name", string_type())])),
        ("additionalProperties", Json::Bool(false)),
    ]);
    let new = object(vec![
        ("type", s("object")),
        ("required", Json::Array(vec![s("name")])),
        ("properties", object(vec![("name", string_type()), ("note", string_type())])),
        ("additionalProperties", Json::Bool(false)),
    ]);
    let report = compare_object_schema_backward(&old, &new);
    assert!(report.backward_compatible);
    assert!(report.reasons.is_empty());
}

#[test]
fn adding_required_property_is_breaking() {
    let old = object(vec![
        ("type", s("object")),
        ("properties", object(vec![("name", string_type())])),
        ("additionalProperties", Json::Bool(false)),
    ]);
    let new = object(vec![
        ("type", s("object")),
        ("required", Json::Array(vec![s("name")])),
        ("properties", object(vec![("name", string_type())])),
        ("additionalProperties", Json::Bool(false)),
    ]);
    let report = compare_object_schema_backward(&old, &new);
    assert!(!report.backward_compatible);
    assert!(report.reasons[0].contains("new required property name"));
}

#[test]
fn registry_incompatible_command_version_is_explicit() {
    let registry = fixture();
    match resolve_command(&registry, "system.status", Some(999)) {
        Err(ResolveError::VersionIncompatible { supported }) => assert_eq!(supported, vec![1]),
        _ => panic!("unexpected resolution"),
    }
}

#[test]
fn resolution_prefers_the_latest_version_and_reports_unknown_ids() {
    let registry = fixture();
    assert_eq!(resolve_command(&registry, "result.get", None).ok().unwrap().version, 2);
    assert_eq!(resolve_command(&registry, "result.get", Some(1)).ok().unwrap().version, 1);
    assert!(matches!(resolve_command(&registry, "nope", None), Err(ResolveError::UnknownCommand)));
}

#[test]
fn compact_surface_metadata_comes_from_registry() {
    let registry = fixture();
    let dashboard = compact_list(&registry, Some("dashboard"), None, 200);
    let commands = dashboard.get("commands").unwrap().as_array().unwrap();
    let ids: Vec<&str> = commands.iter().map(|c| c.get("id").unwrap().as_str().unwrap()).collect();
    assert!(ids.contains(&"system.status"));
    assert!(ids.contains(&"registry.list"));
    assert!(!ids.contains(&"system.shutdown"));

    let ai = compact_list(&registry, Some("ai"), Some("result."), 200);
    assert_eq!(ai.get("commands").unwrap().as_array().unwrap().len(), 2);
}

#[test]
fn compact_list_is_sorted_latest_and_limited() {
    let registry = fixture();
    let all = compact_list(&registry, None, None, 3);
    let commands = all.get("commands").unwrap().as_array().unwrap();
    assert_eq!(commands.len(), 3);
    let ids: Vec<&str> = commands.iter().map(|c| c.get("id").unwrap().as_str().unwrap()).collect();
    assert_eq!(ids, vec!["project.register", "registry.list", "result.get"]);
    assert_eq!(commands[2].get("version").unwrap().as_i64(), Some(2));
    assert_eq!(all.get("registry_format").unwrap().as_i64(), Some(1));
}

#[test]
fn describe_returns_the_resolved_contract() {
    let registry = fixture();
    let described = describe(&registry, "result.get", Some(1)).ok().unwrap();
    let command = described.get("command").unwrap();
    assert_eq!(command.get("summary").unwrap().as_str(), Some("Read a result"));
    assert_eq!(command.get("version").unwrap().as_i64(), Some(1));
    assert_eq!(described.get("common_errors").unwrap().as_array().unwrap().len(), 2);
    assert!(matches!(describe(&registry, "nope", None), Err(ResolveError::UnknownCommand)));
}

#[test]
fn capabilities_and_surfaces_come_from_the_registry() {
    let registry = fixture();
    let caps = capability_ids(&registry);
    assert_eq!(caps[0], "project.register@1");
    assert!(caps.contains(&"result.get@2".to_string()));
    assert_eq!(caps.len(), 7);
    let host = host_capabilities(&registry);
    assert_eq!(host.len(), 10);
    assert!(host.contains(&"protocol.handshake@1".to_string()));
    let mut sorted = host.clone();
    sorted.sort();
    assert_eq!(sorted, host);
    assert!(is_surface_exposed(&registry, "system.status", "adapter"));
    assert!(!is_surface_exposed(&registry, "system.shutdown", "adapter"));
    assert_eq!(surface_command_ids(&registry, "dashboard"), strings(&["registry.list", "system.status"]));
    let catalog = render_cli_catalog(&registry);
    assert!(catalog.contains("system.status"));
}

#[test]
fn error_codes_are_checked_against_the_contract() {
    let registry = fixture();
    let register = resolve_command(&registry, "project.register", None).ok().unwrap();
    assert!(is_error_allowed(&registry, register, "PROJECT_PATH_INVALID"));
    assert!(is_error_allowed(&registry, register, "PERMISSION_DENIED"));
    assert!(is_error_allowed(&registry, register, "VALIDATION_FAILED"));
    assert!(!is_error_allowed(&registry, register, "SOMETHING_ELSE"));
}

#[test]
fn registry_source_drops_a_byte_order_mark() {
    assert_eq!(registry_source("\u{feff}{}"), "{}");
    assert_eq!(registry_source("{}"), "{}");
}

#[test]
fn a_schema_is_compatible_with_itself() {
    let schema = object(vec![
        ("type", s("object")),
        ("required", Json::Array(vec![s("name"), s("count")])),
        ("properties", object(vec![
            ("name", string_type()),
            ("count", object(vec![("type", s("integer")), ("minimum", Json::Int(0))])),
            ("tags", object(vec![("type", s("array")), ("items", string_type())])),
        ])),
        ("additionalProperties", Json::Bool(false)),
    ]);
    let report = compare_object_schema_backward(&schema, &schema);
    assert!(report.backward_compatible);
    assert!(report.reasons.is_empty());
    let scalar = string_type();
    assert!(compare_object_schema_backward(&scalar, &scalar).backward_compatible);
}
