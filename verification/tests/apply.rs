use opcgw::web::apply::{apply_failed_flag, clear_apply_failed, config_apply_decision, mark_apply_failed, ApplyFailedFlag};
use opcgw::web::config_io::{
    export_keeps_section, export_plan, import_refusal, is_secret_field, ExportSection, ImportFailure, ImportRequest,
};

#[test]
fn apply_failed_flag_roundtrips() {
    let mut flag = ApplyFailedFlag::new();
    clear_apply_failed(&mut flag);
    assert!(!apply_failed_flag(&flag), "flag must start cleared");
    mark_apply_failed(&mut flag);
    assert!(apply_failed_flag(&flag), "mark_apply_failed must set the flag");
    clear_apply_failed(&mut flag);
    assert!(!apply_failed_flag(&flag), "clear_apply_failed must reset the flag");
}

#[test]
fn apply_without_pending_changes_restarts_nothing() {
    let mut flag = ApplyFailedFlag::new();
    mark_apply_failed(&mut flag);
    let reply = config_apply_decision(false, &mut flag);
    assert_eq!(reply.status, 200);
    assert_eq!(reply.status_text, "no_pending_changes");
    assert!(!reply.had_pending_changes);
    assert!(!reply.wake_supervisor);
    assert!(apply_failed_flag(&flag));
}

#[test]
fn apply_with_pending_changes_clears_failure_and_wakes_supervisor() {
    let mut flag = ApplyFailedFlag::new();
    mark_apply_failed(&mut flag);
    let reply = config_apply_decision(true, &mut flag);
    assert_eq!(reply.status, 202);
    assert_eq!(reply.status_text, "apply_requested");
    assert!(reply.had_pending_changes);
    assert!(reply.wake_supervisor);
    assert!(!apply_failed_flag(&flag));
}

#[test]
fn export_drops_host_sections_and_secrets() {
    assert!(!export_keeps_section("storage"));
    assert!(!export_keeps_section("logging"));
    assert!(!export_keeps_section("command_validation"));
    assert!(export_keeps_section("chirpstack"));
    assert!(export_keeps_section("opcua"));
    assert!(export_keeps_section("application"));
    assert!(is_secret_field("chirpstack", "api_token"));
    assert!(is_secret_field("opcua", "user_password"));
    assert!(!is_secret_field("opcua", "api_token"));
    assert!(!is_secret_field("chirpstack", "server_address"));
}

#[test]
fn import_refusals_are_bad_requests_with_stable_reasons() {
    let r = import_refusal(ImportFailure::InvalidJson);
    assert_eq!((r.status, r.reason), (400, "invalid_json"));
    assert_eq!(r.hint, "POST a JSON body of the shape {\"toml\": \"<config text>\"}");
    let r = import_refusal(ImportFailure::InvalidToml);
    assert_eq!((r.status, r.reason), (400, "invalid_toml"));
    let r = import_refusal(ImportFailure::ConfigInvalid);
    assert_eq!((r.status, r.reason), (400, "config_invalid"));
    assert!(r.hint.ends_with("The full error is in the gateway log."));
    let req = ImportRequest { toml: "[global]".to_string() };
    assert_eq!(req.toml, "[global]");
}

#[test]
fn export_plan_keeps_public_sections_without_secrets() {
    let section = |name: &str, fields: Option<Vec<&str>>| ExportSection {
        name: name.to_string(),
        fields: fields.map(|f| f.into_iter().map(String::from).collect()),
    };
    let input = vec![
        section("chirpstack", Some(vec!["api_token", "server_address", "tenant_id"])),
        section("logging", Some(vec!["dir"])),
        section("opcua", Some(vec!["user_name", "user_password"])),
        section("storage", Some(vec!["database_path"])),
        section("application", None),
    ];
    let plan = export_plan(&input);
    assert_eq!(
        plan,
        vec![
            section("chirpstack", Some(vec!["server_address", "tenant_id"])),
            section("opcua", Some(vec!["user_name"])),
            section("application", None),
        ]
    );
}
