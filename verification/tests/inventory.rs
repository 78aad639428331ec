use opcgw::chirpstack_inventory::{InventoryApplication, InventoryDevice};
use opcgw::utils::OpcGwError;
use opcgw::web::inventory::{
    chirpstack_failure_reason, normalise_dev_eui, sort_by_lowercase_name, ApplicationsQuery, DevicesQuery,
    InventoryApplicationsResponse, InventoryDevicesResponse, InventoryMeasurementsResponse, InventoryQueryError,
    MeasurementsQuery, QueryParam, UplinksQuery, UPLINKS_LIMIT_CAP, UPLINKS_LIMIT_DEFAULT,
};

#[test]
fn normalise_dev_eui_accepts_lowercase_hex() {
    assert_eq!(normalise_dev_eui("a84041b8a1867e20"), Some("a84041b8a1867e20".to_string()));
}

#[test]
fn normalise_dev_eui_accepts_uppercase_hex() {
    assert_eq!(normalise_dev_eui("A84041B8A1867E20"), Some("a84041b8a1867e20".to_string()));
}

#[test]
fn normalise_dev_eui_strips_colons() {
    assert_eq!(normalise_dev_eui("a8:40:41:b8:a1:86:7e:20"), Some("a84041b8a1867e20".to_string()));
}

#[test]
fn normalise_dev_eui_strips_dashes() {
    assert_eq!(normalise_dev_eui("a8-40-41-b8-a1-86-7e-20"), Some("a84041b8a1867e20".to_string()));
}

#[test]
fn normalise_dev_eui_rejects_wrong_length() {
    assert_eq!(normalise_dev_eui("a84041b8"), None);
    assert_eq!(normalise_dev_eui("a84041b8a1867e2012"), None);
}

#[test]
fn normalise_dev_eui_rejects_non_hex() {
    assert_eq!(normalise_dev_eui("zzzz041b8a1867e20"), None);
}

#[test]
fn applications_query_force_refresh_recognises_true_variants() {
    let q = ApplicationsQuery { refresh: Some("true".to_string()) };
    assert!(q.force_refresh());
    let q = ApplicationsQuery { refresh: Some("1".to_string()) };
    assert!(q.force_refresh());
    let q = ApplicationsQuery { refresh: Some("foo".to_string()) };
    assert!(!q.force_refresh());
}

#[test]
fn applications_query_force_refresh_defaults_false() {
    let q = ApplicationsQuery::default();
    assert!(!q.force_refresh());
}

#[test]
fn measurements_query_force_refresh_recognises_true_variants() {
    let q = MeasurementsQuery { dev_eui: Some("a84041b8a1867e20".to_string()), refresh: Some("true".to_string()) };
    assert!(q.force_refresh());
    let q = MeasurementsQuery { dev_eui: None, refresh: Some("1".to_string()) };
    assert!(q.force_refresh());
    let q = MeasurementsQuery { dev_eui: None, refresh: Some("foo".to_string()) };
    assert!(!q.force_refresh());
}

#[test]
fn measurements_query_force_refresh_defaults_false() {
    let q = MeasurementsQuery::default();
    assert!(!q.force_refresh());
}

#[test]
fn chirpstack_failure_reason_classifies_local_cancellation_as_shutdown() {
    let local_entry = OpcGwError::ChirpStack("cancelled during shutdown".into());
    assert_eq!(chirpstack_failure_reason(&local_entry), "shutdown_cancellation");
    let local_loop = OpcGwError::ChirpStack("cancelled mid-pagination during shutdown".into());
    assert_eq!(chirpstack_failure_reason(&local_loop), "shutdown_cancellation");
}

#[test]
fn chirpstack_failure_reason_does_not_false_positive_on_tonic_cancelled() {
    let tonic_cancel = OpcGwError::ChirpStack(
        "list_applications gRPC error: status: 'Cancelled', message: \"call cancelled by server\"".into(),
    );
    assert_ne!(
        chirpstack_failure_reason(&tonic_cancel),
        "shutdown_cancellation",
        "bare substring \"cancelled\" must NOT classify as shutdown_cancellation"
    );
    assert_eq!(chirpstack_failure_reason(&tonic_cancel), "chirpstack_grpc_error");
}

#[test]
fn chirpstack_failure_reason_classifies_auth_unreachable_grpc() {
    let auth = OpcGwError::ChirpStack("list_applications gRPC error: auth failed".into());
    assert_eq!(chirpstack_failure_reason(&auth), "chirpstack_auth_failed");

    let unreachable = OpcGwError::ChirpStack("connect failed: refused".into());
    assert_eq!(chirpstack_failure_reason(&unreachable), "chirpstack_unreachable");

    let generic = OpcGwError::ChirpStack("internal: code 13".into());
    assert_eq!(chirpstack_failure_reason(&generic), "chirpstack_grpc_error");
}

// ---------------------------------------------------------------------

#[test]
fn failure_reason_is_case_insensitive_and_prefers_cancellation() {
    let e = OpcGwError::ChirpStack("Transport closed: CANCELLED DURING SHUTDOWN, permission lost".into());
    assert_eq!(chirpstack_failure_reason(&e), "shutdown_cancellation");
    let e = OpcGwError::ChirpStack("PERMISSION denied while connecting".into());
    assert_eq!(chirpstack_failure_reason(&e), "chirpstack_auth_failed");
    let e = OpcGwError::ChirpStack("host UNREACHABLE".into());
    assert_eq!(chirpstack_failure_reason(&e), "chirpstack_unreachable");
}

#[test]
fn failure_reason_of_other_errors_is_grpc_error() {
    let e = OpcGwError::Storage("auth connect cancelled during shutdown".into());
    assert_eq!(chirpstack_failure_reason(&e), "chirpstack_grpc_error");
    let e = OpcGwError::Web("unreachable".into());
    assert_eq!(chirpstack_failure_reason(&e), "chirpstack_grpc_error");
}

#[test]
fn normalise_dev_eui_strips_spaces_and_mixed_separators() {
    assert_eq!(normalise_dev_eui(" A8 40-41:B8 a1 86 7E 20 "), Some("a84041b8a1867e20".to_string()));
    assert_eq!(normalise_dev_eui(""), None);
    assert_eq!(normalise_dev_eui("::::"), None);
    assert_eq!(normalise_dev_eui("a84041b8a1867e2g"), None);
    assert_eq!(normalise_dev_eui("é84041b8a1867e2"), None);
}

#[test]
fn devices_query_requires_application_id() {
    let q = DevicesQuery { application_id: Some("app-1".to_string()), refresh: None };
    assert_eq!(q.application_id_param(), Ok("app-1".to_string()));
    let q = DevicesQuery { application_id: Some(String::new()), refresh: Some("1".to_string()) };
    assert_eq!(q.application_id_param(), Err(InventoryQueryError::MissingQueryParam(QueryParam::ApplicationId)));
    assert!(q.force_refresh());
    let q = DevicesQuery::default();
    assert_eq!(q.application_id_param(), Err(InventoryQueryError::MissingQueryParam(QueryParam::ApplicationId)));
    assert_eq!(QueryParam::ApplicationId.as_str(), "application_id");
    assert_eq!(QueryParam::DevEui.as_str(), "dev_eui");
}

#[test]
fn measurements_query_validates_dev_eui() {
    let q = MeasurementsQuery { dev_eui: Some("A8:40:41:B8:A1:86:7E:20".to_string()), refresh: None };
    assert_eq!(q.dev_eui_param(), Ok("a84041b8a1867e20".to_string()));
    let q = MeasurementsQuery { dev_eui: Some("xyz".to_string()), refresh: None };
    assert_eq!(q.dev_eui_param(), Err(InventoryQueryError::InvalidDevEui));
    let q = MeasurementsQuery::default();
    assert_eq!(q.dev_eui_param(), Err(InventoryQueryError::MissingQueryParam(QueryParam::DevEui)));
}

#[test]
fn uplinks_query_limit_defaults_and_cap() {
    let eui = Some("a84041b8a1867e20".to_string());
    let q = UplinksQuery { dev_eui: eui.clone(), limit: None };
    assert_eq!(q.params(), Ok(("a84041b8a1867e20".to_string(), UPLINKS_LIMIT_DEFAULT)));
    let q = UplinksQuery { dev_eui: eui.clone(), limit: Some(UPLINKS_LIMIT_CAP) };
    assert_eq!(q.params(), Ok(("a84041b8a1867e20".to_string(), 50)));
    let q = UplinksQuery { dev_eui: eui.clone(), limit: Some(51) };
    assert_eq!(q.params(), Err(InventoryQueryError::LimitOutOfRange { cap: 50, received: 51 }));
    let q = UplinksQuery { dev_eui: None, limit: Some(51) };
    assert_eq!(q.params(), Err(InventoryQueryError::MissingQueryParam(QueryParam::DevEui)));
    let q = UplinksQuery { dev_eui: Some("bad".to_string()), limit: Some(5) };
    assert_eq!(q.params(), Err(InventoryQueryError::InvalidDevEui));
    assert_eq!(UplinksQuery::default().params(), Err(InventoryQueryError::MissingQueryParam(QueryParam::DevEui)));
}

fn app(id: &str, name: &str) -> InventoryApplication {
    InventoryApplication { id: id.to_string(), name: name.to_string(), description: String::new() }
}

#[test]
fn listing_is_sorted_by_lowercase_name_and_stable() {
    let items = vec![app("1", "beta"), app("2", "Alpha"), app("3", "BETA"), app("4", "alpha"), app("5", "Émile")];
    let sorted = sort_by_lowercase_name(items);
    let ids: Vec<&str> = sorted.iter().map(|a| a.id.as_str()).collect();
    assert_eq!(ids, vec!["2", "4", "1", "3", "5"]);
}

#[test]
fn device_listing_is_sorted_by_lowercase_name() {
    let dev = |eui: &str, name: &str| InventoryDevice {
        dev_eui: eui.to_string(),
        name: name.to_string(),
        description: String::new(),
        device_profile_name: None,
        last_seen_at: None,
    };
    let sorted = sort_by_lowercase_name(vec![dev("a", "Zed"), dev("b", "ÄPFEL"), dev("c", "apfel"), dev("d", "yak")]);
    let euis: Vec<&str> = sorted.iter().map(|d| d.dev_eui.as_str()).collect();
    assert_eq!(euis, vec!["c", "d", "a", "b"]);
    assert!(sort_by_lowercase_name(Vec::<InventoryDevice>::new()).is_empty());
}

#[test]
fn response_envelopes_count_their_items() {
    let r = InventoryApplicationsResponse::new(vec![app("1", "a"), app("2", "b")], "miss", "t".to_string());
    assert_eq!(r.count, 2);
    assert_eq!(r.cache_status, "miss");
    let r = InventoryDevicesResponse::new(vec![], "hit", "t".to_string(), "app-1".to_string());
    assert_eq!(r.count, 0);
    assert_eq!(r.application_id, "app-1");
    let r = InventoryMeasurementsResponse::new(vec![1u8, 2, 3], "bypassed", "t".to_string(), "e".to_string(), "p".to_string());
    assert_eq!(r.count, 3);
    assert_eq!(r.device_profile_id, "p");
}

#[test]
fn normalised_dev_eui_normalises_to_itself() {
    let once = normalise_dev_eui("A8-40-41-B8-A1-86-7E-20").unwrap();
    assert_eq!(normalise_dev_eui(&once), Some(once.clone()));
}
