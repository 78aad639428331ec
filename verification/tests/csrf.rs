use opcgw::web::csrf::{
    content_type_is_json, csrf_event_resource_for_path, extract_origin, is_state_changing, normalise_origin, CsrfState,
};

#[test]
fn normalise_origin_strips_trailing_slash_and_lowercases_scheme_host() {
    assert_eq!(normalise_origin("HTTP://Gateway.Local:8080/"), "http://gateway.local:8080");
    assert_eq!(normalise_origin("http://127.0.0.1:8080"), "http://127.0.0.1:8080");
}

#[test]
fn normalise_origin_drops_default_ports() {
    assert_eq!(normalise_origin("http://gateway.local:80"), "http://gateway.local");
    assert_eq!(normalise_origin("HTTPS://Gateway.Local:443/"), "https://gateway.local");
    assert_eq!(normalise_origin("http://gateway.local:8080"), "http://gateway.local:8080");
    assert_eq!(normalise_origin("https://gateway.local:80"), "https://gateway.local:80");
}

#[test]
fn extract_origin_rejects_multiple_origin_headers() {
    let h = vec![Some("http://allowed:8080".to_string()), Some("http://evil.example".to_string())];
    assert_eq!(extract_origin(&h), None);
}

#[test]
fn extract_origin_fails_closed_on_origin_null_no_referer_fallback() {
    let h = vec![Some("null".to_string())];
    assert_eq!(extract_origin(&h), None);
}

#[test]
fn extract_origin_does_not_fall_back_to_referer() {
    let h: Vec<Option<String>> = vec![];
    assert_eq!(extract_origin(&h), None);
}

#[test]
fn content_type_json_accepts_charset_suffix() {
    assert!(content_type_is_json(Some("application/json; charset=utf-8")));
    assert!(content_type_is_json(Some("application/json")));
    assert!(!content_type_is_json(Some("text/plain")));
}

#[test]
fn content_type_json_rejects_space_followed_by_garbage() {
    assert!(!content_type_is_json(Some("application/json badness=true")));
}

#[test]
fn is_state_changing_uses_positive_allow_list() {
    assert!(!is_state_changing("GET"));
    assert!(!is_state_changing("HEAD"));
    assert!(!is_state_changing("OPTIONS"));
    assert!(is_state_changing("POST"));
    assert!(is_state_changing("PUT"));
    assert!(is_state_changing("DELETE"));
    assert!(is_state_changing("PATCH"));
    assert!(is_state_changing("CONNECT"));
    assert!(is_state_changing("TRACE"));
}

#[test]
fn csrf_event_resource_for_path_maps_correctly() {
    assert_eq!(csrf_event_resource_for_path("/api/applications"), "application");
    assert_eq!(csrf_event_resource_for_path("/api/applications/"), "application");
    assert_eq!(csrf_event_resource_for_path("/api/applications/foo"), "application");
    assert_eq!(csrf_event_resource_for_path("/api/applications/foo/"), "application");
    assert_eq!(csrf_event_resource_for_path("/api/applications/foo/devices"), "device");
    assert_eq!(csrf_event_resource_for_path("/api/applications/foo/devices/bar"), "device");
    assert_eq!(csrf_event_resource_for_path("/api/applications/foo/devices/bar/"), "device");
    assert_eq!(csrf_event_resource_for_path("/api/applications/foo/devices/bar/commands"), "command");
    assert_eq!(csrf_event_resource_for_path("/api/applications/foo/devices/bar/commands/1"), "command");
    assert_eq!(csrf_event_resource_for_path("/api/health"), "unknown");
    assert_eq!(csrf_event_resource_for_path("/api/devices"), "unknown");
    assert_eq!(csrf_event_resource_for_path("/dashboard.html"), "unknown");
    assert_eq!(csrf_event_resource_for_path("/"), "unknown");
    assert_eq!(csrf_event_resource_for_path("/api/applications/foo/devicesXYZ"), "application");
    assert_eq!(csrf_event_resource_for_path("/api/applications//devices"), "device");
    assert_eq!(csrf_event_resource_for_path("/api/applications/foo/devices//commands"), "command");
    assert_eq!(csrf_event_resource_for_path("/api/applications/foo/devices/bar/commands/"), "command");
}

// ---------------------------------------------------------------------

#[test]
fn csrf_passes_safe_methods_without_origin() {
    let state = CsrfState::new(vec!["http://127.0.0.1:8080".to_string()]);
    assert!(state.check("GET", &vec![], None).is_ok());
    assert!(state.check("HEAD", &vec![], None).is_ok());
}

#[test]
fn csrf_rejects_post_without_origin_or_json() {
    let state = CsrfState::new(vec!["http://127.0.0.1:8080".to_string()]);
    let e = state.check("POST", &vec![], Some("application/json")).unwrap_err();
    assert_eq!(e.status, 403);
    let e = state
        .check("POST", &vec![Some("http://127.0.0.1:8080".to_string())], Some("application/x-www-form-urlencoded"))
        .unwrap_err();
    assert_eq!(e.status, 415);
}

#[test]
fn csrf_accepts_same_origin_json_and_rejects_cross_origin() {
    let state = CsrfState::new(vec!["HTTP://127.0.0.1:8080/".to_string()]);
    assert!(state.check("POST", &vec![Some("http://127.0.0.1:8080".to_string())], Some("application/json")).is_ok());
    let e = state
        .check("POST", &vec![Some("http://evil.example.com".to_string())], Some("application/json"))
        .unwrap_err();
    assert_eq!(e.status, 403);
}
