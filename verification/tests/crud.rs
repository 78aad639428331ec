use opcgw::config::{AppConfig, OpcUaConfig};
use opcgw::config::{make_app, make_device};
use opcgw::web::api::{
    validate_application_field, validate_device_field, validate_path_application_id, validate_path_device_id,
    CreateDeviceRequest, ErrorResponse, MetricMappingRequest,
};
use opcgw::web::crud::{
    create_application_in_doc, create_device_in_doc, delete_application_in_doc, delete_device_in_doc,
    precheck_delete_application, update_application_in_doc, update_device_in_doc,
};
use opcgw::web::config_doc::knob_in_delta;
use toml_edit::DocumentMut;

const DOC: &str = r#"
# operator comment kept
[global]
debug = true

[[application]]
application_name = "Building Sensors"
application_id = "app-1"

[[application.device]]
device_id = "dev-1"
device_name = "Dev 1"
"#;

fn doc() -> DocumentMut {
    DOC.parse::<DocumentMut>().unwrap()
}

fn app_ids(doc: &DocumentMut) -> Vec<String> {
    doc["application"]
        .as_array_of_tables()
        .unwrap()
        .iter()
        .map(|t| t["application_id"].as_str().unwrap().to_string())
        .collect()
}

fn dev_ids(doc: &DocumentMut, app: usize) -> Vec<String> {
    match doc["application"].as_array_of_tables().unwrap().get(app).unwrap().get("device") {
        Some(item) => item
            .as_array_of_tables()
            .unwrap()
            .iter()
            .map(|t| t["device_id"].as_str().unwrap().to_string())
            .collect(),
        None => vec![],
    }
}

#[test]
fn path_ids_are_checked() {
    assert!(validate_path_application_id("app-1").is_ok());
    let e = validate_path_application_id("app\nid").unwrap_err();
    assert_eq!(e.status, 400);
    assert_eq!(e.body.error, "application_id in URL path contains invalid character");
    let e = validate_path_device_id("").unwrap_err();
    assert_eq!(e.body.error, "device_id in URL path must be 1..=256 characters");
    let long = "a".repeat(257);
    assert!(validate_path_device_id(&long).is_err());
    assert!(validate_path_device_id(&"a".repeat(256)).is_ok());
}

#[test]
fn body_fields_are_checked() {
    let e = validate_application_field("application_name", "   ").unwrap_err();
    assert_eq!(e.body.error, "application_name must not be empty or whitespace-only");
    let e = validate_application_field("application_id", "bad id").unwrap_err();
    assert_eq!(e.body.error, "application_id contains invalid character ' '");
    assert!(validate_application_field("application_name", "Sensors (East)").is_ok());
    let e = validate_application_field("application_name", &"x".repeat(300)).unwrap_err();
    assert_eq!(e.body.error, "application_name length 300 exceeds maximum of 256");
    assert_eq!(e.body.hint.as_deref(), Some("shorten application_name to <= 256 characters"));
    assert!(validate_device_field("device_id", "dev-1").is_ok());
    assert!(validate_device_field("device_id", "").is_err());
}

#[test]
fn create_update_delete_application_in_document() {
    let mut d = doc();
    assert!(create_application_in_doc(&mut d, "app-2", "Valves").is_ok());
    assert_eq!(app_ids(&d), vec!["app-1", "app-2"]);
    let e = create_application_in_doc(&mut d, "app-2", "Again").unwrap_err();
    assert_eq!(e.status, 409);
    assert!(update_application_in_doc(&mut d, "app-2", "Valves East").is_ok());
    assert_eq!(d["application"].as_array_of_tables().unwrap().get(1).unwrap()["application_name"].as_str(), Some("Valves East"));
    assert!(delete_application_in_doc(&mut d, "app-2").is_ok());
    assert_eq!(app_ids(&d), vec!["app-1"]);
    assert_eq!(delete_application_in_doc(&mut d, "app-9").unwrap_err().status, 404);
    assert!(d.to_string().contains("# operator comment kept"));
}

#[test]
fn create_update_delete_device_in_document() {
    let mut d = doc();
    let req = CreateDeviceRequest {
        device_id: "dev-2".to_string(),
        device_name: "Dev 2".to_string(),
        read_metric_list: vec![MetricMappingRequest {
            metric_name: "Temperature".to_string(),
            chirpstack_metric_name: "temperature".to_string(),
            metric_type: "Float".to_string(),
            metric_unit: Some("C".to_string()),
        }],
    };
    assert!(create_device_in_doc(&mut d, "app-1", &req).is_ok());
    assert_eq!(dev_ids(&d, 0), vec!["dev-1", "dev-2"]);
    assert_eq!(create_device_in_doc(&mut d, "app-1", &req).unwrap_err().status, 409);
    assert_eq!(create_device_in_doc(&mut d, "app-9", &req).unwrap_err().status, 404);
    let text = d.to_string();
    assert!(text.contains("chirpstack_metric_name = \"temperature\""));
    assert!(text.contains("metric_unit = \"C\""));
    assert!(text.contains("device_name = \"Dev 2\""));

    assert!(update_device_in_doc(&mut d, "app-1", "dev-2", "Renamed", &vec![]).is_ok());
    assert!(d.to_string().contains("device_name = \"Renamed\""));
    assert!(!d.to_string().contains("read_metric"));
    assert_eq!(dev_ids(&d, 0), vec!["dev-1", "dev-2"]);

    assert!(delete_device_in_doc(&mut d, "app-1", "dev-1").is_ok());
    assert_eq!(dev_ids(&d, 0), vec!["dev-2"]);
    assert_eq!(delete_device_in_doc(&mut d, "app-1", "dev-1").unwrap_err().status, 404);
}

#[test]
fn deleting_an_application_with_devices_is_refused() {
    let mut app = make_app("app-1", "App");
    app.device_list.push(make_device("dev-1", "Dev"));
    let other = make_app("app-2", "Other");
    let cfg = AppConfig {
        opcua: OpcUaConfig { user_name: "u".to_string(), user_password: "p".to_string() },
        application_list: vec![app, other],
    };
    let e = precheck_delete_application(&cfg, "app-1").unwrap_err();
    assert_eq!(e.status, 409);
    assert!(e.body.error.starts_with("application has 1 device(s)"));
    assert!(precheck_delete_application(&cfg, "app-2").is_ok());
}

#[test]
fn error_response_builders() {
    let e = ErrorResponse::internal_server_error();
    assert_eq!(e.error, "internal server error");
    assert!(e.hint.is_none());
    let e = ErrorResponse::with_hint("bad".to_string(), "fix it".to_string());
    assert_eq!(e.error, "bad");
    assert_eq!(e.hint.as_deref(), Some("fix it"));
    let e = ErrorResponse::from_error("oops".to_string());
    assert_eq!(e.error, "oops");
    assert!(e.hint.is_none());
}

#[test]
fn knob_delta_compares_the_rendered_items() {
    let original = b"[web]\nport = 8080\n[global]\ndebug = true\n";
    let candidate = "[web]\nport = 9090\n[global]\ndebug = true\n".parse::<DocumentMut>().unwrap();
    assert_eq!(knob_in_delta("web.port", original, &candidate), Some(true));
    assert_eq!(knob_in_delta("global.debug", original, &candidate), Some(false));
    assert_eq!(knob_in_delta("web.missing", original, &candidate), Some(false));
    assert_eq!(knob_in_delta("web.port", &[0xff, 0xfe], &candidate), None);
}

#[test]
fn first_application_creates_the_array() {
    let mut d = "[global]\ndebug = true\n".parse::<DocumentMut>().unwrap();
    assert!(create_application_in_doc(&mut d, "app-1", "First").is_ok());
    assert_eq!(app_ids(&d), vec!["app-1"]);
    assert!(d.to_string().contains("application_name = \"First\""));

    let mut bad = "application = 3\n".parse::<DocumentMut>().unwrap();
    let before = bad.to_string();
    assert_eq!(create_application_in_doc(&mut bad, "app-1", "First").unwrap_err().status, 500);
    assert_eq!(bad.to_string(), before);
}

#[test]
fn first_device_creates_the_array() {
    let mut d = "[[application]]\napplication_name = \"A\"\napplication_id = \"app-1\"\n".parse::<DocumentMut>().unwrap();
    let req = CreateDeviceRequest {
        device_id: "dev-1".to_string(),
        device_name: "Dev 1".to_string(),
        read_metric_list: vec![],
    };
    assert!(create_device_in_doc(&mut d, "app-1", &req).is_ok());
    assert_eq!(dev_ids(&d, 0), vec!["dev-1"]);
    assert!(!d.to_string().contains("read_metric"));
}

#[test]
fn device_update_replaces_metrics_and_keeps_commands() {
    let text = r#"
[[application]]
application_name = "A"
application_id = "app-1"

[[application.device]]
device_id = "dev-1"
device_name = "Old"

[[application.device.read_metric]]
metric_name = "Old metric"
chirpstack_metric_name = "old"
metric_type = "Int"

[[application.device.command]]
command_id = 7
command_name = "reboot"

[[application]]
application_name = "B"
application_id = "app-2"

[[application.device]]
device_id = "dev-1"
device_name = "Other"
"#;
    let mut d = text.parse::<DocumentMut>().unwrap();
    let metrics = vec![
        MetricMappingRequest {
            metric_name: "Humidity".to_string(),
            chirpstack_metric_name: "humidity".to_string(),
            metric_type: "Float".to_string(),
            metric_unit: None,
        },
        MetricMappingRequest {
            metric_name: "Battery".to_string(),
            chirpstack_metric_name: "battery".to_string(),
            metric_type: "Int".to_string(),
            metric_unit: Some("%".to_string()),
        },
    ];
    assert!(update_device_in_doc(&mut d, "app-1", "dev-1", "New", &metrics).is_ok());
    let dev = &d["application"].as_array_of_tables().unwrap().get(0).unwrap()["device"]
        .as_array_of_tables()
        .unwrap()
        .get(0)
        .unwrap()
        .clone();
    assert_eq!(dev["device_name"].as_str(), Some("New"));
    let rows = dev["read_metric"].as_array_of_tables().unwrap();
    assert_eq!(rows.len(), 2);
    assert_eq!(rows.get(0).unwrap()["chirpstack_metric_name"].as_str(), Some("humidity"));
    assert!(rows.get(0).unwrap().get("metric_unit").is_none());
    assert_eq!(rows.get(1).unwrap()["metric_unit"].as_str(), Some("%"));
    assert_eq!(dev["command"].as_array_of_tables().unwrap().len(), 1);
    assert!(!d.to_string().contains("Old metric"));
    let other = &d["application"].as_array_of_tables().unwrap().get(1).unwrap()["device"]
        .as_array_of_tables()
        .unwrap()
        .get(0)
        .unwrap()
        .clone();
    assert_eq!(other["device_name"].as_str(), Some("Other"));

    assert!(delete_device_in_doc(&mut d, "app-1", "dev-1").is_ok());
    assert_eq!(dev_ids(&d, 0), Vec::<String>::new());
    assert_eq!(dev_ids(&d, 1), vec!["dev-1"]);
}
