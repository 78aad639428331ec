use opcgw::chirpstack_inventory::{InventoryApplication, InventoryDevice, ObservedKey, WireType};
use opcgw::config::{AppConfig, ChirpStackApplications, ChirpstackDevice, OpcMetricTypeConfig, OpcUaConfig, ReadMetric};
use opcgw::web::drift::{
    build_degraded_response, build_opcgw_view, compute_drift, drift_fetch_app_ids, increment_summary, opc_matches_wire,
    uplink_targets, ChirpstackInventoryView, DevicesForApplication, DriftClass, DriftSummary, ObservedForDevice,
    OpcgwApplicationView, OpcgwDeviceView, OpcgwMetricView, REASON_NAME_DIFFERS, REASON_NOT_IN_RECENT_UPLINKS,
    REASON_WIRE_TYPE_MISMATCH,
};

fn make_opcgw_app(id: &str, name: &str, devices: Vec<OpcgwDeviceView>) -> OpcgwApplicationView {
    OpcgwApplicationView { application_id: id.to_string(), application_name: name.to_string(), devices }
}

fn make_opcgw_device(id: &str, name: &str, metrics: Vec<OpcgwMetricView>) -> OpcgwDeviceView {
    OpcgwDeviceView { device_id: id.to_string(), device_name: name.to_string(), metrics }
}

fn make_opcgw_metric(cs_name: &str, name: &str, metric_type: OpcMetricTypeConfig) -> OpcgwMetricView {
    OpcgwMetricView { chirpstack_metric_name: cs_name.to_string(), metric_name: name.to_string(), metric_type }
}

fn cs_app(id: &str, name: &str) -> InventoryApplication {
    InventoryApplication { id: id.to_string(), name: name.to_string(), description: String::new() }
}

fn cs_dev(dev_eui: &str, name: &str) -> InventoryDevice {
    InventoryDevice {
        dev_eui: dev_eui.to_string(),
        name: name.to_string(),
        description: String::new(),
        device_profile_name: None,
        last_seen_at: None,
    }
}

fn observed(key: &str, wire_type: WireType) -> ObservedKey {
    ObservedKey { key: key.to_string(), wire_type, sample_value: "0".to_string() }
}

fn devices_of(app: &str, devices: Vec<InventoryDevice>) -> DevicesForApplication {
    DevicesForApplication { application_id: app.to_string(), devices }
}

fn observed_on(app: &str, dev: &str, keys: Vec<ObservedKey>) -> ObservedForDevice {
    ObservedForDevice { application_id: app.to_string(), dev_eui: dev.to_string(), observed: keys }
}

#[test]
fn application_diff_ok_when_id_and_name_match() {
    let opcgw = vec![make_opcgw_app("app-1", "Sensors", vec![])];
    let cs = ChirpstackInventoryView { applications: vec![cs_app("app-1", "Sensors")], ..Default::default() };
    let (apps, _, _, summary) = compute_drift(&opcgw, &cs);
    assert_eq!(apps.len(), 1);
    assert_eq!(apps[0].class, "ok");
    assert!(apps[0].drift_details.is_none());
    assert_eq!(summary.ok, 1);
    assert_eq!(summary.total, 1);
}

#[test]
fn application_diff_drifted_when_names_differ() {
    let opcgw = vec![make_opcgw_app("app-1", "OldName", vec![])];
    let cs = ChirpstackInventoryView { applications: vec![cs_app("app-1", "NewName")], ..Default::default() };
    let (apps, _, _, summary) = compute_drift(&opcgw, &cs);
    assert_eq!(apps[0].class, "drifted");
    let d = apps[0].drift_details.as_ref().unwrap();
    assert_eq!(d.reason, REASON_NAME_DIFFERS);
    assert_eq!(d.opcgw_name.as_deref(), Some("OldName"));
    assert_eq!(d.chirpstack_name.as_deref(), Some("NewName"));
    assert_eq!(summary.drifted, 1);
}

#[test]
fn application_diff_stale_when_only_in_opcgw() {
    let opcgw = vec![make_opcgw_app("app-gone", "Retired", vec![])];
    let cs = ChirpstackInventoryView::default();
    let (apps, _, _, summary) = compute_drift(&opcgw, &cs);
    assert_eq!(apps[0].class, "stale");
    assert!(apps[0].opcgw.is_some());
    assert!(apps[0].chirpstack.is_none());
    assert_eq!(summary.stale, 1);
}

#[test]
fn application_diff_available_when_only_in_chirpstack() {
    let opcgw = vec![];
    let cs = ChirpstackInventoryView { applications: vec![cs_app("app-new", "Freshly enrolled")], ..Default::default() };
    let (apps, _, _, summary) = compute_drift(&opcgw, &cs);
    assert_eq!(apps[0].class, "available");
    assert!(apps[0].opcgw.is_none());
    assert!(apps[0].chirpstack.is_some());
    assert_eq!(summary.available, 1);
}

#[test]
fn device_diff_drifted_on_name_only() {
    let opcgw = vec![make_opcgw_app("app-1", "Sensors", vec![make_opcgw_device("eui-1", "OldDev", vec![])])];
    let cs = ChirpstackInventoryView {
        applications: vec![cs_app("app-1", "Sensors")],
        devices_by_app: vec![devices_of("app-1", vec![cs_dev("eui-1", "NewDev")])],
        observed_by_device: vec![],
    };
    let (_, devs, _, _) = compute_drift(&opcgw, &cs);
    assert_eq!(devs.len(), 1);
    assert_eq!(devs[0].class, "drifted");
    let d = devs[0].drift_details.as_ref().unwrap();
    assert_eq!(d.reason, REASON_NAME_DIFFERS);
}

#[test]
fn metric_diff_ok_when_wire_type_matches() {
    let opcgw = vec![make_opcgw_app(
        "app-1",
        "Sensors",
        vec![make_opcgw_device(
            "eui-1",
            "Dev",
            vec![make_opcgw_metric("temperature", "Temperature", OpcMetricTypeConfig::Float)],
        )],
    )];
    let cs = ChirpstackInventoryView {
        applications: vec![cs_app("app-1", "Sensors")],
        devices_by_app: vec![devices_of("app-1", vec![cs_dev("eui-1", "Dev")])],
        observed_by_device: vec![observed_on("app-1", "eui-1", vec![observed("temperature", WireType::Float)])],
    };
    let (_, _, metrics, _) = compute_drift(&opcgw, &cs);
    assert_eq!(metrics.len(), 1);
    assert_eq!(metrics[0].class, "ok");
}

#[test]
fn metric_diff_drifted_on_wire_type_mismatch() {
    let opcgw = vec![make_opcgw_app(
        "app-1",
        "Sensors",
        vec![make_opcgw_device("eui-1", "Dev", vec![make_opcgw_metric("counter", "Counter", OpcMetricTypeConfig::Int)])],
    )];
    let cs = ChirpstackInventoryView {
        applications: vec![cs_app("app-1", "Sensors")],
        devices_by_app: vec![devices_of("app-1", vec![cs_dev("eui-1", "Dev")])],
        observed_by_device: vec![observed_on("app-1", "eui-1", vec![observed("counter", WireType::Float)])],
    };
    let (_, _, metrics, _) = compute_drift(&opcgw, &cs);
    assert_eq!(metrics[0].class, "drifted");
    let d = metrics[0].drift_details.as_ref().unwrap();
    assert_eq!(d.reason, REASON_WIRE_TYPE_MISMATCH);
    assert_eq!(d.opcgw_type, Some("Int"));
    assert_eq!(d.inferred_type, Some("Float"));
}

#[test]
fn metric_diff_soft_stale_on_not_in_recent_uplinks() {
    let opcgw = vec![make_opcgw_app(
        "app-1",
        "Sensors",
        vec![make_opcgw_device("eui-1", "Dev", vec![make_opcgw_metric("battery", "Battery", OpcMetricTypeConfig::Float)])],
    )];
    let cs = ChirpstackInventoryView {
        applications: vec![cs_app("app-1", "Sensors")],
        devices_by_app: vec![devices_of("app-1", vec![cs_dev("eui-1", "Dev")])],
        observed_by_device: vec![observed_on("app-1", "eui-1", vec![])],
    };
    let (_, _, metrics, _) = compute_drift(&opcgw, &cs);
    assert_eq!(metrics[0].class, "stale");
    let d = metrics[0].drift_details.as_ref().unwrap();
    assert_eq!(d.reason, REASON_NOT_IN_RECENT_UPLINKS);
}

#[test]
fn metric_diff_available_when_uplink_key_not_configured() {
    let opcgw = vec![make_opcgw_app("app-1", "Sensors", vec![make_opcgw_device("eui-1", "Dev", vec![])])];
    let cs = ChirpstackInventoryView {
        applications: vec![cs_app("app-1", "Sensors")],
        devices_by_app: vec![devices_of("app-1", vec![cs_dev("eui-1", "Dev")])],
        observed_by_device: vec![observed_on("app-1", "eui-1", vec![observed("temperature", WireType::Float)])],
    };
    let (_, _, metrics, _) = compute_drift(&opcgw, &cs);
    assert_eq!(metrics.len(), 1);
    assert_eq!(metrics[0].class, "available");
}

#[test]
fn metric_diff_skipped_for_devices_not_in_both_sets() {
    let opcgw = vec![make_opcgw_app(
        "app-1",
        "Sensors",
        vec![make_opcgw_device("eui-stale", "Stale dev", vec![make_opcgw_metric("x", "X", OpcMetricTypeConfig::Float)])],
    )];
    let cs = ChirpstackInventoryView {
        applications: vec![cs_app("app-1", "Sensors")],
        devices_by_app: vec![devices_of("app-1", vec![])],
        observed_by_device: vec![],
    };
    let (_, devs, metrics, _) = compute_drift(&opcgw, &cs);
    assert_eq!(devs.len(), 1);
    assert_eq!(devs[0].class, "stale");
    assert!(metrics.is_empty(), "no metric rows for opcgw-only devices");
}

#[test]
fn degraded_response_marks_everything_ok_with_chirpstack_reachable_false() {
    let opcgw = vec![make_opcgw_app(
        "app-1",
        "Sensors",
        vec![make_opcgw_device("eui-1", "Dev", vec![make_opcgw_metric("x", "X", OpcMetricTypeConfig::Float)])],
    )];
    let response = build_degraded_response(&opcgw, "2026-05-24T12:00:00Z".to_string());
    assert!(!response.chirpstack_reachable);
    assert_eq!(response.applications.len(), 1);
    assert_eq!(response.applications[0].class, "ok");
    assert!(response.applications[0].chirpstack.is_none());
    assert_eq!(response.devices.len(), 1);
    assert_eq!(response.metrics.len(), 1);
    assert_eq!(response.summary.ok, 3);
    assert_eq!(response.summary.total, 3);
}

#[test]
fn summary_counts_sum_to_total() {
    let opcgw = vec![
        make_opcgw_app("app-ok", "OK", vec![]),
        make_opcgw_app("app-stale", "Stale", vec![]),
        make_opcgw_app("app-drifted", "OldName", vec![]),
    ];
    let cs = ChirpstackInventoryView {
        applications: vec![cs_app("app-ok", "OK"), cs_app("app-drifted", "NewName"), cs_app("app-available", "Available")],
        ..Default::default()
    };
    let (apps, _, _, summary) = compute_drift(&opcgw, &cs);
    assert_eq!(apps.len(), 4);
    assert_eq!(summary.ok, 1);
    assert_eq!(summary.stale, 1);
    assert_eq!(summary.drifted, 1);
    assert_eq!(summary.available, 1);
    assert_eq!(summary.total, 4);
    assert_eq!(summary.ok + summary.stale + summary.drifted + summary.available, summary.total);
}

#[test]
fn rows_are_sorted_by_id_for_deterministic_output() {
    let opcgw = vec![make_opcgw_app("zeta", "Z", vec![]), make_opcgw_app("alpha", "A", vec![]), make_opcgw_app("mu", "M", vec![])];
    let cs = ChirpstackInventoryView {
        applications: vec![cs_app("alpha", "A"), cs_app("mu", "M"), cs_app("zeta", "Z")],
        ..Default::default()
    };
    let (apps, _, _, _) = compute_drift(&opcgw, &cs);
    let ids: Vec<&str> = apps.iter().map(|r| r.opcgw.as_ref().unwrap().application_id.as_str()).collect();
    assert_eq!(ids, vec!["alpha", "mu", "zeta"]);
}

// ---------------------------------------------------------------------

#[test]
fn drift_class_names_are_stable() {
    assert_eq!(DriftClass::InSync.as_str(), "ok");
    assert_eq!(DriftClass::Stale.as_str(), "stale");
    assert_eq!(DriftClass::Available.as_str(), "available");
    assert_eq!(DriftClass::Drifted.as_str(), "drifted");
}

#[test]
fn increment_summary_counts_one_class_and_total() {
    let mut s = DriftSummary { ok: 0, stale: 0, available: 0, drifted: 0, total: 0 };
    increment_summary(&mut s, DriftClass::Stale);
    increment_summary(&mut s, DriftClass::Stale);
    increment_summary(&mut s, DriftClass::InSync);
    assert_eq!((s.ok, s.stale, s.available, s.drifted, s.total), (1, 2, 0, 0, 3));
}

#[test]
fn wire_type_compatibility_table() {
    assert!(opc_matches_wire(&OpcMetricTypeConfig::Float, WireType::Float));
    assert!(!opc_matches_wire(&OpcMetricTypeConfig::Float, WireType::Int));
    assert!(!opc_matches_wire(&OpcMetricTypeConfig::Int, WireType::Float));
    assert!(opc_matches_wire(&OpcMetricTypeConfig::Int, WireType::Int));
    assert!(opc_matches_wire(&OpcMetricTypeConfig::Bool, WireType::Bool));
    assert!(!opc_matches_wire(&OpcMetricTypeConfig::Bool, WireType::String));
    assert!(opc_matches_wire(&OpcMetricTypeConfig::String, WireType::String));
    assert_eq!(OpcMetricTypeConfig::Bool.as_wire_str(), "Bool");
}

#[test]
fn duplicate_ids_on_both_sides_yield_one_row_each() {
    let opcgw = vec![make_opcgw_app("b", "B", vec![]), make_opcgw_app("a", "A", vec![])];
    let cs = ChirpstackInventoryView {
        applications: vec![cs_app("b", "B"), cs_app("c", "C"), cs_app("b", "B")],
        ..Default::default()
    };
    let (apps, _, _, summary) = compute_drift(&opcgw, &cs);
    assert_eq!(apps.len(), 3);
    assert_eq!(apps[0].class, "stale");
    assert_eq!(apps[1].class, "ok");
    assert_eq!(apps[2].class, "available");
    assert_eq!(summary.total, 3);
}

#[test]
fn build_opcgw_view_copies_configured_topology() {
    let config = AppConfig {
        opcua: OpcUaConfig { user_name: "u".to_string(), user_password: "p".to_string() },
        application_list: vec![ChirpStackApplications {
            application_name: "Sensors".to_string(),
            application_id: "app-1".to_string(),
            device_list: vec![ChirpstackDevice {
                device_id: "eui-1".to_string(),
                device_name: "Dev".to_string(),
                read_metric_list: vec![ReadMetric {
                    metric_name: "Temperature".to_string(),
                    chirpstack_metric_name: "temperature".to_string(),
                    metric_type: OpcMetricTypeConfig::Float,
                    metric_unit: None,
                }],
                device_command_list: None,
            }],
        }],
    };
    let view = build_opcgw_view(&config);
    assert_eq!(view.len(), 1);
    assert_eq!(view[0].application_id, "app-1");
    assert_eq!(view[0].application_name, "Sensors");
    assert_eq!(view[0].devices[0].device_id, "eui-1");
    assert_eq!(view[0].devices[0].metrics[0].chirpstack_metric_name, "temperature");
    assert_eq!(view[0].devices[0].metrics[0].metric_name, "Temperature");
}

#[test]
fn fetch_ids_are_sorted_and_distinct() {
    let opcgw = vec![make_opcgw_app("zeta", "Z", vec![]), make_opcgw_app("alpha", "A", vec![])];
    let ids = drift_fetch_app_ids(&opcgw, &[cs_app("mu", "M"), cs_app("alpha", "A")]);
    assert_eq!(ids, vec!["alpha".to_string(), "mu".to_string(), "zeta".to_string()]);
}

#[test]
fn uplink_targets_are_devices_on_both_sides() {
    let opcgw = vec![make_opcgw_app(
        "app-1",
        "Sensors",
        vec![make_opcgw_device("eui-1", "Dev", vec![]), make_opcgw_device("eui-2", "Other", vec![])],
    )];
    let devices = vec![devices_of("app-1", vec![cs_dev("eui-2", "Other"), cs_dev("eui-3", "New")])];
    let targets = uplink_targets(&opcgw, &devices);
    assert_eq!(targets, vec![("app-1".to_string(), "eui-2".to_string())]);
}

#[test]
fn metric_rows_are_sorted_by_metric_name_then_key() {
    let opcgw = vec![make_opcgw_app(
        "app-1",
        "Sensors",
        vec![make_opcgw_device(
            "eui-1",
            "Dev",
            vec![
                make_opcgw_metric("a_key", "Zeta", OpcMetricTypeConfig::Float),
                make_opcgw_metric("b_key", "Alpha", OpcMetricTypeConfig::Float),
                make_opcgw_metric("d_key", "Alpha", OpcMetricTypeConfig::Float),
            ],
        )],
    )];
    let cs = ChirpstackInventoryView {
        applications: vec![cs_app("app-1", "Sensors")],
        devices_by_app: vec![devices_of("app-1", vec![cs_dev("eui-1", "Dev")])],
        observed_by_device: vec![observed_on(
            "app-1",
            "eui-1",
            vec![observed("c_only", WireType::Float), observed("a_key", WireType::Float)],
        )],
    };
    let (_, _, metrics, _) = compute_drift(&opcgw, &cs);
    let order: Vec<String> = metrics
        .iter()
        .map(|m| match &m.opcgw {
            Some(o) => o.chirpstack_metric_name.clone(),
            None => m.chirpstack_observed.as_ref().unwrap().key.clone(),
        })
        .collect();
    assert_eq!(order, vec!["b_key", "d_key", "a_key", "c_only"]);
}
