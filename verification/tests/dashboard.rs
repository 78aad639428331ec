use opcgw::config::{AppConfig, ChirpStackApplications, ChirpstackDevice, OpcMetricTypeConfig, OpcUaConfig, ReadMetric};
use opcgw::web::api::{BAD_THRESHOLD_SECS, DEFAULT_STALE_THRESHOLD_SECS};
use opcgw::web::{clamp_stale_threshold, DashboardConfigSnapshot, StaleThresholdClampOutcome};

fn snapshot_test_config(applications: Vec<ChirpStackApplications>) -> AppConfig {
    AppConfig {
        opcua: OpcUaConfig { user_name: "opcua-user".to_string(), user_password: "secret".to_string() },
        application_list: applications,
    }
}

fn make_app(name: &str, id: &str, devices: usize) -> ChirpStackApplications {
    ChirpStackApplications {
        application_name: name.to_string(),
        application_id: id.to_string(),
        device_list: (0..devices)
            .map(|i| ChirpstackDevice {
                device_id: format!("dev-{name}-{i}"),
                device_name: format!("Device {i}"),
                read_metric_list: vec![ReadMetric {
                    metric_name: "temperature".to_string(),
                    chirpstack_metric_name: "temp".to_string(),
                    metric_type: OpcMetricTypeConfig::Float,
                    metric_unit: None,
                }],
                device_command_list: None,
            })
            .collect(),
    }
}

#[test]
fn dashboard_snapshot_from_config_walks_application_list_once() {
    let config = snapshot_test_config(vec![
        make_app("Sensors", "550e8400-e29b-41d4-a716-446655440001", 3),
        make_app("Valves", "550e8400-e29b-41d4-a716-446655440002", 3),
    ]);
    let snapshot = DashboardConfigSnapshot::from_config(&config);
    assert_eq!(snapshot.application_count, 2);
    assert_eq!(snapshot.device_count, 6);
    assert_eq!(snapshot.applications.len(), 2);
    assert!(snapshot.applications.iter().all(|a| a.device_count == 3));
    for app in &snapshot.applications {
        assert_eq!(app.devices.len(), 3);
        for dev in &app.devices {
            assert_eq!(dev.metrics.len(), 1);
            assert_eq!(dev.metrics[0].metric_name, "temperature");
            assert_eq!(dev.metrics[0].metric_type, OpcMetricTypeConfig::Float);
        }
    }
}

#[test]
fn dashboard_snapshot_from_config_handles_device_with_zero_metrics() {
    let mut config = snapshot_test_config(vec![]);
    config.application_list = vec![ChirpStackApplications {
        application_name: "App".to_string(),
        application_id: "id-1".to_string(),
        device_list: vec![ChirpstackDevice {
            device_id: "dev-empty".to_string(),
            device_name: "Empty Device".to_string(),
            read_metric_list: vec![],
            device_command_list: None,
        }],
    }];
    let snapshot = DashboardConfigSnapshot::from_config(&config);
    assert_eq!(snapshot.application_count, 1);
    assert_eq!(snapshot.device_count, 1);
    assert_eq!(snapshot.applications[0].devices.len(), 1);
    assert!(snapshot.applications[0].devices[0].metrics.is_empty());
}

#[test]
fn dashboard_snapshot_from_config_handles_empty_application_list() {
    let snapshot = DashboardConfigSnapshot::from_config(&snapshot_test_config(vec![]));
    assert_eq!(snapshot.application_count, 0);
    assert_eq!(snapshot.device_count, 0);
    assert!(snapshot.applications.is_empty());
}

#[test]
fn dashboard_snapshot_from_config_handles_application_with_zero_devices() {
    let config = snapshot_test_config(vec![make_app("EmptyApp", "id-1", 0), make_app("OneDev", "id-2", 1)]);
    let snapshot = DashboardConfigSnapshot::from_config(&config);
    assert_eq!(snapshot.application_count, 2);
    assert_eq!(snapshot.device_count, 1);
    assert_eq!(snapshot.applications[0].device_count, 0);
    assert_eq!(snapshot.applications[1].device_count, 1);
}

#[test]
fn clamp_stale_threshold_rejects_zero() {
    let (clamped, outcome) = clamp_stale_threshold(0);
    assert_eq!(clamped, DEFAULT_STALE_THRESHOLD_SECS);
    assert_eq!(outcome, StaleThresholdClampOutcome::ClampedFromZero);
}

#[test]
fn clamp_stale_threshold_rejects_above_bad() {
    let (clamped, outcome) = clamp_stale_threshold(BAD_THRESHOLD_SECS + 1);
    assert_eq!(clamped, DEFAULT_STALE_THRESHOLD_SECS);
    assert_eq!(outcome, StaleThresholdClampOutcome::ClampedFromAboveBad);
}

#[test]
fn clamp_stale_threshold_accepts_boundary_and_ordinary() {
    let (clamped, outcome) = clamp_stale_threshold(BAD_THRESHOLD_SECS);
    assert_eq!(clamped, BAD_THRESHOLD_SECS);
    assert_eq!(outcome, StaleThresholdClampOutcome::Accepted);

    let (clamped, outcome) = clamp_stale_threshold(120);
    assert_eq!(clamped, 120);
    assert_eq!(outcome, StaleThresholdClampOutcome::Accepted);
}

#[test]
fn snapshot_keeps_configuration_order_and_names() {
    let config = snapshot_test_config(vec![make_app("B", "id-b", 2), make_app("A", "id-a", 1)]);
    let snapshot = DashboardConfigSnapshot::from_config(&config);
    assert_eq!(snapshot.applications[0].application_id, "id-b");
    assert_eq!(snapshot.applications[0].application_name, "B");
    assert_eq!(snapshot.applications[0].devices[1].device_id, "dev-B-1");
    assert_eq!(snapshot.applications[0].devices[1].device_name, "Device 1");
    assert_eq!(snapshot.applications[1].application_id, "id-a");
}
