use opcgw::config::{make_app, make_command, make_device, make_metric, OpcMetricTypeConfig};

#[test]
fn test_prune_respects_interval() {}

#[test]
fn builders_make_empty_records() {
    let app = make_app("app-1", "App");
    assert_eq!(app.application_id, "app-1");
    assert_eq!(app.application_name, "App");
    assert!(app.device_list.is_empty());

    let dev = make_device("dev-1", "Dev");
    assert_eq!(dev.device_id, "dev-1");
    assert_eq!(dev.device_name, "Dev");
    assert!(dev.read_metric_list.is_empty());
    assert!(dev.device_command_list.is_none());

    let m = make_metric("temp", "Temperature");
    assert_eq!(m.chirpstack_metric_name, "temp");
    assert_eq!(m.metric_name, "Temperature");
    assert_eq!(m.metric_type, OpcMetricTypeConfig::Float);
    assert!(m.metric_unit.is_none());

    let c = make_command("reboot");
    assert_eq!(c.command_name, "reboot");
    assert_eq!(c.command_id, 1);
    assert!(!c.command_confirmed);
    assert_eq!(c.command_port, 10);
    assert!(c.command_class.is_none());
}
