use opcgw::storage::types::{hex_string, ChirpstackStatus, Command, CommandFilter, CommandStatus, DeviceCommand, MAX_LORA_PAYLOAD_SIZE};

#[test]
fn test_command_status_display() {
    assert_eq!(CommandStatus::Pending.to_string(), "Pending");
    assert_eq!(CommandStatus::Sent.to_string(), "Sent");
    assert_eq!(CommandStatus::Confirmed.to_string(), "Confirmed");
    assert_eq!(CommandStatus::Failed.to_string(), "Failed");
}

#[test]
fn test_command_status_from_str() {
    assert_eq!("pending".parse::<CommandStatus>().unwrap(), CommandStatus::Pending);
    assert_eq!("sent".parse::<CommandStatus>().unwrap(), CommandStatus::Sent);
    assert_eq!("confirmed".parse::<CommandStatus>().unwrap(), CommandStatus::Confirmed);
    assert_eq!("failed".parse::<CommandStatus>().unwrap(), CommandStatus::Failed);
    assert!("invalid".parse::<CommandStatus>().is_err());
}

#[test]
fn test_device_command_f_port_validation() {
    assert!(DeviceCommand::validate_f_port(1));
    assert!(DeviceCommand::validate_f_port(100));
    assert!(DeviceCommand::validate_f_port(223));

    assert!(!DeviceCommand::validate_f_port(0));
    assert!(!DeviceCommand::validate_f_port(224));
    assert!(!DeviceCommand::validate_f_port(255));
}

#[test]
fn test_chirpstack_status_default() {
    let status = ChirpstackStatus::default();
    assert!(!status.server_available);
    assert!(status.last_poll_time.is_none());
    assert_eq!(status.error_count, 0);
}

#[test]
fn test_device_command_creation() {
    let now = chrono::Utc::now().timestamp_millis();
    let cmd = DeviceCommand {
        id: 1,
        device_id: "device_123".to_string(),
        payload: vec![0x01, 0x02, 0x03],
        f_port: 10,
        status: CommandStatus::Pending,
        created_at: now,
        error_message: None,
    };

    assert_eq!(cmd.id, 1);
    assert_eq!(cmd.device_id, "device_123");
    assert_eq!(cmd.f_port, 10);
    assert_eq!(cmd.status, CommandStatus::Pending);
    assert!(cmd.error_message.is_none());
}

// ---------------------------------------------------------------------

#[test]
fn command_status_parse_ignores_case_and_names_the_input() {
    assert_eq!("PENDING".parse::<CommandStatus>().unwrap(), CommandStatus::Pending);
    assert_eq!("Confirmed".parse::<CommandStatus>().unwrap(), CommandStatus::Confirmed);
    assert_eq!("Bogus".parse::<CommandStatus>().unwrap_err(), "Unknown command status: Bogus");
    assert_eq!(" sent".parse::<CommandStatus>().unwrap_err(), "Unknown command status:  sent");
    assert_eq!(CommandStatus::Sent.as_str(), "Sent");
}

#[test]
fn payload_size_limit_is_inclusive() {
    assert_eq!(MAX_LORA_PAYLOAD_SIZE, 250);
    assert!(DeviceCommand::validate_payload_size(&[0u8; 250]));
    assert!(DeviceCommand::validate_payload_size(&[]));
    assert!(!DeviceCommand::validate_payload_size(&[0u8; 251]));
}

#[test]
fn command_hash_is_hex_sha256_of_concatenation() {
    let h = Command::compute_hash_of_json("dev-1", "reboot", "{\"x\":1}");
    assert_eq!(h, "25d3d814d2cab12b29d8273d44297ea69a6d7f697a93a6f216d5495b0095c1ad");
    let mut params = serde_json::Map::new();
    params.insert("x".to_string(), serde_json::Value::from(1));
    let value = serde_json::Value::Object(params);
    assert_eq!(Command::compute_hash("dev-1", "reboot", &value), h);
    assert_eq!(Command::compute_hash_of_json("", "", ""), "e3b0c44298fc1c149afbf4c8996fb92427ae41e4649b934ca495991b7852b855");
}

#[test]
fn hex_string_pads_each_byte() {
    assert_eq!(hex_string(&[0x0a, 0x14, 0x1e, 0xff, 0x00]), "0a141eff00");
    assert_eq!(hex_string(&[]), "");
}

#[test]
fn command_filter_default_filters_nothing() {
    let f = CommandFilter::default();
    assert!(f.device_id.is_none());
    assert!(f.status.is_none());
    assert!(f.command_name_contains.is_none());
    assert!(f.older_than_days.is_none());
}

#[test]
fn status_names_read_back() {
    for s in [CommandStatus::Pending, CommandStatus::Sent, CommandStatus::Confirmed, CommandStatus::Failed] {
        assert_eq!(s.to_string().parse::<CommandStatus>(), Ok(s));
    }
}
