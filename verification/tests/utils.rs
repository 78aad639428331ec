use opcgw::utils::{
    batch_write_budget_ms, init_storage_budgets_from_env, parse_budget_value, storage_query_budget_ms, OpcGwError,
    StorageBudgets, DEFAULT_BATCH_WRITE_BUDGET_MS, DEFAULT_STORAGE_QUERY_BUDGET_MS,
};

#[test]
fn parse_budget_value_accepts_positive_integer() {
    assert_eq!(parse_budget_value("50"), Ok(50));
    assert_eq!(parse_budget_value("2000"), Ok(2000));
    assert_eq!(parse_budget_value("  120 "), Ok(120));
}

#[test]
fn parse_budget_value_rejects_non_numeric() {
    assert!(parse_budget_value("abc").is_err());
    assert!(parse_budget_value("12ms").is_err());
    assert!(parse_budget_value("").is_err());
    assert!(parse_budget_value("-5").is_err());
}

#[test]
fn parse_budget_value_rejects_zero() {
    assert!(parse_budget_value("0").is_err());
}

#[test]
fn budget_defaults_are_nas_realistic() {
    assert_eq!(DEFAULT_STORAGE_QUERY_BUDGET_MS, 250);
    assert_eq!(DEFAULT_BATCH_WRITE_BUDGET_MS, 2000);
    let budgets = StorageBudgets::new();
    assert_eq!(storage_query_budget_ms(&budgets), DEFAULT_STORAGE_QUERY_BUDGET_MS);
    assert_eq!(batch_write_budget_ms(&budgets), DEFAULT_BATCH_WRITE_BUDGET_MS);
}

// ---------------------------------------------------------------------

#[test]
fn parse_budget_value_reasons_and_edges() {
    assert_eq!(parse_budget_value("0"), Err("must be greater than zero"));
    assert_eq!(parse_budget_value("000"), Err("must be greater than zero"));
    assert_eq!(parse_budget_value("abc"), Err("not a positive integer"));
    assert_eq!(parse_budget_value("+7"), Ok(7));
    assert_eq!(parse_budget_value("+"), Err("not a positive integer"));
    assert_eq!(parse_budget_value("007"), Ok(7));
    assert_eq!(parse_budget_value("18446744073709551615"), Ok(u64::MAX));
    assert_eq!(parse_budget_value("18446744073709551616"), Err("not a positive integer"));
    assert_eq!(parse_budget_value("\t42\n"), Ok(42));
    assert_eq!(parse_budget_value("4 2"), Err("not a positive integer"));
}

#[test]
fn init_applies_valid_overrides_only() {
    let mut budgets = StorageBudgets::new();
    init_storage_budgets_from_env(&mut budgets, Some("77"), Some("abc"));
    assert_eq!(storage_query_budget_ms(&budgets), 77);
    assert_eq!(batch_write_budget_ms(&budgets), DEFAULT_BATCH_WRITE_BUDGET_MS);

    let mut budgets = StorageBudgets::new();
    init_storage_budgets_from_env(&mut budgets, Some("0"), None);
    assert_eq!(storage_query_budget_ms(&budgets), DEFAULT_STORAGE_QUERY_BUDGET_MS);
    assert_eq!(batch_write_budget_ms(&budgets), DEFAULT_BATCH_WRITE_BUDGET_MS);

    let mut budgets = StorageBudgets::default();
    init_storage_budgets_from_env(&mut budgets, None, Some(" 5000 "));
    assert_eq!(storage_query_budget_ms(&budgets), DEFAULT_STORAGE_QUERY_BUDGET_MS);
    assert_eq!(batch_write_budget_ms(&budgets), 5000);
}

#[test]
fn error_texts_match_their_variant() {
    assert_eq!(OpcGwError::ChirpStack("x".into()).to_string(), "ChirpStack poller error: x");
    assert_eq!(OpcGwError::Configuration("bad".into()).to_string(), "Configuration error: bad");
    assert_eq!(OpcGwError::OpcUa("y".into()).to_string(), "OPC UA error: y");
    assert_eq!(OpcGwError::Storage("s".into()).to_string(), "Storage error: s");
    assert_eq!(OpcGwError::Database("d".into()).to_string(), "Database error: d");
    assert_eq!(OpcGwError::Web("w".into()).to_string(), "Web server error: w");
    assert_eq!(
        OpcGwError::CommandValidation {
            device_id: "dev".into(),
            command_name: "reboot".into(),
            reason: "port out of range".into(),
        }
        .to_string(),
        "Command validation error for device 'dev', command 'reboot': port out of range"
    );
}
