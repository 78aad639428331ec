use opcgw::web::config_writer::{poisoned_err, WriterHealth};
use opcgw::web::crud::io_error_response;

#[test]
fn failed_rollback_poisons_until_a_rollback_succeeds() {
    let mut h = WriterHealth::new();
    assert!(!h.is_poisoned());
    assert!(h.check_usable().is_ok());
    h.record_rollback(false);
    assert!(h.is_poisoned());
    let e = h.check_usable().unwrap_err();
    assert!(e.to_string().contains("config writer poisoned"));
    h.record_rollback(true);
    assert!(h.check_usable().is_ok());
}

#[test]
fn poisoned_writer_is_reported_as_unavailable() {
    let r = io_error_response(&poisoned_err().to_string());
    assert_eq!(r.status, 503);
    assert_eq!(r.body.error, "gateway in inconsistent state: prior rollback failed");
    let r = io_error_response("Web server error: failed to read config TOML");
    assert_eq!(r.status, 500);
    assert_eq!(r.body.error, "internal server error");
}
