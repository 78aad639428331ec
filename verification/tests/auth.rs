use base64::Engine;
use opcgw::web::auth::{decode_basic_auth_header, hmac_sha256, sanitise_user, www_authenticate, AuthFailureReason, WebAuthState};

fn state(user: &str, pass: &str) -> WebAuthState {
    WebAuthState::from_opcua_auth(&[7u8; 32], user, pass, "opcgw".to_string())
}

fn basic(credentials: &str) -> String {
    format!("Basic {}", base64::engine::general_purpose::STANDARD.encode(credentials.as_bytes()))
}

#[test]
fn sanitise_user_escapes_control_chars() {
    let sanitised = sanitise_user("evil\n[INJECTED]\nfake-event");
    assert!(!sanitised.contains('\n'), "sanitised username must not contain literal newlines, got {sanitised:?}");
    assert!(sanitised.contains("\\n"), "sanitised username should preserve a printable escape, got {sanitised:?}");
}

#[test]
fn auth_failure_reason_as_str_stable() {
    assert_eq!(AuthFailureReason::Missing.as_str(), "missing");
    assert_eq!(AuthFailureReason::MalformedScheme.as_str(), "malformed_scheme");
    assert_eq!(AuthFailureReason::MalformedBase64.as_str(), "malformed_base64");
    assert_eq!(AuthFailureReason::MissingColon.as_str(), "missing_colon");
    assert_eq!(AuthFailureReason::UserMismatch.as_str(), "user_mismatch");
    assert_eq!(AuthFailureReason::PasswordMismatch.as_str(), "password_mismatch");
}

// ---------------------------------------------------------------------

#[test]
fn authenticate_rejects_missing_authorization_header() {
    let s = state("opcua-user", "secret");
    assert_eq!(s.authenticate(None).unwrap_err().0, AuthFailureReason::Missing);
    assert!(www_authenticate(s.realm()).starts_with("Basic realm=\""));
}

#[test]
fn authenticate_rejects_malformed_scheme() {
    let s = state("opcua-user", "secret");
    assert_eq!(s.authenticate(Some(Some("Bearer xxx"))).unwrap_err().0, AuthFailureReason::MalformedScheme);
    assert_eq!(s.authenticate(Some(None)).unwrap_err().0, AuthFailureReason::MalformedScheme);
}

#[test]
fn authenticate_rejects_malformed_base64() {
    let s = state("opcua-user", "secret");
    assert_eq!(s.authenticate(Some(Some("Basic !!not-base64!!"))).unwrap_err().0, AuthFailureReason::MalformedBase64);
}

#[test]
fn authenticate_rejects_missing_colon() {
    let s = state("opcua-user", "secret");
    let header = basic("nocolon");
    let (reason, user) = s.authenticate(Some(Some(header.as_str()))).unwrap_err();
    assert_eq!(reason, AuthFailureReason::MissingColon);
    assert_eq!(user, "nocolon");
}

#[test]
fn authenticate_rejects_wrong_user() {
    let s = state("opcua-user", "secret");
    let header = basic("wrong-user:secret");
    let (reason, user) = s.authenticate(Some(Some(header.as_str()))).unwrap_err();
    assert_eq!(reason, AuthFailureReason::UserMismatch);
    assert_eq!(user, "wrong-user");
}

#[test]
fn authenticate_rejects_wrong_password() {
    let s = state("opcua-user", "secret");
    let header = basic("opcua-user:wrong-password");
    assert_eq!(s.authenticate(Some(Some(header.as_str()))).unwrap_err().0, AuthFailureReason::PasswordMismatch);
}

#[test]
fn authenticate_accepts_correct_credentials() {
    let s = state("opcua-user", "secret");
    let header = basic("opcua-user:secret");
    assert!(s.authenticate(Some(Some(header.as_str()))).is_ok());
    let lower_scheme = header.replacen("Basic", "bAsIc", 1);
    assert!(s.authenticate(Some(Some(lower_scheme.as_str()))).is_ok());
}

#[test]
fn authenticate_rejects_when_nothing_is_configured() {
    let s = state("", "");
    let header = basic(":");
    assert!(s.authenticate(Some(Some(header.as_str()))).is_err());
}

#[test]
fn decode_basic_splits_at_first_colon_after_trim() {
    let header = format!("Basic   {}  ", base64::engine::general_purpose::STANDARD.encode(b"user:pa:ss"));
    assert_eq!(decode_basic_auth_header(Some(header.as_str())), Ok(("user".to_string(), "pa:ss".to_string())));
}

#[test]
fn hmac_matches_known_vector() {
    let mac = hmac_sha256(&[0x0bu8; 32], b"Hi There");
    let hex: String = mac.iter().map(|b| format!("{:02x}", b)).collect();
    assert_eq!(hex, "198a607eb44bfbc69903a0f1cf2bbdc5ba0aa3f3d9ae3c1c7a3b1696a0b68cf7");
}

#[test]
fn realm_is_kept() {
    let s = state("u", "p");
    assert_eq!(s.realm(), "opcgw");
}

#[test]
fn fresh_key_states_accept_their_credentials() {
    let s = WebAuthState::new_with_fresh_key("admin", "pw", "r".to_string()).expect("random key");
    let header = basic("admin:pw");
    assert!(s.authenticate(Some(Some(header.as_str()))).is_ok());
    let header = basic("admin:nope");
    assert_eq!(s.authenticate(Some(Some(header.as_str()))).unwrap_err().0, AuthFailureReason::PasswordMismatch);
}

#[test]
fn sanitised_usernames_are_printable_ascii() {
    let s = sanitise_user("a\u{0}b\u{7f}é\r\t\"'\\z");
    assert!(s.chars().all(|c| (' '..='~').contains(&c)), "got {s:?}");
    assert_eq!(s, "a\\u{0}b\\u{7f}\\u{e9}\\r\\t\\\"\\'\\\\z");
    let long = "x".repeat(100);
    assert_eq!(sanitise_user(&long).len(), 64);
}
