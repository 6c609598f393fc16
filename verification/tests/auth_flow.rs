//! Scenario tests for invite-code redemption, login, logout, and session
//! reporting, run against an in-memory store.

use rsvp_core::admin::seed_admin;
use rsvp_core::admin::seed_guest;
use rsvp_core::auth::{admin_login, generate_token, get_current_session, get_session, logout,
    validate_code};
use rsvp_core::error::AppError;
use rsvp_core::models::{CodeType, SessionType};
use rsvp_core::schemas::{AdminLoginRequest, ValidateCodeRequest};
use rsvp_core::store::Store;

const NOW: i64 = 1_700_000_000;
const WEEK: i64 = 7 * 24 * 60 * 60;

fn code_req(code: &str) -> ValidateCodeRequest {
    ValidateCodeRequest { code: code.to_string() }
}

fn login_req(username: &str, password: &str) -> AdminLoginRequest {
    AdminLoginRequest { username: username.to_string(), password: password.to_string() }
}

#[test]
fn health_returns_ok() {
    let h = rsvp_core::health();
    assert_eq!(h.status, "ok");
}

#[test]
fn validate_guest_code_creates_session() {
    let mut store = Store::new();
    seed_guest(&mut store, &"TestGuest_VC".to_string(), 2, &"GUESTA".to_string(), NOW).unwrap();
    let (resp, token) = validate_code(&mut store, &code_req("GUESTA"), NOW).unwrap();
    assert_eq!(resp.session_type, "guest");
    assert_eq!(resp.guest_name.as_deref(), Some("TestGuest_VC"));
    assert_eq!(token.len(), 64);
    let sess = get_current_session(&store, Some(&token), NOW).unwrap();
    assert_eq!(sess.session_type, "guest");
    assert!(sess.guest_id.is_some());
    assert!(sess.admin_id.is_none());
    assert_eq!(sess.expires_at, NOW + WEEK);
}

#[test]
fn validate_admin_code_creates_pending_session() {
    let mut store = Store::new();
    seed_admin(
        &mut store,
        &"TestAdmin_VAC".to_string(),
        &"password123".to_string(),
        &"ADMIN1".to_string(),
        NOW,
    )
    .unwrap();
    let (resp, token) = validate_code(&mut store, &code_req("ADMIN1"), NOW).unwrap();
    assert_eq!(resp.session_type, "admin_pending");
    assert!(resp.guest_name.is_none());
    let sess = get_current_session(&store, Some(&token), NOW).unwrap();
    assert_eq!(sess.session_type, "admin_pending");
    assert!(sess.guest_id.is_none());
    assert!(sess.admin_id.is_none());
}

#[test]
fn validate_invalid_code_returns_400() {
    let mut store = Store::new();
    let r = validate_code(&mut store, &code_req("INVALID_CODE_XYZ"), NOW);
    assert_eq!(r.unwrap_err(), AppError::BadRequest("Invalid code".to_string()));
}

#[test]
fn validate_empty_code_is_a_validation_error() {
    let mut store = Store::new();
    let r = validate_code(&mut store, &code_req(""), NOW);
    match r.unwrap_err() {
        AppError::Validation(fields) => {
            assert_eq!(fields.len(), 1);
            assert_eq!(fields[0].field, "code");
        }
        other => panic!("expected a validation error, got {:?}", other),
    }
}

#[test]
fn validate_code_with_corrupt_code_type_is_internal() {
    let mut store = Store::new();
    // a row whose stored code_type is outside the known enumeration is an
    // integrity fault, never silently coerced
    store.invite_codes.push(rsvp_core::models::InviteCode {
        id: 999,
        code: "ODDONE".to_string(),
        code_type: "banana".to_string(),
        guest_id: None,
        created_at: NOW,
    });
    store.next_id = 1000;
    let r = validate_code(&mut store, &code_req("ODDONE"), NOW);
    assert!(matches!(r.unwrap_err(), AppError::Internal(_)));
}

#[test]
fn admin_login_requires_pending_session() {
    let mut store = Store::new();
    seed_admin(
        &mut store,
        &"TestAdmin_ALRPS".to_string(),
        &"password123".to_string(),
        &"ADMIN2".to_string(),
        NOW,
    )
    .unwrap();
    // no session at all
    let r = admin_login(&mut store, &login_req("TestAdmin_ALRPS", "password123"), None, NOW);
    assert_eq!(r.unwrap_err(), AppError::Unauthorized);
    // a guest session may not attempt the upgrade either
    seed_guest(&mut store, &"TestGuest_ALRPS".to_string(), 2, &"GUESTB".to_string(), NOW).unwrap();
    let (_, guest_token) = validate_code(&mut store, &code_req("GUESTB"), NOW).unwrap();
    let r = admin_login(
        &mut store,
        &login_req("TestAdmin_ALRPS", "password123"),
        Some(&guest_token),
        NOW,
    );
    assert_eq!(r.unwrap_err(), AppError::Unauthorized);
}

#[test]
fn admin_login_full_flow() {
    let mut store = Store::new();
    seed_admin(
        &mut store,
        &"TestAdmin_ALFF".to_string(),
        &"password123".to_string(),
        &"ADMIN3".to_string(),
        NOW,
    )
    .unwrap();
    let (_, pending) = validate_code(&mut store, &code_req("ADMIN3"), NOW).unwrap();
    let (resp, admin_token) = admin_login(
        &mut store,
        &login_req("TestAdmin_ALFF", "password123"),
        Some(&pending),
        NOW,
    )
    .unwrap();
    assert_eq!(resp.username, "TestAdmin_ALFF");
    // the pending session is gone, the admin session live
    assert!(get_current_session(&store, Some(&pending), NOW).is_none());
    let sess = get_current_session(&store, Some(&admin_token), NOW).unwrap();
    assert_eq!(sess.session_type, "admin");
    assert!(sess.admin_id.is_some());
}

#[test]
fn admin_login_wrong_password_returns_401() {
    let mut store = Store::new();
    seed_admin(
        &mut store,
        &"TestAdmin_WP".to_string(),
        &"password123".to_string(),
        &"ADMIN4".to_string(),
        NOW,
    )
    .unwrap();
    let (_, pending) = validate_code(&mut store, &code_req("ADMIN4"), NOW).unwrap();
    let r = admin_login(
        &mut store,
        &login_req("TestAdmin_WP", "wrongpassword"),
        Some(&pending),
        NOW,
    );
    assert_eq!(r.unwrap_err(), AppError::Unauthorized);
    // the pending session is left intact: the login can be retried
    let sess = get_current_session(&store, Some(&pending), NOW).unwrap();
    assert_eq!(sess.session_type, "admin_pending");
    let (resp, _) = admin_login(
        &mut store,
        &login_req("TestAdmin_WP", "password123"),
        Some(&pending),
        NOW,
    )
    .unwrap();
    assert_eq!(resp.username, "TestAdmin_WP");
}

#[test]
fn admin_login_unknown_username_returns_401() {
    let mut store = Store::new();
    seed_admin(
        &mut store,
        &"TestAdmin_UU".to_string(),
        &"password123".to_string(),
        &"ADMIN5".to_string(),
        NOW,
    )
    .unwrap();
    let (_, pending) = validate_code(&mut store, &code_req("ADMIN5"), NOW).unwrap();
    let r = admin_login(&mut store, &login_req("nobody", "password123"), Some(&pending), NOW);
    assert_eq!(r.unwrap_err(), AppError::Unauthorized);
    assert!(get_current_session(&store, Some(&pending), NOW).is_some());
}

#[test]
fn malformed_stored_hash_fails_verification_not_crash() {
    let mut store = Store::new();
    store.admins.push(rsvp_core::models::Admin {
        id: 500,
        username: "broken".to_string(),
        password_hash: "not-a-phc-string".to_string(),
        created_at: NOW,
    });
    store.invite_codes.push(rsvp_core::models::InviteCode {
        id: 501,
        code: "ADMIN6".to_string(),
        code_type: "admin".to_string(),
        guest_id: None,
        created_at: NOW,
    });
    store.next_id = 502;
    let (_, pending) = validate_code(&mut store, &code_req("ADMIN6"), NOW).unwrap();
    let r = admin_login(&mut store, &login_req("broken", "anything"), Some(&pending), NOW);
    assert_eq!(r.unwrap_err(), AppError::Unauthorized);
}

#[test]
fn get_session_returns_guest_info() {
    let mut store = Store::new();
    let gid =
        seed_guest(&mut store, &"TestGuest_GS".to_string(), 3, &"GUESTC".to_string(), NOW).unwrap();
    let (_, token) = validate_code(&mut store, &code_req("GUESTC"), NOW).unwrap();
    let resp = get_session(&store, Some(&token), NOW).unwrap();
    assert_eq!(resp.session_type, "guest");
    assert_eq!(resp.guest_id, Some(gid));
    assert_eq!(resp.guest_name.as_deref(), Some("TestGuest_GS"));
    assert!(resp.admin_id.is_none());
    assert!(resp.admin_username.is_none());
}

#[test]
fn get_session_without_cookie_returns_401() {
    let store = Store::new();
    let r = get_session(&store, None, NOW);
    assert_eq!(r.unwrap_err(), AppError::Unauthorized);
}

#[test]
fn expired_session_is_treated_as_absent() {
    let mut store = Store::new();
    seed_guest(&mut store, &"TestGuest_EXP".to_string(), 2, &"GUESTD".to_string(), NOW).unwrap();
    let (_, token) = validate_code(&mut store, &code_req("GUESTD"), NOW).unwrap();
    assert!(get_current_session(&store, Some(&token), NOW + WEEK - 1).is_some());
    // the lifetime is hard: at and after the expiry instant the session is gone
    assert!(get_current_session(&store, Some(&token), NOW + WEEK).is_none());
    let r = get_session(&store, Some(&token), NOW + WEEK + 1);
    assert_eq!(r.unwrap_err(), AppError::Unauthorized);
}

#[test]
fn logout_clears_session() {
    let mut store = Store::new();
    seed_guest(&mut store, &"TestGuest_LO".to_string(), 2, &"GUESTE".to_string(), NOW).unwrap();
    let (_, token) = validate_code(&mut store, &code_req("GUESTE"), NOW).unwrap();
    assert!(get_current_session(&store, Some(&token), NOW).is_some());
    logout(&mut store, Some(&token), NOW).unwrap();
    // any protected call now fails
    let r = get_session(&store, Some(&token), NOW);
    assert_eq!(r.unwrap_err(), AppError::Unauthorized);
    let r = rsvp_core::rsvp::get_rsvp_status(&store, Some(&token), NOW);
    assert_eq!(r.unwrap_err(), AppError::Unauthorized);
}

#[test]
fn logout_twice_does_not_error() {
    let mut store = Store::new();
    seed_guest(&mut store, &"TestGuest_LO2".to_string(), 2, &"GUESTF".to_string(), NOW).unwrap();
    let (_, token) = validate_code(&mut store, &code_req("GUESTF"), NOW).unwrap();
    logout(&mut store, Some(&token), NOW).unwrap();
    logout(&mut store, Some(&token), NOW).unwrap();
    logout(&mut store, None, NOW).unwrap();
}

#[test]
fn session_tokens_are_hex_and_distinct() {
    let a = generate_token();
    let b = generate_token();
    assert_eq!(a.len(), 64);
    assert_eq!(b.len(), 64);
    assert_ne!(a, b);
    assert!(a.chars().all(|c| c.is_ascii_hexdigit() && !c.is_ascii_uppercase()));
}

#[test]
fn registry_resolves_codes_to_their_grant() {
    let mut store = Store::new();
    let gid =
        seed_guest(&mut store, &"TestGuest_RES".to_string(), 2, &"RESGCD".to_string(), NOW).unwrap();
    seed_admin(
        &mut store,
        &"TestAdmin_RES".to_string(),
        &"password123".to_string(),
        &"RESACD".to_string(),
        NOW,
    )
    .unwrap();
    assert_eq!(store.resolve_code("RESGCD"), Ok((CodeType::Guest, Some(gid))));
    assert_eq!(store.resolve_code("RESACD"), Ok((CodeType::Admin, None)));
    assert_eq!(
        store.resolve_code("MISSIN"),
        Err(AppError::NotFound("Code not found".to_string()))
    );
}

#[test]
fn code_type_round_trips() {
    assert_eq!(CodeType::parse("guest"), Some(CodeType::Guest));
    assert_eq!(CodeType::parse("admin"), Some(CodeType::Admin));
    assert_eq!(CodeType::parse("other"), None);
    assert_eq!(CodeType::Guest.as_str(), "guest");
    assert_eq!(CodeType::Admin.as_str(), "admin");
    assert_eq!(CodeType::parse(CodeType::Guest.as_str()), Some(CodeType::Guest));
}

#[test]
fn session_type_round_trips() {
    assert_eq!(SessionType::parse("guest"), Some(SessionType::Guest));
    assert_eq!(SessionType::parse("admin_pending"), Some(SessionType::AdminPending));
    assert_eq!(SessionType::parse("admin"), Some(SessionType::Admin));
    assert_eq!(SessionType::parse(""), None);
    assert_eq!(SessionType::AdminPending.as_str(), "admin_pending");
    assert_eq!(
        SessionType::parse(SessionType::Admin.as_str()),
        Some(SessionType::Admin)
    );
}
