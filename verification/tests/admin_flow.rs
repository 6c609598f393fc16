//! Scenario tests for administration: guest management, code issuance, and
//! the password-change flow.

use rsvp_core::admin::{create_guest, delete_guest, generate_invite_code, generate_unique_code,
    regenerate_code, seed_admin, seed_guest, update_guest, change_password};
use rsvp_core::auth::{admin_login, get_session, validate_code};
use rsvp_core::error::AppError;
use rsvp_core::schemas::{AdminLoginRequest, ChangePasswordRequest, CreateGuestRequest,
    UpdateGuestRequest, ValidateCodeRequest};
use rsvp_core::store::Store;

const NOW: i64 = 1_700_000_000;
const ALPHABET: &str = "ABCDEFGHJKMNPQRSTUVWXYZ23456789";

fn code_req(code: &str) -> ValidateCodeRequest {
    ValidateCodeRequest { code: code.to_string() }
}

fn admin_session(store: &mut Store, username: &str, password: &str, code: &str) -> String {
    seed_admin(store, &username.to_string(), &password.to_string(), &code.to_string(), NOW)
        .unwrap();
    let (_, pending) = validate_code(store, &code_req(code), NOW).unwrap();
    let (_, token) = admin_login(
        store,
        &AdminLoginRequest { username: username.to_string(), password: password.to_string() },
        Some(&pending),
        NOW,
    )
    .unwrap();
    token
}

#[test]
fn generated_codes_fit_the_restricted_alphabet() {
    for _ in 0..200 {
        let code = generate_invite_code();
        assert_eq!(code.chars().count(), 6);
        assert!(code.chars().all(|c| ALPHABET.contains(c)));
    }
}

#[test]
fn generate_unique_code_avoids_existing_codes() {
    let mut store = Store::new();
    seed_guest(&mut store, &"G".to_string(), 1, &"AAAAAA".to_string(), NOW).unwrap();
    for _ in 0..50 {
        let c = generate_unique_code(&store).unwrap();
        assert_ne!(c, "AAAAAA");
        let gid = store.next_id;
        seed_guest(&mut store, &"G".to_string(), 1, &c, NOW).unwrap();
        assert!(gid >= 1);
    }
}

#[test]
fn admin_create_guest() {
    let mut store = Store::new();
    let token = admin_session(&mut store, "Admin_CG", "password123", "ADMCG1");
    let resp = create_guest(
        &mut store,
        Some(&token),
        &CreateGuestRequest { name: "NewGuest_CG".to_string(), party_size: 3 },
        NOW,
    )
    .unwrap();
    assert_eq!(resp.name, "NewGuest_CG");
    assert_eq!(resp.party_size, 3);
    assert_eq!(resp.invite_code.chars().count(), 6);
    // the code redeems to a guest session for the new guest
    let (vresp, _) = validate_code(&mut store, &code_req(&resp.invite_code), NOW).unwrap();
    assert_eq!(vresp.session_type, "guest");
    assert_eq!(vresp.guest_name.as_deref(), Some("NewGuest_CG"));
}

#[test]
fn admin_update_guest() {
    let mut store = Store::new();
    let token = admin_session(&mut store, "Admin_UG", "password123", "ADMUG1");
    let gid = seed_guest(&mut store, &"TestGuest_UG".to_string(), 2, &"UGCODE".to_string(), NOW)
        .unwrap();
    let g = update_guest(
        &mut store,
        Some(&token),
        gid,
        &UpdateGuestRequest { name: "UpdatedGuest_UG".to_string(), party_size: 5 },
        NOW,
    )
    .unwrap();
    assert_eq!(g.name, "UpdatedGuest_UG");
    assert_eq!(g.party_size, 5);
    let r = update_guest(
        &mut store,
        Some(&token),
        999_999,
        &UpdateGuestRequest { name: "X".to_string(), party_size: 1 },
        NOW,
    );
    assert_eq!(r.unwrap_err(), AppError::NotFound("Guest not found".to_string()));
}

#[test]
fn admin_delete_guest() {
    let mut store = Store::new();
    let token = admin_session(&mut store, "Admin_DG", "password123", "ADMDG1");
    let gid = seed_guest(&mut store, &"TestGuest_DG".to_string(), 2, &"DGCODE".to_string(), NOW)
        .unwrap();
    let (_, guest_token) = validate_code(&mut store, &code_req("DGCODE"), NOW).unwrap();
    delete_guest(&mut store, Some(&token), gid, NOW).unwrap();
    // the cascade removed their code and their session
    let r = validate_code(&mut store, &code_req("DGCODE"), NOW);
    assert_eq!(r.unwrap_err(), AppError::BadRequest("Invalid code".to_string()));
    let r = get_session(&store, Some(&guest_token), NOW);
    assert_eq!(r.unwrap_err(), AppError::Unauthorized);
    // deleting again is NotFound
    let r = delete_guest(&mut store, Some(&token), gid, NOW);
    assert_eq!(r.unwrap_err(), AppError::NotFound("Guest not found".to_string()));
}

#[test]
fn admin_regenerate_code() {
    let mut store = Store::new();
    let token = admin_session(&mut store, "Admin_RC", "password123", "ADMRC1");
    let gid = seed_guest(&mut store, &"TestGuest_RC".to_string(), 2, &"RCCODE".to_string(), NOW)
        .unwrap();
    let resp = regenerate_code(&mut store, Some(&token), gid, NOW).unwrap();
    assert_eq!(resp.invite_code.chars().count(), 6);
    // the fresh code differs from every code that existed, the old one included
    assert_ne!(resp.invite_code, "RCCODE");
    // the old code is dead, the new one redeems
    let r = validate_code(&mut store, &code_req("RCCODE"), NOW);
    assert_eq!(r.unwrap_err(), AppError::BadRequest("Invalid code".to_string()));
    let (vresp, _) = validate_code(&mut store, &code_req(&resp.invite_code), NOW).unwrap();
    assert_eq!(vresp.guest_name.as_deref(), Some("TestGuest_RC"));
}

#[test]
fn regenerate_rejects_a_code_already_held() {
    let mut store = Store::new();
    let token = admin_session(&mut store, "Admin_RT", "password123", "ADMRT2");
    let gid = seed_guest(&mut store, &"TestGuest_RT".to_string(), 2, &"RTCODE".to_string(), NOW)
        .unwrap();
    seed_guest(&mut store, &"OtherGuest_RT".to_string(), 2, &"RTKEEP".to_string(), NOW).unwrap();
    // another guest's code, and even the guest's own current code, are taken
    let r = rsvp_core::admin::regenerate_code_with_code(
        &mut store,
        Some(&token),
        gid,
        "RTKEEP".to_string(),
        NOW,
    );
    assert!(matches!(r.unwrap_err(), AppError::Database(_)));
    let r = rsvp_core::admin::regenerate_code_with_code(
        &mut store,
        Some(&token),
        gid,
        "RTCODE".to_string(),
        NOW,
    );
    assert!(matches!(r.unwrap_err(), AppError::Database(_)));
    // both codes still redeem
    assert!(validate_code(&mut store, &code_req("RTCODE"), NOW).is_ok());
    assert!(validate_code(&mut store, &code_req("RTKEEP"), NOW).is_ok());
}

#[test]
fn admin_routes_require_auth() {
    let mut store = Store::new();
    let r = create_guest(
        &mut store,
        None,
        &CreateGuestRequest { name: "N".to_string(), party_size: 1 },
        NOW,
    );
    assert_eq!(r.unwrap_err(), AppError::Unauthorized);
    let r = delete_guest(&mut store, None, 1, NOW);
    assert_eq!(r.unwrap_err(), AppError::Unauthorized);
    let r = regenerate_code(&mut store, None, 1, NOW);
    assert_eq!(r.unwrap_err(), AppError::Unauthorized);
    // a guest session is not enough
    seed_guest(&mut store, &"G_ARA".to_string(), 1, &"ARACOD".to_string(), NOW).unwrap();
    let (_, guest_token) = validate_code(&mut store, &code_req("ARACOD"), NOW).unwrap();
    let r = create_guest(
        &mut store,
        Some(&guest_token),
        &CreateGuestRequest { name: "N".to_string(), party_size: 1 },
        NOW,
    );
    assert_eq!(r.unwrap_err(), AppError::Unauthorized);
}

#[test]
fn create_guest_rejects_bad_input() {
    let mut store = Store::new();
    let token = admin_session(&mut store, "Admin_CGV", "password123", "ADMCV1");
    let r = create_guest(
        &mut store,
        Some(&token),
        &CreateGuestRequest { name: "".to_string(), party_size: 0 },
        NOW,
    );
    match r.unwrap_err() {
        AppError::Validation(fields) => {
            assert_eq!(fields.len(), 2);
            assert_eq!(fields[0].field, "name");
            assert_eq!(fields[1].field, "party_size");
        }
        other => panic!("expected a validation error, got {:?}", other),
    }
}

#[test]
fn change_password_success() {
    let mut store = Store::new();
    let token = admin_session(&mut store, "TestAdmin_CP", "oldpassword", "ADMCP1");
    change_password(
        &mut store,
        Some(&token),
        &ChangePasswordRequest {
            current_password: "oldpassword".to_string(),
            new_password: "newpassword123".to_string(),
        },
        NOW,
    )
    .unwrap();
    // the old password no longer verifies at login; the new one does
    let (_, pending) = validate_code(&mut store, &code_req("ADMCP1"), NOW).unwrap();
    let r = admin_login(
        &mut store,
        &AdminLoginRequest {
            username: "TestAdmin_CP".to_string(),
            password: "oldpassword".to_string(),
        },
        Some(&pending),
        NOW,
    );
    assert_eq!(r.unwrap_err(), AppError::Unauthorized);
    let (resp, _) = admin_login(
        &mut store,
        &AdminLoginRequest {
            username: "TestAdmin_CP".to_string(),
            password: "newpassword123".to_string(),
        },
        Some(&pending),
        NOW,
    )
    .unwrap();
    assert_eq!(resp.username, "TestAdmin_CP");
}

#[test]
fn change_password_wrong_current() {
    let mut store = Store::new();
    let token = admin_session(&mut store, "TestAdmin_CPWC", "correctpassword", "ADMCP2");
    let r = change_password(
        &mut store,
        Some(&token),
        &ChangePasswordRequest {
            current_password: "wrongpassword".to_string(),
            new_password: "newpassword123".to_string(),
        },
        NOW,
    );
    assert_eq!(
        r.unwrap_err(),
        AppError::BadRequest("Current password is incorrect".to_string())
    );
    // the stored credential is untouched: the correct one still works
    let r = change_password(
        &mut store,
        Some(&token),
        &ChangePasswordRequest {
            current_password: "correctpassword".to_string(),
            new_password: "newpassword123".to_string(),
        },
        NOW,
    );
    assert!(r.is_ok());
}

#[test]
fn end_to_end_admin_flow() {
    let mut store = Store::new();
    seed_admin(
        &mut store,
        &"E2E_Admin".to_string(),
        &"password123".to_string(),
        &"E2EADM".to_string(),
        NOW,
    )
    .unwrap();
    let (resp, pending) = validate_code(&mut store, &code_req("E2EADM"), NOW).unwrap();
    assert_eq!(resp.session_type, "admin_pending");
    let (lresp, admin_token) = admin_login(
        &mut store,
        &AdminLoginRequest {
            username: "E2E_Admin".to_string(),
            password: "password123".to_string(),
        },
        Some(&pending),
        NOW,
    )
    .unwrap();
    assert_eq!(lresp.username, "E2E_Admin");
    let sresp = get_session(&store, Some(&admin_token), NOW).unwrap();
    assert_eq!(sresp.session_type, "admin");
    assert_eq!(sresp.admin_username.as_deref(), Some("E2E_Admin"));
    change_password(
        &mut store,
        Some(&admin_token),
        &ChangePasswordRequest {
            current_password: "password123".to_string(),
            new_password: "evenbetterpass".to_string(),
        },
        NOW,
    )
    .unwrap();
    let (_, pending2) = validate_code(&mut store, &code_req("E2EADM"), NOW).unwrap();
    let r = admin_login(
        &mut store,
        &AdminLoginRequest {
            username: "E2E_Admin".to_string(),
            password: "password123".to_string(),
        },
        Some(&pending2),
        NOW,
    );
    assert_eq!(r.unwrap_err(), AppError::Unauthorized);
}

#[test]
fn change_password_requires_long_replacement() {
    let mut store = Store::new();
    let token = admin_session(&mut store, "TestAdmin_SHORT", "correctpassword", "ADMCP3");
    let r = change_password(
        &mut store,
        Some(&token),
        &ChangePasswordRequest {
            current_password: "correctpassword".to_string(),
            new_password: "short".to_string(),
        },
        NOW,
    );
    match r.unwrap_err() {
        AppError::Validation(fields) => {
            assert_eq!(fields.len(), 1);
            assert_eq!(fields[0].field, "new_password");
        }
        other => panic!("expected a validation error, got {:?}", other),
    }
}

#[test]
fn attendee_input_validation() {
    let ok = rsvp_core::schemas::AttendeeInput {
        name: "Fine".to_string(),
        is_attending: true,
        meal_preference: None,
        dietary_restrictions: Some("a".repeat(500)),
        is_primary: true,
    };
    assert!(ok.validate_request().is_ok());
    let bad = rsvp_core::schemas::AttendeeInput {
        name: "".to_string(),
        is_attending: true,
        meal_preference: None,
        dietary_restrictions: Some("a".repeat(501)),
        is_primary: false,
    };
    let fields = bad.validate_request().unwrap_err();
    assert_eq!(fields.len(), 2);
    assert_eq!(fields[0].field, "name");
    assert_eq!(fields[1].field, "dietary_restrictions");
}

#[test]
fn validation_error_response_lists_fields() {
    let fields = vec![rsvp_core::schemas::FieldError {
        field: "name".to_string(),
        message: "Name must be 1-100 characters".to_string(),
    }];
    let resp = rsvp_core::schemas::ValidationErrorResponse::new(fields.clone());
    assert_eq!(resp.error, "Validation failed");
    assert_eq!(resp.fields, fields);
    assert_eq!(rsvp_core::error::AppError::validation(fields.clone()),
        rsvp_core::error::AppError::Validation(fields));
}
