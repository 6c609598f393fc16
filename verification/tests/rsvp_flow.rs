//! Scenario tests for the RSVP write coordinator and read path.

use rsvp_core::admin::{seed_admin, seed_guest};
use rsvp_core::auth::validate_code;
use rsvp_core::error::AppError;
use rsvp_core::rsvp::{get_rsvp_status, submit_rsvp};
use rsvp_core::schemas::{AttendeeInput, SubmitRsvpRequest, ValidateCodeRequest};
use rsvp_core::store::Store;

const NOW: i64 = 1_700_000_000;

fn code_req(code: &str) -> ValidateCodeRequest {
    ValidateCodeRequest { code: code.to_string() }
}

fn attendee(name: &str, attending: bool, meal: Option<&str>, diet: Option<&str>, primary: bool) -> AttendeeInput {
    AttendeeInput {
        name: name.to_string(),
        is_attending: attending,
        meal_preference: meal.map(|m| m.to_string()),
        dietary_restrictions: diet.map(|d| d.to_string()),
        is_primary: primary,
    }
}

fn guest_with_session(store: &mut Store, name: &str, party_size: i32, code: &str) -> String {
    seed_guest(store, &name.to_string(), party_size, &code.to_string(), NOW).unwrap();
    let (_, token) = validate_code(store, &code_req(code), NOW).unwrap();
    token
}

#[test]
fn get_rsvp_status_for_new_guest() {
    let mut store = Store::new();
    let token = guest_with_session(&mut store, "TestGuest_RSVP", 4, "GUESTR");
    let resp = get_rsvp_status(&store, Some(&token), NOW).unwrap();
    assert!(!resp.has_responded);
    assert_eq!(resp.party_size, 4);
    assert_eq!(resp.guest_name, "TestGuest_RSVP");
    assert!(resp.rsvp.is_none());
}

#[test]
fn submit_rsvp_success() {
    let mut store = Store::new();
    let token = guest_with_session(&mut store, "TestGuest_SR", 2, "GUESTS");
    let req = SubmitRsvpRequest {
        attendees: vec![
            attendee("Primary Guest", true, Some("chicken"), None, true),
            attendee("Plus One", true, Some("vegetarian"), Some("No nuts"), false),
        ],
    };
    let resp = submit_rsvp(&mut store, Some(&token), &req, NOW).unwrap();
    assert_eq!(resp.attendees.len(), 2);
    let status = get_rsvp_status(&store, Some(&token), NOW).unwrap();
    assert!(status.has_responded);
    let rr = status.rsvp.unwrap();
    assert_eq!(rr.attendees.len(), 2);
    assert_eq!(rr.attendees[0].name, "Primary Guest");
    assert!(rr.attendees[0].is_primary);
    assert_eq!(rr.attendees[0].meal_preference.as_deref(), Some("chicken"));
    assert_eq!(rr.attendees[1].name, "Plus One");
    assert!(!rr.attendees[1].is_primary);
    assert_eq!(rr.attendees[1].dietary_restrictions.as_deref(), Some("No nuts"));
}

#[test]
fn submit_rsvp_exceeds_party_size() {
    let mut store = Store::new();
    let token = guest_with_session(&mut store, "TestGuest_EPS", 1, "GUESTT");
    let req = SubmitRsvpRequest {
        attendees: vec![
            attendee("Guest 1", true, None, None, true),
            attendee("Guest 2", true, None, None, false),
        ],
    };
    let r = submit_rsvp(&mut store, Some(&token), &req, NOW);
    assert!(matches!(r.unwrap_err(), AppError::BadRequest(_)));
    // nothing was stored
    let status = get_rsvp_status(&store, Some(&token), NOW).unwrap();
    assert!(!status.has_responded);
}

#[test]
fn submit_rsvp_requires_primary() {
    let mut store = Store::new();
    let token = guest_with_session(&mut store, "TestGuest_RP", 2, "GUESTU");
    // zero primaries
    let req = SubmitRsvpRequest { attendees: vec![attendee("Guest 1", true, None, None, false)] };
    let r = submit_rsvp(&mut store, Some(&token), &req, NOW);
    assert!(matches!(r.unwrap_err(), AppError::BadRequest(_)));
    // two primaries
    let req = SubmitRsvpRequest {
        attendees: vec![
            attendee("Guest 1", true, None, None, true),
            attendee("Guest 2", true, None, None, true),
        ],
    };
    let r = submit_rsvp(&mut store, Some(&token), &req, NOW);
    assert!(matches!(r.unwrap_err(), AppError::BadRequest(_)));
    let status = get_rsvp_status(&store, Some(&token), NOW).unwrap();
    assert!(!status.has_responded);
}

#[test]
fn submit_rsvp_validates_meal_preference() {
    let mut store = Store::new();
    let token = guest_with_session(&mut store, "TestGuest_VMP", 2, "GUESTV");
    let req = SubmitRsvpRequest {
        attendees: vec![attendee("Guest", true, Some("pizza"), None, true)],
    };
    let r = submit_rsvp(&mut store, Some(&token), &req, NOW);
    assert!(matches!(r.unwrap_err(), AppError::BadRequest(_)));
    let status = get_rsvp_status(&store, Some(&token), NOW).unwrap();
    assert!(!status.has_responded);
}

#[test]
fn submit_rsvp_rejects_empty_attendee_list() {
    let mut store = Store::new();
    let token = guest_with_session(&mut store, "TestGuest_EMPTY", 2, "GUESTW");
    let req = SubmitRsvpRequest { attendees: vec![] };
    let r = submit_rsvp(&mut store, Some(&token), &req, NOW);
    match r.unwrap_err() {
        AppError::Validation(fields) => {
            assert_eq!(fields.len(), 1);
            assert_eq!(fields[0].field, "attendees");
        }
        other => panic!("expected a validation error, got {:?}", other),
    }
}

#[test]
fn failed_submission_keeps_prior_answer() {
    let mut store = Store::new();
    let token = guest_with_session(&mut store, "TestGuest_KEEP", 2, "GUESTX");
    let good = SubmitRsvpRequest {
        attendees: vec![attendee("Solo", true, Some("fish"), None, true)],
    };
    submit_rsvp(&mut store, Some(&token), &good, NOW).unwrap();
    let bad = SubmitRsvpRequest {
        attendees: vec![attendee("Solo", true, Some("pizza"), None, true)],
    };
    let r = submit_rsvp(&mut store, Some(&token), &bad, NOW + 10);
    assert!(matches!(r.unwrap_err(), AppError::BadRequest(_)));
    let status = get_rsvp_status(&store, Some(&token), NOW + 10).unwrap();
    assert!(status.has_responded);
    let rr = status.rsvp.unwrap();
    assert_eq!(rr.attendees.len(), 1);
    assert_eq!(rr.attendees[0].meal_preference.as_deref(), Some("fish"));
}

#[test]
fn resubmission_replaces_prior_attendees() {
    let mut store = Store::new();
    let token = guest_with_session(&mut store, "TestGuest_RES", 3, "GUESTY");
    let first = SubmitRsvpRequest {
        attendees: vec![
            attendee("Ada", true, Some("beef"), None, true),
            attendee("Ben", false, None, None, false),
            attendee("Cal", true, Some("vegan"), None, false),
        ],
    };
    submit_rsvp(&mut store, Some(&token), &first, NOW).unwrap();
    let second = SubmitRsvpRequest {
        attendees: vec![
            attendee("Zoe", true, Some("fish"), None, false),
            attendee("Ada", true, Some("vegan"), None, true),
        ],
    };
    submit_rsvp(&mut store, Some(&token), &second, NOW + 60).unwrap();
    let status = get_rsvp_status(&store, Some(&token), NOW + 60).unwrap();
    let rr = status.rsvp.unwrap();
    assert_eq!(rr.responded_at, NOW + 60);
    // only the second submission's attendees, the primary first, then by name
    assert_eq!(rr.attendees.len(), 2);
    assert_eq!(rr.attendees[0].name, "Ada");
    assert!(rr.attendees[0].is_primary);
    assert_eq!(rr.attendees[0].meal_preference.as_deref(), Some("vegan"));
    assert_eq!(rr.attendees[1].name, "Zoe");
    assert!(!rr.attendees[1].is_primary);
    // no stale row survived
    assert!(rr.attendees.iter().all(|a| a.name != "Ben" && a.name != "Cal"));
}

#[test]
fn status_orders_primary_first_then_by_name() {
    let mut store = Store::new();
    let token = guest_with_session(&mut store, "TestGuest_ORD", 4, "GUESTZ");
    let req = SubmitRsvpRequest {
        attendees: vec![
            attendee("Dana", true, None, None, false),
            attendee("Abe", false, None, None, false),
            attendee("Mia", true, Some("beef"), None, true),
            attendee("Cory", true, None, None, false),
        ],
    };
    submit_rsvp(&mut store, Some(&token), &req, NOW).unwrap();
    let rr = get_rsvp_status(&store, Some(&token), NOW).unwrap().rsvp.unwrap();
    let names: Vec<&str> = rr.attendees.iter().map(|a| a.name.as_str()).collect();
    assert_eq!(names, vec!["Mia", "Abe", "Cory", "Dana"]);
    assert!(rr.attendees[0].is_primary);
}

#[test]
fn rsvp_requires_guest_session() {
    let mut store = Store::new();
    seed_admin(
        &mut store,
        &"TestAdmin_RRGS".to_string(),
        &"password123".to_string(),
        &"ADMINR".to_string(),
        NOW,
    )
    .unwrap();
    let (_, pending) = validate_code(&mut store, &code_req("ADMINR"), NOW).unwrap();
    let r = get_rsvp_status(&store, Some(&pending), NOW);
    assert_eq!(r.unwrap_err(), AppError::Unauthorized);
    let req = SubmitRsvpRequest { attendees: vec![attendee("X", true, None, None, true)] };
    let r = submit_rsvp(&mut store, Some(&pending), &req, NOW);
    assert_eq!(r.unwrap_err(), AppError::Unauthorized);
}

#[test]
fn end_to_end_guest_flow() {
    let mut store = Store::new();
    seed_guest(&mut store, &"Party_E2E".to_string(), 2, &"E2EGST".to_string(), NOW).unwrap();
    let (resp, token) = validate_code(&mut store, &code_req("E2EGST"), NOW).unwrap();
    assert_eq!(resp.session_type, "guest");
    let req = SubmitRsvpRequest {
        attendees: vec![
            attendee("Lead Guest", true, Some("chicken"), None, true),
            attendee("Companion", true, Some("vegetarian"), None, false),
        ],
    };
    submit_rsvp(&mut store, Some(&token), &req, NOW).unwrap();
    let status = get_rsvp_status(&store, Some(&token), NOW).unwrap();
    assert!(status.has_responded);
    let rr = status.rsvp.unwrap();
    assert_eq!(rr.attendees.len(), 2);
    assert!(rr.attendees[0].is_primary);
    assert_eq!(rr.attendees[0].meal_preference.as_deref(), Some("chicken"));
    assert!(!rr.attendees[1].is_primary);
    assert_eq!(rr.attendees[1].meal_preference.as_deref(), Some("vegetarian"));
}
