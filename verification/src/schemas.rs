//! Request and response shapes for the service surface, with their input
//! validation rules.

use vstd::prelude::*;
use vstd::string::StrSliceExecFns;

verus! {

/// One field-level failure, as a mathematical value.
pub open spec fn field_error_v(field: Seq<char>, message: Seq<char>) -> FieldErrorV {
    FieldErrorV { field, message }
}

/// A validation failure reported for one request field.
#[derive(Debug, Clone, PartialEq)]
pub struct FieldError {
    /// The field that failed validation.
    pub field: String,
    /// A human-readable error message.
    pub message: String,
}

/// Mathematical image of a `FieldError`.
pub struct FieldErrorV {
    pub field: Seq<char>,
    pub message: Seq<char>,
}

impl View for FieldError {
    type V = FieldErrorV;

    open spec fn view(&self) -> FieldErrorV {
        FieldErrorV { field: self.field@, message: self.message@ }
    }
}

impl DeepView for FieldError {
    type V = FieldErrorV;

    open spec fn deep_view(&self) -> FieldErrorV {
        self.view()
    }
}

/// Response body for validation errors.
#[derive(Debug, Clone, PartialEq)]
pub struct ValidationErrorResponse {
    /// The error type.
    pub error: String,
    /// List of field-level validation errors.
    pub fields: Vec<FieldError>,
}

impl ValidationErrorResponse {
    /// Create a new validation error response from field errors.
    pub fn new(fields: Vec<FieldError>) -> (r: ValidationErrorResponse)
        ensures
            r.error@ == "Validation failed"@,
            r.fields.deep_view() == fields.deep_view(),
    {
        ValidationErrorResponse { error: "Validation failed".to_owned(), fields }
    }
}

/// Request to validate an invite code.
#[derive(Debug, Clone, PartialEq)]
pub struct ValidateCodeRequest {
    /// The invite code to redeem.
    pub code: String,
}

/// Response after validating an invite code.
#[derive(Debug, Clone, PartialEq)]
pub struct ValidateCodeResponse {
    /// The type of session created: "guest" or "admin_pending".
    pub session_type: String,
    /// Guest name (only for guest sessions).
    pub guest_name: Option<String>,
}

/// Request for admin login (username/password).
#[derive(Debug, Clone, PartialEq)]
pub struct AdminLoginRequest {
    /// Admin username.
    pub username: String,
    /// Admin password.
    pub password: String,
}

/// Response after successful admin login.
#[derive(Debug, Clone, PartialEq)]
pub struct AdminLoginResponse {
    /// The admin's username.
    pub username: String,
}

/// Response for current session info.
#[derive(Debug, Clone, PartialEq)]
pub struct SessionResponse {
    /// Session type: "guest", "admin_pending", or "admin".
    pub session_type: String,
    /// Guest ID (if guest session).
    pub guest_id: Option<u64>,
    /// Guest name (if guest session).
    pub guest_name: Option<String>,
    /// Admin ID (if admin session).
    pub admin_id: Option<u64>,
    /// Admin username (if admin session).
    pub admin_username: Option<String>,
}

/// Input for a single attendee in an RSVP submission.
#[derive(Debug, Clone, PartialEq)]
pub struct AttendeeInput {
    pub name: String,
    pub is_attending: bool,
    pub meal_preference: Option<String>,
    pub dietary_restrictions: Option<String>,
    pub is_primary: bool,
}

/// Mathematical image of an `AttendeeInput`.
pub struct AttendeeInputV {
    pub name: Seq<char>,
    pub is_attending: bool,
    pub meal_preference: Option<Seq<char>>,
    pub dietary_restrictions: Option<Seq<char>>,
    pub is_primary: bool,
}

impl View for AttendeeInput {
    type V = AttendeeInputV;

    open spec fn view(&self) -> AttendeeInputV {
        AttendeeInputV {
            name: self.name@,
            is_attending: self.is_attending,
            meal_preference: self.meal_preference.deep_view(),
            dietary_restrictions: self.dietary_restrictions.deep_view(),
            is_primary: self.is_primary,
        }
    }
}

impl DeepView for AttendeeInput {
    type V = AttendeeInputV;

    open spec fn deep_view(&self) -> AttendeeInputV {
        self.view()
    }
}

/// Request to submit or update an RSVP.
#[derive(Debug, Clone, PartialEq)]
pub struct SubmitRsvpRequest {
    pub attendees: Vec<AttendeeInput>,
}

/// Response for a single attendee.
#[derive(Debug, PartialEq)]
pub struct AttendeeResponse {
    pub id: u64,
    pub name: String,
    pub is_attending: bool,
    pub meal_preference: Option<String>,
    pub dietary_restrictions: Option<String>,
    pub is_primary: bool,
}

/// Mathematical image of an `AttendeeResponse`.
pub struct AttendeeResponseV {
    pub id: u64,
    pub name: Seq<char>,
    pub is_attending: bool,
    pub meal_preference: Option<Seq<char>>,
    pub dietary_restrictions: Option<Seq<char>>,
    pub is_primary: bool,
}

impl View for AttendeeResponse {
    type V = AttendeeResponseV;

    open spec fn view(&self) -> AttendeeResponseV {
        AttendeeResponseV {
            id: self.id,
            name: self.name@,
            is_attending: self.is_attending,
            meal_preference: self.meal_preference.deep_view(),
            dietary_restrictions: self.dietary_restrictions.deep_view(),
            is_primary: self.is_primary,
        }
    }
}

impl DeepView for AttendeeResponse {
    type V = AttendeeResponseV;

    open spec fn deep_view(&self) -> AttendeeResponseV {
        self.view()
    }
}

impl Clone for AttendeeResponse {
    fn clone(&self) -> (r: Self)
        ensures
            r@ == self@,
    {
        AttendeeResponse {
            id: self.id,
            name: self.name.clone(),
            is_attending: self.is_attending,
            meal_preference: match &self.meal_preference {
                Some(m) => Some(m.clone()),
                None => None,
            },
            dietary_restrictions: match &self.dietary_restrictions {
                Some(d) => Some(d.clone()),
                None => None,
            },
            is_primary: self.is_primary,
        }
    }
}

/// Response for an RSVP with its attendees.
#[derive(Debug, Clone, PartialEq)]
pub struct RsvpResponse {
    pub id: u64,
    pub guest_id: u64,
    pub responded_at: i64,
    pub attendees: Vec<AttendeeResponse>,
}

/// Response for RSVP status check.
#[derive(Debug, Clone, PartialEq)]
pub struct RsvpStatusResponse {
    pub has_responded: bool,
    pub party_size: i32,
    pub guest_name: String,
    pub rsvp: Option<RsvpResponse>,
}

/// Request to change the admin password.
#[derive(Debug, Clone, PartialEq)]
pub struct ChangePasswordRequest {
    /// The password currently on record, which the caller must prove knowledge of.
    pub current_password: String,
    /// The replacement password.
    pub new_password: String,
}

/// Response after a successful password change.
#[derive(Debug, Clone, PartialEq)]
pub struct ChangePasswordResponse {
    pub message: String,
}

/// Request to create a new guest.
#[derive(Debug, Clone, PartialEq)]
pub struct CreateGuestRequest {
    pub name: String,
    pub party_size: i32,
}

/// Response after creating a guest, carrying the freshly issued invite code.
#[derive(Debug, Clone, PartialEq)]
pub struct CreateGuestResponse {
    pub id: u64,
    pub name: String,
    pub party_size: i32,
    pub invite_code: String,
}

/// Request to update a guest's editable fields.
#[derive(Debug, Clone, PartialEq)]
pub struct UpdateGuestRequest {
    pub name: String,
    pub party_size: i32,
}

/// Response carrying a regenerated invite code.
#[derive(Debug, Clone, PartialEq)]
pub struct GenerateCodeResponse {
    pub invite_code: String,
}

/// Build one field-level failure.
fn field_error(field: &str, message: &str) -> (r: FieldError)
    ensures
        r@ == field_error_v(field@, message@),
{
    FieldError { field: field.to_owned(), message: message.to_owned() }
}

impl ValidateCodeRequest {
    /// The invite code must be 1 to 50 characters.
    pub fn validate_request(&self) -> (r: Result<(), Vec<FieldError>>)
        ensures
            1 <= self.code@.len() <= 50 ==> r is Ok,
            !(1 <= self.code@.len() <= 50) ==> (r matches Err(fs) && fs.deep_view() == seq![
                field_error_v("code"@, "Code is required"@),
            ]),
    {
        let len = self.code.as_str().unicode_len();
        if 1 <= len && len <= 50 {
            Ok(())
        } else {
            let mut fs: Vec<FieldError> = Vec::new();
            fs.push(field_error("code", "Code is required"));
            proof {
                assert(fs.deep_view() =~= seq![field_error_v("code"@, "Code is required"@)]);
            }
            Err(fs)
        }
    }
}

/// The failures that `AdminLoginRequest::validate_request` reports.
pub open spec fn login_violations(username: Seq<char>, password: Seq<char>) -> Seq<FieldErrorV> {
    let u: Seq<FieldErrorV> = if !(1 <= username.len() <= 100) {
        seq![field_error_v("username"@, "Username is required"@)]
    } else {
        Seq::empty()
    };
    let p: Seq<FieldErrorV> = if password.len() < 1 {
        seq![field_error_v("password"@, "Password is required"@)]
    } else {
        Seq::empty()
    };
    u + p
}

impl AdminLoginRequest {
    /// The username must be 1 to 100 characters and the password nonempty.
    pub fn validate_request(&self) -> (r: Result<(), Vec<FieldError>>)
        ensures
            login_violations(self.username@, self.password@).len() == 0 ==> r is Ok,
            login_violations(self.username@, self.password@).len() > 0 ==> (r matches Err(fs)
                && fs.deep_view() == login_violations(self.username@, self.password@)),
    {
        let ulen = self.username.as_str().unicode_len();
        let plen = self.password.as_str().unicode_len();
        let mut fs: Vec<FieldError> = Vec::new();
        if !(1 <= ulen && ulen <= 100) {
            fs.push(field_error("username", "Username is required"));
        }
        if plen < 1 {
            fs.push(field_error("password", "Password is required"));
        }
        proof {
            assert(fs.deep_view() =~= login_violations(self.username@, self.password@));
        }
        if fs.len() == 0 {
            Ok(())
        } else {
            Err(fs)
        }
    }
}

impl SubmitRsvpRequest {
    /// At least one attendee must be submitted.
    pub fn validate_request(&self) -> (r: Result<(), Vec<FieldError>>)
        ensures
            self.attendees@.len() >= 1 ==> r is Ok,
            self.attendees@.len() == 0 ==> (r matches Err(fs) && fs.deep_view() == seq![
                field_error_v("attendees"@, "At least one attendee required"@),
            ]),
    {
        if self.attendees.len() >= 1 {
            Ok(())
        } else {
            let mut fs: Vec<FieldError> = Vec::new();
            fs.push(field_error("attendees", "At least one attendee required"));
            proof {
                assert(fs.deep_view() =~= seq![
                    field_error_v("attendees"@, "At least one attendee required"@),
                ]);
            }
            Err(fs)
        }
    }
}

/// The failures that `AttendeeInput::validate_request` reports.
pub open spec fn attendee_violations(a: AttendeeInputV) -> Seq<FieldErrorV> {
    let n: Seq<FieldErrorV> = if !(1 <= a.name.len() <= 100) {
        seq![field_error_v("name"@, "Name must be 1-100 characters"@)]
    } else {
        Seq::empty()
    };
    let d: Seq<FieldErrorV> = if a.dietary_restrictions matches Some(t) && t.len() > 500 {
        seq![
            field_error_v(
                "dietary_restrictions"@,
                "Dietary restrictions must be under 500 characters"@,
            ),
        ]
    } else {
        Seq::empty()
    };
    n + d
}

impl AttendeeInput {
    /// The name must be 1 to 100 characters; dietary restrictions, when
    /// given, at most 500.
    pub fn validate_request(&self) -> (r: Result<(), Vec<FieldError>>)
        ensures
            attendee_violations(self@).len() == 0 ==> r is Ok,
            attendee_violations(self@).len() > 0 ==> (r matches Err(fs) && fs.deep_view()
                == attendee_violations(self@)),
    {
        let nlen = self.name.as_str().unicode_len();
        let mut fs: Vec<FieldError> = Vec::new();
        if !(1 <= nlen && nlen <= 100) {
            fs.push(field_error("name", "Name must be 1-100 characters"));
        }
        match &self.dietary_restrictions {
            Some(d) => {
                if d.as_str().unicode_len() > 500 {
                    fs.push(
                        field_error(
                            "dietary_restrictions",
                            "Dietary restrictions must be under 500 characters",
                        ),
                    );
                }
            },
            None => {},
        }
        proof {
            assert(fs.deep_view() =~= attendee_violations(self@));
        }
        if fs.len() == 0 {
            Ok(())
        } else {
            Err(fs)
        }
    }
}

/// The failures that `ChangePasswordRequest::validate_request` reports.
pub open spec fn change_password_violations(
    current: Seq<char>,
    fresh: Seq<char>,
) -> Seq<FieldErrorV> {
    let c: Seq<FieldErrorV> = if current.len() < 1 {
        seq![field_error_v("current_password"@, "Current password is required"@)]
    } else {
        Seq::empty()
    };
    let n: Seq<FieldErrorV> = if fresh.len() < 8 {
        seq![field_error_v("new_password"@, "New password must be at least 8 characters"@)]
    } else {
        Seq::empty()
    };
    c + n
}

impl ChangePasswordRequest {
    /// The current password must be nonempty; the replacement at least 8
    /// characters.
    pub fn validate_request(&self) -> (r: Result<(), Vec<FieldError>>)
        ensures
            change_password_violations(self.current_password@, self.new_password@).len() == 0
                ==> r is Ok,
            change_password_violations(self.current_password@, self.new_password@).len() > 0 ==> (
            r matches Err(fs) && fs.deep_view() == change_password_violations(
                self.current_password@,
                self.new_password@,
            )),
    {
        let clen = self.current_password.as_str().unicode_len();
        let nlen = self.new_password.as_str().unicode_len();
        let mut fs: Vec<FieldError> = Vec::new();
        if clen < 1 {
            fs.push(field_error("current_password", "Current password is required"));
        }
        if nlen < 8 {
            fs.push(field_error("new_password", "New password must be at least 8 characters"));
        }
        proof {
            assert(fs.deep_view() =~= change_password_violations(
                self.current_password@,
                self.new_password@,
            ));
        }
        if fs.len() == 0 {
            Ok(())
        } else {
            Err(fs)
        }
    }
}

/// The failures that guest create and update requests report.
pub open spec fn guest_request_violations(name: Seq<char>, party_size: i32) -> Seq<FieldErrorV> {
    let n: Seq<FieldErrorV> = if !(1 <= name.len() <= 100) {
        seq![field_error_v("name"@, "Name must be 1-100 characters"@)]
    } else {
        Seq::empty()
    };
    let p: Seq<FieldErrorV> = if party_size < 1 {
        seq![field_error_v("party_size"@, "Party size must be at least 1"@)]
    } else {
        Seq::empty()
    };
    n + p
}

impl CreateGuestRequest {
    /// The name must be 1 to 100 characters and the party size positive.
    pub fn validate_request(&self) -> (r: Result<(), Vec<FieldError>>)
        ensures
            guest_request_violations(self.name@, self.party_size).len() == 0 ==> r is Ok,
            guest_request_violations(self.name@, self.party_size).len() > 0 ==> (r matches Err(fs)
                && fs.deep_view() == guest_request_violations(self.name@, self.party_size)),
    {
        let nlen = self.name.as_str().unicode_len();
        let mut fs: Vec<FieldError> = Vec::new();
        if !(1 <= nlen && nlen <= 100) {
            fs.push(field_error("name", "Name must be 1-100 characters"));
        }
        if self.party_size < 1 {
            fs.push(field_error("party_size", "Party size must be at least 1"));
        }
        proof {
            assert(fs.deep_view() =~= guest_request_violations(self.name@, self.party_size));
        }
        if fs.len() == 0 {
            Ok(())
        } else {
            Err(fs)
        }
    }
}

impl UpdateGuestRequest {
    /// The name must be 1 to 100 characters and the party size positive.
    pub fn validate_request(&self) -> (r: Result<(), Vec<FieldError>>)
        ensures
            guest_request_violations(self.name@, self.party_size).len() == 0 ==> r is Ok,
            guest_request_violations(self.name@, self.party_size).len() > 0 ==> (r matches Err(fs)
                && fs.deep_view() == guest_request_violations(self.name@, self.party_size)),
    {
        let nlen = self.name.as_str().unicode_len();
        let mut fs: Vec<FieldError> = Vec::new();
        if !(1 <= nlen && nlen <= 100) {
            fs.push(field_error("name", "Name must be 1-100 characters"));
        }
        if self.party_size < 1 {
            fs.push(field_error("party_size", "Party size must be at least 1"));
        }
        proof {
            assert(fs.deep_view() =~= guest_request_violations(self.name@, self.party_size));
        }
        if fs.len() == 0 {
            Ok(())
        } else {
            Err(fs)
        }
    }
}

} // verus!
