//! Persisted records of the store, with their mathematical views.
//!
//! Identifiers are plain integers allocated by the store; instants are Unix
//! seconds. The `code_type` and `session_type` columns are stored as text, as
//! the backing schema does, and parsed into closed variants at the boundary.

use vstd::prelude::*;

verus! {

/// Compare two string slices by their character sequences.
pub(crate) fn str_eq(a: &str, b: &str) -> (r: bool)
    ensures
        r == (a@ == b@),
{
    let ao: String = a.to_owned();
    let bo: String = b.to_owned();
    ao == bo
}

/// What an invite code grants.
#[derive(Debug, Clone, PartialEq, Eq, Structural)]
pub enum CodeType {
    Guest,
    Admin,
}

impl CodeType {
    /// The text this variant is stored as.
    pub fn as_str(&self) -> (s: &'static str)
        ensures
            self is Guest ==> s@ == "guest"@,
            self is Admin ==> s@ == "admin"@,
    {
        match self {
            CodeType::Guest => "guest",
            CodeType::Admin => "admin",
        }
    }

    /// Parse a stored `code_type` column; any unknown text is `None`.
    pub fn parse(s: &str) -> (r: Option<CodeType>)
        ensures
            r == spec_parse_code_type(s@),
    {
        if str_eq(s, "guest") {
            Some(CodeType::Guest)
        } else if str_eq(s, "admin") {
            Some(CodeType::Admin)
        } else {
            None
        }
    }
}

/// What `CodeType::parse` returns on each character sequence.
pub open spec fn spec_parse_code_type(s: Seq<char>) -> Option<CodeType> {
    if s == "guest"@ {
        Some(CodeType::Guest)
    } else if s == "admin"@ {
        Some(CodeType::Admin)
    } else {
        None
    }
}

/// The state a session is in.
#[derive(Debug, Clone, PartialEq, Eq, Structural)]
pub enum SessionType {
    Guest,
    AdminPending,
    Admin,
}

impl SessionType {
    /// The text this variant is stored as.
    pub fn as_str(&self) -> (s: &'static str)
        ensures
            self is Guest ==> s@ == "guest"@,
            self is AdminPending ==> s@ == "admin_pending"@,
            self is Admin ==> s@ == "admin"@,
    {
        match self {
            SessionType::Guest => "guest",
            SessionType::AdminPending => "admin_pending",
            SessionType::Admin => "admin",
        }
    }

    /// Parse a stored `session_type` column; any unknown text is `None`.
    pub fn parse(s: &str) -> (r: Option<SessionType>)
        ensures
            r == spec_parse_session_type(s@),
    {
        if str_eq(s, "guest") {
            Some(SessionType::Guest)
        } else if str_eq(s, "admin_pending") {
            Some(SessionType::AdminPending)
        } else if str_eq(s, "admin") {
            Some(SessionType::Admin)
        } else {
            None
        }
    }
}

/// What `SessionType::parse` returns on each character sequence.
pub open spec fn spec_parse_session_type(s: Seq<char>) -> Option<SessionType> {
    if s == "guest"@ {
        Some(SessionType::Guest)
    } else if s == "admin_pending"@ {
        Some(SessionType::AdminPending)
    } else if s == "admin"@ {
        Some(SessionType::Admin)
    } else {
        None
    }
}

/// An invited party, created by an administrator.
#[derive(Debug, PartialEq)]
pub struct Guest {
    pub id: u64,
    pub name: String,
    /// Greatest number of attendees this guest may submit; always positive.
    pub party_size: i32,
    pub created_at: i64,
}

/// Mathematical image of a `Guest`.
pub struct GuestV {
    pub id: u64,
    pub name: Seq<char>,
    pub party_size: i32,
    pub created_at: i64,
}

impl View for Guest {
    type V = GuestV;

    open spec fn view(&self) -> GuestV {
        GuestV {
            id: self.id,
            name: self.name@,
            party_size: self.party_size,
            created_at: self.created_at,
        }
    }
}

impl DeepView for Guest {
    type V = GuestV;

    open spec fn deep_view(&self) -> GuestV {
        self.view()
    }
}

impl Clone for Guest {
    fn clone(&self) -> (r: Self)
        ensures
            r@ == self@,
    {
        Guest {
            id: self.id,
            name: self.name.clone(),
            party_size: self.party_size,
            created_at: self.created_at,
        }
    }
}

/// An administrator account, seeded out-of-band.
#[derive(Debug, PartialEq)]
pub struct Admin {
    pub id: u64,
    pub username: String,
    /// Output of the password-hashing scheme; never the raw password.
    pub password_hash: String,
    pub created_at: i64,
}

/// Mathematical image of an `Admin`.
pub struct AdminV {
    pub id: u64,
    pub username: Seq<char>,
    pub password_hash: Seq<char>,
    pub created_at: i64,
}

impl View for Admin {
    type V = AdminV;

    open spec fn view(&self) -> AdminV {
        AdminV {
            id: self.id,
            username: self.username@,
            password_hash: self.password_hash@,
            created_at: self.created_at,
        }
    }
}

impl DeepView for Admin {
    type V = AdminV;

    open spec fn deep_view(&self) -> AdminV {
        self.view()
    }
}

impl Clone for Admin {
    fn clone(&self) -> (r: Self)
        ensures
            r@ == self@,
    {
        Admin {
            id: self.id,
            username: self.username.clone(),
            password_hash: self.password_hash.clone(),
            created_at: self.created_at,
        }
    }
}

/// A redeemable invite code.
#[derive(Debug, PartialEq)]
pub struct InviteCode {
    pub id: u64,
    pub code: String,
    /// Stored as text: "guest" or "admin"; anything else is an integrity fault.
    pub code_type: String,
    /// Present iff the code grants a guest identity.
    pub guest_id: Option<u64>,
    pub created_at: i64,
}

/// Mathematical image of an `InviteCode`.
pub struct InviteCodeV {
    pub id: u64,
    pub code: Seq<char>,
    pub code_type: Seq<char>,
    pub guest_id: Option<u64>,
    pub created_at: i64,
}

impl View for InviteCode {
    type V = InviteCodeV;

    open spec fn view(&self) -> InviteCodeV {
        InviteCodeV {
            id: self.id,
            code: self.code@,
            code_type: self.code_type@,
            guest_id: self.guest_id,
            created_at: self.created_at,
        }
    }
}

impl DeepView for InviteCode {
    type V = InviteCodeV;

    open spec fn deep_view(&self) -> InviteCodeV {
        self.view()
    }
}

impl Clone for InviteCode {
    fn clone(&self) -> (r: Self)
        ensures
            r@ == self@,
    {
        InviteCode {
            id: self.id,
            code: self.code.clone(),
            code_type: self.code_type.clone(),
            guest_id: self.guest_id,
            created_at: self.created_at,
        }
    }
}

impl InviteCode {
    /// The closed variant this row's `code_type` column parses to.
    pub fn get_code_type(&self) -> (r: Option<CodeType>)
        ensures
            r == spec_parse_code_type(self.code_type@),
    {
        CodeType::parse(self.code_type.as_str())
    }
}

/// A server-side session record keyed by a bearer token.
#[derive(Debug, PartialEq)]
pub struct Session {
    pub id: u64,
    pub token: String,
    /// Stored as text: "guest", "admin_pending" or "admin".
    pub session_type: String,
    /// Set iff the session is a guest session.
    pub guest_id: Option<u64>,
    /// Set iff the session is a full admin session.
    pub admin_id: Option<u64>,
    pub expires_at: i64,
    pub created_at: i64,
}

/// Mathematical image of a `Session`.
pub struct SessionV {
    pub id: u64,
    pub token: Seq<char>,
    pub session_type: Seq<char>,
    pub guest_id: Option<u64>,
    pub admin_id: Option<u64>,
    pub expires_at: i64,
    pub created_at: i64,
}

impl View for Session {
    type V = SessionV;

    open spec fn view(&self) -> SessionV {
        SessionV {
            id: self.id,
            token: self.token@,
            session_type: self.session_type@,
            guest_id: self.guest_id,
            admin_id: self.admin_id,
            expires_at: self.expires_at,
            created_at: self.created_at,
        }
    }
}

impl DeepView for Session {
    type V = SessionV;

    open spec fn deep_view(&self) -> SessionV {
        self.view()
    }
}

impl Clone for Session {
    fn clone(&self) -> (r: Self)
        ensures
            r@ == self@,
    {
        Session {
            id: self.id,
            token: self.token.clone(),
            session_type: self.session_type.clone(),
            guest_id: self.guest_id,
            admin_id: self.admin_id,
            expires_at: self.expires_at,
            created_at: self.created_at,
        }
    }
}

impl Session {
    /// The closed variant this row's `session_type` column parses to.
    pub fn get_session_type(&self) -> (r: Option<SessionType>)
        ensures
            r == spec_parse_session_type(self.session_type@),
    {
        SessionType::parse(self.session_type.as_str())
    }

    /// Whether the session is expired at the given instant.
    pub fn is_expired_at(&self, now: i64) -> (r: bool)
        ensures
            r == (self.expires_at < now),
    {
        self.expires_at < now
    }

    /// Whether the session is expired at the wall clock's current reading;
    /// the exact statement lives on [`Session::is_expired_at`], since the
    /// clock is environmental.
    pub fn is_expired(&self) -> bool {
        let now = crate::auth::now_unix();
        self.is_expired_at(now)
    }
}

/// A guest's standing answer; at most one live row per guest.
#[derive(Debug, Clone, PartialEq, Eq, Structural)]
pub struct Rsvp {
    pub id: u64,
    pub guest_id: u64,
    pub responded_at: i64,
    pub created_at: i64,
    pub updated_at: i64,
}

/// One attendee row of an RSVP, owned by it.
#[derive(Debug, PartialEq)]
pub struct RsvpAttendee {
    pub id: u64,
    pub rsvp_id: u64,
    pub name: String,
    pub is_attending: bool,
    pub meal_preference: Option<String>,
    pub dietary_restrictions: Option<String>,
    pub is_primary: bool,
    pub created_at: i64,
}

/// Mathematical image of an `RsvpAttendee`.
pub struct RsvpAttendeeV {
    pub id: u64,
    pub rsvp_id: u64,
    pub name: Seq<char>,
    pub is_attending: bool,
    pub meal_preference: Option<Seq<char>>,
    pub dietary_restrictions: Option<Seq<char>>,
    pub is_primary: bool,
    pub created_at: i64,
}

impl View for RsvpAttendee {
    type V = RsvpAttendeeV;

    open spec fn view(&self) -> RsvpAttendeeV {
        RsvpAttendeeV {
            id: self.id,
            rsvp_id: self.rsvp_id,
            name: self.name@,
            is_attending: self.is_attending,
            meal_preference: self.meal_preference.deep_view(),
            dietary_restrictions: self.dietary_restrictions.deep_view(),
            is_primary: self.is_primary,
            created_at: self.created_at,
        }
    }
}

impl DeepView for RsvpAttendee {
    type V = RsvpAttendeeV;

    open spec fn deep_view(&self) -> RsvpAttendeeV {
        self.view()
    }
}

impl Clone for RsvpAttendee {
    fn clone(&self) -> (r: Self)
        ensures
            r@ == self@,
    {
        RsvpAttendee {
            id: self.id,
            rsvp_id: self.rsvp_id,
            name: self.name.clone(),
            is_attending: self.is_attending,
            meal_preference: match &self.meal_preference {
                Some(m) => Some(m.clone()),
                None => None,
            },
            dietary_restrictions: match &self.dietary_restrictions {
                Some(d) => Some(d.clone()),
                None => None,
            },
            is_primary: self.is_primary,
            created_at: self.created_at,
        }
    }
}

} // verus!
