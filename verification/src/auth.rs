//! Invite-code redemption, credential verification, and the session
//! lifecycle.
//!
//! Session resolution is an explicit function of the bearer token and the
//! current instant, threaded through every call rather than read from
//! ambient state. Randomness, hashing, and the clock come from outside
//! crates behind trusted wrappers; everything downstream of those values is
//! verified for every value they could produce.

use vstd::prelude::*;

use argon2::password_hash::rand_core::OsRng;
use argon2::password_hash::{PasswordHash, PasswordHasher, PasswordVerifier, SaltString};
use argon2::Argon2;
use rand::Rng;

use crate::error::AppError;
use crate::models::{spec_parse_code_type, spec_parse_session_type, CodeType, Session, SessionType,
    SessionV};
use crate::schemas::{field_error_v, login_violations, AdminLoginRequest, AdminLoginResponse,
    SessionResponse, ValidateCodeRequest, ValidateCodeResponse};
use crate::store::{admin_with_id, admin_with_username, code_with_text, find_first, guest_with_id,
    lemma_find_first_character, live_session, resolve_session, session_bound, session_with_token,
    Store, StoreV};

verus! {

/// Hard lifetime of every session from issuance: seven days, in seconds.
pub const SESSION_DURATION_SECS: i64 = 7 * 24 * 60 * 60;

/// Whether the password-hashing scheme accepts `password` against the
/// self-describing hash string `hash`. The scheme recomputes the hash with
/// the salt and parameters embedded in `hash` and compares, so the outcome
/// depends on these two arguments alone; a malformed hash accepts nothing.
pub uninterp spec fn verifies(password: Seq<char>, hash: Seq<char>) -> bool;

/// Hash a password with a fresh random salt.
///
/// Relies on `argon2::Argon2::hash_password` and
/// `argon2::password_hash::SaltString::generate`: the scheme re-verifies any
/// hash it produced for the same password, whatever salt was drawn.
#[verifier::external_body]
fn argon2_hash(password: &str) -> (r: Option<String>)
    ensures
        r matches Some(h) ==> verifies(password@, h@),
{
    let salt = SaltString::generate(&mut OsRng);
    match Argon2::default().hash_password(password.as_bytes(), &salt) {
        Ok(h) => Some(h.to_string()),
        Err(_) => None,
    }
}

/// Check a password against a stored hash string.
///
/// Relies on `argon2::Argon2::verify_password` and
/// `argon2::password_hash::PasswordHash::new`: verification recomputes the
/// hash from the password and the parameters embedded in the hash string, so
/// the result is a function of the two arguments; a malformed hash string
/// fails to parse and verifies nothing.
#[verifier::external_body]
pub(crate) fn argon2_verify(password: &str, hash: &str) -> (r: bool)
    ensures
        r == verifies(password@, hash@),
{
    let parsed_hash = match PasswordHash::new(hash) {
        Ok(h) => h,
        Err(_) => return false,
    };
    Argon2::default().verify_password(password.as_bytes(), &parsed_hash).is_ok()
}

/// Hash a password with the memory-hard scheme and a fresh random salt;
/// the result verifies the password it was produced from.
pub fn hash_password(password: &str) -> (r: Result<String, AppError>)
    ensures
        r matches Ok(h) ==> verifies(password@, h@),
        r matches Err(e) ==> e is Internal,
{
    match argon2_hash(password) {
        Some(h) => Ok(h),
        None => Err(AppError::Internal("failed to hash password".to_owned())),
    }
}

/// The lowercase hexadecimal digit for a value below sixteen.
pub open spec fn hex_digit(n: int) -> char {
    if n == 0 {
        '0'
    } else if n == 1 {
        '1'
    } else if n == 2 {
        '2'
    } else if n == 3 {
        '3'
    } else if n == 4 {
        '4'
    } else if n == 5 {
        '5'
    } else if n == 6 {
        '6'
    } else if n == 7 {
        '7'
    } else if n == 8 {
        '8'
    } else if n == 9 {
        '9'
    } else if n == 10 {
        'a'
    } else if n == 11 {
        'b'
    } else if n == 12 {
        'c'
    } else if n == 13 {
        'd'
    } else if n == 14 {
        'e'
    } else {
        'f'
    }
}

/// Lowercase hex encoding: two digits per byte, high nibble first.
pub open spec fn hex_of(bytes: Seq<u8>) -> Seq<char> {
    Seq::new(
        bytes.len() * 2,
        |i: int|
            if i % 2 == 0 {
                hex_digit(bytes[i / 2] as int / 16)
            } else {
                hex_digit(bytes[i / 2] as int % 16)
            },
    )
}

/// A character of the lowercase hex alphabet.
pub open spec fn is_lower_hex_char(c: char) -> bool {
    ('0' <= c && c <= '9') || ('a' <= c && c <= 'f')
}

/// Encode bytes as lowercase hex.
///
/// Relies on `hex::encode`: each byte becomes two lowercase hex digits, high
/// nibble first.
#[verifier::external_body]
fn to_hex(bytes: &[u8]) -> (s: String)
    ensures
        s@ == hex_of(bytes@),
{
    hex::encode(bytes)
}

/// Draw 32 bytes from the thread-local generator.
///
/// Relies on `rand::Rng::gen` for `[u8; 32]`: nothing is promised of the
/// bytes beyond their count.
#[verifier::external_body]
fn random_bytes_32() -> (b: Vec<u8>)
    ensures
        b@.len() == 32,
{
    let mut rng = rand::thread_rng();
    let bytes: [u8; 32] = rng.gen();
    bytes.to_vec()
}

/// Draw an index below `n` from the thread-local generator.
///
/// Relies on `rand::Rng::gen_range`: it panics on an empty range and
/// otherwise samples within the range.
#[verifier::external_body]
pub(crate) fn random_below(n: usize) -> (r: usize)
    requires
        n > 0,
    ensures
        r < n,
{
    let mut rng = rand::thread_rng();
    rng.gen_range(0..n)
}

/// The current instant as Unix seconds.
///
/// Relies on `chrono::Utc::now`; nothing is promised of the reading.
#[verifier::external_body]
pub fn now_unix() -> i64 {
    chrono::Utc::now().timestamp()
}

/// Generate a random session token: 32 random bytes, hex-encoded. Its 64
/// characters keep it distinct from every six-character invite code.
pub fn generate_token() -> (t: String)
    ensures
        t@.len() == 64,
        forall|i: int| 0 <= i < t@.len() ==> is_lower_hex_char(#[trigger] t@[i]),
        forall|c: Seq<char>| #[trigger] crate::admin::is_invite_code(c) ==> t@ != c,
{
    let bytes = random_bytes_32();
    let t = to_hex(bytes.as_slice());
    proof {
        assert forall|i: int| 0 <= i < t@.len() implies is_lower_hex_char(t@[i]) by {
            let b = bytes@[i / 2];
            assert(b / 16 < 16);
            assert(b % 16 < 16);
        }
    }
    t
}

/// The three stored session-type texts are pairwise distinct.
proof fn lemma_session_type_texts_distinct()
    ensures
        "guest"@ != "admin_pending"@,
        "guest"@ != "admin"@,
        "admin_pending"@ != "admin"@,
{
    reveal_strlit("guest");
    reveal_strlit("admin_pending");
    reveal_strlit("admin");
    assert("guest"@[0] != "admin"@[0]);
    assert("guest"@.len() != "admin_pending"@.len());
    assert("admin_pending"@.len() != "admin"@.len());
}

/// The text a session type is stored as.
pub open spec fn session_type_text(t: SessionType) -> Seq<char> {
    match t {
        SessionType::Guest => "guest"@,
        SessionType::AdminPending => "admin_pending"@,
        SessionType::Admin => "admin"@,
    }
}

/// The session row that issuance at instant `now` writes.
pub open spec fn session_record(
    id: u64,
    token: Seq<char>,
    session_type: Seq<char>,
    guest_id: Option<u64>,
    admin_id: Option<u64>,
    now: i64,
) -> SessionV {
    SessionV {
        id,
        token,
        session_type,
        guest_id,
        admin_id,
        expires_at: (now + SESSION_DURATION_SECS) as i64,
        created_at: now,
    }
}

/// The store after a new session is issued.
pub open spec fn with_new_session(
    pre: StoreV,
    session_type: Seq<char>,
    guest_id: Option<u64>,
    admin_id: Option<u64>,
    token: Seq<char>,
    now: i64,
) -> StoreV {
    StoreV {
        sessions: pre.sessions.push(
            session_record(pre.next_id, token, session_type, guest_id, admin_id, now),
        ),
        next_id: (pre.next_id + 1) as u64,
        ..pre
    }
}

/// Create a new session bound to the given identity, expiring seven days
/// from `now`. The identity must fit the session type, as every session
/// row's invariant demands. Fails as the store's unique-token constraint
/// would if the token is already taken.
pub fn create_session(
    store: &mut Store,
    session_type: SessionType,
    guest_id: Option<u64>,
    admin_id: Option<u64>,
    token: String,
    now: i64,
) -> (r: Result<Session, AppError>)
    requires
        old(store)@.wf(),
        old(store)@.next_id < u64::MAX,
        now + SESSION_DURATION_SECS <= i64::MAX,
        match session_type {
            SessionType::Guest => guest_id is Some && admin_id is None,
            SessionType::AdminPending => guest_id is None && admin_id is None,
            SessionType::Admin => admin_id is Some && guest_id is None,
        },
    ensures
        final(store)@.wf(),
        ({
            let pre = old(store)@;
            if find_first(pre.sessions, session_with_token(token@)) is Some {
                &&& final(store)@ == pre
                &&& r matches Err(e) && e is Database
            } else {
                &&& final(store)@ == with_new_session(
                    pre,
                    session_type_text(session_type),
                    guest_id,
                    admin_id,
                    token@,
                    now,
                )
                &&& r matches Ok(sess) && sess@ == session_record(
                    pre.next_id,
                    token@,
                    session_type_text(session_type),
                    guest_id,
                    admin_id,
                    now,
                )
            }
        }),
{
    let ghost pre = store@;
    if store.token_taken(token.as_str()) {
        return Err(AppError::Database("session token already in use".to_owned()));
    }
    proof {
        crate::store::lemma_find_first_character(pre.sessions, session_with_token(token@));
    }
    let sess = Session {
        id: store.next_id,
        token,
        session_type: session_type.as_str().to_owned(),
        guest_id,
        admin_id,
        expires_at: now + SESSION_DURATION_SECS,
        created_at: now,
    };
    let out = sess.clone();
    let ghost sess_v = sess@;
    store.sessions.push(sess);
    store.next_id = store.next_id + 1;
    proof {
        lemma_session_type_texts_distinct();
        assert(session_bound(sess_v));
        assert(store@.sessions =~= pre.sessions.push(sess_v));
        assert(store@.guests =~= pre.guests);
        assert(store@.admins =~= pre.admins);
        assert(store@.invite_codes =~= pre.invite_codes);
        assert(store@.attendees =~= pre.attendees);
        assert(store@ == with_new_session(
            pre,
            session_type_text(session_type),
            guest_id,
            admin_id,
            sess_v.token,
            now,
        ));
        lemma_wf_after_new_session(pre, sess_v, store@);
    }
    Ok(out)
}

/// Resolve the caller's bearer token to its session, if a live one exists.
pub fn get_current_session(store: &Store, token: Option<&String>, now: i64) -> (r: Option<
    Session,
>)
    ensures
        match token {
            None => r is None,
            Some(t) => match resolve_session(store@, t@, now) {
                Some(sv) => r matches Some(sess) && sess@ == sv,
                None => r is None,
            },
        },
{
    match token {
        None => None,
        Some(t) => match store.resolve_session_idx(t.as_str(), now) {
            Some(i) => {
                proof {
                    assert(store@.sessions[i as int] == store.sessions[i as int]@);
                }
                Some(store.sessions[i].clone())
            },
            None => None,
        },
    }
}

/// The store after a logout with this token: the session the token resolves
/// to is gone; with no resolving session, nothing changes.
pub open spec fn logout_tr(pre: StoreV, token: Option<Seq<char>>, now: i64) -> StoreV {
    match token {
        None => pre,
        Some(t) => match find_first(pre.sessions, live_session(t, now)) {
            Some(i) => StoreV { sessions: pre.sessions.remove(i), ..pre },
            None => pre,
        },
    }
}

/// Removing any one session row preserves well-formedness.
pub proof fn lemma_wf_remove_session(pre: StoreV, i: int)
    requires
        pre.wf(),
        0 <= i < pre.sessions.len(),
    ensures
        (StoreV { sessions: pre.sessions.remove(i), ..pre }).wf(),
{
    let post = StoreV { sessions: pre.sessions.remove(i), ..pre };
    assert forall|a: int, b: int|
        #![trigger post.sessions[a], post.sessions[b]]
        0 <= a < b < post.sessions.len() implies post.sessions[a].id != post.sessions[b].id
        && post.sessions[a].token != post.sessions[b].token by {
        let pa = if a < i {
            a
        } else {
            a + 1
        };
        let pb = if b < i {
            b
        } else {
            b + 1
        };
        assert(post.sessions[a] == pre.sessions[pa]);
        assert(post.sessions[b] == pre.sessions[pb]);
    }
    assert forall|k: int| 0 <= k < post.sessions.len() implies (#[trigger] post.sessions[k]).id
        < post.next_id && session_bound(post.sessions[k]) by {
        let pk = if k < i {
            k
        } else {
            k + 1
        };
        assert(post.sessions[k] == pre.sessions[pk]);
    }
}

/// Delete the session the caller's token resolves to; succeeds even when no
/// session resolves.
pub fn logout(store: &mut Store, token: Option<&String>, now: i64) -> (r: Result<(), AppError>)
    requires
        old(store)@.wf(),
    ensures
        final(store)@.wf(),
        r is Ok,
        final(store)@ == logout_tr(old(store)@, token.deep_view(), now),
{
    let ghost pre = store@;
    match token {
        None => Ok(()),
        Some(t) => {
            match store.resolve_session_idx(t.as_str(), now) {
                Some(i) => {
                    store.sessions.remove(i);
                    proof {
                        assert(store@.sessions =~= pre.sessions.remove(i as int));
                        assert(store@.guests =~= pre.guests);
                        assert(store@.admins =~= pre.admins);
                        assert(store@.invite_codes =~= pre.invite_codes);
                        assert(store@.attendees =~= pre.attendees);
                        assert(store@ == logout_tr(pre, token.deep_view(), now));
                        lemma_wf_remove_session(pre, i as int);
                    }
                    Ok(())
                },
                None => Ok(()),
            }
        },
    }
}

/// Law: after a logout, the token that was logged out no longer resolves to
/// any session at the same instant, so every protected operation, whose
/// contract turns an unresolved token into `Unauthorized`, rejects it.
pub proof fn lemma_logout_then_unresolved(pre: StoreV, token: Seq<char>, now: i64)
    requires
        pre.wf(),
    ensures
        resolve_session(logout_tr(pre, Some(token), now), token, now) is None,
{
    let post = logout_tr(pre, Some(token), now);
    lemma_find_first_character(pre.sessions, live_session(token, now));
    match find_first(pre.sessions, live_session(token, now)) {
        Some(i) => {
            assert forall|k: int| 0 <= k < post.sessions.len() implies !live_session(token, now)(
                post.sessions[k],
            ) by {
                if k < i {
                    assert(post.sessions[k] == pre.sessions[k]);
                } else {
                    assert(post.sessions[k] == pre.sessions[k + 1]);
                    assert(pre.sessions[i].token == token);
                    assert(pre.sessions[i].token != pre.sessions[k + 1].token);
                }
            }
            crate::store::lemma_find_first_miss(post.sessions, live_session(token, now));
        },
        None => {},
    }
}

/// Law: after a logout, every protected surface rejects the logged-out
/// token: the guest lookup that guards the RSVP operations no longer finds
/// a guest session, and the admin guards no longer find an admin session,
/// so each of those operations' contracts forces `Unauthorized`.
pub proof fn lemma_logout_blocks_protected(pre: StoreV, token: Seq<char>, now: i64)
    requires
        pre.wf(),
    ensures
        crate::rsvp::lookup_guest(logout_tr(pre, Some(token), now), Some(token), now)
            is NoGuestSession,
        !crate::admin::is_admin_session(logout_tr(pre, Some(token), now), Some(token), now),
        crate::admin::lookup_admin(logout_tr(pre, Some(token), now), Some(token), now) is None,
{
    lemma_logout_then_unresolved(pre, token, now);
}

/// Law: a second logout with the same token changes nothing: the transition
/// is idempotent.
pub proof fn lemma_logout_idempotent(pre: StoreV, token: Seq<char>, now: i64)
    requires
        pre.wf(),
    ensures
        logout_tr(logout_tr(pre, Some(token), now), Some(token), now) == logout_tr(
            pre,
            Some(token),
            now,
        ),
{
    let post = logout_tr(pre, Some(token), now);
    lemma_logout_then_unresolved(pre, token, now);
    assert(find_first(post.sessions, live_session(token, now)) is None);
}

/// Everything invite-code redemption promises, for a given session token:
/// an unknown code is a bad request and changes nothing; a guest code
/// issues a guest session bound to that guest and returns the guest's name;
/// an admin code issues an admin-pending session bound to no identity; a
/// stored code type outside the known two, or a guest code whose guest is
/// missing, is an integrity fault and changes nothing.
pub open spec fn validate_code_post(
    pre: StoreV,
    post: StoreV,
    input: ValidateCodeRequest,
    token: Seq<char>,
    now: i64,
    r: Result<ValidateCodeResponse, AppError>,
) -> bool {
    let code = input.code@;
    if !(1 <= code.len() <= 50) {
        &&& post == pre
        &&& (r matches Err(e) && e matches AppError::Validation(fs) && fs.deep_view() == seq![
            field_error_v("code"@, "Code is required"@),
        ])
    } else {
        match find_first(pre.invite_codes, code_with_text(code)) {
            None => {
                &&& post == pre
                &&& (r matches Err(e) && e matches AppError::BadRequest(m) && m@
                    == "Invalid code"@)
            },
            Some(ci) => {
                let ic = pre.invite_codes[ci];
                match spec_parse_code_type(ic.code_type) {
                    None => post == pre && (r matches Err(e) && e is Internal),
                    Some(CodeType::Guest) => match ic.guest_id {
                        None => post == pre && (r matches Err(e) && e is Internal),
                        Some(gid) => match find_first(pre.guests, guest_with_id(gid)) {
                            None => post == pre && (r matches Err(e) && e is Internal),
                            Some(gi) => {
                                if find_first(pre.sessions, session_with_token(token)) is Some {
                                    post == pre && (r matches Err(e) && e is Database)
                                } else {
                                    &&& post == with_new_session(
                                        pre,
                                        "guest"@,
                                        Some(gid),
                                        None,
                                        token,
                                        now,
                                    )
                                    &&& (r matches Ok(resp) && resp.session_type@ == "guest"@
                                        && (resp.guest_name matches Some(n) && n@
                                        == pre.guests[gi].name))
                                }
                            },
                        },
                    },
                    Some(CodeType::Admin) => {
                        if find_first(pre.sessions, session_with_token(token)) is Some {
                            post == pre && (r matches Err(e) && e is Database)
                        } else {
                            &&& post == with_new_session(
                                pre,
                                "admin_pending"@,
                                None,
                                None,
                                token,
                                now,
                            )
                            &&& (r matches Ok(resp) && resp.session_type@ == "admin_pending"@
                                && resp.guest_name is None)
                        }
                    },
                }
            },
        }
    }
}

/// Redeem an invite code with a caller-supplied session token.
pub fn validate_code_with_token(
    store: &mut Store,
    input: &ValidateCodeRequest,
    token: String,
    now: i64,
) -> (r: Result<ValidateCodeResponse, AppError>)
    requires
        old(store)@.wf(),
        old(store)@.next_id < u64::MAX,
        now + SESSION_DURATION_SECS <= i64::MAX,
    ensures
        final(store)@.wf(),
        validate_code_post(old(store)@, final(store)@, *input, token@, now, r),
{
    let ghost pre = store@;
    if let Err(fs) = input.validate_request() {
        return Err(AppError::Validation(fs));
    }
    // the registry's `NotFound` surfaces to the caller as a bad request
    let (code_type, code_guest_id) = match store.resolve_code(input.code.as_str()) {
        Err(e) => {
            return Err(
                match e {
                    AppError::NotFound(_) => AppError::BadRequest("Invalid code".to_owned()),
                    other => other,
                },
            );
        },
        Ok(p) => p,
    };
    match code_type {
        CodeType::Guest => {
            let gid = match code_guest_id {
                None => {
                    return Err(AppError::Internal("guest code missing guest id".to_owned()));
                },
                Some(g) => g,
            };
            let gi = match store.find_guest_idx(gid) {
                None => {
                    return Err(AppError::Internal("guest not found".to_owned()));
                },
                Some(i) => i,
            };
            proof {
                assert(store@.guests[gi as int] == store.guests[gi as int]@);
            }
            let guest_name = store.guests[gi].name.clone();
            match create_session(store, SessionType::Guest, Some(gid), None, token, now) {
                Err(e) => Err(e),
                Ok(_sess) => Ok(
                    ValidateCodeResponse {
                        session_type: "guest".to_owned(),
                        guest_name: Some(guest_name),
                    },
                ),
            }
        },
        CodeType::Admin => {
            match create_session(store, SessionType::AdminPending, None, None, token, now) {
                Err(e) => Err(e),
                Ok(_sess) => Ok(
                    ValidateCodeResponse {
                        session_type: "admin_pending".to_owned(),
                        guest_name: None,
                    },
                ),
            }
        },
    }
}

/// Redeem an invite code; a fresh random token is issued for the new
/// session and handed back beside the response. Its 64 characters keep it
/// distinct from every stored invite code of the six-character shape.
pub fn validate_code(store: &mut Store, input: &ValidateCodeRequest, now: i64) -> (r: Result<
    (ValidateCodeResponse, String),
    AppError,
>)
    requires
        old(store)@.wf(),
        old(store)@.next_id < u64::MAX,
        now + SESSION_DURATION_SECS <= i64::MAX,
    ensures
        final(store)@.wf(),
        exists|tok: Seq<char>|
            #![auto]
            {
                &&& tok.len() == 64
                &&& forall|k: int| 0 <= k < old(store)@.invite_codes.len()
                    ==> (crate::admin::is_invite_code(
                    (#[trigger] old(store)@.invite_codes[k]).code,
                ) ==> old(store)@.invite_codes[k].code != tok)
                &&& validate_code_post(
                    old(store)@,
                    final(store)@,
                    *input,
                    tok,
                    now,
                    (match r {
                        Ok(p) => Ok(p.0),
                        Err(e) => Err(e),
                    }),
                )
                &&& (r matches Ok(p) ==> p.1@ == tok)
            },
{
    let ghost pre = store@;
    let token = generate_token();
    let token_copy = token.clone();
    let ghost tok = token@;
    match validate_code_with_token(store, input, token, now) {
        Ok(resp) => {
            let out = (resp, token_copy);
            proof {
                assert(validate_code_post(pre, store@, *input, tok, now, Ok(out.0)));
            }
            Ok(out)
        },
        Err(e) => {
            proof {
                assert(validate_code_post(pre, store@, *input, tok, now, Err(e)));
            }
            Err(e)
        },
    }
}

/// Everything the credential-upgrade transition promises, for a given new
/// session token. Only an admin-pending session may attempt it; an unknown
/// username or wrong password fails `Unauthorized` and leaves the pending
/// session, and the whole store, untouched. On success the pending session
/// is deleted and a full admin session bound to the admin's id is issued.
pub open spec fn admin_login_post(
    pre: StoreV,
    post: StoreV,
    input: AdminLoginRequest,
    current_token: Option<Seq<char>>,
    token: Seq<char>,
    now: i64,
    r: Result<AdminLoginResponse, AppError>,
) -> bool {
    let viol = login_violations(input.username@, input.password@);
    if viol.len() > 0 {
        &&& post == pre
        &&& (r matches Err(e) && e matches AppError::Validation(fs) && fs.deep_view() == viol)
    } else {
        let resolved = match current_token {
            Some(t) => resolve_session(pre, t, now),
            None => None,
        };
        match resolved {
            None => post == pre && (r matches Err(e) && e is Unauthorized),
            Some(sv) => {
                if spec_parse_session_type(sv.session_type) != Some(SessionType::AdminPending) {
                    post == pre && (r matches Err(e) && e is Unauthorized)
                } else {
                    match find_first(pre.admins, admin_with_username(input.username@)) {
                        None => post == pre && (r matches Err(e) && e is Unauthorized),
                        Some(ai) => {
                            let adm = pre.admins[ai];
                            if !verifies(input.password@, adm.password_hash) {
                                post == pre && (r matches Err(e) && e is Unauthorized)
                            } else {
                                let removed = logout_tr(pre, current_token, now);
                                if find_first(
                                    removed.sessions,
                                    session_with_token(token),
                                ) is Some {
                                    post == removed && (r matches Err(e) && e is Database)
                                } else {
                                    &&& post == with_new_session(
                                        removed,
                                        "admin"@,
                                        None,
                                        Some(adm.id),
                                        token,
                                        now,
                                    )
                                    &&& (r matches Ok(resp) && resp.username@ == adm.username)
                                }
                            }
                        },
                    }
                }
            },
        }
    }
}

/// Upgrade an admin-pending session with username and password, using a
/// caller-supplied token for the new session.
pub fn admin_login_with_token(
    store: &mut Store,
    input: &AdminLoginRequest,
    current_token: Option<&String>,
    token: String,
    now: i64,
) -> (r: Result<AdminLoginResponse, AppError>)
    requires
        old(store)@.wf(),
        old(store)@.next_id < u64::MAX,
        now + SESSION_DURATION_SECS <= i64::MAX,
    ensures
        final(store)@.wf(),
        admin_login_post(
            old(store)@,
            final(store)@,
            *input,
            current_token.deep_view(),
            token@,
            now,
            r,
        ),
{
    let ghost pre = store@;
    if let Err(fs) = input.validate_request() {
        return Err(AppError::Validation(fs));
    }
    let cur_idx = match current_token {
        None => {
            return Err(AppError::Unauthorized);
        },
        Some(t) => match store.resolve_session_idx(t.as_str(), now) {
            None => {
                return Err(AppError::Unauthorized);
            },
            Some(i) => i,
        },
    };
    proof {
        assert(store@.sessions[cur_idx as int] == store.sessions[cur_idx as int]@);
    }
    let is_pending = match store.sessions[cur_idx].get_session_type() {
        Some(SessionType::AdminPending) => true,
        _ => false,
    };
    if !is_pending {
        return Err(AppError::Unauthorized);
    }
    let ai = match store.find_admin_idx_by_username(input.username.as_str()) {
        None => {
            return Err(AppError::Unauthorized);
        },
        Some(i) => i,
    };
    proof {
        assert(store@.admins[ai as int] == store.admins[ai as int]@);
    }
    if !argon2_verify(input.password.as_str(), store.admins[ai].password_hash.as_str()) {
        return Err(AppError::Unauthorized);
    }
    let admin_id = store.admins[ai].id;
    let username = store.admins[ai].username.clone();
    store.sessions.remove(cur_idx);
    proof {
        assert(store@.sessions =~= pre.sessions.remove(cur_idx as int));
        assert(store@.guests =~= pre.guests);
        assert(store@.admins =~= pre.admins);
        assert(store@.invite_codes =~= pre.invite_codes);
        assert(store@.attendees =~= pre.attendees);
        assert(store@ == logout_tr(pre, current_token.deep_view(), now));
        lemma_wf_remove_session(pre, cur_idx as int);
    }
    match create_session(store, SessionType::Admin, None, Some(admin_id), token, now) {
        Err(e) => Err(e),
        Ok(_sess) => Ok(AdminLoginResponse { username }),
    }
}

/// Upgrade an admin-pending session with username and password; a fresh
/// random token is issued for the new admin session and handed back beside
/// the response. Its 64 characters keep it distinct from every stored
/// invite code of the six-character shape.
pub fn admin_login(
    store: &mut Store,
    input: &AdminLoginRequest,
    current_token: Option<&String>,
    now: i64,
) -> (r: Result<(AdminLoginResponse, String), AppError>)
    requires
        old(store)@.wf(),
        old(store)@.next_id < u64::MAX,
        now + SESSION_DURATION_SECS <= i64::MAX,
    ensures
        final(store)@.wf(),
        exists|tok: Seq<char>|
            #![auto]
            {
                &&& tok.len() == 64
                &&& forall|k: int| 0 <= k < old(store)@.invite_codes.len()
                    ==> (crate::admin::is_invite_code(
                    (#[trigger] old(store)@.invite_codes[k]).code,
                ) ==> old(store)@.invite_codes[k].code != tok)
                &&& admin_login_post(
                    old(store)@,
                    final(store)@,
                    *input,
                    current_token.deep_view(),
                    tok,
                    now,
                    (match r {
                        Ok(p) => Ok(p.0),
                        Err(e) => Err(e),
                    }),
                )
                &&& (r matches Ok(p) ==> p.1@ == tok)
            },
{
    let ghost pre = store@;
    let token = generate_token();
    let token_copy = token.clone();
    let ghost tok = token@;
    match admin_login_with_token(store, input, current_token, token, now) {
        Ok(resp) => {
            let out = (resp, token_copy);
            proof {
                assert(admin_login_post(
                    pre,
                    store@,
                    *input,
                    current_token.deep_view(),
                    tok,
                    now,
                    Ok(out.0),
                ));
            }
            Ok(out)
        },
        Err(e) => {
            proof {
                assert(admin_login_post(
                    pre,
                    store@,
                    *input,
                    current_token.deep_view(),
                    tok,
                    now,
                    Err(e),
                ));
            }
            Err(e)
        },
    }
}

/// What the session report promises: the resolved session's type, and the
/// name or username of the identity it is bound to; a stored session type
/// outside the known three is an integrity fault.
pub open spec fn get_session_post(
    s: StoreV,
    token: Option<Seq<char>>,
    now: i64,
    r: Result<SessionResponse, AppError>,
) -> bool {
    let resolved = match token {
        Some(t) => resolve_session(s, t, now),
        None => None,
    };
    match resolved {
        None => r matches Err(e) && e is Unauthorized,
        Some(sv) => match spec_parse_session_type(sv.session_type) {
            None => r matches Err(e) && e is Internal,
            Some(SessionType::Guest) => r matches Ok(resp) && {
                &&& resp.session_type@ == "guest"@
                &&& resp.guest_id == sv.guest_id
                &&& resp.admin_id is None
                &&& resp.admin_username is None
                &&& match sv.guest_id {
                    Some(gid) => match find_first(s.guests, guest_with_id(gid)) {
                        Some(gi) => resp.guest_name matches Some(n) && n@ == s.guests[gi].name,
                        None => resp.guest_name is None,
                    },
                    None => resp.guest_name is None,
                }
            },
            Some(SessionType::AdminPending) => r matches Ok(resp) && {
                &&& resp.session_type@ == "admin_pending"@
                &&& resp.guest_id is None
                &&& resp.guest_name is None
                &&& resp.admin_id is None
                &&& resp.admin_username is None
            },
            Some(SessionType::Admin) => r matches Ok(resp) && {
                &&& resp.session_type@ == "admin"@
                &&& resp.guest_id is None
                &&& resp.guest_name is None
                &&& resp.admin_id == sv.admin_id
                &&& match sv.admin_id {
                    Some(aid) => match find_first(s.admins, admin_with_id(aid)) {
                        Some(ai) => resp.admin_username matches Some(n) && n@
                            == s.admins[ai].username,
                        None => resp.admin_username is None,
                    },
                    None => resp.admin_username is None,
                }
            },
        },
    }
}

/// Report the current session's type and bound identity.
pub fn get_session(store: &Store, token: Option<&String>, now: i64) -> (r: Result<
    SessionResponse,
    AppError,
>)
    ensures
        get_session_post(store@, token.deep_view(), now, r),
{
    let idx = match token {
        None => {
            return Err(AppError::Unauthorized);
        },
        Some(t) => match store.resolve_session_idx(t.as_str(), now) {
            None => {
                return Err(AppError::Unauthorized);
            },
            Some(i) => i,
        },
    };
    proof {
        assert(store@.sessions[idx as int] == store.sessions[idx as int]@);
    }
    match store.sessions[idx].get_session_type() {
        None => Err(AppError::Internal("invalid session type in store".to_owned())),
        Some(SessionType::Guest) => {
            let guest_id = store.sessions[idx].guest_id;
            let guest_name = match guest_id {
                Some(gid) => match store.find_guest_idx(gid) {
                    Some(gi) => {
                        proof {
                            assert(store@.guests[gi as int] == store.guests[gi as int]@);
                        }
                        Some(store.guests[gi].name.clone())
                    },
                    None => None,
                },
                None => None,
            };
            Ok(
                SessionResponse {
                    session_type: "guest".to_owned(),
                    guest_id,
                    guest_name,
                    admin_id: None,
                    admin_username: None,
                },
            )
        },
        Some(SessionType::AdminPending) => Ok(
            SessionResponse {
                session_type: "admin_pending".to_owned(),
                guest_id: None,
                guest_name: None,
                admin_id: None,
                admin_username: None,
            },
        ),
        Some(SessionType::Admin) => {
            let admin_id = store.sessions[idx].admin_id;
            let admin_username = match admin_id {
                Some(aid) => match store.find_admin_idx(aid) {
                    Some(ai) => {
                        proof {
                            assert(store@.admins[ai as int] == store.admins[ai as int]@);
                        }
                        Some(store.admins[ai].username.clone())
                    },
                    None => None,
                },
                None => None,
            };
            Ok(
                SessionResponse {
                    session_type: "admin".to_owned(),
                    guest_id: None,
                    guest_name: None,
                    admin_id,
                    admin_username,
                },
            )
        },
    }
}

/// Pushing a session with a fresh id and fresh token preserves
/// well-formedness.
proof fn lemma_wf_after_new_session(pre: StoreV, sess: SessionV, post: StoreV)
    requires
        pre.wf(),
        pre.next_id < u64::MAX,
        sess.id == pre.next_id,
        session_bound(sess),
        forall|k: int| 0 <= k < pre.sessions.len() ==> (#[trigger] pre.sessions[k]).token
            != sess.token,
        post == (StoreV {
            sessions: pre.sessions.push(sess),
            next_id: (pre.next_id + 1) as u64,
            ..pre
        }),
    ensures
        post.wf(),
{
    assert forall|i: int, j: int|
        #![trigger post.sessions[i], post.sessions[j]]
        0 <= i < j < post.sessions.len() implies post.sessions[i].id != post.sessions[j].id
        && post.sessions[i].token != post.sessions[j].token by {
        if j < pre.sessions.len() {
            assert(post.sessions[i] == pre.sessions[i]);
            assert(post.sessions[j] == pre.sessions[j]);
        } else {
            assert(post.sessions[i] == pre.sessions[i]);
            assert(post.sessions[j] == sess);
            assert(pre.sessions[i].id < pre.next_id);
        }
    }
    assert forall|k: int| 0 <= k < post.sessions.len() implies session_bound(
        #[trigger] post.sessions[k],
    ) by {
        if k < pre.sessions.len() {
            assert(post.sessions[k] == pre.sessions[k]);
        } else {
            assert(post.sessions[k] == sess);
        }
    }
}

} // verus!
