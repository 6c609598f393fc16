//! Administration: guest management, invite-code issuance, and the
//! password-change flow.
//!
//! Invite codes are six characters drawn from a restricted alphabet that
//! leaves out the visually ambiguous symbols. A fresh code is sampled and
//! checked against the registry inside the same transaction that inserts
//! it; the sampling loop is bounded, failing as an internal fault rather
//! than spinning forever on a corrupted registry.

use vstd::prelude::*;
use vstd::string::StrSliceExecFns;

use crate::auth::{argon2_verify, random_below};
use crate::error::AppError;
use crate::models::{spec_parse_session_type, Admin, AdminV, Guest, GuestV, InviteCode,
    InviteCodeV, SessionType, SessionV};
use crate::schemas::{change_password_violations, guest_request_violations, ChangePasswordRequest,
    ChangePasswordResponse, CreateGuestRequest, CreateGuestResponse, GenerateCodeResponse,
    UpdateGuestRequest};
use crate::store::{admin_with_id, code_with_text, find_first, guest_with_id,
    lemma_find_first_character, resolve_session, Store, StoreV};

verus! {

/// How many fresh-code attempts are made before giving up.
pub const CODE_ATTEMPTS: usize = 20;

/// Whether the token resolves to a full admin session.
pub open spec fn is_admin_session(s: StoreV, token: Option<Seq<char>>, now: i64) -> bool {
    match token {
        Some(t) => match resolve_session(s, t, now) {
            Some(sv) => spec_parse_session_type(sv.session_type) == Some(SessionType::Admin),
            None => false,
        },
        None => false,
    }
}

/// Verify that the caller holds a full admin session.
pub fn require_admin(store: &Store, token: Option<&String>, now: i64) -> (r: Result<(), AppError>)
    ensures
        r is Ok <==> is_admin_session(store@, token.deep_view(), now),
        r matches Err(e) ==> e is Unauthorized,
{
    let idx = match token {
        None => {
            return Err(AppError::Unauthorized);
        },
        Some(t) => match store.resolve_session_idx(t.as_str(), now) {
            None => {
                return Err(AppError::Unauthorized);
            },
            Some(i) => i,
        },
    };
    proof {
        assert(store@.sessions[idx as int] == store.sessions[idx as int]@);
    }
    match store.sessions[idx].get_session_type() {
        Some(SessionType::Admin) => Ok(()),
        _ => Err(AppError::Unauthorized),
    }
}

/// The restricted invite-code alphabet: no 0, O, 1, I or L.
pub open spec fn code_alphabet() -> Seq<char> {
    "ABCDEFGHJKMNPQRSTUVWXYZ23456789"@
}

/// A six-character code drawn from the restricted alphabet.
pub open spec fn is_invite_code(c: Seq<char>) -> bool {
    c.len() == 6 && forall|i: int| 0 <= i < c.len() ==> code_alphabet().contains(#[trigger] c[i])
}

/// Generate a random invite code: six characters from the restricted
/// alphabet.
pub fn generate_invite_code() -> (c: String)
    ensures
        is_invite_code(c@),
{
    let alphabet = "ABCDEFGHJKMNPQRSTUVWXYZ23456789";
    proof {
        reveal_strlit("ABCDEFGHJKMNPQRSTUVWXYZ23456789");
    }
    let mut code = String::new();
    let mut i: usize = 0;
    while i < 6
        invariant
            i <= 6,
            code@.len() == i,
            forall|k: int| 0 <= k < i ==> code_alphabet().contains(#[trigger] code@[k]),
        decreases 6 - i,
    {
        let idx = random_below(31);
        let ch = alphabet.substring_char(idx, idx + 1);
        let ghost pre = code@;
        code = code.concat(ch);
        proof {
            assert(code@ =~= pre.push(code_alphabet()[idx as int]));
            assert(code_alphabet().contains(code_alphabet()[idx as int]));
        }
        i += 1;
    }
    code
}

/// Whether some row of the registry holds a code of the drawable
/// six-character shape. Only such a row can collide with a drawn candidate.
pub open spec fn registry_has_shaped_code(s: StoreV) -> bool {
    exists|k: int| 0 <= k < s.invite_codes.len() && is_invite_code(
        (#[trigger] s.invite_codes[k]).code,
    )
}

/// Produce a code that no row of the registry holds, sampling up to
/// [`CODE_ATTEMPTS`] candidates; exhausting the attempts is an internal
/// fault. Only a stored code of the drawable shape can ever collide, so on
/// a registry without one — in particular an empty registry — the first
/// draw is accepted and the call succeeds.
pub fn generate_unique_code(store: &Store) -> (r: Result<String, AppError>)
    ensures
        r matches Ok(c) ==> is_invite_code(c@) && find_first(
            store@.invite_codes,
            code_with_text(c@),
        ) is None,
        r matches Err(e) ==> e is Internal,
        !registry_has_shaped_code(store@) ==> r is Ok,
{
    let mut attempt: usize = 0;
    while attempt < CODE_ATTEMPTS
        invariant
            attempt <= CODE_ATTEMPTS,
            attempt > 0 ==> registry_has_shaped_code(store@),
        decreases CODE_ATTEMPTS - attempt,
    {
        let code = generate_invite_code();
        match store.find_code_idx(code.as_str()) {
            None => {
                return Ok(code);
            },
            Some(ci) => {
                // the colliding row holds the drawn, shaped code
                proof {
                    lemma_find_first_character(store@.invite_codes, code_with_text(code@));
                    assert(is_invite_code(store@.invite_codes[ci as int].code));
                }
            },
        }
        attempt += 1;
    }
    Err(AppError::Internal("could not find an unused invite code".to_owned()))
}

/// Law: the registry never holds the same code twice. Every operation of
/// the library preserves well-formedness, and a well-formed registry has
/// pairwise distinct code texts, so no two creation calls can both have
/// their code accepted.
pub proof fn lemma_registry_codes_distinct(s: StoreV)
    requires
        s.wf(),
    ensures
        forall|i: int, j: int|
            #![trigger s.invite_codes[i], s.invite_codes[j]]
            0 <= i < j < s.invite_codes.len() ==> s.invite_codes[i].code != s.invite_codes[j].code,
{
}

/// The store after a guest and their invite code are created in one
/// transaction.
pub open spec fn with_new_guest(
    pre: StoreV,
    name: Seq<char>,
    party_size: i32,
    code: Seq<char>,
    now: i64,
) -> StoreV {
    StoreV {
        guests: pre.guests.push(
            GuestV { id: pre.next_id, name, party_size, created_at: now },
        ),
        invite_codes: pre.invite_codes.push(
            InviteCodeV {
                id: (pre.next_id + 1) as u64,
                code,
                code_type: "guest"@,
                guest_id: Some(pre.next_id),
                created_at: now,
            },
        ),
        next_id: (pre.next_id + 2) as u64,
        ..pre
    }
}

/// Creating a guest with a fresh code preserves well-formedness.
proof fn lemma_wf_new_guest(pre: StoreV, name: Seq<char>, party_size: i32, code: Seq<char>, now: i64)
    requires
        pre.wf(),
        pre.next_id + 2 <= u64::MAX,
        party_size >= 1,
        forall|k: int| 0 <= k < pre.invite_codes.len() ==> (#[trigger] pre.invite_codes[k]).code
            != code,
    ensures
        with_new_guest(pre, name, party_size, code, now).wf(),
{
    let post = with_new_guest(pre, name, party_size, code, now);
    assert forall|i: int, j: int|
        #![trigger post.guests[i], post.guests[j]]
        0 <= i < j < post.guests.len() implies post.guests[i].id != post.guests[j].id by {
        if j < pre.guests.len() {
            assert(post.guests[i] == pre.guests[i]);
            assert(post.guests[j] == pre.guests[j]);
        } else {
            assert(post.guests[i] == pre.guests[i]);
        }
    }
    assert forall|i: int, j: int|
        #![trigger post.invite_codes[i], post.invite_codes[j]]
        0 <= i < j < post.invite_codes.len() implies post.invite_codes[i].id
        != post.invite_codes[j].id && post.invite_codes[i].code != post.invite_codes[j].code by {
        if j < pre.invite_codes.len() {
            assert(post.invite_codes[i] == pre.invite_codes[i]);
            assert(post.invite_codes[j] == pre.invite_codes[j]);
        } else {
            assert(post.invite_codes[i] == pre.invite_codes[i]);
        }
    }
    assert forall|i: int| 0 <= i < post.guests.len() implies (#[trigger] post.guests[i]).id
        < post.next_id by {
        if i < pre.guests.len() {
            assert(post.guests[i] == pre.guests[i]);
        }
    }
    assert forall|i: int| 0 <= i < post.invite_codes.len() implies (
    #[trigger] post.invite_codes[i]).id < post.next_id by {
        if i < pre.invite_codes.len() {
            assert(post.invite_codes[i] == pre.invite_codes[i]);
        }
    }
    assert forall|i: int| 0 <= i < post.guests.len() implies (#[trigger] post.guests[i]).party_size
        >= 1 by {
        if i < pre.guests.len() {
            assert(post.guests[i] == pre.guests[i]);
        }
    }
}

/// Everything guest creation promises, for a given code: only an admin may
/// create; the request is validated; on success the guest row and its
/// guest-type invite code are inserted together.
pub open spec fn create_guest_post(
    pre: StoreV,
    post: StoreV,
    token: Option<Seq<char>>,
    input: CreateGuestRequest,
    code: Seq<char>,
    now: i64,
    r: Result<CreateGuestResponse, AppError>,
) -> bool {
    if !is_admin_session(pre, token, now) {
        post == pre && (r matches Err(e) && e is Unauthorized)
    } else {
        let viol = guest_request_violations(input.name@, input.party_size);
        if viol.len() > 0 {
            &&& post == pre
            &&& (r matches Err(e) && e matches AppError::Validation(fs) && fs.deep_view() == viol)
        } else if find_first(pre.invite_codes, code_with_text(code)) is Some {
            post == pre && (r matches Err(e) && e is Database)
        } else {
            &&& post == with_new_guest(pre, input.name@, input.party_size, code, now)
            &&& (r matches Ok(resp) && {
                &&& resp.id == pre.next_id
                &&& resp.name@ == input.name@
                &&& resp.party_size == input.party_size
                &&& resp.invite_code@ == code
            })
        }
    }
}

/// Create a guest together with a caller-supplied invite code, inside one
/// transaction. Fails as the registry's unique constraint would if the
/// code is already taken.
pub fn create_guest_with_code(
    store: &mut Store,
    token: Option<&String>,
    input: &CreateGuestRequest,
    code: String,
    now: i64,
) -> (r: Result<CreateGuestResponse, AppError>)
    requires
        old(store)@.wf(),
        old(store)@.next_id + 2 <= u64::MAX,
    ensures
        final(store)@.wf(),
        create_guest_post(old(store)@, final(store)@, token.deep_view(), *input, code@, now, r),
{
    let ghost pre = store@;
    if let Err(_) = require_admin(store, token, now) {
        return Err(AppError::Unauthorized);
    }
    if let Err(fs) = input.validate_request() {
        return Err(AppError::Validation(fs));
    }
    if store.find_code_idx(code.as_str()).is_some() {
        return Err(AppError::Database("invite code already exists".to_owned()));
    }
    proof {
        crate::store::lemma_find_first_character(pre.invite_codes, code_with_text(code@));
    }
    let gid = store.next_id;
    let cid = store.next_id + 1;
    store.guests.push(
        Guest { id: gid, name: input.name.clone(), party_size: input.party_size, created_at: now },
    );
    store.invite_codes.push(
        InviteCode {
            id: cid,
            code: code.clone(),
            code_type: "guest".to_owned(),
            guest_id: Some(gid),
            created_at: now,
        },
    );
    store.next_id = store.next_id + 2;
    proof {
        assert(store@.guests =~= pre.guests.push(
            GuestV { id: gid, name: input.name@, party_size: input.party_size, created_at: now },
        ));
        assert(store@.invite_codes =~= pre.invite_codes.push(
            InviteCodeV {
                id: cid,
                code: code@,
                code_type: "guest"@,
                guest_id: Some(gid),
                created_at: now,
            },
        ));
        assert(store@.admins =~= pre.admins);
        assert(store@.sessions =~= pre.sessions);
        assert(store@.attendees =~= pre.attendees);
        assert(store@ == with_new_guest(pre, input.name@, input.party_size, code@, now));
        lemma_wf_new_guest(pre, input.name@, input.party_size, code@, now);
    }
    Ok(
        CreateGuestResponse {
            id: gid,
            name: input.name.clone(),
            party_size: input.party_size,
            invite_code: code,
        },
    )
}

/// Create a guest with a freshly generated unique invite code. Success is
/// owed whenever the caller is an admin, the input is valid, and no stored
/// code has the drawable shape that a drawn candidate could collide with.
pub fn create_guest(
    store: &mut Store,
    token: Option<&String>,
    input: &CreateGuestRequest,
    now: i64,
) -> (r: Result<CreateGuestResponse, AppError>)
    requires
        old(store)@.wf(),
        old(store)@.next_id + 2 <= u64::MAX,
    ensures
        final(store)@.wf(),
        (is_admin_session(old(store)@, token.deep_view(), now) && guest_request_violations(
            input.name@,
            input.party_size,
        ).len() == 0 && !registry_has_shaped_code(old(store)@)) ==> r is Ok,
        (r matches Err(e) && e is Internal) ==> final(store)@ == old(store)@,
        !(r matches Err(e) && e is Internal) ==> exists|code: Seq<char>|
            #![auto]
            is_invite_code(code) && create_guest_post(
                old(store)@,
                final(store)@,
                token.deep_view(),
                *input,
                code,
                now,
                r,
            ),
{
    let ghost pre = store@;
    let code = match generate_unique_code(store) {
        Ok(c) => c,
        Err(e) => {
            return Err(e);
        },
    };
    let ghost cv = code@;
    let r = create_guest_with_code(store, token, input, code, now);
    proof {
        assert(create_guest_post(pre, store@, token.deep_view(), *input, cv, now, r));
    }
    r
}

/// The store after a guest's editable fields are replaced.
pub open spec fn with_updated_guest(pre: StoreV, gi: int, name: Seq<char>, party_size: i32) -> StoreV {
    StoreV {
        guests: pre.guests.update(gi, GuestV { name, party_size, ..pre.guests[gi] }),
        ..pre
    }
}

/// Replacing a guest row's name and positive party size preserves
/// well-formedness.
proof fn lemma_wf_update_guest(pre: StoreV, gi: int, name: Seq<char>, party_size: i32)
    requires
        pre.wf(),
        0 <= gi < pre.guests.len(),
        party_size >= 1,
    ensures
        with_updated_guest(pre, gi, name, party_size).wf(),
{
    let post = with_updated_guest(pre, gi, name, party_size);
    assert forall|i: int, j: int|
        #![trigger post.guests[i], post.guests[j]]
        0 <= i < j < post.guests.len() implies post.guests[i].id != post.guests[j].id by {
        assert(post.guests[i].id == pre.guests[i].id);
        assert(post.guests[j].id == pre.guests[j].id);
    }
    assert forall|i: int| 0 <= i < post.guests.len() implies (#[trigger] post.guests[i]).id
        < post.next_id && post.guests[i].party_size >= 1 by {
        assert(pre.guests[i].id < pre.next_id);
        assert(pre.guests[i].party_size >= 1);
    }
}

/// Update a guest's name and party size. Only an admin may update, the
/// request is validated, a missing guest is `NotFound`, and on success
/// exactly the named row's name and party size change.
pub fn update_guest(
    store: &mut Store,
    token: Option<&String>,
    id: u64,
    input: &UpdateGuestRequest,
    now: i64,
) -> (r: Result<Guest, AppError>)
    requires
        old(store)@.wf(),
    ensures
        final(store)@.wf(),
        ({
            let pre = old(store)@;
            let post = final(store)@;
            if !is_admin_session(pre, token.deep_view(), now) {
                post == pre && (r matches Err(e) && e is Unauthorized)
            } else {
                let viol = guest_request_violations(input.name@, input.party_size);
                if viol.len() > 0 {
                    &&& post == pre
                    &&& (r matches Err(e) && (e matches AppError::Validation(fs)
                        && fs.deep_view() == viol))
                } else {
                    match find_first(pre.guests, guest_with_id(id)) {
                        None => post == pre && (r matches Err(e) && (e
                            matches AppError::NotFound(m) && m@ == "Guest not found"@)),
                        Some(gi) => {
                            &&& post == with_updated_guest(pre, gi, input.name@, input.party_size)
                            &&& (r matches Ok(g) && g@ == post.guests[gi])
                        },
                    }
                }
            }
        }),
{
    let ghost pre = store@;
    if let Err(_) = require_admin(store, token, now) {
        return Err(AppError::Unauthorized);
    }
    if let Err(fs) = input.validate_request() {
        return Err(AppError::Validation(fs));
    }
    let gi = match store.find_guest_idx(id) {
        None => {
            return Err(AppError::NotFound("Guest not found".to_owned()));
        },
        Some(i) => i,
    };
    proof {
        assert(store@.guests[gi as int] == store.guests[gi as int]@);
    }
    let mut g = store.guests[gi].clone();
    g.name = input.name.clone();
    g.party_size = input.party_size;
    let out = g.clone();
    store.guests.set(gi, g);
    proof {
        assert(store@.guests =~= pre.guests.update(
            gi as int,
            GuestV { name: input.name@, party_size: input.party_size, ..pre.guests[gi as int] },
        ));
        assert(store@.admins =~= pre.admins);
        assert(store@.invite_codes =~= pre.invite_codes);
        assert(store@.sessions =~= pre.sessions);
        assert(store@.attendees =~= pre.attendees);
        assert(store@ == with_updated_guest(pre, gi as int, input.name@, input.party_size));
        lemma_wf_update_guest(pre, gi as int, input.name@, input.party_size);
    }
    Ok(out)
}

/// The admin row a token identifies: the session must be a full admin
/// session carrying an admin id whose row still exists.
pub open spec fn lookup_admin(s: StoreV, token: Option<Seq<char>>, now: i64) -> Option<int> {
    match token {
        Some(t) => match resolve_session(s, t, now) {
            Some(sv) => if spec_parse_session_type(sv.session_type) == Some(SessionType::Admin) {
                match sv.admin_id {
                    Some(aid) => find_first(s.admins, admin_with_id(aid)),
                    None => None,
                }
            } else {
                None
            },
            None => None,
        },
        None => None,
    }
}

/// The store after an admin's stored hash is replaced.
pub open spec fn with_admin_hash(pre: StoreV, ai: int, h: Seq<char>) -> StoreV {
    StoreV { admins: pre.admins.update(ai, AdminV { password_hash: h, ..pre.admins[ai] }), ..pre }
}

/// Replacing an admin row's hash preserves well-formedness.
proof fn lemma_wf_admin_hash(pre: StoreV, ai: int, h: Seq<char>)
    requires
        pre.wf(),
        0 <= ai < pre.admins.len(),
    ensures
        with_admin_hash(pre, ai, h).wf(),
{
    let post = with_admin_hash(pre, ai, h);
    assert forall|i: int, j: int|
        #![trigger post.admins[i], post.admins[j]]
        0 <= i < j < post.admins.len() implies post.admins[i].id != post.admins[j].id
        && post.admins[i].username != post.admins[j].username by {
        assert(post.admins[i].id == pre.admins[i].id);
        assert(post.admins[j].id == pre.admins[j].id);
        assert(post.admins[i].username == pre.admins[i].username);
        assert(post.admins[j].username == pre.admins[j].username);
    }
    assert forall|i: int| 0 <= i < post.admins.len() implies (#[trigger] post.admins[i]).id
        < post.next_id by {
        assert(pre.admins[i].id < pre.next_id);
    }
}

/// Everything the password change promises: only an authenticated admin
/// may change their password; they must prove knowledge of the current one
/// (a wrong guess is a bad request, not an authorization failure); on
/// success the stored hash is replaced by one that verifies the new
/// password, and the old hash is gone.
pub open spec fn change_password_post(
    pre: StoreV,
    post: StoreV,
    token: Option<Seq<char>>,
    input: ChangePasswordRequest,
    now: i64,
    r: Result<ChangePasswordResponse, AppError>,
) -> bool {
    match lookup_admin(pre, token, now) {
        None => post == pre && (r matches Err(e) && e is Unauthorized),
        Some(ai) => {
            let viol = change_password_violations(input.current_password@, input.new_password@);
            if viol.len() > 0 {
                &&& post == pre
                &&& (r matches Err(e) && (e matches AppError::Validation(fs) && fs.deep_view()
                    == viol))
            } else if !crate::auth::verifies(input.current_password@, pre.admins[ai].password_hash) {
                &&& post == pre
                &&& (r matches Err(e) && (e matches AppError::BadRequest(m) && m@
                    == "Current password is incorrect"@))
            } else {
                ||| (r matches Ok(resp) && resp.message@ == "Password changed successfully"@
                    && exists|h: Seq<char>|
                    #![auto]
                    crate::auth::verifies(input.new_password@, h) && post == with_admin_hash(
                        pre,
                        ai,
                        h,
                    ))
                ||| (r matches Err(e) && e is Internal && post == pre)
            }
        },
    }
}

/// Change the calling admin's password.
pub fn change_password(
    store: &mut Store,
    token: Option<&String>,
    input: &ChangePasswordRequest,
    now: i64,
) -> (r: Result<ChangePasswordResponse, AppError>)
    requires
        old(store)@.wf(),
    ensures
        final(store)@.wf(),
        change_password_post(old(store)@, final(store)@, token.deep_view(), *input, now, r),
{
    let ghost pre = store@;
    let idx = match token {
        None => {
            return Err(AppError::Unauthorized);
        },
        Some(t) => match store.resolve_session_idx(t.as_str(), now) {
            None => {
                return Err(AppError::Unauthorized);
            },
            Some(i) => i,
        },
    };
    proof {
        assert(store@.sessions[idx as int] == store.sessions[idx as int]@);
    }
    let is_admin = match store.sessions[idx].get_session_type() {
        Some(SessionType::Admin) => true,
        _ => false,
    };
    if !is_admin {
        return Err(AppError::Unauthorized);
    }
    let aid = match store.sessions[idx].admin_id {
        None => {
            return Err(AppError::Unauthorized);
        },
        Some(a) => a,
    };
    let ai = match store.find_admin_idx(aid) {
        None => {
            return Err(AppError::Unauthorized);
        },
        Some(i) => i,
    };
    if let Err(fs) = input.validate_request() {
        return Err(AppError::Validation(fs));
    }
    proof {
        assert(store@.admins[ai as int] == store.admins[ai as int]@);
    }
    if !argon2_verify(input.current_password.as_str(), store.admins[ai].password_hash.as_str()) {
        return Err(AppError::BadRequest("Current password is incorrect".to_owned()));
    }
    let new_hash = match crate::auth::hash_password(input.new_password.as_str()) {
        Ok(h) => h,
        Err(e) => {
            return Err(e);
        },
    };
    let ghost hv = new_hash@;
    let mut a = store.admins[ai].clone();
    a.password_hash = new_hash;
    store.admins.set(ai, a);
    proof {
        assert(store@.admins =~= pre.admins.update(
            ai as int,
            AdminV { password_hash: hv, ..pre.admins[ai as int] },
        ));
        assert(store@.guests =~= pre.guests);
        assert(store@.invite_codes =~= pre.invite_codes);
        assert(store@.sessions =~= pre.sessions);
        assert(store@.attendees =~= pre.attendees);
        assert(store@ == with_admin_hash(pre, ai as int, hv));
        lemma_wf_admin_hash(pre, ai as int, hv);
    }
    Ok(ChangePasswordResponse { message: "Password changed successfully".to_owned() })
}

/// The invite-code rows that survive a code regeneration for this guest:
/// everything but the guest-type codes bound to them.
pub open spec fn guest_code_kept(guest_id: u64) -> spec_fn(InviteCodeV) -> bool {
    |c: InviteCodeV| !(c.guest_id == Some(guest_id) && c.code_type == "guest"@)
}

/// The store after the guest's old guest-type codes are dropped.
pub open spec fn without_guest_codes(pre: StoreV, guest_id: u64) -> StoreV {
    StoreV { invite_codes: pre.invite_codes.filter(guest_code_kept(guest_id)), ..pre }
}

/// The store after a fresh guest-type code is inserted for this guest.
pub open spec fn with_new_code(pre: StoreV, guest_id: u64, code: Seq<char>, now: i64) -> StoreV {
    StoreV {
        invite_codes: pre.invite_codes.push(
            InviteCodeV {
                id: pre.next_id,
                code,
                code_type: "guest"@,
                guest_id: Some(guest_id),
                created_at: now,
            },
        ),
        next_id: (pre.next_id + 1) as u64,
        ..pre
    }
}

/// Replace the table of invite codes by those a regeneration keeps.
fn retain_codes_kept(codes: &mut Vec<InviteCode>, guest_id: u64)
    ensures
        final(codes).deep_view() == old(codes).deep_view().filter(guest_code_kept(guest_id)),
{
    let ghost dv = codes.deep_view();
    let ghost keep = guest_code_kept(guest_id);
    let mut out: Vec<InviteCode> = Vec::new();
    proof {
        assert(out.deep_view() =~= dv.take(0).filter(keep));
    }
    let mut k: usize = 0;
    while k < codes.len()
        invariant
            k <= codes.len(),
            out.deep_view() == dv.take(k as int).filter(keep),
        decreases codes.len() - k,
    {
        proof {
            assert(codes.deep_view()[k as int] == codes[k as int]@);
            assert(dv.take(k + 1) =~= dv.take(k as int).push(dv[k as int]));
            dv.take(k as int).lemma_filter_push(dv[k as int], keep);
        }
        let ghost old_out = out.deep_view();
        let is_bound = match codes[k].guest_id {
            Some(g) => g == guest_id,
            None => false,
        };
        if !(is_bound && crate::models::str_eq(codes[k].code_type.as_str(), "guest")) {
            out.push(codes[k].clone());
            proof {
                assert(out.deep_view() =~= old_out.push(dv[k as int]));
            }
        }
        k += 1;
    }
    proof {
        assert(dv.take(codes.len() as int) =~= dv);
    }
    *codes = out;
}

/// Everything code regeneration promises, for a given fresh code: only an
/// admin may regenerate; a missing guest is `NotFound`; a code that any
/// row holds at call start — the guest's own old code included — is
/// rejected; on success the guest's old guest-type codes are gone and
/// exactly one fresh code bound to them exists, distinct from every code
/// that existed when the call began.
pub open spec fn regenerate_code_post(
    pre: StoreV,
    post: StoreV,
    token: Option<Seq<char>>,
    id: u64,
    code: Seq<char>,
    now: i64,
    r: Result<GenerateCodeResponse, AppError>,
) -> bool {
    if !is_admin_session(pre, token, now) {
        post == pre && (r matches Err(e) && e is Unauthorized)
    } else {
        match find_first(pre.guests, guest_with_id(id)) {
            None => post == pre && (r matches Err(e) && (e matches AppError::NotFound(m) && m@
                == "Guest not found"@)),
            Some(_) => {
                if find_first(pre.invite_codes, code_with_text(code)) is Some {
                    post == pre && (r matches Err(e) && e is Database)
                } else {
                    &&& post == with_new_code(without_guest_codes(pre, id), id, code, now)
                    &&& (r matches Ok(resp) && resp.invite_code@ == code)
                }
            },
        }
    }
}

/// Dropping a guest's old codes and inserting one fresh one preserves
/// well-formedness.
proof fn lemma_wf_regenerated(pre: StoreV, guest_id: u64, code: Seq<char>, now: i64)
    requires
        pre.wf(),
        pre.next_id < u64::MAX,
        find_first(
            without_guest_codes(pre, guest_id).invite_codes,
            code_with_text(code),
        ) is None,
    ensures
        with_new_code(without_guest_codes(pre, guest_id), guest_id, code, now).wf(),
{
    let keep = guest_code_kept(guest_id);
    let removed = without_guest_codes(pre, guest_id);
    let post = with_new_code(removed, guest_id, code, now);
    crate::rsvp::lemma_filter_pairwise(
        pre.invite_codes,
        keep,
        |x: InviteCodeV, y: InviteCodeV| x.id != y.id && x.code != y.code,
    );
    crate::rsvp::lemma_filter_members(pre.invite_codes, keep);
    lemma_find_first_character(removed.invite_codes, code_with_text(code));
    assert forall|i: int, j: int|
        #![trigger post.invite_codes[i], post.invite_codes[j]]
        0 <= i < j < post.invite_codes.len() implies post.invite_codes[i].id
        != post.invite_codes[j].id && post.invite_codes[i].code != post.invite_codes[j].code by {
        if j < removed.invite_codes.len() {
            assert(post.invite_codes[i] == removed.invite_codes[i]);
            assert(post.invite_codes[j] == removed.invite_codes[j]);
        } else {
            assert(post.invite_codes[i] == removed.invite_codes[i]);
            let x = removed.invite_codes[i];
            assert(pre.invite_codes.contains(x));
            let idx = choose|idx: int| 0 <= idx < pre.invite_codes.len() && pre.invite_codes[idx]
                == x;
            assert(!code_with_text(code)(x));
        }
    }
    assert forall|i: int| 0 <= i < post.invite_codes.len() implies (
    #[trigger] post.invite_codes[i]).id < post.next_id by {
        if i < removed.invite_codes.len() {
            let x = removed.invite_codes[i];
            assert(pre.invite_codes.contains(x));
            let idx = choose|idx: int| 0 <= idx < pre.invite_codes.len() && pre.invite_codes[idx]
                == x;
        }
    }
}

/// Regenerate a guest's invite code with a caller-supplied fresh code:
/// their old guest-type codes are deleted and the new one inserted in the
/// same transaction. A code that any row holds at call start is rejected
/// before anything changes, so the issued code is new to the registry — in
/// particular it differs from the code it replaces.
pub fn regenerate_code_with_code(
    store: &mut Store,
    token: Option<&String>,
    id: u64,
    code: String,
    now: i64,
) -> (r: Result<GenerateCodeResponse, AppError>)
    requires
        old(store)@.wf(),
        old(store)@.next_id < u64::MAX,
    ensures
        final(store)@.wf(),
        regenerate_code_post(old(store)@, final(store)@, token.deep_view(), id, code@, now, r),
{
    let ghost pre = store@;
    let ghost keep = guest_code_kept(id);
    let ghost removed = without_guest_codes(pre, id);
    if let Err(_) = require_admin(store, token, now) {
        return Err(AppError::Unauthorized);
    }
    if store.find_guest_idx(id).is_none() {
        return Err(AppError::NotFound("Guest not found".to_owned()));
    }
    // a code that any row holds at call start is rejected up front
    if store.find_code_idx(code.as_str()).is_some() {
        return Err(AppError::Database("invite code already exists".to_owned()));
    }
    proof {
        // no surviving row holds the code text either
        lemma_find_first_character(pre.invite_codes, code_with_text(code@));
        crate::rsvp::lemma_filter_members(pre.invite_codes, keep);
        assert forall|k: int| 0 <= k < removed.invite_codes.len() implies !code_with_text(code@)(
            removed.invite_codes[k],
        ) by {
            let x = removed.invite_codes[k];
            assert(pre.invite_codes.contains(x));
            let idx = choose|idx: int| 0 <= idx < pre.invite_codes.len() && pre.invite_codes[idx]
                == x;
        }
        crate::store::lemma_find_first_miss(removed.invite_codes, code_with_text(code@));
    }
    retain_codes_kept(&mut store.invite_codes, id);
    let cid = store.next_id;
    store.invite_codes.push(
        InviteCode {
            id: cid,
            code: code.clone(),
            code_type: "guest".to_owned(),
            guest_id: Some(id),
            created_at: now,
        },
    );
    store.next_id = store.next_id + 1;
    proof {
        assert(store@.invite_codes =~= removed.invite_codes.push(
            InviteCodeV {
                id: cid,
                code: code@,
                code_type: "guest"@,
                guest_id: Some(id),
                created_at: now,
            },
        ));
        assert(store@.guests =~= pre.guests);
        assert(store@.admins =~= pre.admins);
        assert(store@.sessions =~= pre.sessions);
        assert(store@.attendees =~= pre.attendees);
        assert(store@ == with_new_code(removed, id, code@, now));
        lemma_wf_regenerated(pre, id, code@, now);
    }
    Ok(GenerateCodeResponse { invite_code: code })
}

/// Regenerate a guest's invite code with a freshly generated unique code,
/// distinct from every code existing at call start. Success is owed
/// whenever the caller is an admin, the guest exists, and no stored code
/// has the drawable shape that a drawn candidate could collide with.
pub fn regenerate_code(store: &mut Store, token: Option<&String>, id: u64, now: i64) -> (r: Result<
    GenerateCodeResponse,
    AppError,
>)
    requires
        old(store)@.wf(),
        old(store)@.next_id < u64::MAX,
    ensures
        final(store)@.wf(),
        (is_admin_session(old(store)@, token.deep_view(), now) && find_first(
            old(store)@.guests,
            guest_with_id(id),
        ) is Some && !registry_has_shaped_code(old(store)@)) ==> r is Ok,
        (r matches Err(e) && e is Internal) ==> final(store)@ == old(store)@,
        !(r matches Err(e) && e is Internal) ==> exists|code: Seq<char>|
            #![auto]
            is_invite_code(code) && regenerate_code_post(
                old(store)@,
                final(store)@,
                token.deep_view(),
                id,
                code,
                now,
                r,
            ),
{
    let ghost pre = store@;
    let code = match generate_unique_code(store) {
        Ok(c) => c,
        Err(e) => {
            return Err(e);
        },
    };
    let ghost cv = code@;
    let r = regenerate_code_with_code(store, token, id, code, now);
    proof {
        assert(regenerate_code_post(pre, store@, token.deep_view(), id, cv, now, r));
    }
    r
}

/// The invite-code rows that survive a guest's deletion.
pub open spec fn code_not_of_guest(guest_id: u64) -> spec_fn(InviteCodeV) -> bool {
    |c: InviteCodeV| c.guest_id != Some(guest_id)
}

/// The session rows that survive a guest's deletion.
pub open spec fn session_not_of_guest(guest_id: u64) -> spec_fn(SessionV) -> bool {
    |s: SessionV| s.guest_id != Some(guest_id)
}

/// The store after a guest is deleted: the guest row is gone, and with it,
/// by ownership cascade, their invite codes, their sessions, and their
/// RSVP with its attendees.
pub open spec fn delete_guest_tr(pre: StoreV, gi: int, guest_id: u64) -> StoreV {
    let cleared = crate::rsvp::clear_rsvp(pre, guest_id);
    StoreV {
        guests: cleared.guests.remove(gi),
        invite_codes: cleared.invite_codes.filter(code_not_of_guest(guest_id)),
        sessions: cleared.sessions.filter(session_not_of_guest(guest_id)),
        ..cleared
    }
}

/// Deleting a guest with all their dependents preserves well-formedness.
proof fn lemma_wf_delete_guest(pre: StoreV, gi: int, guest_id: u64)
    requires
        pre.wf(),
        0 <= gi < pre.guests.len(),
    ensures
        delete_guest_tr(pre, gi, guest_id).wf(),
{
    crate::rsvp::lemma_wf_clear_rsvp(pre, guest_id);
    let cleared = crate::rsvp::clear_rsvp(pre, guest_id);
    let post = delete_guest_tr(pre, gi, guest_id);
    assert forall|a: int, b: int|
        #![trigger post.guests[a], post.guests[b]]
        0 <= a < b < post.guests.len() implies post.guests[a].id != post.guests[b].id by {
        let pa = if a < gi {
            a
        } else {
            a + 1
        };
        let pb = if b < gi {
            b
        } else {
            b + 1
        };
        assert(post.guests[a] == cleared.guests[pa]);
        assert(post.guests[b] == cleared.guests[pb]);
    }
    assert forall|k: int| 0 <= k < post.guests.len() implies (#[trigger] post.guests[k]).id
        < post.next_id && post.guests[k].party_size >= 1 by {
        let pk = if k < gi {
            k
        } else {
            k + 1
        };
        assert(post.guests[k] == cleared.guests[pk]);
    }
    crate::rsvp::lemma_filter_pairwise(
        cleared.invite_codes,
        code_not_of_guest(guest_id),
        |x: InviteCodeV, y: InviteCodeV| x.id != y.id && x.code != y.code,
    );
    crate::rsvp::lemma_filter_members(cleared.invite_codes, code_not_of_guest(guest_id));
    assert forall|k: int| 0 <= k < post.invite_codes.len() implies (
    #[trigger] post.invite_codes[k]).id < post.next_id by {
        let x = post.invite_codes[k];
        assert(cleared.invite_codes.contains(x));
        let idx = choose|idx: int| 0 <= idx < cleared.invite_codes.len()
            && cleared.invite_codes[idx] == x;
    }
    crate::rsvp::lemma_filter_pairwise(
        cleared.sessions,
        session_not_of_guest(guest_id),
        |x: SessionV, y: SessionV| x.id != y.id && x.token != y.token,
    );
    crate::rsvp::lemma_filter_members(cleared.sessions, session_not_of_guest(guest_id));
    assert forall|k: int| 0 <= k < post.sessions.len() implies (#[trigger] post.sessions[k]).id
        < post.next_id && crate::store::session_bound(post.sessions[k]) by {
        let x = post.sessions[k];
        assert(cleared.sessions.contains(x));
        let idx = choose|idx: int| 0 <= idx < cleared.sessions.len() && cleared.sessions[idx]
            == x;
    }
}

/// Replace the table of invite codes by those not bound to the guest.
fn retain_codes_not_of_guest(codes: &mut Vec<InviteCode>, guest_id: u64)
    ensures
        final(codes).deep_view() == old(codes).deep_view().filter(code_not_of_guest(guest_id)),
{
    let ghost dv = codes.deep_view();
    let ghost keep = code_not_of_guest(guest_id);
    let mut out: Vec<InviteCode> = Vec::new();
    proof {
        assert(out.deep_view() =~= dv.take(0).filter(keep));
    }
    let mut k: usize = 0;
    while k < codes.len()
        invariant
            k <= codes.len(),
            out.deep_view() == dv.take(k as int).filter(keep),
        decreases codes.len() - k,
    {
        proof {
            assert(codes.deep_view()[k as int] == codes[k as int]@);
            assert(dv.take(k + 1) =~= dv.take(k as int).push(dv[k as int]));
            dv.take(k as int).lemma_filter_push(dv[k as int], keep);
        }
        let ghost old_out = out.deep_view();
        let is_bound = match codes[k].guest_id {
            Some(g) => g == guest_id,
            None => false,
        };
        if !is_bound {
            out.push(codes[k].clone());
            proof {
                assert(out.deep_view() =~= old_out.push(dv[k as int]));
            }
        }
        k += 1;
    }
    proof {
        assert(dv.take(codes.len() as int) =~= dv);
    }
    *codes = out;
}

/// Replace the table of sessions by those not bound to the guest.
fn retain_sessions_not_of_guest(sessions: &mut Vec<crate::models::Session>, guest_id: u64)
    ensures
        final(sessions).deep_view() == old(sessions).deep_view().filter(
            session_not_of_guest(guest_id),
        ),
{
    let ghost dv = sessions.deep_view();
    let ghost keep = session_not_of_guest(guest_id);
    let mut out: Vec<crate::models::Session> = Vec::new();
    proof {
        assert(out.deep_view() =~= dv.take(0).filter(keep));
    }
    let mut k: usize = 0;
    while k < sessions.len()
        invariant
            k <= sessions.len(),
            out.deep_view() == dv.take(k as int).filter(keep),
        decreases sessions.len() - k,
    {
        proof {
            assert(sessions.deep_view()[k as int] == sessions[k as int]@);
            assert(dv.take(k + 1) =~= dv.take(k as int).push(dv[k as int]));
            dv.take(k as int).lemma_filter_push(dv[k as int], keep);
        }
        let ghost old_out = out.deep_view();
        let is_bound = match sessions[k].guest_id {
            Some(g) => g == guest_id,
            None => false,
        };
        if !is_bound {
            out.push(sessions[k].clone());
            proof {
                assert(out.deep_view() =~= old_out.push(dv[k as int]));
            }
        }
        k += 1;
    }
    proof {
        assert(dv.take(sessions.len() as int) =~= dv);
    }
    *sessions = out;
}

/// Delete a guest, cascading to their invite codes, sessions, and RSVP
/// with its attendees.
pub fn delete_guest(store: &mut Store, token: Option<&String>, id: u64, now: i64) -> (r: Result<
    (),
    AppError,
>)
    requires
        old(store)@.wf(),
    ensures
        final(store)@.wf(),
        ({
            let pre = old(store)@;
            let post = final(store)@;
            if !is_admin_session(pre, token.deep_view(), now) {
                post == pre && (r matches Err(e) && e is Unauthorized)
            } else {
                match find_first(pre.guests, guest_with_id(id)) {
                    None => post == pre && (r matches Err(e) && (e matches AppError::NotFound(m)
                        && m@ == "Guest not found"@)),
                    Some(gi) => post == delete_guest_tr(pre, gi, id) && r is Ok,
                }
            }
        }),
{
    let ghost pre = store@;
    if let Err(_) = require_admin(store, token, now) {
        return Err(AppError::Unauthorized);
    }
    let gi = match store.find_guest_idx(id) {
        None => {
            return Err(AppError::NotFound("Guest not found".to_owned()));
        },
        Some(i) => i,
    };
    let ghost cleared = crate::rsvp::clear_rsvp(pre, id);
    match store.find_rsvp_idx(id) {
        Some(ri) => {
            let old_rid = store.rsvps[ri].id;
            store.rsvps.remove(ri);
            crate::rsvp::retain_attendees_not_of(&mut store.attendees, old_rid);
            proof {
                assert(store@.rsvps =~= pre.rsvps.remove(ri as int));
                assert(store@.guests =~= pre.guests);
                assert(store@.admins =~= pre.admins);
                assert(store@.invite_codes =~= pre.invite_codes);
                assert(store@.sessions =~= pre.sessions);
                assert(store@ == cleared);
            }
        },
        None => {
            proof {
                assert(store@ == cleared);
            }
        },
    }
    store.guests.remove(gi);
    retain_codes_not_of_guest(&mut store.invite_codes, id);
    retain_sessions_not_of_guest(&mut store.sessions, id);
    proof {
        assert(store@.guests =~= cleared.guests.remove(gi as int));
        assert(store@.admins =~= cleared.admins);
        assert(store@.rsvps =~= cleared.rsvps);
        assert(store@.attendees =~= cleared.attendees);
        assert(store@ == delete_guest_tr(pre, gi as int, id));
        lemma_wf_delete_guest(pre, gi as int, id);
    }
    Ok(())
}

/// Seed or refresh an administrator account and the shared admin invite
/// code: the password is hashed, an existing account with the username has
/// its hash replaced, a new one is inserted otherwise, and the admin code
/// is inserted only if no row already holds it.
pub fn seed_admin(
    store: &mut Store,
    username: &String,
    password: &String,
    code: &String,
    now: i64,
) -> (r: Result<(), AppError>)
    requires
        old(store)@.wf(),
        old(store)@.next_id + 2 <= u64::MAX,
    ensures
        final(store)@.wf(),
        r is Ok ==> exists|h: Seq<char>|
            #![auto]
            crate::auth::verifies(password@, h) && final(store)@ == seed_admin_tr(
                old(store)@,
                username@,
                h,
                code@,
                now,
            ),
        r matches Err(e) ==> e is Internal && final(store)@ == old(store)@,
{
    let ghost pre = store@;
    let hash = match crate::auth::hash_password(password.as_str()) {
        Ok(h) => h,
        Err(e) => {
            return Err(e);
        },
    };
    let ghost hv = hash@;
    match store.find_admin_idx_by_username(username.as_str()) {
        Some(ai) => {
            proof {
                assert(store@.admins[ai as int] == store.admins[ai as int]@);
            }
            let mut a = store.admins[ai].clone();
            a.password_hash = hash;
            store.admins.set(ai, a);
            proof {
                assert(store@.admins =~= pre.admins.update(
                    ai as int,
                    AdminV { password_hash: hv, ..pre.admins[ai as int] },
                ));
                assert(store@.guests =~= pre.guests);
                assert(store@.invite_codes =~= pre.invite_codes);
                assert(store@.sessions =~= pre.sessions);
                assert(store@.attendees =~= pre.attendees);
                lemma_wf_admin_hash(pre, ai as int, hv);
            }
        },
        None => {
            let aid = store.next_id;
            store.admins.push(
                Admin { id: aid, username: username.clone(), password_hash: hash, created_at: now },
            );
            store.next_id = store.next_id + 1;
            proof {
                lemma_find_first_character(
                    pre.admins,
                    crate::store::admin_with_username(username@),
                );
                assert(store@.admins =~= pre.admins.push(
                    AdminV { id: aid, username: username@, password_hash: hv, created_at: now },
                ));
                assert(store@.guests =~= pre.guests);
                assert(store@.invite_codes =~= pre.invite_codes);
                assert(store@.sessions =~= pre.sessions);
                assert(store@.attendees =~= pre.attendees);
                lemma_wf_push_admin(pre, username@, hv, now);
            }
        },
    }
    let ghost mid = store@;
    if store.find_code_idx(code.as_str()).is_none() {
        let cid = store.next_id;
        store.invite_codes.push(
            InviteCode {
                id: cid,
                code: code.clone(),
                code_type: "admin".to_owned(),
                guest_id: None,
                created_at: now,
            },
        );
        store.next_id = store.next_id + 1;
        proof {
            lemma_find_first_character(mid.invite_codes, code_with_text(code@));
            assert(store@.invite_codes =~= mid.invite_codes.push(
                InviteCodeV {
                    id: cid,
                    code: code@,
                    code_type: "admin"@,
                    guest_id: None,
                    created_at: now,
                },
            ));
            assert(store@.guests =~= mid.guests);
            assert(store@.admins =~= mid.admins);
            assert(store@.sessions =~= mid.sessions);
            assert(store@.attendees =~= mid.attendees);
            lemma_wf_push_code(mid, code@, "admin"@, None, now);
        }
    }
    proof {
        assert(store@ == seed_admin_tr(pre, username@, hv, code@, now));
    }
    Ok(())
}

/// The store after an administrator is seeded: the account upserted under
/// the username with the given hash, and the admin code inserted if absent.
pub open spec fn seed_admin_tr(
    pre: StoreV,
    username: Seq<char>,
    h: Seq<char>,
    code: Seq<char>,
    now: i64,
) -> StoreV {
    let s1 = match find_first(pre.admins, crate::store::admin_with_username(username)) {
        Some(ai) => StoreV {
            admins: pre.admins.update(ai, AdminV { password_hash: h, ..pre.admins[ai] }),
            ..pre
        },
        None => StoreV {
            admins: pre.admins.push(
                AdminV { id: pre.next_id, username, password_hash: h, created_at: now },
            ),
            next_id: (pre.next_id + 1) as u64,
            ..pre
        },
    };
    match find_first(s1.invite_codes, code_with_text(code)) {
        Some(_) => s1,
        None => StoreV {
            invite_codes: s1.invite_codes.push(
                InviteCodeV {
                    id: s1.next_id,
                    code,
                    code_type: "admin"@,
                    guest_id: None,
                    created_at: now,
                },
            ),
            next_id: (s1.next_id + 1) as u64,
            ..s1
        },
    }
}

/// Pushing an admin with a fresh id and fresh username preserves
/// well-formedness.
proof fn lemma_wf_push_admin(pre: StoreV, username: Seq<char>, h: Seq<char>, now: i64)
    requires
        pre.wf(),
        pre.next_id < u64::MAX,
        forall|k: int| 0 <= k < pre.admins.len() ==> (#[trigger] pre.admins[k]).username
            != username,
    ensures
        (StoreV {
            admins: pre.admins.push(
                AdminV { id: pre.next_id, username, password_hash: h, created_at: now },
            ),
            next_id: (pre.next_id + 1) as u64,
            ..pre
        }).wf(),
{
    let post = StoreV {
        admins: pre.admins.push(
            AdminV { id: pre.next_id, username, password_hash: h, created_at: now },
        ),
        next_id: (pre.next_id + 1) as u64,
        ..pre
    };
    assert forall|i: int, j: int|
        #![trigger post.admins[i], post.admins[j]]
        0 <= i < j < post.admins.len() implies post.admins[i].id != post.admins[j].id
        && post.admins[i].username != post.admins[j].username by {
        if j < pre.admins.len() {
            assert(post.admins[i] == pre.admins[i]);
            assert(post.admins[j] == pre.admins[j]);
        } else {
            assert(post.admins[i] == pre.admins[i]);
        }
    }
    assert forall|i: int| 0 <= i < post.admins.len() implies (#[trigger] post.admins[i]).id
        < post.next_id by {
        if i < pre.admins.len() {
            assert(post.admins[i] == pre.admins[i]);
        }
    }
}

/// Pushing an invite code with a fresh id and fresh text preserves
/// well-formedness.
proof fn lemma_wf_push_code(
    pre: StoreV,
    code: Seq<char>,
    code_type: Seq<char>,
    guest_id: Option<u64>,
    now: i64,
)
    requires
        pre.wf(),
        pre.next_id < u64::MAX,
        forall|k: int| 0 <= k < pre.invite_codes.len() ==> (#[trigger] pre.invite_codes[k]).code
            != code,
    ensures
        (StoreV {
            invite_codes: pre.invite_codes.push(
                InviteCodeV { id: pre.next_id, code, code_type, guest_id, created_at: now },
            ),
            next_id: (pre.next_id + 1) as u64,
            ..pre
        }).wf(),
{
    let post = StoreV {
        invite_codes: pre.invite_codes.push(
            InviteCodeV { id: pre.next_id, code, code_type, guest_id, created_at: now },
        ),
        next_id: (pre.next_id + 1) as u64,
        ..pre
    };
    assert forall|i: int, j: int|
        #![trigger post.invite_codes[i], post.invite_codes[j]]
        0 <= i < j < post.invite_codes.len() implies post.invite_codes[i].id
        != post.invite_codes[j].id && post.invite_codes[i].code != post.invite_codes[j].code by {
        if j < pre.invite_codes.len() {
            assert(post.invite_codes[i] == pre.invite_codes[i]);
            assert(post.invite_codes[j] == pre.invite_codes[j]);
        } else {
            assert(post.invite_codes[i] == pre.invite_codes[i]);
        }
    }
    assert forall|i: int| 0 <= i < post.invite_codes.len() implies (
    #[trigger] post.invite_codes[i]).id < post.next_id by {
        if i < pre.invite_codes.len() {
            assert(post.invite_codes[i] == pre.invite_codes[i]);
        }
    }
}

/// The store after a guest is seeded: the guest inserted, and their
/// guest-type code inserted if no row already holds it.
pub open spec fn seed_guest_tr(
    pre: StoreV,
    name: Seq<char>,
    party_size: i32,
    code: Seq<char>,
    now: i64,
) -> StoreV {
    let s1 = StoreV {
        guests: pre.guests.push(
            GuestV { id: pre.next_id, name, party_size, created_at: now },
        ),
        next_id: (pre.next_id + 1) as u64,
        ..pre
    };
    match find_first(s1.invite_codes, code_with_text(code)) {
        Some(_) => s1,
        None => StoreV {
            invite_codes: s1.invite_codes.push(
                InviteCodeV {
                    id: s1.next_id,
                    code,
                    code_type: "guest"@,
                    guest_id: Some(pre.next_id),
                    created_at: now,
                },
            ),
            next_id: (s1.next_id + 1) as u64,
            ..s1
        },
    }
}

/// Pushing a guest with a fresh id and positive party size preserves
/// well-formedness.
proof fn lemma_wf_push_guest(pre: StoreV, name: Seq<char>, party_size: i32, now: i64)
    requires
        pre.wf(),
        pre.next_id < u64::MAX,
        party_size >= 1,
    ensures
        (StoreV {
            guests: pre.guests.push(
                GuestV { id: pre.next_id, name, party_size, created_at: now },
            ),
            next_id: (pre.next_id + 1) as u64,
            ..pre
        }).wf(),
{
    let post = StoreV {
        guests: pre.guests.push(
            GuestV { id: pre.next_id, name, party_size, created_at: now },
        ),
        next_id: (pre.next_id + 1) as u64,
        ..pre
    };
    assert forall|i: int, j: int|
        #![trigger post.guests[i], post.guests[j]]
        0 <= i < j < post.guests.len() implies post.guests[i].id != post.guests[j].id by {
        if j < pre.guests.len() {
            assert(post.guests[i] == pre.guests[i]);
            assert(post.guests[j] == pre.guests[j]);
        } else {
            assert(post.guests[i] == pre.guests[i]);
        }
    }
    assert forall|i: int| 0 <= i < post.guests.len() implies (#[trigger] post.guests[i]).id
        < post.next_id && post.guests[i].party_size >= 1 by {
        if i < pre.guests.len() {
            assert(post.guests[i] == pre.guests[i]);
        }
    }
}

/// Seed a guest with a chosen invite code: the guest row is inserted and
/// its id returned; the code is inserted only if no row already holds it.
/// A non-positive party size is rejected before any mutation.
pub fn seed_guest(
    store: &mut Store,
    name: &String,
    party_size: i32,
    code: &String,
    now: i64,
) -> (r: Result<u64, AppError>)
    requires
        old(store)@.wf(),
        old(store)@.next_id + 2 <= u64::MAX,
    ensures
        final(store)@.wf(),
        party_size < 1 ==> final(store)@ == old(store)@ && (r matches Err(e) && e is BadRequest),
        party_size >= 1 ==> final(store)@ == seed_guest_tr(
            old(store)@,
            name@,
            party_size,
            code@,
            now,
        ) && r == Ok::<u64, AppError>(old(store)@.next_id),
{
    let ghost pre = store@;
    if party_size < 1 {
        return Err(AppError::BadRequest("Party size must be at least 1".to_owned()));
    }
    let gid = store.next_id;
    store.guests.push(
        Guest { id: gid, name: name.clone(), party_size, created_at: now },
    );
    store.next_id = store.next_id + 1;
    proof {
        assert(store@.guests =~= pre.guests.push(
            GuestV { id: gid, name: name@, party_size, created_at: now },
        ));
        assert(store@.admins =~= pre.admins);
        assert(store@.invite_codes =~= pre.invite_codes);
        assert(store@.sessions =~= pre.sessions);
        assert(store@.attendees =~= pre.attendees);
        lemma_wf_push_guest(pre, name@, party_size, now);
    }
    let ghost mid = store@;
    if store.find_code_idx(code.as_str()).is_none() {
        let cid = store.next_id;
        store.invite_codes.push(
            InviteCode {
                id: cid,
                code: code.clone(),
                code_type: "guest".to_owned(),
                guest_id: Some(gid),
                created_at: now,
            },
        );
        store.next_id = store.next_id + 1;
        proof {
            lemma_find_first_character(mid.invite_codes, code_with_text(code@));
            assert(store@.invite_codes =~= mid.invite_codes.push(
                InviteCodeV {
                    id: cid,
                    code: code@,
                    code_type: "guest"@,
                    guest_id: Some(gid),
                    created_at: now,
                },
            ));
            assert(store@.guests =~= mid.guests);
            assert(store@.admins =~= mid.admins);
            assert(store@.sessions =~= mid.sessions);
            assert(store@.attendees =~= mid.attendees);
            lemma_wf_push_code(mid, code@, "guest"@, Some(gid), now);
        }
    }
    proof {
        assert(store@ == seed_guest_tr(pre, name@, party_size, code@, now));
    }
    Ok(gid)
}

} // verus!
