//! The RSVP write coordinator and read path.
//!
//! A submission is validated against the guest's quota, the single-primary
//! rule, and the meal enumeration before any mutation; the commit then
//! replaces the guest's standing answer wholesale: the old RSVP row and its
//! attendees are deleted and a fresh row with a fresh attendee set is
//! inserted, so a read always reflects exactly the latest accepted
//! submission.

use vstd::prelude::*;

use vstd::string::StrSliceExecFns;

use crate::error::AppError;
use crate::models::{spec_parse_session_type, Guest, Rsvp, RsvpAttendee, RsvpAttendeeV,
    SessionType};
use crate::schemas::{field_error_v, AttendeeInputV, AttendeeResponseV, SubmitRsvpRequest,
    RsvpResponse, AttendeeResponse, RsvpStatusResponse};
use crate::store::{find_first, guest_with_id, lemma_find_first_character, lemma_find_first_hit,
    lemma_find_first_miss, resolve_session, rsvp_of_guest, Store, StoreV};

verus! {

/// Every element of a filter's output is an element of its input.
pub proof fn lemma_filter_members<A>(s: Seq<A>, pred: spec_fn(A) -> bool)
    ensures
        forall|k: int| 0 <= k < s.filter(pred).len() ==> s.contains(#[trigger] s.filter(pred)[k]),
    decreases s.len(),
{
    reveal(Seq::filter);
    if s.len() != 0 {
        let t = s.drop_last();
        lemma_filter_members(t, pred);
        assert forall|k: int| 0 <= k < s.filter(pred).len() implies s.contains(
            #[trigger] s.filter(pred)[k],
        ) by {
            if k < t.filter(pred).len() {
                let x = t.filter(pred)[k];
                assert(t.contains(x));
                let idx = choose|idx: int| 0 <= idx < t.len() && t[idx] == x;
                assert(s[idx] == x);
            } else {
                assert(s.filter(pred)[k] == s.last());
            }
        }
    }
}

/// A pairwise property of a sequence survives filtering.
pub proof fn lemma_filter_pairwise<A>(s: Seq<A>, pred: spec_fn(A) -> bool, d: spec_fn(A, A) -> bool)
    requires
        forall|i: int, j: int| 0 <= i < j < s.len() ==> d(#[trigger] s[i], #[trigger] s[j]),
    ensures
        forall|i: int, j: int| 0 <= i < j < s.filter(pred).len() ==> d(
            #[trigger] s.filter(pred)[i],
            #[trigger] s.filter(pred)[j],
        ),
    decreases s.len(),
{
    reveal(Seq::filter);
    if s.len() != 0 {
        let t = s.drop_last();
        lemma_filter_pairwise(t, pred, d);
        lemma_filter_members(t, pred);
        let fs = s.filter(pred);
        let ft = t.filter(pred);
        assert forall|i: int, j: int| 0 <= i < j < fs.len() implies d(fs[i], fs[j]) by {
            if j < ft.len() {
                assert(fs[i] == ft[i] && fs[j] == ft[j]);
            } else {
                assert(fs[j] == s.last());
                let x = ft[i];
                assert(t.contains(x));
                let idx = choose|idx: int| 0 <= idx < t.len() && t[idx] == x;
                assert(d(s[idx], s[s.len() - 1]));
            }
        }
    }
}

/// Filtering keeps everything when every element passes.
pub proof fn lemma_filter_all<A>(s: Seq<A>, pred: spec_fn(A) -> bool)
    requires
        forall|k: int| 0 <= k < s.len() ==> pred(#[trigger] s[k]),
    ensures
        s.filter(pred) == s,
    decreases s.len(),
{
    reveal(Seq::filter);
    if s.len() != 0 {
        let t = s.drop_last();
        lemma_filter_all(t, pred);
        assert(s.filter(pred) =~= s);
    }
}

/// Filtering keeps nothing when no element passes.
pub proof fn lemma_filter_none<A>(s: Seq<A>, pred: spec_fn(A) -> bool)
    requires
        forall|k: int| 0 <= k < s.len() ==> !pred(#[trigger] s[k]),
    ensures
        s.filter(pred) == Seq::<A>::empty(),
{
    lemma_filter_members(s, pred);
    if s.filter(pred).len() != 0 {
        s.lemma_filter_pred(pred, 0);
        let x = s.filter(pred)[0];
        assert(s.contains(x));
        let idx = choose|idx: int| 0 <= idx < s.len() && s[idx] == x;
    }
    assert(s.filter(pred) =~= Seq::<A>::empty());
}

/// How a bearer token resolves toward a guest identity.
pub enum GuestLookup {
    /// No live session, or one that is not a guest session.
    NoGuestSession,
    /// A guest session that carries no guest id: an integrity fault.
    MissingGuestId,
    /// The referenced guest row is gone.
    GuestMissing,
    /// The index of the guest row.
    Found(int),
}

/// Resolve a token to the guest it identifies, step by step.
pub open spec fn lookup_guest(s: StoreV, token: Option<Seq<char>>, now: i64) -> GuestLookup {
    let resolved = match token {
        Some(t) => resolve_session(s, t, now),
        None => None,
    };
    match resolved {
        None => GuestLookup::NoGuestSession,
        Some(sv) => if spec_parse_session_type(sv.session_type) != Some(SessionType::Guest) {
            GuestLookup::NoGuestSession
        } else {
            match sv.guest_id {
                None => GuestLookup::MissingGuestId,
                Some(gid) => match find_first(s.guests, guest_with_id(gid)) {
                    None => GuestLookup::GuestMissing,
                    Some(gi) => GuestLookup::Found(gi),
                },
            }
        },
    }
}

/// A found guest lookup names a real row of the guest table.
pub proof fn lemma_lookup_guest_found(s: StoreV, token: Option<Seq<char>>, now: i64)
    ensures
        lookup_guest(s, token, now) matches GuestLookup::Found(gi) ==> 0 <= gi < s.guests.len(),
{
    match token {
        Some(t) => {
            match resolve_session(s, t, now) {
                Some(sv) => match sv.guest_id {
                    Some(gid) => {
                        lemma_find_first_character(s.guests, guest_with_id(gid));
                    },
                    None => {},
                },
                None => {},
            }
        },
        None => {},
    }
}

/// Fetch the guest identified by the caller's session: only a live guest
/// session passes, and its guest row must still exist.
pub fn get_guest_from_session(store: &Store, token: Option<&String>, now: i64) -> (r: Result<
    Guest,
    AppError,
>)
    ensures
        match lookup_guest(store@, token.deep_view(), now) {
            GuestLookup::NoGuestSession => r matches Err(e) && e is Unauthorized,
            GuestLookup::MissingGuestId => r matches Err(e) && e is Internal,
            GuestLookup::GuestMissing => (r matches Err(e) && e matches AppError::NotFound(m)
                && m@ == "Guest not found"@),
            GuestLookup::Found(gi) => r matches Ok(g) && g@ == store@.guests[gi],
        },
{
    let idx = match token {
        None => {
            return Err(AppError::Unauthorized);
        },
        Some(t) => match store.resolve_session_idx(t.as_str(), now) {
            None => {
                return Err(AppError::Unauthorized);
            },
            Some(i) => i,
        },
    };
    proof {
        assert(store@.sessions[idx as int] == store.sessions[idx as int]@);
    }
    let is_guest = match store.sessions[idx].get_session_type() {
        Some(SessionType::Guest) => true,
        _ => false,
    };
    if !is_guest {
        return Err(AppError::Unauthorized);
    }
    let gid = match store.sessions[idx].guest_id {
        None => {
            return Err(AppError::Internal("guest session missing guest id".to_owned()));
        },
        Some(g) => g,
    };
    match store.find_guest_idx(gid) {
        None => Err(AppError::NotFound("Guest not found".to_owned())),
        Some(gi) => {
            proof {
                assert(store@.guests[gi as int] == store.guests[gi as int]@);
            }
            Ok(store.guests[gi].clone())
        },
    }
}

/// The attendee rows that survive when the given RSVP is deleted.
pub open spec fn not_of_rsvp(rsvp_id: u64) -> spec_fn(RsvpAttendeeV) -> bool {
    |a: RsvpAttendeeV| a.rsvp_id != rsvp_id
}

/// The attendee rows owned by the given RSVP.
pub open spec fn of_rsvp(rsvp_id: u64) -> spec_fn(RsvpAttendeeV) -> bool {
    |a: RsvpAttendeeV| a.rsvp_id == rsvp_id
}

/// The store after the guest's standing RSVP, and the attendees it owns,
/// are deleted; with no standing RSVP, nothing changes.
pub open spec fn clear_rsvp(pre: StoreV, guest_id: u64) -> StoreV {
    match find_first(pre.rsvps, rsvp_of_guest(guest_id)) {
        None => pre,
        Some(i) => {
            let rid = pre.rsvps[i].id;
            StoreV {
                rsvps: pre.rsvps.remove(i),
                attendees: pre.attendees.filter(not_of_rsvp(rid)),
                ..pre
            }
        },
    }
}

/// The attendee row that a submission writes.
pub open spec fn attendee_record(id: u64, rsvp_id: u64, a: AttendeeInputV, now: i64) -> RsvpAttendeeV {
    RsvpAttendeeV {
        id,
        rsvp_id,
        name: a.name,
        is_attending: a.is_attending,
        meal_preference: a.meal_preference,
        dietary_restrictions: a.dietary_restrictions,
        is_primary: a.is_primary,
        created_at: now,
    }
}

/// The attendee as it is reported back to the caller.
pub open spec fn attendee_response_record(id: u64, a: AttendeeInputV) -> AttendeeResponseV {
    AttendeeResponseV {
        id,
        name: a.name,
        is_attending: a.is_attending,
        meal_preference: a.meal_preference,
        dietary_restrictions: a.dietary_restrictions,
        is_primary: a.is_primary,
    }
}

/// The store after a valid submission commits: the old answer is cleared,
/// one fresh RSVP row is inserted, and one attendee row per input follows,
/// ids issued in order.
pub open spec fn submit_tr(pre: StoreV, guest_id: u64, atts: Seq<AttendeeInputV>, now: i64) -> StoreV {
    let cleared = clear_rsvp(pre, guest_id);
    let rid = pre.next_id;
    StoreV {
        rsvps: cleared.rsvps.push(
            Rsvp { id: rid, guest_id, responded_at: now, created_at: now, updated_at: now },
        ),
        attendees: cleared.attendees + new_attendee_rows(rid, atts, now),
        next_id: (pre.next_id + 1 + atts.len()) as u64,
        ..pre
    }
}

/// The attendee rows a submission inserts, ids issued in order after the
/// RSVP row's own.
pub open spec fn new_attendee_rows(rid: u64, atts: Seq<AttendeeInputV>, now: i64) -> Seq<
    RsvpAttendeeV,
> {
    Seq::new(atts.len(), |i: int| attendee_record((rid + 1 + i) as u64, rid, atts[i], now))
}

/// The attendees a successful submission reports back.
pub open spec fn new_attendee_responses(rid: u64, atts: Seq<AttendeeInputV>) -> Seq<
    AttendeeResponseV,
> {
    Seq::new(atts.len(), |i: int| attendee_response_record((rid + 1 + i) as u64, atts[i]))
}

/// Whether an attendee is marked primary.
pub open spec fn primary_pred() -> spec_fn(AttendeeInputV) -> bool {
    |a: AttendeeInputV| a.is_primary
}

/// How many of the submitted attendees are marked primary.
pub open spec fn count_primary(atts: Seq<AttendeeInputV>) -> nat {
    atts.filter(primary_pred()).len()
}

/// The fixed meal enumeration.
pub open spec fn is_valid_meal(m: Seq<char>) -> bool {
    m == "beef"@ || m == "chicken"@ || m == "fish"@ || m == "vegetarian"@ || m == "vegan"@
}

/// Every submitted meal preference, where given, is a member of the
/// enumeration.
pub open spec fn meals_valid(atts: Seq<AttendeeInputV>) -> bool {
    forall|i: int| 0 <= i < atts.len() ==> ((#[trigger] atts[i]).meal_preference matches Some(m)
        ==> is_valid_meal(m))
}

/// Clearing a guest's RSVP preserves well-formedness and leaves the guest
/// without any RSVP row.
pub proof fn lemma_wf_clear_rsvp(pre: StoreV, guest_id: u64)
    requires
        pre.wf(),
    ensures
        clear_rsvp(pre, guest_id).wf(),
        clear_rsvp(pre, guest_id).next_id == pre.next_id,
        find_first(clear_rsvp(pre, guest_id).rsvps, rsvp_of_guest(guest_id)) is None,
        forall|k: int| 0 <= k < clear_rsvp(pre, guest_id).rsvps.len() ==> (#[trigger] clear_rsvp(
            pre,
            guest_id,
        ).rsvps[k]).guest_id != guest_id,
{
    lemma_find_first_character(pre.rsvps, rsvp_of_guest(guest_id));
    let post = clear_rsvp(pre, guest_id);
    match find_first(pre.rsvps, rsvp_of_guest(guest_id)) {
        None => {
            lemma_find_first_miss(post.rsvps, rsvp_of_guest(guest_id));
        },
        Some(i) => {
            let rid = pre.rsvps[i].id;
            let keep = not_of_rsvp(rid);
            // the surviving RSVP rows are the old ones with row i taken out
            assert forall|a: int, b: int|
                #![trigger post.rsvps[a], post.rsvps[b]]
                0 <= a < b < post.rsvps.len() implies post.rsvps[a].id != post.rsvps[b].id
                && post.rsvps[a].guest_id != post.rsvps[b].guest_id by {
                let pa = if a < i {
                    a
                } else {
                    a + 1
                };
                let pb = if b < i {
                    b
                } else {
                    b + 1
                };
                assert(post.rsvps[a] == pre.rsvps[pa]);
                assert(post.rsvps[b] == pre.rsvps[pb]);
            }
            assert forall|k: int| 0 <= k < post.rsvps.len() implies (#[trigger] post.rsvps[k]).id
                < post.next_id && post.rsvps[k].guest_id != guest_id by {
                let pk = if k < i {
                    k
                } else {
                    k + 1
                };
                assert(post.rsvps[k] == pre.rsvps[pk]);
                assert(pre.rsvps[i].guest_id == guest_id);
            }
            lemma_find_first_miss(post.rsvps, rsvp_of_guest(guest_id));
            // the surviving attendees are a filter of the old ones
            lemma_filter_pairwise(
                pre.attendees,
                keep,
                |x: RsvpAttendeeV, y: RsvpAttendeeV| x.id != y.id,
            );
            lemma_filter_members(pre.attendees, keep);
            assert forall|k: int| 0 <= k < post.attendees.len() implies (
            #[trigger] post.attendees[k]).id < post.next_id && post.attendees[k].rsvp_id
                < post.next_id by {
                let x = post.attendees[k];
                assert(pre.attendees.contains(x));
                let idx = choose|idx: int| 0 <= idx < pre.attendees.len() && pre.attendees[idx]
                    == x;
            }
        },
    }
}

/// A committed submission preserves well-formedness.
pub proof fn lemma_wf_submit_tr(pre: StoreV, guest_id: u64, atts: Seq<AttendeeInputV>, now: i64)
    requires
        pre.wf(),
        pre.next_id + 1 + atts.len() <= u64::MAX,
    ensures
        submit_tr(pre, guest_id, atts, now).wf(),
{
    lemma_wf_clear_rsvp(pre, guest_id);
    let cleared = clear_rsvp(pre, guest_id);
    let post = submit_tr(pre, guest_id, atts, now);
    let rid = pre.next_id;
    assert forall|a: int, b: int|
        #![trigger post.rsvps[a], post.rsvps[b]]
        0 <= a < b < post.rsvps.len() implies post.rsvps[a].id != post.rsvps[b].id
        && post.rsvps[a].guest_id != post.rsvps[b].guest_id by {
        if b < cleared.rsvps.len() {
            assert(post.rsvps[a] == cleared.rsvps[a]);
            assert(post.rsvps[b] == cleared.rsvps[b]);
        } else {
            assert(post.rsvps[a] == cleared.rsvps[a]);
            assert(cleared.rsvps[a].id < cleared.next_id);
            assert(cleared.rsvps[a].guest_id != guest_id);
        }
    }
    assert forall|a: int, b: int|
        #![trigger post.attendees[a], post.attendees[b]]
        0 <= a < b < post.attendees.len() implies post.attendees[a].id != post.attendees[b].id by {
        let n = cleared.attendees.len() as int;
        if b < n {
            assert(post.attendees[a] == cleared.attendees[a]);
            assert(post.attendees[b] == cleared.attendees[b]);
        } else if a < n {
            assert(post.attendees[a] == cleared.attendees[a]);
            assert(cleared.attendees[a].id < cleared.next_id);
            assert(post.attendees[b] == attendee_record(
                (rid + 1 + (b - n)) as u64,
                rid,
                atts[b - n],
                now,
            ));
        } else {
            assert(post.attendees[a] == attendee_record(
                (rid + 1 + (a - n)) as u64,
                rid,
                atts[a - n],
                now,
            ));
            assert(post.attendees[b] == attendee_record(
                (rid + 1 + (b - n)) as u64,
                rid,
                atts[b - n],
                now,
            ));
        }
    }
    assert forall|k: int| 0 <= k < post.attendees.len() implies (#[trigger] post.attendees[k]).id
        < post.next_id && post.attendees[k].rsvp_id < post.next_id by {
        let n = cleared.attendees.len() as int;
        if k < n {
            assert(post.attendees[k] == cleared.attendees[k]);
            assert(cleared.attendees[k].id < cleared.next_id);
        } else {
            assert(post.attendees[k] == attendee_record(
                (rid + 1 + (k - n)) as u64,
                rid,
                atts[k - n],
                now,
            ));
        }
    }
    assert forall|k: int| 0 <= k < post.rsvps.len() implies (#[trigger] post.rsvps[k]).id
        < post.next_id by {
        if k < cleared.rsvps.len() {
            assert(post.rsvps[k] == cleared.rsvps[k]);
            assert(cleared.rsvps[k].id < cleared.next_id);
        }
    }
}

/// Replace the table of attendees by those not owned by the given RSVP.
pub(crate) fn retain_attendees_not_of(attendees: &mut Vec<RsvpAttendee>, rsvp_id: u64)
    ensures
        final(attendees).deep_view() == old(attendees).deep_view().filter(not_of_rsvp(rsvp_id)),
{
    let ghost dv = attendees.deep_view();
    let ghost keep = not_of_rsvp(rsvp_id);
    let mut out: Vec<RsvpAttendee> = Vec::new();
    proof {
        assert(out.deep_view() =~= dv.take(0).filter(keep));
    }
    let mut k: usize = 0;
    while k < attendees.len()
        invariant
            k <= attendees.len(),
            out.deep_view() == dv.take(k as int).filter(keep),
        decreases attendees.len() - k,
    {
        proof {
            assert(attendees.deep_view()[k as int] == attendees[k as int]@);
            assert(dv.take(k + 1) =~= dv.take(k as int).push(dv[k as int]));
            dv.take(k as int).lemma_filter_push(dv[k as int], keep);
        }
        let ghost old_out = out.deep_view();
        if attendees[k].rsvp_id != rsvp_id {
            out.push(attendees[k].clone());
            proof {
                assert(out.deep_view() =~= old_out.push(dv[k as int]));
            }
        }
        k += 1;
    }
    proof {
        assert(dv.take(attendees.len() as int) =~= dv);
    }
    *attendees = out;
}

/// Whether this text is a member of the meal enumeration.
fn check_meal(m: &String) -> (r: bool)
    ensures
        r == is_valid_meal(m@),
{
    crate::models::str_eq(m.as_str(), "beef") || crate::models::str_eq(m.as_str(), "chicken")
        || crate::models::str_eq(m.as_str(), "fish") || crate::models::str_eq(
        m.as_str(),
        "vegetarian",
    ) || crate::models::str_eq(m.as_str(), "vegan")
}

/// Everything a submission promises: each validation failure is a bad
/// request that leaves the store untouched; a valid submission commits the
/// wholesale replacement and reports the freshly inserted rows.
pub open spec fn submit_post(
    pre: StoreV,
    post: StoreV,
    token: Option<Seq<char>>,
    input: SubmitRsvpRequest,
    now: i64,
    r: Result<RsvpResponse, AppError>,
) -> bool {
    let atts = input.attendees.deep_view();
    if atts.len() == 0 {
        &&& post == pre
        &&& (r matches Err(e) && e matches AppError::Validation(fs) && fs.deep_view() == seq![
            field_error_v("attendees"@, "At least one attendee required"@),
        ])
    } else {
        match lookup_guest(pre, token, now) {
            GuestLookup::NoGuestSession => post == pre && (r matches Err(e) && e is Unauthorized),
            GuestLookup::MissingGuestId => post == pre && (r matches Err(e) && e is Internal),
            GuestLookup::GuestMissing => post == pre && (r matches Err(e) && (e
                matches AppError::NotFound(m) && m@ == "Guest not found"@)),
            GuestLookup::Found(gi) => {
                let g = pre.guests[gi];
                if atts.len() > g.party_size {
                    post == pre && (r matches Err(e) && (e matches AppError::BadRequest(m) && m@
                        == "Too many attendees for party size"@))
                } else if count_primary(atts) != 1 {
                    post == pre && (r matches Err(e) && (e matches AppError::BadRequest(m) && m@
                        == "Exactly one attendee must be marked as primary"@))
                } else if !meals_valid(atts) {
                    post == pre && (r matches Err(e) && (e matches AppError::BadRequest(m) && m@
                        == "Invalid meal preference"@))
                } else {
                    &&& post == submit_tr(pre, g.id, atts, now)
                    &&& (r matches Ok(resp) && {
                        &&& resp.id == pre.next_id
                        &&& resp.guest_id == g.id
                        &&& resp.responded_at == now
                        &&& resp.attendees.deep_view() == new_attendee_responses(pre.next_id, atts)
                    })
                }
            },
        }
    }
}

/// Submit or replace the caller's RSVP.
pub fn submit_rsvp(
    store: &mut Store,
    token: Option<&String>,
    input: &SubmitRsvpRequest,
    now: i64,
) -> (r: Result<RsvpResponse, AppError>)
    requires
        old(store)@.wf(),
        old(store)@.next_id + 1 + input.attendees@.len() <= u64::MAX,
    ensures
        final(store)@.wf(),
        submit_post(old(store)@, final(store)@, token.deep_view(), *input, now, r),
{
    let ghost pre = store@;
    let ghost atts = input.attendees.deep_view();
    if let Err(fs) = input.validate_request() {
        return Err(AppError::Validation(fs));
    }
    let guest = match get_guest_from_session(store, token, now) {
        Ok(g) => g,
        Err(e) => {
            return Err(e);
        },
    };
    proof {
        lemma_lookup_guest_found(pre, token.deep_view(), now);
        assert(guest@.party_size >= 1);
    }
    if input.attendees.len() > guest.party_size as usize {
        return Err(AppError::BadRequest("Too many attendees for party size".to_owned()));
    }
    // exactly one attendee must be primary
    let mut primary_count: usize = 0;
    let mut k: usize = 0;
    while k < input.attendees.len()
        invariant
            k <= input.attendees.len(),
            primary_count == atts.take(k as int).filter(primary_pred()).len(),
            primary_count <= k,
        decreases input.attendees.len() - k,
    {
        proof {
            assert(atts[k as int] == input.attendees[k as int]@);
            assert(atts.take(k + 1) =~= atts.take(k as int).push(atts[k as int]));
            atts.take(k as int).lemma_filter_push(atts[k as int], primary_pred());
        }
        if input.attendees[k].is_primary {
            primary_count += 1;
        }
        k += 1;
    }
    proof {
        assert(atts.take(input.attendees.len() as int) =~= atts);
    }
    if primary_count != 1 {
        return Err(AppError::BadRequest("Exactly one attendee must be marked as primary".to_owned()));
    }
    // every given meal preference must be in the enumeration
    let mut k: usize = 0;
    while k < input.attendees.len()
        invariant
            k <= input.attendees.len(),
            forall|i: int| 0 <= i < k ==> ((#[trigger] atts[i]).meal_preference matches Some(m)
                ==> is_valid_meal(m)),
        decreases input.attendees.len() - k,
    {
        proof {
            assert(atts[k as int] == input.attendees[k as int]@);
        }
        match &input.attendees[k].meal_preference {
            Some(m) => {
                if !check_meal(m) {
                    return Err(AppError::BadRequest("Invalid meal preference".to_owned()));
                }
            },
            None => {},
        }
        k += 1;
    }
    assert(meals_valid(atts));
    // commit: delete the standing answer, insert the new one, all before
    // anything is reported
    let rid = store.next_id;
    let ghost cleared = clear_rsvp(pre, guest@.id);
    match store.find_rsvp_idx(guest.id) {
        Some(i) => {
            let old_rid = store.rsvps[i].id;
            store.rsvps.remove(i);
            retain_attendees_not_of(&mut store.attendees, old_rid);
            proof {
                assert(store@.rsvps =~= pre.rsvps.remove(i as int));
                assert(store@.guests =~= pre.guests);
                assert(store@.admins =~= pre.admins);
                assert(store@.invite_codes =~= pre.invite_codes);
                assert(store@.sessions =~= pre.sessions);
                assert(store@ == cleared);
            }
        },
        None => {
            proof {
                assert(store@ == cleared);
            }
        },
    }
    let new_rsvp = Rsvp {
        id: rid,
        guest_id: guest.id,
        responded_at: now,
        created_at: now,
        updated_at: now,
    };
    store.rsvps.push(new_rsvp);
    store.next_id = store.next_id + 1;
    proof {
        assert(store@.rsvps =~= cleared.rsvps.push(new_rsvp));
        assert(store@.attendees =~= cleared.attendees + new_attendee_rows(rid, atts.take(0), now));
        assert(store@.guests =~= cleared.guests);
        assert(store@.admins =~= cleared.admins);
        assert(store@.invite_codes =~= cleared.invite_codes);
        assert(store@.sessions =~= cleared.sessions);
    }
    let mut out_atts: Vec<AttendeeResponse> = Vec::new();
    proof {
        assert(out_atts.deep_view() =~= new_attendee_responses(rid, atts.take(0)));
    }
    let mut k: usize = 0;
    while k < input.attendees.len()
        invariant
            k <= input.attendees.len(),
            store@.rsvps == cleared.rsvps.push(new_rsvp),
            store@.attendees == cleared.attendees + new_attendee_rows(rid, atts.take(k as int), now),
            out_atts.deep_view() == new_attendee_responses(rid, atts.take(k as int)),
            store@.next_id == rid + 1 + k,
            store@.guests == cleared.guests,
            store@.admins == cleared.admins,
            store@.invite_codes == cleared.invite_codes,
            store@.sessions == cleared.sessions,
        decreases input.attendees.len() - k,
    {
        let ghost pre_atts = store@.attendees;
        let ghost pre_out = out_atts.deep_view();
        proof {
            assert(atts[k as int] == input.attendees[k as int]@);
        }
        let a = &input.attendees[k];
        let aid = store.next_id;
        store.attendees.push(
            RsvpAttendee {
                id: aid,
                rsvp_id: rid,
                name: a.name.clone(),
                is_attending: a.is_attending,
                meal_preference: match &a.meal_preference {
                    Some(m) => Some(m.clone()),
                    None => None,
                },
                dietary_restrictions: match &a.dietary_restrictions {
                    Some(d) => Some(d.clone()),
                    None => None,
                },
                is_primary: a.is_primary,
                created_at: now,
            },
        );
        store.next_id = store.next_id + 1;
        out_atts.push(
            AttendeeResponse {
                id: aid,
                name: a.name.clone(),
                is_attending: a.is_attending,
                meal_preference: match &a.meal_preference {
                    Some(m) => Some(m.clone()),
                    None => None,
                },
                dietary_restrictions: match &a.dietary_restrictions {
                    Some(d) => Some(d.clone()),
                    None => None,
                },
                is_primary: a.is_primary,
            },
        );
        proof {
            assert(store@.attendees =~= pre_atts.push(attendee_record(aid, rid, atts[k as int], now)));
            assert(store@.attendees =~= cleared.attendees + new_attendee_rows(
                rid,
                atts.take(k + 1),
                now,
            ));
            assert(out_atts.deep_view() =~= pre_out.push(
                attendee_response_record(aid, atts[k as int]),
            ));
            assert(out_atts.deep_view() =~= new_attendee_responses(rid, atts.take(k + 1)));
            assert(store@.guests =~= cleared.guests);
            assert(store@.admins =~= cleared.admins);
            assert(store@.invite_codes =~= cleared.invite_codes);
            assert(store@.sessions =~= cleared.sessions);
            assert(store@.rsvps =~= cleared.rsvps.push(new_rsvp));
        }
        k += 1;
    }
    proof {
        assert(atts.take(input.attendees.len() as int) =~= atts);
        assert(store@.attendees =~= cleared.attendees + new_attendee_rows(rid, atts, now));
        assert(store@ == submit_tr(pre, guest@.id, atts, now));
        lemma_wf_submit_tr(pre, guest@.id, atts, now);
    }
    let resp = RsvpResponse { id: rid, guest_id: guest.id, responded_at: now, attendees: out_atts };
    proof {
        assert(resp.attendees.deep_view() =~= new_attendee_responses(pre.next_id, atts));
    }
    Ok(resp)
}

/// Lexicographic order on character sequences, by code point.
pub open spec fn lex_le(x: Seq<char>, y: Seq<char>) -> bool
    decreases x.len(),
{
    if x.len() == 0 {
        true
    } else if y.len() == 0 {
        false
    } else if x[0] < y[0] {
        true
    } else if x[0] > y[0] {
        false
    } else {
        lex_le(x.drop_first(), y.drop_first())
    }
}

/// The lexicographic order is total.
pub proof fn lemma_lex_le_total(x: Seq<char>, y: Seq<char>)
    ensures
        lex_le(x, y) || lex_le(y, x),
    decreases x.len(),
{
    if x.len() != 0 && y.len() != 0 && x[0] == y[0] {
        lemma_lex_le_total(x.drop_first(), y.drop_first());
    }
}

/// The lexicographic order is transitive.
pub proof fn lemma_lex_le_trans(x: Seq<char>, y: Seq<char>, z: Seq<char>)
    requires
        lex_le(x, y),
        lex_le(y, z),
    ensures
        lex_le(x, z),
    decreases x.len(),
{
    if x.len() != 0 && y.len() != 0 && z.len() != 0 && x[0] == y[0] && y[0] == z[0] {
        lemma_lex_le_trans(x.drop_first(), y.drop_first(), z.drop_first());
    }
}

/// Equal prefixes do not affect the order of what follows.
proof fn lemma_lex_le_skip(x: Seq<char>, y: Seq<char>, i: int)
    requires
        0 <= i <= x.len(),
        i <= y.len(),
        forall|k: int| 0 <= k < i ==> x[k] == y[k],
    ensures
        lex_le(x, y) == lex_le(x.skip(i), y.skip(i)),
    decreases i,
{
    if i > 0 {
        assert(x[0] == y[0]);
        lemma_lex_le_skip(x.drop_first(), y.drop_first(), i - 1);
        assert(x.drop_first().skip(i - 1) =~= x.skip(i));
        assert(y.drop_first().skip(i - 1) =~= y.skip(i));
    } else {
        assert(x.skip(0) =~= x);
        assert(y.skip(0) =~= y);
    }
}

/// Compare two strings lexicographically by their characters.
fn str_le(a: &str, b: &str) -> (r: bool)
    ensures
        r == lex_le(a@, b@),
{
    let alen = a.unicode_len();
    let blen = b.unicode_len();
    let mut i: usize = 0;
    while i < alen && i < blen
        invariant
            i <= alen,
            i <= blen,
            forall|k: int| 0 <= k < i ==> a@[k] == b@[k],
        decreases alen - i,
    {
        let ca = a.get_char(i);
        let cb = b.get_char(i);
        if ca < cb {
            proof {
                lemma_lex_le_skip(a@, b@, i as int);
                assert(a@.skip(i as int)[0] == ca);
                assert(b@.skip(i as int)[0] == cb);
            }
            return true;
        }
        if cb < ca {
            proof {
                lemma_lex_le_skip(a@, b@, i as int);
                assert(a@.skip(i as int)[0] == ca);
                assert(b@.skip(i as int)[0] == cb);
            }
            return false;
        }
        i += 1;
    }
    proof {
        lemma_lex_le_skip(a@, b@, i as int);
    }
    alen <= blen
}

/// The display order of reported attendees: the primary first, then by
/// name.
pub open spec fn attendee_le(a: AttendeeResponseV, b: AttendeeResponseV) -> bool {
    if a.is_primary != b.is_primary {
        a.is_primary
    } else {
        lex_le(a.name, b.name)
    }
}

/// A reported attendee list in display order.
pub open spec fn sorted_attendees(s: Seq<AttendeeResponseV>) -> bool {
    forall|i: int, j: int| 0 <= i < j < s.len() ==> attendee_le(#[trigger] s[i], #[trigger] s[j])
}

/// The display order is total.
pub proof fn lemma_attendee_le_total(a: AttendeeResponseV, b: AttendeeResponseV)
    ensures
        attendee_le(a, b) || attendee_le(b, a),
{
    if a.is_primary == b.is_primary {
        lemma_lex_le_total(a.name, b.name);
    }
}

/// The display order is transitive.
pub proof fn lemma_attendee_le_trans(a: AttendeeResponseV, b: AttendeeResponseV, c: AttendeeResponseV)
    requires
        attendee_le(a, b),
        attendee_le(b, c),
    ensures
        attendee_le(a, c),
{
    if a.is_primary == b.is_primary && b.is_primary == c.is_primary {
        lemma_lex_le_trans(a.name, b.name, c.name);
    }
}

/// Compare two reported attendees for display order.
fn attendee_le_exec(a: &AttendeeResponse, b: &AttendeeResponse) -> (r: bool)
    ensures
        r == attendee_le(a@, b@),
{
    if a.is_primary != b.is_primary {
        a.is_primary
    } else {
        str_le(a.name.as_str(), b.name.as_str())
    }
}

/// Sort reported attendees into display order; the multiset of entries is
/// kept.
fn sort_attendees(input: Vec<AttendeeResponse>) -> (out: Vec<AttendeeResponse>)
    ensures
        out.deep_view().to_multiset() == input.deep_view().to_multiset(),
        sorted_attendees(out.deep_view()),
{
    let ghost dv = input.deep_view();
    let mut out: Vec<AttendeeResponse> = Vec::new();
    proof {
        broadcast use vstd::seq_lib::group_to_multiset_ensures;

        assert(out.deep_view() =~= Seq::<AttendeeResponseV>::empty());
        assert(dv.take(0) =~= Seq::<AttendeeResponseV>::empty());
    }
    let mut k: usize = 0;
    while k < input.len()
        invariant
            k <= input.len(),
            out.deep_view().to_multiset() == dv.take(k as int).to_multiset(),
            sorted_attendees(out.deep_view()),
        decreases input.len() - k,
    {
        proof {
            assert(dv[k as int] == input[k as int]@);
        }
        let x = input[k].clone();
        let ghost xv = x@;
        let ghost pre_out = out.deep_view();
        let mut pos: usize = 0;
        while pos < out.len() && attendee_le_exec(&out[pos], &x)
            invariant
                pos <= out.len(),
                forall|q: int| 0 <= q < pos ==> attendee_le(#[trigger] out.deep_view()[q], xv),
                out.deep_view() == pre_out,
            decreases out.len() - pos,
        {
            proof {
                assert(out.deep_view()[pos as int] == out[pos as int]@);
            }
            pos += 1;
        }
        proof {
            assert(pos < out.len() ==> out.deep_view()[pos as int] == out[pos as int]@);
        }
        out.insert(pos, x);
        proof {
            broadcast use vstd::seq_lib::group_to_multiset_ensures;

            let post = out.deep_view();
            assert(post =~= pre_out.insert(pos as int, xv));
            // the element just after the insertion point, if any, comes
            // after the inserted one
            if (pos as int) < pre_out.len() {
                lemma_attendee_le_total(xv, pre_out[pos as int]);
                assert(attendee_le(xv, pre_out[pos as int]));
            }
            // sortedness of the extended list
            assert forall|i: int, j: int| 0 <= i < j < post.len() implies attendee_le(
                #[trigger] post[i],
                #[trigger] post[j],
            ) by {
                if i == pos {
                    assert(post[j] == pre_out[j - 1]);
                    if j - 1 > pos {
                        lemma_attendee_le_trans(xv, pre_out[pos as int], pre_out[j - 1]);
                    }
                } else if j == pos {
                    assert(post[i] == pre_out[i]);
                } else if i < pos && j < pos {
                    assert(post[i] == pre_out[i]);
                    assert(post[j] == pre_out[j]);
                } else if i < pos {
                    assert(post[i] == pre_out[i]);
                    assert(post[j] == pre_out[j - 1]);
                    if j - 1 == pos && (pos as int) < pre_out.len() {
                        lemma_attendee_le_trans(pre_out[i], xv, pre_out[pos as int]);
                    }
                } else {
                    assert(post[i] == pre_out[i - 1]);
                    assert(post[j] == pre_out[j - 1]);
                }
            }
            // the multiset gains exactly the inserted element
            let removed = post.remove(pos as int);
            assert(removed =~= pre_out);
            assert(post.to_multiset().remove(xv) =~= pre_out.to_multiset());
            assert(post.to_multiset().count(xv) > 0) by {
                assert(post[pos as int] == xv);
            }
            assert(post.to_multiset() =~= pre_out.to_multiset().insert(xv));
            assert(dv.take(k + 1) =~= dv.take(k as int).push(xv));
        }
        k += 1;
    }
    proof {
        assert(dv.take(input.len() as int) =~= dv);
    }
    out
}

/// How a stored attendee row is reported back.
pub open spec fn response_of() -> spec_fn(RsvpAttendeeV) -> AttendeeResponseV {
    |a: RsvpAttendeeV|
        AttendeeResponseV {
            id: a.id,
            name: a.name,
            is_attending: a.is_attending,
            meal_preference: a.meal_preference,
            dietary_restrictions: a.dietary_restrictions,
            is_primary: a.is_primary,
        }
}

/// What the status report promises: whether a standing RSVP exists, the
/// guest's quota and name, and, when one exists, exactly its attendee rows,
/// in display order.
pub open spec fn status_post(
    s: StoreV,
    token: Option<Seq<char>>,
    now: i64,
    r: Result<RsvpStatusResponse, AppError>,
) -> bool {
    match lookup_guest(s, token, now) {
        GuestLookup::NoGuestSession => r matches Err(e) && e is Unauthorized,
        GuestLookup::MissingGuestId => r matches Err(e) && e is Internal,
        GuestLookup::GuestMissing => r matches Err(e) && (e matches AppError::NotFound(m) && m@
            == "Guest not found"@),
        GuestLookup::Found(gi) => {
            let g = s.guests[gi];
            match find_first(s.rsvps, rsvp_of_guest(g.id)) {
                None => r matches Ok(resp) && {
                    &&& !resp.has_responded
                    &&& resp.party_size == g.party_size
                    &&& resp.guest_name@ == g.name
                    &&& resp.rsvp is None
                },
                Some(ri) => {
                    let rv = s.rsvps[ri];
                    r matches Ok(resp) && {
                        &&& resp.has_responded
                        &&& resp.party_size == g.party_size
                        &&& resp.guest_name@ == g.name
                        &&& (resp.rsvp matches Some(rr) && {
                            &&& rr.id == rv.id
                            &&& rr.guest_id == rv.guest_id
                            &&& rr.responded_at == rv.responded_at
                            &&& rr.attendees.deep_view().to_multiset() == s.attendees.filter(
                                of_rsvp(rv.id),
                            ).map_values(response_of()).to_multiset()
                            &&& sorted_attendees(rr.attendees.deep_view())
                        })
                    }
                },
            }
        },
    }
}

/// Report whether the caller's party has answered and, if so, exactly the
/// attendees most recently submitted, the primary first, then by name.
pub fn get_rsvp_status(store: &Store, token: Option<&String>, now: i64) -> (r: Result<
    RsvpStatusResponse,
    AppError,
>)
    ensures
        status_post(store@, token.deep_view(), now, r),
{
    let guest = match get_guest_from_session(store, token, now) {
        Ok(g) => g,
        Err(e) => {
            return Err(e);
        },
    };
    match store.find_rsvp_idx(guest.id) {
        None => Ok(
            RsvpStatusResponse {
                has_responded: false,
                party_size: guest.party_size,
                guest_name: guest.name,
                rsvp: None,
            },
        ),
        Some(ri) => {
            proof {
                assert(store@.rsvps[ri as int] == store.rsvps@[ri as int]);
            }
            let rid = store.rsvps[ri].id;
            let rsvp_guest_id = store.rsvps[ri].guest_id;
            let responded_at = store.rsvps[ri].responded_at;
            let ghost av = store@.attendees;
            let ghost pick = of_rsvp(rid);
            let mut collected: Vec<AttendeeResponse> = Vec::new();
            proof {
                assert(collected.deep_view() =~= av.take(0).filter(pick).map_values(
                    response_of(),
                ));
            }
            let mut k: usize = 0;
            while k < store.attendees.len()
                invariant
                    k <= store.attendees.len(),
                    collected.deep_view() == av.take(k as int).filter(pick).map_values(
                        response_of(),
                    ),
                decreases store.attendees.len() - k,
            {
                proof {
                    assert(av[k as int] == store.attendees[k as int]@);
                    assert(av.take(k + 1) =~= av.take(k as int).push(av[k as int]));
                    av.take(k as int).lemma_filter_push(av[k as int], pick);
                }
                let ghost pre_coll = collected.deep_view();
                let a = &store.attendees[k];
                if a.rsvp_id == rid {
                    collected.push(
                        AttendeeResponse {
                            id: a.id,
                            name: a.name.clone(),
                            is_attending: a.is_attending,
                            meal_preference: match &a.meal_preference {
                                Some(m) => Some(m.clone()),
                                None => None,
                            },
                            dietary_restrictions: match &a.dietary_restrictions {
                                Some(d) => Some(d.clone()),
                                None => None,
                            },
                            is_primary: a.is_primary,
                        },
                    );
                    proof {
                        assert(collected.deep_view() =~= pre_coll.push(
                            response_of()(av[k as int]),
                        ));
                        assert(collected.deep_view() =~= av.take(k + 1).filter(pick).map_values(
                            response_of(),
                        ));
                    }
                } else {
                    proof {
                        assert(collected.deep_view() =~= av.take(k + 1).filter(pick).map_values(
                            response_of(),
                        ));
                    }
                }
                k += 1;
            }
            proof {
                assert(av.take(store.attendees.len() as int) =~= av);
            }
            let sorted = sort_attendees(collected);
            Ok(
                RsvpStatusResponse {
                    has_responded: true,
                    party_size: guest.party_size,
                    guest_name: guest.name,
                    rsvp: Some(
                        RsvpResponse {
                            id: rid,
                            guest_id: rsvp_guest_id,
                            responded_at,
                            attendees: sorted,
                        },
                    ),
                },
            )
        },
    }
}

/// Law: a valid resubmission replaces the prior attendee set entirely.
/// After two successive commits for the same guest, the guest's standing
/// RSVP is the one written second, the attendee rows it owns are exactly
/// those of the second submission, and nothing of the first submission's
/// attendee set survives.
pub proof fn lemma_resubmit_replaces(
    pre: StoreV,
    guest_id: u64,
    atts1: Seq<AttendeeInputV>,
    atts2: Seq<AttendeeInputV>,
    now1: i64,
    now2: i64,
)
    requires
        pre.wf(),
        pre.next_id + 1 + atts1.len() + 1 + atts2.len() <= u64::MAX,
    ensures
        ({
            let s1 = submit_tr(pre, guest_id, atts1, now1);
            let s2 = submit_tr(s1, guest_id, atts2, now2);
            let rid1 = pre.next_id;
            let rid2 = s1.next_id;
            &&& (find_first(s2.rsvps, rsvp_of_guest(guest_id)) matches Some(i) && s2.rsvps[i].id
                == rid2 && s2.rsvps[i].responded_at == now2)
            &&& s2.attendees.filter(of_rsvp(rid2)) == new_attendee_rows(rid2, atts2, now2)
            &&& s2.attendees.filter(of_rsvp(rid1)) == Seq::<RsvpAttendeeV>::empty()
        }),
{
    let s1 = submit_tr(pre, guest_id, atts1, now1);
    let s2 = submit_tr(s1, guest_id, atts2, now2);
    let rid1 = pre.next_id;
    let rid2 = s1.next_id;
    lemma_wf_clear_rsvp(pre, guest_id);
    lemma_wf_submit_tr(pre, guest_id, atts1, now1);
    let cleared1 = clear_rsvp(pre, guest_id);
    // in s1, the guest's RSVP row is the freshly pushed one, at the end
    assert(s1.rsvps[s1.rsvps.len() - 1].guest_id == guest_id);
    lemma_find_first_hit(s1.rsvps, rsvp_of_guest(guest_id), s1.rsvps.len() - 1);
    let cleared2 = clear_rsvp(s1, guest_id);
    assert(cleared2.rsvps =~= cleared1.rsvps);
    // in s2, the guest's RSVP row is again the freshly pushed one
    lemma_wf_clear_rsvp(s1, guest_id);
    assert(s2.rsvps[s2.rsvps.len() - 1].guest_id == guest_id);
    assert forall|k: int| 0 <= k < s2.rsvps.len() - 1 implies !rsvp_of_guest(guest_id)(
        s2.rsvps[k],
    ) by {
        assert(s2.rsvps[k] == cleared2.rsvps[k]);
    }
    lemma_find_first_hit(s2.rsvps, rsvp_of_guest(guest_id), s2.rsvps.len() - 1);
    assert(s2.rsvps[s2.rsvps.len() - 1].id == rid2);
    // the surviving old attendees all reference ids below rid2, the new
    // block references exactly rid2
    let keep1 = not_of_rsvp(rid1);
    lemma_filter_members(s1.attendees, keep1);
    assert forall|k: int| 0 <= k < cleared2.attendees.len() implies !of_rsvp(rid2)(
        #[trigger] cleared2.attendees[k],
    ) && !of_rsvp(rid1)(cleared2.attendees[k]) by {
        let x = cleared2.attendees[k];
        assert(s1.attendees.contains(x));
        let idx = choose|idx: int| 0 <= idx < s1.attendees.len() && s1.attendees[idx] == x;
        assert(x.rsvp_id < s1.next_id);
        s1.attendees.lemma_filter_pred(keep1, k);
    }
    lemma_filter_none(cleared2.attendees, of_rsvp(rid2));
    lemma_filter_none(cleared2.attendees, of_rsvp(rid1));
    let fresh2 = new_attendee_rows(rid2, atts2, now2);
    assert forall|k: int| 0 <= k < fresh2.len() implies of_rsvp(rid2)(#[trigger] fresh2[k])
        && !of_rsvp(rid1)(fresh2[k]) by {
        assert(fresh2[k].rsvp_id == rid2);
    }
    lemma_filter_all(fresh2, of_rsvp(rid2));
    lemma_filter_none(fresh2, of_rsvp(rid1));
    Seq::filter_distributes_over_add(cleared2.attendees, fresh2, of_rsvp(rid2));
    Seq::filter_distributes_over_add(cleared2.attendees, fresh2, of_rsvp(rid1));
    assert(s2.attendees.filter(of_rsvp(rid2)) =~= fresh2);
    assert(s2.attendees.filter(of_rsvp(rid1)) =~= Seq::<RsvpAttendeeV>::empty());
}

} // verus!
