//! The transactional store, modeled as plain in-memory tables.
//!
//! Every operation of the service reads and writes this state; the
//! well-formedness predicate [`StoreV::wf`] captures what the backing
//! schema's uniqueness constraints guarantee: distinct ids below the
//! allocation cursor, unique invite codes, unique session tokens, unique
//! admin usernames, and at most one RSVP row per guest.

use vstd::prelude::*;

use crate::error::AppError;
use crate::models::{spec_parse_code_type, Admin, AdminV, CodeType, Guest, GuestV, InviteCode,
    InviteCodeV, Rsvp, RsvpAttendee, RsvpAttendeeV, Session, SessionV, str_eq};

verus! {

/// Index of the first element satisfying `pred`, scanning from the front.
pub open spec fn find_first<A>(s: Seq<A>, pred: spec_fn(A) -> bool) -> Option<int>
    decreases s.len(),
{
    if s.len() == 0 {
        None
    } else if pred(s[0]) {
        Some(0)
    } else {
        match find_first(s.drop_first(), pred) {
            Some(i) => Some(i + 1),
            None => None,
        }
    }
}

/// If `i` is the first index satisfying `pred`, the scan finds exactly it.
pub proof fn lemma_find_first_hit<A>(s: Seq<A>, pred: spec_fn(A) -> bool, i: int)
    requires
        0 <= i < s.len(),
        pred(s[i]),
        forall|k: int| 0 <= k < i ==> !pred(s[k]),
    ensures
        find_first(s, pred) == Some(i),
    decreases i,
{
    if i == 0 {
    } else {
        let t = s.drop_first();
        assert(!pred(s[0]));
        assert forall|k: int| 0 <= k < i - 1 implies !pred(t[k]) by {
            assert(t[k] == s[k + 1]);
        }
        assert(t[i - 1] == s[i]);
        lemma_find_first_hit(t, pred, i - 1);
    }
}

/// If no element satisfies `pred`, the scan finds nothing.
pub proof fn lemma_find_first_miss<A>(s: Seq<A>, pred: spec_fn(A) -> bool)
    requires
        forall|k: int| 0 <= k < s.len() ==> !pred(s[k]),
    ensures
        find_first(s, pred) is None,
    decreases s.len(),
{
    if s.len() == 0 {
    } else {
        let t = s.drop_first();
        assert forall|k: int| 0 <= k < t.len() implies !pred(t[k]) by {
            assert(t[k] == s[k + 1]);
        }
        lemma_find_first_miss(t, pred);
    }
}

/// What a successful or failed scan says about the sequence.
pub proof fn lemma_find_first_character<A>(s: Seq<A>, pred: spec_fn(A) -> bool)
    ensures
        match find_first(s, pred) {
            Some(i) => 0 <= i < s.len() && pred(s[i]) && forall|k: int| 0 <= k < i ==> !pred(s[k]),
            None => forall|k: int| 0 <= k < s.len() ==> !pred(s[k]),
        },
    decreases s.len(),
{
    if s.len() == 0 {
    } else if pred(s[0]) {
    } else {
        let t = s.drop_first();
        lemma_find_first_character(t, pred);
        match find_first(t, pred) {
            Some(i) => {
                assert(t[i] == s[i + 1]);
                assert forall|k: int| 0 <= k < i + 1 implies !pred(s[k]) by {
                    if k > 0 {
                        assert(t[k - 1] == s[k]);
                    }
                }
            },
            None => {
                assert forall|k: int| 0 <= k < s.len() implies !pred(s[k]) by {
                    if k > 0 {
                        assert(t[k - 1] == s[k]);
                    }
                }
            },
        }
    }
}

/// Mathematical image of the whole store.
pub struct StoreV {
    pub guests: Seq<GuestV>,
    pub admins: Seq<AdminV>,
    pub invite_codes: Seq<InviteCodeV>,
    pub sessions: Seq<SessionV>,
    pub rsvps: Seq<Rsvp>,
    pub attendees: Seq<RsvpAttendeeV>,
    pub next_id: u64,
}

impl StoreV {
    /// All identifiers sit strictly below the allocation cursor.
    pub open spec fn ids_below_next(self) -> bool {
        &&& forall|i: int| 0 <= i < self.guests.len() ==> (#[trigger] self.guests[i]).id
            < self.next_id
        &&& forall|i: int| 0 <= i < self.admins.len() ==> (#[trigger] self.admins[i]).id
            < self.next_id
        &&& forall|i: int| 0 <= i < self.invite_codes.len() ==> (#[trigger] self.invite_codes[i]).id
            < self.next_id
        &&& forall|i: int| 0 <= i < self.sessions.len() ==> (#[trigger] self.sessions[i]).id
            < self.next_id
        &&& forall|i: int| 0 <= i < self.rsvps.len() ==> (#[trigger] self.rsvps[i]).id
            < self.next_id
        &&& forall|i: int| 0 <= i < self.attendees.len() ==> (#[trigger] self.attendees[i]).id
            < self.next_id && self.attendees[i].rsvp_id < self.next_id
    }

    /// The uniqueness constraints of the schema, table by table.
    pub open spec fn rows_unique(self) -> bool {
        &&& forall|i: int, j: int|
            #![trigger self.guests[i], self.guests[j]]
            0 <= i < j < self.guests.len() ==> self.guests[i].id != self.guests[j].id
        &&& forall|i: int, j: int|
            #![trigger self.admins[i], self.admins[j]]
            0 <= i < j < self.admins.len() ==> self.admins[i].id != self.admins[j].id
                && self.admins[i].username != self.admins[j].username
        &&& forall|i: int, j: int|
            #![trigger self.invite_codes[i], self.invite_codes[j]]
            0 <= i < j < self.invite_codes.len() ==> self.invite_codes[i].id
                != self.invite_codes[j].id && self.invite_codes[i].code
                != self.invite_codes[j].code
        &&& forall|i: int, j: int|
            #![trigger self.sessions[i], self.sessions[j]]
            0 <= i < j < self.sessions.len() ==> self.sessions[i].id != self.sessions[j].id
                && self.sessions[i].token != self.sessions[j].token
        &&& forall|i: int, j: int|
            #![trigger self.rsvps[i], self.rsvps[j]]
            0 <= i < j < self.rsvps.len() ==> self.rsvps[i].id != self.rsvps[j].id
                && self.rsvps[i].guest_id != self.rsvps[j].guest_id
        &&& forall|i: int, j: int|
            #![trigger self.attendees[i], self.attendees[j]]
            0 <= i < j < self.attendees.len() ==> self.attendees[i].id != self.attendees[j].id
    }

    /// Every guest may bring at least one attendee.
    pub open spec fn party_sizes_positive(self) -> bool {
        forall|i: int| 0 <= i < self.guests.len() ==> (#[trigger] self.guests[i]).party_size >= 1
    }

    /// Every session row is bound to exactly the identity its type calls
    /// for.
    pub open spec fn sessions_bound(self) -> bool {
        forall|i: int| 0 <= i < self.sessions.len() ==> session_bound(#[trigger] self.sessions[i])
    }

    /// Well-formedness of the store: what the schema constraints guarantee.
    pub open spec fn wf(self) -> bool {
        &&& self.ids_below_next()
        &&& self.rows_unique()
        &&& self.party_sizes_positive()
        &&& self.sessions_bound()
    }
}

/// The session-binding invariant: a guest session carries a guest id and no
/// admin id, a full admin session an admin id and no guest id, and an
/// admin-pending session neither.
pub open spec fn session_bound(s: SessionV) -> bool {
    &&& s.session_type == "guest"@ ==> (s.guest_id is Some && s.admin_id is None)
    &&& s.session_type == "admin_pending"@ ==> (s.guest_id is None && s.admin_id is None)
    &&& s.session_type == "admin"@ ==> (s.admin_id is Some && s.guest_id is None)
}

/// The session that a bearer token resolves to at instant `now`: it must
/// match the token and not yet be expired.
pub open spec fn live_session(token: Seq<char>, now: i64) -> spec_fn(SessionV) -> bool {
    |ss: SessionV| ss.token == token && ss.expires_at > now
}

/// Any session row holding this token, expired or not; this is what the
/// schema's uniqueness constraint ranges over.
pub open spec fn session_with_token(token: Seq<char>) -> spec_fn(SessionV) -> bool {
    |ss: SessionV| ss.token == token
}

/// The invite-code row holding exactly this code text.
pub open spec fn code_with_text(code: Seq<char>) -> spec_fn(InviteCodeV) -> bool {
    |c: InviteCodeV| c.code == code
}

/// The guest row with this id.
pub open spec fn guest_with_id(id: u64) -> spec_fn(GuestV) -> bool {
    |g: GuestV| g.id == id
}

/// The admin row with this username.
pub open spec fn admin_with_username(username: Seq<char>) -> spec_fn(AdminV) -> bool {
    |a: AdminV| a.username == username
}

/// The admin row with this id.
pub open spec fn admin_with_id(id: u64) -> spec_fn(AdminV) -> bool {
    |a: AdminV| a.id == id
}

/// The RSVP row owned by this guest.
pub open spec fn rsvp_of_guest(guest_id: u64) -> spec_fn(Rsvp) -> bool {
    |r: Rsvp| r.guest_id == guest_id
}

/// The session a token resolves to, expired rows treated as absent.
pub open spec fn resolve_session(s: StoreV, token: Seq<char>, now: i64) -> Option<SessionV> {
    match find_first(s.sessions, live_session(token, now)) {
        Some(i) => Some(s.sessions[i]),
        None => None,
    }
}

/// The in-memory tables.
pub struct Store {
    pub guests: Vec<Guest>,
    pub admins: Vec<Admin>,
    pub invite_codes: Vec<InviteCode>,
    pub sessions: Vec<Session>,
    pub rsvps: Vec<Rsvp>,
    pub attendees: Vec<RsvpAttendee>,
    /// Allocation cursor: every issued id is below it.
    pub next_id: u64,
}

impl View for Store {
    type V = StoreV;

    open spec fn view(&self) -> StoreV {
        StoreV {
            guests: self.guests.deep_view(),
            admins: self.admins.deep_view(),
            invite_codes: self.invite_codes.deep_view(),
            sessions: self.sessions.deep_view(),
            rsvps: self.rsvps@,
            attendees: self.attendees.deep_view(),
            next_id: self.next_id,
        }
    }
}

impl Store {
    /// An empty store; the first issued id is 1.
    pub fn new() -> (s: Store)
        ensures
            s@.guests == Seq::<GuestV>::empty(),
            s@.admins == Seq::<AdminV>::empty(),
            s@.invite_codes == Seq::<InviteCodeV>::empty(),
            s@.sessions == Seq::<SessionV>::empty(),
            s@.rsvps == Seq::<Rsvp>::empty(),
            s@.attendees == Seq::<RsvpAttendeeV>::empty(),
            s@.next_id == 1,
            s@.wf(),
    {
        let s = Store {
            guests: Vec::new(),
            admins: Vec::new(),
            invite_codes: Vec::new(),
            sessions: Vec::new(),
            rsvps: Vec::new(),
            attendees: Vec::new(),
            next_id: 1,
        };
        proof {
            assert(s@.guests =~= Seq::<GuestV>::empty());
            assert(s@.admins =~= Seq::<AdminV>::empty());
            assert(s@.invite_codes =~= Seq::<InviteCodeV>::empty());
            assert(s@.sessions =~= Seq::<SessionV>::empty());
            assert(s@.attendees =~= Seq::<RsvpAttendeeV>::empty());
        }
        s
    }

    /// Index of the session this token resolves to right now, if any.
    pub fn resolve_session_idx(&self, token: &str, now: i64) -> (r: Option<usize>)
        ensures
            match r {
                Some(u) => u < self.sessions.len() && find_first(
                    self@.sessions,
                    live_session(token@, now),
                ) == Some(u as int),
                None => find_first(self@.sessions, live_session(token@, now)) is None,
            },
    {
        let ghost pred = live_session(token@, now);
        let mut j: usize = 0;
        while j < self.sessions.len()
            invariant
                j <= self.sessions.len(),
                forall|k: int| 0 <= k < j ==> !pred(self@.sessions[k]),
            decreases self.sessions.len() - j,
        {
            proof {
                assert(self@.sessions[j as int] == self.sessions[j as int]@);
            }
            let sess = &self.sessions[j];
            if str_eq(sess.token.as_str(), token) && sess.expires_at > now {
                proof {
                    lemma_find_first_hit(self@.sessions, pred, j as int);
                }
                return Some(j);
            }
            j += 1;
        }
        proof {
            lemma_find_first_miss(self@.sessions, pred);
        }
        None
    }

    /// Whether any session row, expired or not, already holds this token.
    pub fn token_taken(&self, token: &str) -> (r: bool)
        ensures
            r == (find_first(self@.sessions, session_with_token(token@)) is Some),
    {
        let ghost pred = session_with_token(token@);
        let mut j: usize = 0;
        while j < self.sessions.len()
            invariant
                j <= self.sessions.len(),
                forall|k: int| 0 <= k < j ==> !pred(self@.sessions[k]),
            decreases self.sessions.len() - j,
        {
            proof {
                assert(self@.sessions[j as int] == self.sessions[j as int]@);
            }
            if str_eq(self.sessions[j].token.as_str(), token) {
                proof {
                    lemma_find_first_hit(self@.sessions, pred, j as int);
                }
                return true;
            }
            j += 1;
        }
        proof {
            lemma_find_first_miss(self@.sessions, pred);
        }
        false
    }

    /// Index of the invite-code row holding exactly this code text.
    pub fn find_code_idx(&self, code: &str) -> (r: Option<usize>)
        ensures
            match r {
                Some(u) => u < self.invite_codes.len() && find_first(
                    self@.invite_codes,
                    code_with_text(code@),
                ) == Some(u as int),
                None => find_first(self@.invite_codes, code_with_text(code@)) is None,
            },
    {
        let ghost pred = code_with_text(code@);
        let mut j: usize = 0;
        while j < self.invite_codes.len()
            invariant
                j <= self.invite_codes.len(),
                forall|k: int| 0 <= k < j ==> !pred(self@.invite_codes[k]),
            decreases self.invite_codes.len() - j,
        {
            proof {
                assert(self@.invite_codes[j as int] == self.invite_codes[j as int]@);
            }
            if str_eq(self.invite_codes[j].code.as_str(), code) {
                proof {
                    lemma_find_first_hit(self@.invite_codes, pred, j as int);
                }
                return Some(j);
            }
            j += 1;
        }
        proof {
            lemma_find_first_miss(self@.invite_codes, pred);
        }
        None
    }

    /// Resolve an invite code to what it grants: the code's type, and, for
    /// a guest code, the guest it is bound to. A missing code is
    /// `NotFound`; a stored code type outside the known enumeration is an
    /// integrity fault, never silently coerced.
    pub fn resolve_code(&self, code: &str) -> (r: Result<(CodeType, Option<u64>), AppError>)
        ensures
            match find_first(self@.invite_codes, code_with_text(code@)) {
                None => (r matches Err(e) && (e matches AppError::NotFound(m) && m@
                    == "Code not found"@)),
                Some(ci) => {
                    let ic = self@.invite_codes[ci];
                    match spec_parse_code_type(ic.code_type) {
                        None => (r matches Err(e) && e is Internal),
                        Some(ct) => r == Ok::<(CodeType, Option<u64>), AppError>(
                            (ct, ic.guest_id),
                        ),
                    }
                },
            },
    {
        let ci = match self.find_code_idx(code) {
            None => {
                return Err(AppError::NotFound("Code not found".to_owned()));
            },
            Some(i) => i,
        };
        proof {
            assert(self@.invite_codes[ci as int] == self.invite_codes[ci as int]@);
        }
        match self.invite_codes[ci].get_code_type() {
            None => Err(AppError::Internal("invalid code type in store".to_owned())),
            Some(ct) => Ok((ct, self.invite_codes[ci].guest_id)),
        }
    }

    /// Index of the guest row with this id.
    pub fn find_guest_idx(&self, id: u64) -> (r: Option<usize>)
        ensures
            match r {
                Some(u) => u < self.guests.len() && find_first(self@.guests, guest_with_id(id))
                    == Some(u as int),
                None => find_first(self@.guests, guest_with_id(id)) is None,
            },
    {
        let ghost pred = guest_with_id(id);
        let mut j: usize = 0;
        while j < self.guests.len()
            invariant
                j <= self.guests.len(),
                forall|k: int| 0 <= k < j ==> !pred(self@.guests[k]),
            decreases self.guests.len() - j,
        {
            proof {
                assert(self@.guests[j as int] == self.guests[j as int]@);
            }
            if self.guests[j].id == id {
                proof {
                    lemma_find_first_hit(self@.guests, pred, j as int);
                }
                return Some(j);
            }
            j += 1;
        }
        proof {
            lemma_find_first_miss(self@.guests, pred);
        }
        None
    }

    /// Index of the admin row with this username.
    pub fn find_admin_idx_by_username(&self, username: &str) -> (r: Option<usize>)
        ensures
            match r {
                Some(u) => u < self.admins.len() && find_first(
                    self@.admins,
                    admin_with_username(username@),
                ) == Some(u as int),
                None => find_first(self@.admins, admin_with_username(username@)) is None,
            },
    {
        let ghost pred = admin_with_username(username@);
        let mut j: usize = 0;
        while j < self.admins.len()
            invariant
                j <= self.admins.len(),
                forall|k: int| 0 <= k < j ==> !pred(self@.admins[k]),
            decreases self.admins.len() - j,
        {
            proof {
                assert(self@.admins[j as int] == self.admins[j as int]@);
            }
            if str_eq(self.admins[j].username.as_str(), username) {
                proof {
                    lemma_find_first_hit(self@.admins, pred, j as int);
                }
                return Some(j);
            }
            j += 1;
        }
        proof {
            lemma_find_first_miss(self@.admins, pred);
        }
        None
    }

    /// Index of the admin row with this id.
    pub fn find_admin_idx(&self, id: u64) -> (r: Option<usize>)
        ensures
            match r {
                Some(u) => u < self.admins.len() && find_first(self@.admins, admin_with_id(id))
                    == Some(u as int),
                None => find_first(self@.admins, admin_with_id(id)) is None,
            },
    {
        let ghost pred = admin_with_id(id);
        let mut j: usize = 0;
        while j < self.admins.len()
            invariant
                j <= self.admins.len(),
                forall|k: int| 0 <= k < j ==> !pred(self@.admins[k]),
            decreases self.admins.len() - j,
        {
            proof {
                assert(self@.admins[j as int] == self.admins[j as int]@);
            }
            if self.admins[j].id == id {
                proof {
                    lemma_find_first_hit(self@.admins, pred, j as int);
                }
                return Some(j);
            }
            j += 1;
        }
        proof {
            lemma_find_first_miss(self@.admins, pred);
        }
        None
    }

    /// Index of the RSVP row owned by this guest.
    pub fn find_rsvp_idx(&self, guest_id: u64) -> (r: Option<usize>)
        ensures
            match r {
                Some(u) => u < self.rsvps.len() && find_first(self@.rsvps, rsvp_of_guest(guest_id))
                    == Some(u as int),
                None => find_first(self@.rsvps, rsvp_of_guest(guest_id)) is None,
            },
    {
        let ghost pred = rsvp_of_guest(guest_id);
        let mut j: usize = 0;
        while j < self.rsvps.len()
            invariant
                j <= self.rsvps.len(),
                forall|k: int| 0 <= k < j ==> !pred(self@.rsvps[k]),
            decreases self.rsvps.len() - j,
        {
            if self.rsvps[j].guest_id == guest_id {
                proof {
                    lemma_find_first_hit(self@.rsvps, pred, j as int);
                }
                return Some(j);
            }
            j += 1;
        }
        proof {
            lemma_find_first_miss(self@.rsvps, pred);
        }
        None
    }
}

} // verus!
