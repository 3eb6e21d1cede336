//! The session authority: server-side session records holding up to two
//! independent principal bindings — an end-user account and an
//! administrator — and one CSRF token. Binding, unbinding and token
//! handling touch only their own part of the record, so one principal
//! kind's login or logout never disturbs the other's, and the session
//! store supports identifier rotation for the fixation defense applied at
//! administrator login.

use vstd::prelude::*;
use crate::outside::generate_csrf_token;
use crate::text::str_eq;

verus! {

/// An authenticated end-user principal as bound into a session.
#[derive(Debug)]
pub struct AuthUser {
    pub id: i32,
    pub username: String,
}

/// An authenticated administrator principal as bound into a session.
#[derive(Debug)]
pub struct AdminUser {
    pub id: i32,
    pub username: String,
}

/// An optional end-user principal: resolution that does not demand login.
#[derive(Debug)]
pub struct OptionalAuthUser(pub Option<AuthUser>);

/// An optional administrator principal.
#[derive(Debug)]
pub struct OptionalAdminUser(pub Option<AdminUser>);

impl Clone for AuthUser {
    fn clone(&self) -> (r: Self)
        ensures
            r == *self,
    {
        AuthUser { id: self.id, username: self.username.clone() }
    }
}

impl Clone for AdminUser {
    fn clone(&self) -> (r: Self)
        ensures
            r == *self,
    {
        AdminUser { id: self.id, username: self.username.clone() }
    }
}

/// One server-side session record: up to one binding per principal kind
/// and up to one CSRF token.
#[derive(Debug)]
pub struct Session {
    account: Option<AuthUser>,
    admin: Option<AdminUser>,
    csrf: Option<String>,
}

impl Session {
    /// The end-user binding as plain values.
    pub closed spec fn account_view(&self) -> Option<(i32, Seq<char>)> {
        match self.account {
            Some(u) => Some((u.id, u.username@)),
            None => None,
        }
    }

    /// The administrator binding as plain values.
    pub closed spec fn admin_view(&self) -> Option<(i32, Seq<char>)> {
        match self.admin {
            Some(u) => Some((u.id, u.username@)),
            None => None,
        }
    }

    /// The stored CSRF token as plain values.
    pub closed spec fn csrf_view(&self) -> Option<Seq<char>> {
        match self.csrf {
            Some(ref t) => Some(t@),
            None => None,
        }
    }

    /// A fresh anonymous session: no bindings, no token.
    pub fn new() -> (r: Session)
        ensures
            r.account_view() is None,
            r.admin_view() is None,
            r.csrf_view() is None,
    {
        Session { account: None, admin: None, csrf: None }
    }
}


impl Clone for Session {
    fn clone(&self) -> (r: Self)
        ensures
            r == *self,
    {
        Session {
            account: match &self.account {
                Some(u) => Some(u.clone()),
                None => None,
            },
            admin: match &self.admin {
                Some(u) => Some(u.clone()),
                None => None,
            },
            csrf: match &self.csrf {
                Some(t) => Some(t.clone()),
                None => None,
            },
        }
    }
}

/// What a submitted token must satisfy to pass the CSRF check: the session
/// stores a token and it is exactly the submitted text. A missing stored
/// token fails every submission.
pub open spec fn spec_validate_csrf(s: Session, submitted: Seq<char>) -> bool {
    s.csrf_view() matches Some(t) && t == submitted
}

/// Returns the session's CSRF token, creating a fresh random one the first
/// time a session needs it; the token then stays stable for the session's
/// life. Neither principal binding is touched.
pub fn ensure_csrf_token(session: &mut Session) -> (r: String)
    ensures
        final(session).account_view() == old(session).account_view(),
        final(session).admin_view() == old(session).admin_view(),
        final(session).csrf_view() == Some(r@),
        old(session).csrf_view() matches Some(t) ==> t == r@ && *final(session) == *old(session),
        old(session).csrf_view() is None ==> r@.len() == 32 && forall|i: int|
            0 <= i < r@.len() ==> crate::outside::is_token_char(#[trigger] r@[i]),
{
    match &session.csrf {
        Some(t) => t.clone(),
        None => {
            let token = generate_csrf_token();
            session.csrf = Some(token.clone());
            token
        },
    }
}

/// Compares a submitted token against the session's stored token; a
/// missing stored token fails the check.
pub fn validate_csrf(session: &Session, token: &str) -> (r: bool)
    ensures
        r == spec_validate_csrf(*session, token@),
{
    match &session.csrf {
        Some(stored) => str_eq(stored.as_str(), token),
        None => false,
    }
}

/// A token the authority just issued validates for its session, and a
/// token never validates for a session that stores a different token or
/// none: tokens cannot cross sessions.
pub proof fn lemma_csrf_round_trip(s1: Session, s2: Session, t: Seq<char>)
    requires
        s1.csrf_view() == Some(t),
    ensures
        spec_validate_csrf(s1, t),
        s2.csrf_view() != Some(t) ==> !spec_validate_csrf(s2, t),
{
}

impl AuthUser {
    pub fn new(id: i32, username: String) -> (r: Self)
        ensures
            r.id == id,
            r.username == username,
    {
        Self { id, username }
    }

    /// Binds this end-user principal into the session. The administrator
    /// binding and the CSRF token are untouched: principal kinds are
    /// isolated.
    pub fn login(&self, session: &mut Session)
        ensures
            final(session).account_view() == Some((self.id, self.username@)),
            final(session).admin_view() == old(session).admin_view(),
            final(session).csrf_view() == old(session).csrf_view(),
    {
        session.account = Some(self.clone());
    }

    /// Clears only the end-user binding; the administrator binding and the
    /// CSRF token survive.
    pub fn logout(session: &mut Session)
        ensures
            final(session).account_view() is None,
            final(session).admin_view() == old(session).admin_view(),
            final(session).csrf_view() == old(session).csrf_view(),
    {
        session.account = None;
    }

    /// Resolves the end-user principal bound into the session, if any.
    pub fn from_session(session: &Session) -> (r: Option<Self>)
        ensures
            r matches Some(u) ==> session.account_view() == Some((u.id, u.username@)),
            r is None <==> session.account_view() is None,
    {
        match &session.account {
            Some(u) => Some(u.clone()),
            None => None,
        }
    }
}

impl OptionalAuthUser {
    /// Optional resolution: never an error, `None` when anonymous.
    pub fn from_session(session: &Session) -> (r: Self)
        ensures
            r.0 matches Some(u) ==> session.account_view() == Some((u.id, u.username@)),
            r.0 is None <==> session.account_view() is None,
    {
        OptionalAuthUser(AuthUser::from_session(session))
    }
}

impl AdminUser {
    pub fn new(id: i32, username: String) -> (r: Self)
        ensures
            r.id == id,
            r.username == username,
    {
        Self { id, username }
    }

    /// Binds this administrator principal into the session. The end-user
    /// binding and the CSRF token are untouched: principal kinds are
    /// isolated.
    pub fn login(&self, session: &mut Session)
        ensures
            final(session).admin_view() == Some((self.id, self.username@)),
            final(session).account_view() == old(session).account_view(),
            final(session).csrf_view() == old(session).csrf_view(),
    {
        session.admin = Some(self.clone());
    }

    /// Clears only the administrator binding; the end-user binding and the
    /// CSRF token survive.
    pub fn logout(session: &mut Session)
        ensures
            final(session).admin_view() is None,
            final(session).account_view() == old(session).account_view(),
            final(session).csrf_view() == old(session).csrf_view(),
    {
        session.admin = None;
    }

    /// Resolves the administrator principal bound into the session, if any.
    pub fn from_session(session: &Session) -> (r: Option<Self>)
        ensures
            r matches Some(u) ==> session.admin_view() == Some((u.id, u.username@)),
            r is None <==> session.admin_view() is None,
    {
        match &session.admin {
            Some(u) => Some(u.clone()),
            None => None,
        }
    }
}

impl OptionalAdminUser {
    /// Optional resolution: never an error, `None` when anonymous.
    pub fn from_session(session: &Session) -> (r: Self)
        ensures
            r.0 matches Some(u) ==> session.admin_view() == Some((u.id, u.username@)),
            r.0 is None <==> session.admin_view() is None,
    {
        OptionalAdminUser(AdminUser::from_session(session))
    }
}

// ---------------------------------------------------------------------------
// The session store: records keyed by an opaque identifier, with rotation.

pub open spec fn has_sid(ss: Seq<(u64, Session)>, sid: u64) -> bool {
    exists|i: int| 0 <= i < ss.len() && (#[trigger] ss[i]).0 == sid
}

pub open spec fn sid_index(ss: Seq<(u64, Session)>, sid: u64) -> int {
    choose|i: int| 0 <= i < ss.len() && (#[trigger] ss[i]).0 == sid
}

/// The session record stored under an identifier; meaningful under
/// `has_sid`.
pub open spec fn session_at(ss: Seq<(u64, Session)>, sid: u64) -> Session {
    ss[sid_index(ss, sid)].1
}

/// The server-side session store, keyed by identifiers it hands out.
pub struct SessionStore {
    sessions: Vec<(u64, Session)>,
    next_sid: u64,
}

impl SessionStore {
    pub closed spec fn sessions_seq(&self) -> Seq<(u64, Session)> {
        self.sessions@
    }

    pub closed spec fn sid_next(&self) -> u64 {
        self.next_sid
    }

    pub open spec fn wf(&self) -> bool {
        &&& forall|i: int|
            0 <= i < self.sessions_seq().len() ==> (#[trigger] self.sessions_seq()[i]).0
                < self.sid_next()
        &&& forall|i: int, j: int|
            0 <= i < j < self.sessions_seq().len() ==> (#[trigger] self.sessions_seq()[i]).0 != (
            #[trigger] self.sessions_seq()[j]).0
    }

    /// An empty store.
    pub fn new() -> (r: SessionStore)
        ensures
            r.wf(),
            r.sessions_seq().len() == 0,
    {
        SessionStore { sessions: Vec::new(), next_sid: 0 }
    }

    /// Opens a fresh anonymous session and returns its identifier.
    pub fn create_session(&mut self) -> (r: Option<u64>)
        requires
            old(self).wf(),
        ensures
            final(self).wf(),
            r is None ==> *final(self) == *old(self) && old(self).sid_next() == u64::MAX,
            r matches Some(sid) ==> sid == old(self).sid_next() && final(self).sid_next() == old(
                self,
            ).sid_next() + 1 && has_sid(final(self).sessions_seq(), sid) && session_at(
                final(self).sessions_seq(),
                sid,
            ).account_view() is None && session_at(
                final(self).sessions_seq(),
                sid,
            ).admin_view() is None && session_at(final(self).sessions_seq(), sid).csrf_view()
                is None && forall|other: u64|
                has_sid(old(self).sessions_seq(), other) ==> has_sid(
                    final(self).sessions_seq(),
                    other,
                ) && session_at(final(self).sessions_seq(), other) == session_at(
                    old(self).sessions_seq(),
                    other,
                ),
    {
        if self.next_sid == u64::MAX {
            return None;
        }
        let sid = self.next_sid;
        let ghost before = self.sessions@;
        self.sessions.push((sid, Session::new()));
        self.next_sid = sid + 1;
        proof {
            let after = self.sessions@;
            assert(after[before.len() as int].0 == sid);
            assert(has_sid(after, sid));
            lemma_unique_sid_at(after, sid, before.len() as int);
            assert forall|other: u64| has_sid(before, other) implies has_sid(after, other)
                && session_at(after, other) == session_at(before, other) by {
                let k = sid_index(before, other);
                assert((#[trigger] before[k]).0 == other);
                assert(after[k] == before[k]);
                assert(has_sid(after, other));
                lemma_unique_sid_at(after, other, k);
                lemma_unique_sid_at(before, other, k);
            }
        }
        Some(sid)
    }

    fn find_sid_pos(&self, sid: u64) -> (r: Option<usize>)
        ensures
            r matches Some(i) ==> i < self.sessions_seq().len() && self.sessions_seq()[
                i as int
            ].0 == sid,
            r is None ==> !has_sid(self.sessions_seq(), sid),
    {
        let n = self.sessions.len();
        let mut i: usize = 0;
        while i < n
            invariant
                n == self.sessions@.len(),
                i <= n,
                forall|j: int| 0 <= j < i ==> (#[trigger] self.sessions@[j]).0 != sid,
            decreases n - i,
        {
            if self.sessions[i].0 == sid {
                return Some(i);
            }
            i += 1;
        }
        None
    }

    /// Whether the store currently holds a session under this identifier.
    pub fn has_session(&self, sid: u64) -> (r: bool)
        ensures
            r == has_sid(self.sessions_seq(), sid),
    {
        match self.find_sid_pos(sid) {
            Some(i) => {
                proof {
                    assert((#[trigger] self.sessions_seq()[i as int]).0 == sid);
                }
                true
            },
            None => false,
        }
    }

    /// Borrows the session stored under an identifier.
    pub fn session(&self, sid: u64) -> (r: Option<&Session>)
        requires
            self.wf(),
        ensures
            r matches Some(s) ==> has_sid(self.sessions_seq(), sid) && *s == session_at(
                self.sessions_seq(),
                sid,
            ),
            r is None <==> !has_sid(self.sessions_seq(), sid),
    {
        match self.find_sid_pos(sid) {
            Some(i) => {
                proof {
                    assert((#[trigger] self.sessions_seq()[i as int]).0 == sid);
                    lemma_unique_sid_at(self.sessions_seq(), sid, i as int);
                }
                Some(&self.sessions[i].1)
            },
            None => None,
        }
    }

    /// Replaces the session stored under an identifier; a missing
    /// identifier changes nothing and reports failure.
    pub fn put_session(&mut self, sid: u64, session: Session) -> (r: bool)
        requires
            old(self).wf(),
        ensures
            final(self).wf(),
            final(self).sid_next() == old(self).sid_next(),
            r == has_sid(old(self).sessions_seq(), sid),
            !r ==> *final(self) == *old(self),
            r ==> final(self).sessions_seq() == old(self).sessions_seq().update(
                sid_index(old(self).sessions_seq(), sid),
                (sid, session),
            ),
            r ==> has_sid(final(self).sessions_seq(), sid) && session_at(
                final(self).sessions_seq(),
                sid,
            ) == session && forall|other: u64|
                other != sid ==> (has_sid(final(self).sessions_seq(), other) == has_sid(
                    old(self).sessions_seq(),
                    other,
                ) && (has_sid(old(self).sessions_seq(), other) ==> session_at(
                    final(self).sessions_seq(),
                    other,
                ) == session_at(old(self).sessions_seq(), other))),
    {
        let ghost before = self.sessions@;
        let k = match self.find_sid_pos(sid) {
            Some(k) => k,
            None => {
                return false;
            },
        };
        proof {
            assert(has_sid(before, sid)) by {
                assert((#[trigger] before[k as int]).0 == sid);
            }
        }
        self.sessions.remove(k);
        self.sessions.insert(k, (sid, session));
        proof {
            let after = self.sessions@;
            before.remove_ensures(k as int);
            before.remove(k as int).insert_ensures(k as int, (sid, session));
            assert(after =~= before.update(k as int, (sid, session)));
            lemma_unique_sid_at(before, sid, k as int);
            assert forall|i: int, j: int| 0 <= i < j < after.len() implies (#[trigger]
            after[i]).0 != (#[trigger] after[j]).0 by {
                assert(before[i].0 == after[i].0 && before[j].0 == after[j].0);
            }
            lemma_unique_sid_at(after, sid, k as int);
            assert forall|other: u64| other != sid implies (has_sid(after, other) == has_sid(
                before,
                other,
            ) && (has_sid(before, other) ==> session_at(after, other) == session_at(
                before,
                other,
            ))) by {
                if has_sid(before, other) {
                    let m = sid_index(before, other);
                    assert((#[trigger] before[m]).0 == other);
                    assert(after[m] == before[m]);
                    assert(has_sid(after, other));
                    lemma_unique_sid_at(after, other, m);
                    lemma_unique_sid_at(before, other, m);
                }
                if has_sid(after, other) {
                    let m = sid_index(after, other);
                    assert((#[trigger] after[m]).0 == other);
                    assert(before[m].0 == other);
                    assert(has_sid(before, other));
                }
            }
        }
        true
    }


    /// Whether the store can still hand out a fresh identifier.
    pub fn can_rotate(&self) -> (r: bool)
        ensures
            r == (self.sid_next() < u64::MAX),
    {
        self.next_sid < u64::MAX
    }

    /// Rotates a session's identifier, the fixation defense applied right
    /// after administrator login: the record — bindings and CSRF token —
    /// moves unchanged under a fresh identifier and the old identifier
    /// stops resolving.
    pub fn cycle_id(&mut self, sid: u64) -> (r: Option<u64>)
        requires
            old(self).wf(),
        ensures
            final(self).wf(),
            r is None ==> *final(self) == *old(self) && (!has_sid(
                old(self).sessions_seq(),
                sid,
            ) || old(self).sid_next() == u64::MAX),
            r matches Some(new_sid) ==> has_sid(old(self).sessions_seq(), sid) && new_sid == old(
                self,
            ).sid_next() && new_sid != sid && !has_sid(final(self).sessions_seq(), sid)
                && has_sid(final(self).sessions_seq(), new_sid) && session_at(
                final(self).sessions_seq(),
                new_sid,
            ) == session_at(old(self).sessions_seq(), sid) && forall|other: u64|
                other != sid && other != new_sid ==> (has_sid(final(self).sessions_seq(), other)
                    == has_sid(old(self).sessions_seq(), other) && (has_sid(
                    old(self).sessions_seq(),
                    other,
                ) ==> session_at(final(self).sessions_seq(), other) == session_at(
                    old(self).sessions_seq(),
                    other,
                ))),
    {
        if self.next_sid == u64::MAX {
            return None;
        }
        let ghost before = self.sessions@;
        let k = match self.find_sid_pos(sid) {
            Some(k) => k,
            None => {
                return None;
            },
        };
        proof {
            assert(has_sid(before, sid)) by {
                assert((#[trigger] before[k as int]).0 == sid);
            }
            lemma_unique_sid_at(before, sid, k as int);
        }
        let entry = self.sessions.remove(k);
        let new_sid = self.next_sid;
        let ghost mid = self.sessions@;
        self.sessions.push((new_sid, entry.1));
        self.next_sid = new_sid + 1;
        proof {
            let after = self.sessions@;
            before.remove_ensures(k as int);
            assert forall|j: int| 0 <= j < mid.len() implies ((#[trigger] mid[j]).0 != sid
                && mid[j].0 < new_sid) by {
                if j < k as int {
                    assert(mid[j] == before[j]);
                } else {
                    assert(mid[j] == before[j + 1]);
                }
            }
            assert(after[mid.len() as int] == (new_sid, entry.1));
            assert(entry == before[k as int]);
            assert(has_sid(after, new_sid)) by {
                assert((#[trigger] after[mid.len() as int]).0 == new_sid);
            }
            assert forall|i: int, j: int| 0 <= i < j < after.len() implies (#[trigger]
            after[i]).0 != (#[trigger] after[j]).0 by {
                if j < mid.len() {
                    if i < k as int {
                        assert(after[i] == before[i]);
                    } else {
                        assert(after[i] == before[i + 1]);
                    }
                    if j < k as int {
                        assert(after[j] == before[j]);
                    } else {
                        assert(after[j] == before[j + 1]);
                    }
                } else {
                    assert(after[j].0 == new_sid);
                }
            }
            lemma_unique_sid_at(after, new_sid, mid.len() as int);
            assert(!has_sid(after, sid)) by {
                if has_sid(after, sid) {
                    let m = sid_index(after, sid);
                    assert((#[trigger] after[m]).0 == sid);
                    if m < mid.len() {
                        assert(after[m] == mid[m]);
                    }
                }
            }
            assert forall|other: u64| other != sid && other != new_sid implies (has_sid(
                after,
                other,
            ) == has_sid(before, other) && (has_sid(before, other) ==> session_at(after, other)
                == session_at(before, other))) by {
                if has_sid(before, other) {
                    let m = sid_index(before, other);
                    assert((#[trigger] before[m]).0 == other);
                    let m2: int = if m < k as int {
                        m
                    } else {
                        m - 1
                    };
                    assert(mid[m2] == before[m]);
                    assert(after[m2] == mid[m2]);
                    assert(has_sid(after, other)) by {
                        assert((#[trigger] after[m2]).0 == other);
                    }
                    lemma_unique_sid_at(after, other, m2);
                    lemma_unique_sid_at(before, other, m);
                }
                if has_sid(after, other) {
                    let m = sid_index(after, other);
                    assert((#[trigger] after[m]).0 == other);
                    assert(m < mid.len());
                    let m2: int = if m < k as int {
                        m
                    } else {
                        m + 1
                    };
                    assert(mid[m] == before[m2]);
                    assert(has_sid(before, other)) by {
                        assert((#[trigger] before[m2]).0 == other);
                    }
                }
            }
        }
        Some(new_sid)
    }
}

/// Under pairwise-distinct identifiers, an index holding the identifier is
/// the index the store resolves it to.
proof fn lemma_unique_sid_at(ss: Seq<(u64, Session)>, sid: u64, i: int)
    requires
        forall|a: int, b: int| 0 <= a < b < ss.len() ==> (#[trigger] ss[a]).0 != (#[trigger] ss[b]).0,
        0 <= i < ss.len(),
        ss[i].0 == sid,
    ensures
        has_sid(ss, sid),
        sid_index(ss, sid) == i,
        session_at(ss, sid) == ss[i].1,
{
    assert(has_sid(ss, sid)) by {
        assert((#[trigger] ss[i]).0 == sid);
    }
    let k = sid_index(ss, sid);
    assert((#[trigger] ss[k]).0 == sid);
    if k != i {
        if k < i {
            assert(ss[k].0 != ss[i].0);
        } else {
            assert(ss[i].0 != ss[k].0);
        }
        assert(false);
    }
}

} // verus!
