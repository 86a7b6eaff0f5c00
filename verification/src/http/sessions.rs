//! Sessions of a virtual host, kept in memory.
//!
//! Time and fresh identifiers come from outside. Each operation exists in a form that
//! takes them as arguments, with an exact contract, and in a form that reads the
//! clock or draws the identifier itself.

use crate::foreign::{
    current_time, is_uuid_v4_text, random_uuid, rfc2822_text, RFC2822_MAX_SECS, RFC2822_MIN_SECS,
};
use crate::http::cookies::{Cookie, CookieView};
use crate::http::headers::cookie_value;
use crate::http::request::{Request, RequestView};
use crate::http::response::{Response, ResponseView};
use crate::string_map::{lookup, Pairs, StringMap};
use vstd::prelude::*;

verus! {

/// The longest timeout that a store can hold, in minutes.
pub const MAX_TIMEOUT_MINUTES: i64 = 153_722_867_280_912;

/// A point in time: seconds since the Unix epoch, and nanoseconds within the second.
#[derive(Debug, Clone, Copy, PartialEq, Eq, Structural)]
pub struct Timestamp {
    pub secs: i64,
    pub nanos: u32,
}

impl Timestamp {
    /// `self` is earlier than the point `shift` seconds before `other`.
    pub open spec fn earlier_than(self, other: Timestamp, shift: i64) -> bool {
        self.secs + shift < other.secs || (self.secs + shift == other.secs && self.nanos
            < other.nanos)
    }

    /// Whether `self` is earlier than the point `shift` seconds before `other`.
    pub fn is_earlier_than(&self, other: Timestamp, shift: i64) -> (r: bool)
        ensures
            r == self.earlier_than(other, shift),
    {
        let shifted: i128 = self.secs as i128 + shift as i128;
        shifted < other.secs as i128 || (shifted == other.secs as i128 && self.nanos < other.nanos)
    }

    /// The time on the clock. Nothing is promised of it. Where the clock of the
    /// machine stands before 1970 the call does not return: it panics.
    pub fn now() -> Timestamp {
        let (secs, nanos) = current_time();
        Timestamp { secs, nanos }
    }
}

/// A session.
#[derive(Debug)]
pub struct Session {
    pub id: String,
    pub data: StringMap,
    pub created_at: Timestamp,
    pub last_accessed: Timestamp,
}

/// The model of a [`Session`].
pub struct SessionView {
    pub id: Seq<char>,
    pub data: Pairs,
    pub created_at: Timestamp,
    pub last_accessed: Timestamp,
}

impl View for Session {
    type V = SessionView;

    open spec fn view(&self) -> SessionView {
        SessionView {
            id: self.id@,
            data: self.data@,
            created_at: self.created_at,
            last_accessed: self.last_accessed,
        }
    }
}

/// The models of a list of sessions.
pub open spec fn session_views(sessions: Seq<Session>) -> Seq<SessionView> {
    Seq::new(sessions.len(), |i: int| sessions[i]@)
}

/// The position of the first session with this identifier.
pub open spec fn position_of(sessions: Seq<SessionView>, id: Seq<char>) -> Option<int>
    decreases sessions.len(),
{
    if sessions.len() == 0 {
        None
    } else if sessions.last().id == id && position_of(sessions.drop_last(), id) is None {
        Some(sessions.len() - 1)
    } else {
        position_of(sessions.drop_last(), id)
    }
}

/// A session that was created at `now` and holds nothing.
pub open spec fn new_session(id: Seq<char>, now: Timestamp) -> SessionView {
    SessionView { id: id, data: Seq::empty(), created_at: now, last_accessed: now }
}

/// The sessions after the one with this identifier, if there is one, was accessed at
/// `now`.
pub open spec fn touched(sessions: Seq<SessionView>, id: Seq<char>, now: Timestamp) -> Seq<
    SessionView,
> {
    match position_of(sessions, id) {
        Some(i) => sessions.update(i, SessionView { last_accessed: now, ..sessions[i] }),
        None => sessions,
    }
}

/// The sessions with one more: in the place of the one with the same identifier, if
/// there is one, and at the end otherwise.
pub open spec fn with_session(sessions: Seq<SessionView>, s: SessionView) -> Seq<SessionView> {
    match position_of(sessions, s.id) {
        Some(i) => sessions.update(i, s),
        None => sessions.push(s),
    }
}

/// The session was last accessed more than `timeout` seconds before `now`.
pub open spec fn expired(s: SessionView, now: Timestamp, timeout: i64) -> bool {
    s.last_accessed.earlier_than(now, timeout)
}

/// The sessions that have not expired, in order.
pub open spec fn swept(sessions: Seq<SessionView>, now: Timestamp, timeout: i64) -> Seq<
    SessionView,
>
    decreases sessions.len(),
{
    if sessions.len() == 0 {
        Seq::empty()
    } else if expired(sessions.last(), now, timeout) {
        swept(sessions.drop_last(), now, timeout)
    } else {
        swept(sessions.drop_last(), now, timeout).push(sessions.last())
    }
}

/// The identifier that a request presents in its `session_id` cookie.
pub open spec fn presented_id(request: RequestView) -> Option<Seq<char>> {
    match lookup(request.headers, "cookie"@) {
        Some(header) => cookie_value(header, "session_id"@),
        None => None,
    }
}

/// The model of a [`SessionStore`].
pub struct StoreView {
    pub sessions: Seq<SessionView>,
    pub timeout: i64,
    pub cookie_path: Seq<char>,
    pub cookie_secure: bool,
    pub cookie_http_only: bool,
}

impl StoreView {
    /// The session that serves a request, and the store after the request: the
    /// session that the request presents, accessed at `now`, where the store holds
    /// it; otherwise a new session under `fresh_id`.
    pub open spec fn serve(self, request: RequestView, now: Timestamp, fresh_id: Seq<char>) -> (
        Seq<char>,
        StoreView,
    ) {
        match presented_id(request) {
            Some(id) => if position_of(self.sessions, id) is Some {
                (id, StoreView { sessions: touched(self.sessions, id, now), ..self })
            } else {
                (
                    fresh_id,
                    StoreView {
                        sessions: with_session(self.sessions, new_session(fresh_id, now)),
                        ..self
                    },
                )
            },
            None => (
                fresh_id,
                StoreView {
                    sessions: with_session(self.sessions, new_session(fresh_id, now)),
                    ..self
                },
            ),
        }
    }

    /// The cookie that names a session to the client. It expires `timeout` seconds
    /// after `now`.
    pub open spec fn cookie(self, session_id: Seq<char>, now: Timestamp) -> CookieView {
        CookieView {
            name: "session_id"@,
            value: session_id,
            expires: Some(rfc2822_text((now.secs + self.timeout) as i64)),
            path: Some(self.cookie_path),
            domain: None,
            secure: Some(self.cookie_secure),
            http_only: Some(self.cookie_http_only),
        }
    }

    /// Whether the expiry of a cookie made at `now` can be written.
    pub open spec fn can_expire_at(self, now: Timestamp) -> bool {
        RFC2822_MIN_SECS <= now.secs + self.timeout <= RFC2822_MAX_SECS
    }

    /// The cookie that names a session to the client, made at `now`; none where its
    /// expiry cannot be written as a date.
    pub open spec fn cookie_if_writable(self, session_id: Seq<char>, now: Timestamp) -> Option<
        CookieView,
    > {
        if self.can_expire_at(now) {
            Some(self.cookie(session_id, now))
        } else {
            None
        }
    }

    /// A response with the session cookie made at `now`; the response as it is where
    /// the expiry of the cookie cannot be written as a date.
    pub open spec fn with_cookie_on(
        self,
        response: ResponseView,
        session_id: Seq<char>,
        now: Timestamp,
    ) -> ResponseView {
        match self.cookie_if_writable(session_id, now) {
            Some(cookie) => response.with_header("set-cookie"@, cookie.text()),
            None => response,
        }
    }
}

/// The model of an optional cookie.
pub open spec fn cookie_view(cookie: Option<Cookie>) -> Option<CookieView> {
    match cookie {
        Some(c) => Some(c@),
        None => None,
    }
}

/// `position_of` finds the least position with the identifier.
pub proof fn lemma_position_of(sessions: Seq<SessionView>, id: Seq<char>)
    ensures
        match position_of(sessions, id) {
            Some(i) => {
                &&& 0 <= i < sessions.len()
                &&& sessions[i].id == id
                &&& forall|k: int| 0 <= k < i ==> (#[trigger] sessions[k]).id != id
            },
            None => forall|k: int| 0 <= k < sessions.len() ==> (#[trigger] sessions[k]).id != id,
        },
    decreases sessions.len(),
{
    if sessions.len() > 0 {
        lemma_position_of(sessions.drop_last(), id);
        assert forall|k: int| 0 <= k < sessions.len() - 1 implies sessions.drop_last()[k]
            == sessions[k] by {}
    }
}

/// The position with the given properties is the one that `position_of` finds.
pub proof fn lemma_position_is(sessions: Seq<SessionView>, id: Seq<char>, i: int)
    requires
        0 <= i < sessions.len(),
        sessions[i].id == id,
        forall|k: int| 0 <= k < i ==> (#[trigger] sessions[k]).id != id,
    ensures
        position_of(sessions, id) == Some(i),
{
    lemma_position_of(sessions, id);
}

/// After a sweep no session has expired.
pub proof fn lemma_swept_are_fresh(sessions: Seq<SessionView>, now: Timestamp, timeout: i64)
    ensures
        forall|k: int|
            0 <= k < swept(sessions, now, timeout).len() ==> !expired(
                #[trigger] swept(sessions, now, timeout)[k],
                now,
                timeout,
            ),
        swept(sessions, now, timeout).len() <= sessions.len(),
    decreases sessions.len(),
{
    if sessions.len() > 0 {
        lemma_swept_are_fresh(sessions.drop_last(), now, timeout);
    }
}

/// Two requests that present the identifier of a session in the store are served by
/// that session: it stays where it is, keeps its data and its time of creation, and
/// is marked as accessed at the time of each request in turn.
pub proof fn lemma_same_cookie_same_session(
    store: StoreView,
    first: RequestView,
    second: RequestView,
    t1: Timestamp,
    t2: Timestamp,
    fresh1: Seq<char>,
    fresh2: Seq<char>,
    id: Seq<char>,
)
    requires
        presented_id(first) == Some(id),
        presented_id(second) == Some(id),
        position_of(store.sessions, id) is Some,
    ensures
        ({
            let at = position_of(store.sessions, id)->0;
            let (id1, after1) = store.serve(first, t1, fresh1);
            let (id2, after2) = after1.serve(second, t2, fresh2);
            &&& id1 == id && id2 == id
            &&& position_of(after1.sessions, id) == Some(at)
            &&& position_of(after2.sessions, id) == Some(at)
            &&& after2.sessions.len() == store.sessions.len()
            &&& after1.sessions[at].last_accessed == t1
            &&& after2.sessions[at].last_accessed == t2
            &&& after2.sessions[at].data == store.sessions[at].data
            &&& after2.sessions[at].created_at == store.sessions[at].created_at
        }),
{
    let at = position_of(store.sessions, id)->0;
    lemma_position_of(store.sessions, id);
    let after1 = store.serve(first, t1, fresh1).1;
    lemma_position_is(after1.sessions, id, at);
    let after2 = after1.serve(second, t2, fresh2).1;
    lemma_position_is(after2.sessions, id, at);
}

/// A client that comes without a session gets a new one, and is served by it when it
/// presents the identifier that it was given.
pub proof fn lemma_new_session_is_found_again(
    store: StoreView,
    first: RequestView,
    second: RequestView,
    t1: Timestamp,
    t2: Timestamp,
    fresh1: Seq<char>,
    fresh2: Seq<char>,
)
    requires
        presented_id(first) is None,
        presented_id(second) == Some(fresh1),
    ensures
        ({
            let (id1, after1) = store.serve(first, t1, fresh1);
            let (id2, after2) = after1.serve(second, t2, fresh2);
            &&& id1 == fresh1 && id2 == fresh1
            &&& position_of(after1.sessions, fresh1) is Some
            &&& position_of(after2.sessions, fresh1) == position_of(after1.sessions, fresh1)
            &&& after2.sessions.len() == after1.sessions.len()
            &&& after2.sessions[position_of(after1.sessions, fresh1)->0].last_accessed == t2
            &&& after2.sessions[position_of(after1.sessions, fresh1)->0].created_at == t1
        }),
{
    lemma_position_of(store.sessions, fresh1);
    let after1 = store.serve(first, t1, fresh1).1;
    let at = match position_of(store.sessions, fresh1) {
        Some(i) => i,
        None => store.sessions.len() as int,
    };
    assert(after1.sessions[at].id == fresh1);
    assert forall|k: int| 0 <= k < at implies (#[trigger] after1.sessions[k]).id != fresh1 by {
        assert(after1.sessions[k] == store.sessions[k]);
    }
    lemma_position_is(after1.sessions, fresh1, at);
    let after2 = after1.serve(second, t2, fresh2).1;
    lemma_position_is(after2.sessions, fresh1, at);
}

/// The sessions of a virtual host.
#[derive(Debug)]
pub struct SessionStore {
    sessions: Vec<Session>,
    /// The time after which an unused session expires, in seconds.
    pub session_timeout: i64,
    pub cookie_path: String,
    pub cookie_secure: bool,
    pub cookie_http_only: bool,
}

impl View for SessionStore {
    type V = StoreView;

    closed spec fn view(&self) -> StoreView {
        StoreView {
            sessions: session_views(self.sessions@),
            timeout: self.session_timeout,
            cookie_path: self.cookie_path@,
            cookie_secure: self.cookie_secure,
            cookie_http_only: self.cookie_http_only,
        }
    }
}

impl SessionStore {
    /// An empty store whose sessions expire after `timeout_mins` minutes without
    /// use. The session cookie is valid for the whole site and hidden from scripts.
    pub fn new(timeout_mins: i64) -> (s: SessionStore)
        requires
            -MAX_TIMEOUT_MINUTES <= timeout_mins <= MAX_TIMEOUT_MINUTES,
        ensures
            s@ == (StoreView {
                sessions: Seq::empty(),
                timeout: (timeout_mins * 60) as i64,
                cookie_path: "/"@,
                cookie_secure: false,
                cookie_http_only: true,
            }),
    {
        let s = SessionStore {
            sessions: Vec::new(),
            session_timeout: timeout_mins * 60,
            cookie_path: "/".to_owned(),
            cookie_secure: false,
            cookie_http_only: true,
        };
        proof {
            assert(s@.sessions =~= Seq::<SessionView>::empty());
        }
        s
    }

    /// A random identifier for a new session: a version 4 UUID in its hyphenated,
    /// lower-case form. Where the machine has no source of random numbers the call
    /// does not return: it panics.
    pub fn generate_id() -> (id: String)
        ensures
            is_uuid_v4_text(id@),
    {
        random_uuid()
    }

    /// The number of sessions.
    pub fn len(&self) -> (n: usize)
        ensures
            n == self@.sessions.len(),
    {
        self.sessions.len()
    }

    fn position(&self, id: &str) -> (r: Option<usize>)
        ensures
            match r {
                Some(i) => position_of(self@.sessions, id@) == Some(i as int) && i
                    < self.sessions@.len(),
                None => position_of(self@.sessions, id@) is None,
            },
    {
        let wanted = id.to_owned();
        let n = self.sessions.len();
        let mut i: usize = 0;
        while i < n
            invariant
                n == self.sessions@.len(),
                i <= n,
                wanted@ == id@,
                forall|k: int| 0 <= k < i ==> (#[trigger] self@.sessions[k]).id != id@,
            decreases n - i,
        {
            if self.sessions[i].id == wanted {
                proof {
                    assert(self@.sessions[i as int].id == id@);
                    lemma_position_is(self@.sessions, id@, i as int);
                }
                return Some(i);
            }
            i += 1;
        }
        proof {
            lemma_position_of(self@.sessions, id@);
        }
        None
    }

    /// The session with this identifier, if the store holds it.
    pub fn session(&self, id: &str) -> (r: Option<&Session>)
        ensures
            match r {
                Some(s) => position_of(self@.sessions, id@) is Some && s@
                    == self@.sessions[position_of(self@.sessions, id@)->0],
                None => position_of(self@.sessions, id@) is None,
            },
    {
        match self.position(id) {
            Some(i) => Some(&self.sessions[i]),
            None => None,
        }
    }

    /// Marks the session with this identifier as accessed at `now`. Says whether the
    /// store holds it.
    pub fn get_session_at(&mut self, id: &str, now: Timestamp) -> (found: bool)
        ensures
            found == position_of(old(self)@.sessions, id@).is_some(),
            final(self)@ == (StoreView {
                sessions: touched(old(self)@.sessions, id@, now),
                ..old(self)@
            }),
    {
        match self.position(id) {
            Some(i) => {
                let ghost before = self@.sessions;
                self.sessions[i].last_accessed = now;
                proof {
                    assert(self@.sessions =~= before.update(
                        i as int,
                        SessionView { last_accessed: now, ..before[i as int] },
                    ));
                }
                true
            },
            None => false,
        }
    }

    /// Marks the session with this identifier as accessed now.
    pub fn get_session(&mut self, id: &str) -> (found: bool)
        ensures
            found == position_of(old(self)@.sessions, id@).is_some(),
            exists|now: Timestamp|
                final(self)@ == (StoreView {
                    sessions: #[trigger] touched(old(self)@.sessions, id@, now),
                    ..old(self)@
                }),
    {
        let now = Timestamp::now();
        self.get_session_at(id, now)
    }

    /// Puts a new session with this identifier into the store, created at `now`. A
    /// session that had the identifier is replaced.
    pub fn create_session_at(&mut self, id: String, now: Timestamp)
        ensures
            final(self)@ == (StoreView {
                sessions: with_session(old(self)@.sessions, new_session(id@, now)),
                ..old(self)@
            }),
    {
        let ghost before = self@.sessions;
        let ghost fresh = new_session(id@, now);
        let slot = self.position(id.as_str());
        let session = Session {
            id,
            data: StringMap::new(),
            created_at: now,
            last_accessed: now,
        };
        match slot {
            Some(i) => {
                self.sessions[i] = session;
                proof {
                    assert(self@.sessions =~= before.update(i as int, fresh));
                }
            },
            None => {
                self.sessions.push(session);
                proof {
                    assert(self@.sessions =~= before.push(fresh));
                }
            },
        }
    }

    /// Puts a new session into the store, under a random identifier, and returns the
    /// identifier.
    pub fn create_session(&mut self) -> (id: String)
        ensures
            is_uuid_v4_text(id@),
            exists|now: Timestamp|
                final(self)@ == (StoreView {
                    sessions: #[trigger] with_session(
                        old(self)@.sessions,
                        new_session(id@, now),
                    ),
                    ..old(self)@
                }),
    {
        let id = Self::generate_id();
        let now = Timestamp::now();
        self.create_session_at(id.clone(), now);
        id
    }

    /// The cookie that names a session to the client, made at `now`.
    pub fn create_session_cookie_at(&self, session_id: &str, now: Timestamp) -> (c: Cookie)
        requires
            self@.can_expire_at(now),
        ensures
            c@ == self@.cookie(session_id@, now),
    {
        let mut cookie = Cookie::new("session_id", session_id);
        cookie.set_expires(now.secs + self.session_timeout);
        cookie.set_path(self.cookie_path.as_str());
        cookie.set_secure(self.cookie_secure);
        cookie.set_http_only(self.cookie_http_only);
        cookie
    }

    /// Whether the expiry of a cookie made at `now` lies in the years that a date
    /// can be written in.
    pub fn can_expire_at(&self, now: Timestamp) -> (r: bool)
        ensures
            r == self@.can_expire_at(now),
    {
        let expiry: i128 = now.secs as i128 + self.session_timeout as i128;
        RFC2822_MIN_SECS as i128 <= expiry && expiry <= RFC2822_MAX_SECS as i128
    }

    /// The cookie that names a session to the client, made at the time on the
    /// clock; `None` exactly where its expiry at that time cannot be written as a
    /// date.
    pub fn create_session_cookie(&self, session_id: &str) -> (r: Option<Cookie>)
        ensures
            exists|now: Timestamp|
                cookie_view(r) == #[trigger] self@.cookie_if_writable(session_id@, now),
    {
        let now = Timestamp::now();
        let r = if self.can_expire_at(now) {
            Some(self.create_session_cookie_at(session_id, now))
        } else {
            None
        };
        proof {
            assert(cookie_view(r) == self@.cookie_if_writable(session_id@, now));
        }
        r
    }

    /// Removes the sessions that were last accessed more than the timeout before
    /// `now`.
    pub fn cleanup_expired_at(&mut self, now: Timestamp)
        ensures
            final(self)@ == (StoreView {
                sessions: swept(old(self)@.sessions, now, old(self)@.timeout),
                ..old(self)@
            }),
            forall|k: int|
                0 <= k < final(self)@.sessions.len() ==> !expired(
                    #[trigger] final(self)@.sessions[k],
                    now,
                    old(self)@.timeout,
                ),
    {
        let ghost all = self@.sessions;
        let ghost mut seen: int = 0;
        let timeout = self.session_timeout;
        let mut i: usize = 0;
        proof {
            assert(all.take(0) =~= Seq::<SessionView>::empty());
            assert(all.skip(0) =~= all);
            assert(self@.sessions =~= swept(all.take(0), now, timeout) + all.skip(0));
        }
        while i < self.sessions.len()
            invariant
                0 <= seen <= all.len(),
                i == swept(all.take(seen), now, timeout).len(),
                self@.sessions == swept(all.take(seen), now, timeout) + all.skip(seen),
                self.session_timeout == timeout,
                self.cookie_path == old(self).cookie_path,
                self.cookie_secure == old(self).cookie_secure,
                self.cookie_http_only == old(self).cookie_http_only,
                all == old(self)@.sessions,
                timeout == old(self)@.timeout,
            decreases all.len() - seen,
        {
            let ghost kept = swept(all.take(seen), now, timeout);
            proof {
                assert(self@.sessions[i as int] == all.skip(seen)[0]);
                assert(seen < all.len());
                assert(all.take(seen + 1).drop_last() =~= all.take(seen));
                assert(all.take(seen + 1).last() == all[seen]);
            }
            let ghost before = self.sessions@;
            let ghost before_views = self@.sessions;
            if self.sessions[i].last_accessed.is_earlier_than(now, timeout) {
                self.sessions.remove(i);
                proof {
                    assert(self.sessions@ == before.remove(i as int));
                    assert forall|k: int| 0 <= k < self.sessions@.len() implies self@.sessions[k]
                        == (kept + all.skip(seen + 1))[k] by {
                        let joined = kept + all.skip(seen);
                        assert(before_views == joined);
                        assert(kept.len() == i);
                        assert(before.len() == joined.len());
                        if k < i {
                            assert(self.sessions@[k] == before[k]);
                            assert(before_views[k] == before[k]@);
                            assert(joined[k] == kept[k]);
                        } else {
                            assert(self.sessions@[k] == before[k + 1]);
                            assert(before_views[k + 1] == before[k + 1]@);
                            assert(joined[k + 1] == all.skip(seen)[k + 1 - i]);
                            assert(all.skip(seen)[k + 1 - i] == all.skip(seen + 1)[k - i]);
                        }
                    }
                    assert(before_views.len() == before.len());
                    assert(self@.sessions.len() == before.len() - 1);
                    assert((kept + all.skip(seen + 1)).len() == before.len() - 1);
                    assert(self@.sessions =~= kept + all.skip(seen + 1));
                    seen = seen + 1;
                }
            } else {
                proof {
                    assert(self@.sessions =~= kept.push(all[seen]) + all.skip(seen + 1));
                    seen = seen + 1;
                }
                i += 1;
            }
        }
        proof {
            assert(all.skip(seen).len() == 0);
            assert(seen == all.len());
            assert(all.take(seen) =~= all);
            assert(self@.sessions =~= swept(all, now, timeout));
            lemma_swept_are_fresh(all, now, timeout);
        }
    }

    /// Removes the sessions that have expired by now.
    pub fn cleanup_expired(&mut self)
        ensures
            exists|now: Timestamp|
                final(self)@ == (StoreView {
                    sessions: #[trigger] swept(old(self)@.sessions, now, old(self)@.timeout),
                    ..old(self)@
                }),
    {
        let now = Timestamp::now();
        self.cleanup_expired_at(now);
    }

    /// The identifier of the session that serves a request: the one that the request
    /// presents in its `session_id` cookie, accessed at `now`, where the store holds
    /// it; otherwise a new session under `fresh_id`.
    pub fn session_from_request_at(&mut self, request: &Request, now: Timestamp, fresh_id: String)
        -> (id: String)
        ensures
            id@ == old(self)@.serve(request@, now, fresh_id@).0,
            final(self)@ == old(self)@.serve(request@, now, fresh_id@).1,
    {
        let presented = match request.headers().get_cookie("session_id") {
            Some(cookie) => Some(cookie.value),
            None => None,
        };
        match presented {
            Some(id) => {
                if self.get_session_at(id.as_str(), now) {
                    id
                } else {
                    self.create_session_at(fresh_id.clone(), now);
                    fresh_id
                }
            },
            None => {
                self.create_session_at(fresh_id.clone(), now);
                fresh_id
            },
        }
    }

    /// The identifier of the session that serves a request, at the time on the
    /// clock, a random identifier standing by for a new session.
    pub fn session_from_request(&mut self, request: &Request) -> (id: String)
        ensures
            exists|now: Timestamp, fresh_id: Seq<char>|
                is_uuid_v4_text(fresh_id) && id@ == (#[trigger] old(self)@.serve(
                    request@,
                    now,
                    fresh_id,
                )).0 && final(self)@ == old(self)@.serve(request@, now, fresh_id).1,
    {
        let now = Timestamp::now();
        let fresh_id = Self::generate_id();
        self.session_from_request_at(request, now, fresh_id)
    }

    /// Sets the session cookie on a response, made at `now`.
    pub fn add_session_cookie_at(&self, response: &mut Response, session_id: &str, now: Timestamp)
        requires
            self@.can_expire_at(now),
        ensures
            final(response)@ == old(response)@.with_header(
                "set-cookie"@,
                self@.cookie(session_id@, now).text(),
            ),
    {
        let cookie = self.create_session_cookie_at(session_id, now);
        response.set_cookie(cookie);
    }

    /// Sets the session cookie on a response, made at the time on the clock. The
    /// result says whether the expiry at that time can be written as a date; where
    /// it cannot, the response is left as it is.
    pub fn add_session_cookie(&self, response: &mut Response, session_id: &str) -> (added: bool)
        ensures
            exists|now: Timestamp|
                added == self@.can_expire_at(now) && final(response)@
                    == #[trigger] self@.with_cookie_on(old(response)@, session_id@, now),
    {
        let now = Timestamp::now();
        let added = if self.can_expire_at(now) {
            self.add_session_cookie_at(response, session_id, now);
            true
        } else {
            false
        };
        proof {
            assert(response@ == self@.with_cookie_on(old(response)@, session_id@, now));
        }
        added
    }
}

} // verus!
