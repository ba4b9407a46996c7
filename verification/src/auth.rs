//! Session handling. There is no user database here: the login decides who is an admin or a
//! viewer, and a successful login gets a session in `SessionStore`, keyed by a random ID. Only
//! that ID goes in the (`HttpOnly`) cookie, so a cookie is worth something only if this process
//! issued it: forging or guessing one gets nothing, and logging out really ends the session.
//! With an external login server the session also holds that server's token, forwarded as a
//! Bearer token to registered apps' logs endpoints.

use vstd::prelude::*;

use crate::table::Table;
use crate::token::is_hex;
use crate::token::random_hex;

verus! {

pub const SESSION_COOKIE: &'static str = "heartbeat_session";

/// Seconds that a session lasts: twelve hours.
pub const SESSION_SECS: u64 = 43_200;

/// 32 bytes = 256 bits: not guessable, so a lookup's timing leaks nothing useful.
pub const SESSION_ID_BYTES: usize = 32;

/// What a session may do.
#[derive(Debug, Clone, Copy, PartialEq, Eq, Structural)]
pub enum Role {
    Admin,
    /// Sees the dashboard and the uptime data, and changes nothing.
    Viewer,
}

#[derive(Debug, PartialEq, Eq)]
pub struct Session {
    /// The login server's token; empty where there is none.
    pub upstream_token: String,
    pub role: Role,
    /// Unix seconds.
    pub expires_at: u64,
}

/// Why no session could be started.
#[derive(Debug, PartialEq, Eq)]
pub enum SessionError {
    /// No ID could be generated.
    Token(String),
}

pub struct SessionStore {
    sessions: Table<Session>,
}

impl View for SessionStore {
    type V = Map<Seq<char>, Session>;

    closed spec fn view(&self) -> Map<Seq<char>, Session> {
        self.sessions@
    }
}

/// The sessions that have not expired.
pub open spec fn live(sessions: Map<Seq<char>, Session>, now: u64) -> Map<Seq<char>, Session> {
    sessions.restrict(Set::new(|id: Seq<char>| sessions[id].expires_at > now))
}

/// The sessions that rows hold. Where two bear one ID, the later one counts.
pub open spec fn kept(rows: Seq<(String, Session)>) -> Map<Seq<char>, Session>
    decreases rows.len(),
{
    if rows.len() == 0 {
        Map::empty()
    } else {
        kept(rows.drop_last()).insert(rows.last().0@, rows.last().1)
    }
}

/// A live session's entry.
pub open spec fn resolved(sessions: Map<Seq<char>, Session>, id: Seq<char>, now: u64) -> Option<
    Session,
> {
    if sessions.contains_key(id) && sessions[id].expires_at > now {
        Some(sessions[id])
    } else {
        None
    }
}

impl SessionStore {
    /// Every ID stands once.
    pub closed spec fn wf(&self) -> bool {
        self.sessions.wf()
    }

    /// The IDs in their order.
    pub closed spec fn ids(&self) -> Seq<Seq<char>> {
        self.sessions.names()
    }

    /// A store of the sessions that were kept on disk, without the expired ones.
    pub fn load(rows: Vec<(String, Session)>, now: u64) -> (r: Self)
        ensures
            r.wf(),
            r@ == live(kept(rows@), now),
    {
        let ghost all = rows@;
        let mut rest = rows;
        let mut sessions: Table<Session> = Table::new();
        let ghost mut i: int = 0;
        proof {
            assert(all.take(0) =~= Seq::<(String, Session)>::empty());
            assert(all.skip(0) =~= all);
        }
        while rest.len() > 0
            invariant
                0 <= i <= all.len(),
                rest@ == all.skip(i),
                sessions.wf(),
                sessions@ == kept(all.take(i)),
            decreases rest@.len(),
        {
            proof {
                assert(all.take(i + 1).drop_last() =~= all.take(i));
                assert(all.take(i + 1).last() == all[i]);
                assert(rest@[0] == all[i]);
                assert(rest@.remove(0) =~= all.skip(i + 1));
            }
            let (id, session) = rest.remove(0);
            sessions.insert(id.as_str(), session);
            proof {
                i = i + 1;
            }
        }
        proof {
            assert(all.take(i) =~= all);
        }
        let mut store = SessionStore { sessions };
        store.drop_expired(now);
        store
    }

    /// Forgets the sessions that have expired.
    pub fn drop_expired(&mut self, now: u64)
        requires
            old(self).wf(),
        ensures
            final(self).wf(),
            final(self)@ == live(old(self)@, now),
    {
        let ghost start = self.sessions@;
        let mut rest: Table<Session> = Table::new();
        std::mem::swap(&mut rest, &mut self.sessions);
        let mut left: Table<Session> = Table::new();
        loop
            invariant
                rest.wf(),
                left.wf(),
                forall|k: Seq<char>| #[trigger]
                    rest@.contains_key(k) ==> start.contains_key(k) && rest@[k] == start[k],
                forall|k: Seq<char>| #[trigger]
                    left@.contains_key(k) == (start.contains_key(k) && start[k].expires_at > now
                        && !rest@.contains_key(k)),
                forall|k: Seq<char>| #[trigger] left@.contains_key(k) ==> left@[k] == start[k],
            ensures
                left.wf(),
                rest@ == Map::<Seq<char>, Session>::empty(),
                forall|k: Seq<char>| #[trigger]
                    left@.contains_key(k) == (start.contains_key(k) && start[k].expires_at > now
                        && !rest@.contains_key(k)),
                forall|k: Seq<char>| #[trigger] left@.contains_key(k) ==> left@[k] == start[k],
            decreases rest.names().len(),
        {
            match rest.pop() {
                None => {
                    break ;
                },
                Some((id, session)) => {
                    if session.expires_at > now {
                        left.insert(id.as_str(), session);
                    }
                },
            }
        }
        self.sessions = left;
        proof {
            assert(self@ =~= live(start, now));
        }
    }

    /// How many sessions there are.
    pub fn len(&self) -> (r: usize)
        ensures
            r == self.ids().len(),
    {
        self.sessions.len()
    }

    /// The `i`-th session, with its ID: what the file holds.
    pub fn row(&self, i: usize) -> (r: (&str, &Session))
        requires
            self.wf(),
            i < self.ids().len(),
        ensures
            r.0@ == self.ids()[i as int],
            self@.contains_key(r.0@),
            *r.1 == self@[r.0@],
    {
        self.sessions.row(i)
    }

    /// Starts a session under `id` for a user whose login was verified.
    pub fn create_with_id(&mut self, id: &str, upstream_token: String, role: Role, now: u64)
        requires
            old(self).wf(),
            now + SESSION_SECS <= u64::MAX,
        ensures
            final(self).wf(),
            final(self)@ == live(old(self)@, now).insert(
                id@,
                Session { upstream_token, role, expires_at: (now + SESSION_SECS) as u64 },
            ),
    {
        self.drop_expired(now);
        self.sessions.insert(
            id,
            Session { upstream_token, role, expires_at: now + SESSION_SECS },
        );
    }

    /// Starts a session under a new random ID, and returns the ID. `upstream_token` is the
    /// login server's token, or empty when there is none.
    pub fn create(&mut self, upstream_token: String, role: Role, now: u64) -> (r: Result<
        String,
        SessionError,
    >)
        requires
            old(self).wf(),
            now + SESSION_SECS <= u64::MAX,
        ensures
            final(self).wf(),
            match r {
                Ok(id) => id@.len() == 2 * SESSION_ID_BYTES && is_hex(id@) && final(self)@ == live(
                    old(self)@,
                    now,
                ).insert(
                    id@,
                    Session { upstream_token, role, expires_at: (now + SESSION_SECS) as u64 },
                ),
                Err(_) => final(self)@ == old(self)@,
            },
    {
        match random_hex(SESSION_ID_BYTES) {
            Ok(id) => {
                self.create_with_id(id.as_str(), upstream_token, role, now);
                Ok(id)
            },
            Err(error) => Err(SessionError::Token(error)),
        }
    }

    /// A live session, `None` if unknown or expired.
    pub fn find(&self, id: &str, now: u64) -> (r: Option<&Session>)
        requires
            self.wf(),
        ensures
            match r {
                Some(session) => resolved(self@, id@, now) == Some(*session),
                None => resolved(self@, id@, now) is None,
            },
    {
        match self.sessions.get(id) {
            Some(session) => if session.expires_at > now {
                Some(session)
            } else {
                None
            },
            None => None,
        }
    }

    /// The upstream token of a live session, `None` if unknown or expired.
    pub fn upstream_token(&self, id: &str, now: u64) -> (r: Option<String>)
        requires
            self.wf(),
        ensures
            match resolved(self@, id@, now) {
                Some(session) => r == Some(session.upstream_token),
                None => r is None,
            },
    {
        match self.find(id, now) {
            Some(session) => Some(session.upstream_token.clone()),
            None => None,
        }
    }

    /// Ends a session; whether there was one.
    pub fn remove(&mut self, id: &str) -> (r: bool)
        requires
            old(self).wf(),
        ensures
            final(self).wf(),
            final(self)@ == old(self)@.remove(id@),
            r == old(self)@.contains_key(id@),
    {
        self.sessions.take(id).is_some()
    }
}

// ---------------------------------------------------------------------------------------
// Who may do what
// ---------------------------------------------------------------------------------------

/// What needs a session.
#[derive(Debug, Clone, Copy, PartialEq, Eq, Structural)]
pub enum Route {
    /// `/`
    Dashboard,
    /// `/api/uptime` and what is below it
    Uptime,
    /// `/logs` and what is below it
    Logs,
    /// `/api/apps/{slug}/logs`
    LogsApi,
    /// `/apps` and what is below it
    Apps,
    /// `/settings`
    Settings,
    /// `/settings/alerts/test`, `/settings/alerts/templates` and `/apps/{slug}/alerts/test`
    AlertsApi,
    /// `/notices` and what is below it
    Notices,
}

/// Whether a request gets through.
#[derive(Debug, Clone, Copy, PartialEq, Eq, Structural)]
pub enum Access {
    Granted,
    /// A page: redirect to the login page.
    Login,
    /// A JSON endpoint: 401.
    Unauthorized,
    /// 403.
    Forbidden,
}

/// Whether a route answers with JSON, not with a page.
pub open spec fn answers_json(route: Route) -> bool {
    route == Route::Uptime || route == Route::LogsApi || route == Route::AlertsApi
}

/// Whether a route is open to viewers.
pub open spec fn for_viewers(route: Route) -> bool {
    route == Route::Dashboard || route == Route::Uptime
}

/// Whether a request with a session of `role` gets through.
pub open spec fn access(route: Route, role: Option<Role>) -> Access {
    match role {
        Some(Role::Admin) => Access::Granted,
        Some(Role::Viewer) => if for_viewers(route) {
            Access::Granted
        } else {
            Access::Forbidden
        },
        None => if answers_json(route) {
            Access::Unauthorized
        } else {
            Access::Login
        },
    }
}

/// Whether a request to `route` gets through; `role` is that of its session, where its cookie
/// names a live one.
pub fn access_for(route: Route, role: Option<Role>) -> (r: Access)
    ensures
        r == access(route, role),
{
    match role {
        Some(Role::Admin) => Access::Granted,
        Some(Role::Viewer) => match route {
            Route::Dashboard | Route::Uptime => Access::Granted,
            _ => Access::Forbidden,
        },
        None => match route {
            Route::Uptime | Route::LogsApi | Route::AlertsApi => Access::Unauthorized,
            _ => Access::Login,
        },
    }
}

/// Whether a request to `route` gets through, by the session that its cookie names.
pub fn guard(store: &SessionStore, cookie: Option<&str>, route: Route, now: u64) -> (r: Access)
    requires
        store.wf(),
    ensures
        r == access(
            route,
            match cookie {
                Some(id) => match resolved(store@, id@, now) {
                    Some(session) => Some(session.role),
                    None => None,
                },
                None => None,
            },
        ),
{
    let role = match cookie {
        Some(id) => match store.find(id, now) {
            Some(session) => Some(session.role),
            None => None,
        },
        None => None,
    };
    access_for(route, role)
}

// ---------------------------------------------------------------------------------------
// What holds of every session
// ---------------------------------------------------------------------------------------

/// A session resolves from when it was started until twelve hours later, and no longer.
pub proof fn lemma_sessions_last_twelve_hours(
    sessions: Map<Seq<char>, Session>,
    id: Seq<char>,
    token: String,
    role: Role,
    now: u64,
    later: u64,
)
    requires
        now + SESSION_SECS <= u64::MAX,
    ensures
        ({
            let session = Session {
                upstream_token: token,
                role,
                expires_at: (now + SESSION_SECS) as u64,
            };
            resolved(live(sessions, now).insert(id, session), id, later) == if later < now
                + SESSION_SECS {
                Some(session)
            } else {
                None
            }
        }),
{
}

/// Only IDs that were issued resolve: starting a session makes no other ID resolve that didn't.
pub proof fn lemma_only_issued_sessions_resolve(
    sessions: Map<Seq<char>, Session>,
    id: Seq<char>,
    session: Session,
    other: Seq<char>,
    now: u64,
    later: u64,
)
    requires
        other != id,
        now <= later,
    ensures
        resolved(live(sessions, now).insert(id, session), other, later) == resolved(
            sessions,
            other,
            later,
        ),
{
}

/// Dropping expired sessions loses nothing: what resolves then or later still resolves.
pub proof fn lemma_reloading_keeps_live_sessions(
    sessions: Map<Seq<char>, Session>,
    id: Seq<char>,
    now: u64,
    later: u64,
)
    requires
        now <= later,
    ensures
        resolved(live(sessions, now), id, later) == resolved(sessions, id, later),
{
}

/// Logging out really ends the session, and no other.
pub proof fn lemma_logout_ends_the_session(
    sessions: Map<Seq<char>, Session>,
    id: Seq<char>,
    other: Seq<char>,
    now: u64,
)
    ensures
        resolved(sessions.remove(id), id, now) is None,
        other != id ==> resolved(sessions.remove(id), other, now) == resolved(sessions, other, now),
{
}

/// Viewers get to the dashboard and the uptime data, and to nothing else.
pub proof fn lemma_viewers_see_the_dashboard_and_nothing_else(route: Route)
    ensures
        (access(route, Some(Role::Viewer)) == Access::Granted) == (route == Route::Dashboard
            || route == Route::Uptime),
        access(route, Some(Role::Viewer)) != Access::Granted ==> access(route, Some(Role::Viewer))
            == Access::Forbidden,
{
}

/// Nothing that needs a session is reached without one.
pub proof fn lemma_no_session_no_access(route: Route)
    ensures
        access(route, None) == Access::Login || access(route, None) == Access::Unauthorized,
{
}

/// The sessions that `row` hands out are all there are, and each of them once.
pub proof fn lemma_rows_cover_the_sessions(store: SessionStore)
    requires
        store.wf(),
    ensures
        store.ids().no_duplicates(),
        forall|id: Seq<char>| #[trigger] store.ids().contains(id) <==> store@.contains_key(id),
{
    store.sessions.lemma_names();
}

} // verus!
