//! Request-level defenses that aren't about who you are (that's `auth`): cross-site request
//! forgery, browser hardening headers, and login brute-force throttling.

use vstd::prelude::*;

use crate::outbound::Ip;
use crate::table::Table;
use crate::text::ascii_lower;
use crate::text::decimal;
use crate::text::decimal_text;
use crate::text::same;
use crate::text::to_ascii_lower;
use crate::text::to_lower;
use crate::text::trim;
use crate::text::trimmed;
use crate::text::unicode_lower;
use crate::uptime::history::ago;
use crate::weburl::opt_view;
use crate::weburl::parse_url;
use crate::weburl::parsed_url;
use crate::weburl::Url;
use crate::weburl::UrlView;

verus! {

/// What the browser may load, run and be framed by.
pub const CONTENT_SECURITY_POLICY: &'static str = "default-src 'self'; script-src 'self' 'unsafe-inline' 'unsafe-eval'; style-src 'self' 'unsafe-inline'; font-src 'self'; img-src 'self' data:; connect-src 'self'; frame-ancestors 'none'; base-uri 'none'; form-action 'self'";

/// Browser hardening for every response. Alpine.js evaluates its `x-*` expressions with
/// `new Function`, hence `'unsafe-eval'`; inline `<script>`/`onsubmit` need `'unsafe-inline'`.
/// What the policy still buys: no script, style, font or fetch from any origin but this one,
/// and no framing (clickjacking) at all.
pub fn headers() -> (r: Vec<(&'static str, &'static str)>)
    ensures
        r@.len() == 4,
        r@[0].0@ == "content-security-policy"@ && r@[0].1@ == CONTENT_SECURITY_POLICY@,
        r@[1].0@ == "x-frame-options"@ && r@[1].1@ == "DENY"@,
        r@[2].0@ == "x-content-type-options"@ && r@[2].1@ == "nosniff"@,
        r@[3].0@ == "referrer-policy"@ && r@[3].1@ == "same-origin"@,
{
    vec![
        ("content-security-policy", CONTENT_SECURITY_POLICY),
        ("x-frame-options", "DENY"),
        ("x-content-type-options", "nosniff"),
        ("referrer-policy", "same-origin"),
    ]
}

// ---------------------------------------------------------------------------------------
// Cross-site request forgery
// ---------------------------------------------------------------------------------------

/// A request header.
#[derive(Debug)]
pub enum Header {
    Absent,
    /// Present, but not readable as text.
    Opaque,
    Text(String),
}

/// The text of a header, where it has one.
pub open spec fn header_text(header: Header) -> Option<Seq<char>> {
    match header {
        Header::Text(text) => Some(text@),
        _ => None,
    }
}

/// Where a request says it came from: its `Origin` or, failing that, its `Referer`.
pub open spec fn source_of(origin: Header, referer: Header) -> Option<Seq<char>> {
    if origin is Absent {
        header_text(referer)
    } else {
        header_text(origin)
    }
}

/// The host and port that a URL names, as a `Host` header names them.
pub open spec fn authority(url: UrlView) -> Option<Seq<char>> {
    match (url.host, url.port) {
        (Some(host), Some(port)) => Some(host + seq![':'] + decimal(port as nat)),
        (Some(host), None) => Some(host),
        (None, _) => None,
    }
}

/// Whether a URL names a host, whatever the case of its letters.
pub open spec fn names_host(url: UrlView, host: Seq<char>) -> bool {
    authority(url) is Some && ascii_lower(authority(url)->0) == ascii_lower(host)
}

/// Whether a request provably came from one of this app's own pages.
pub open spec fn from_own_page(host: Header, origin: Header, referer: Header) -> bool {
    match (header_text(host), source_of(origin, referer)) {
        (Some(host), Some(raw)) => match parsed_url(raw) {
            Ok(url) => names_host(url, host),
            Err(_) => false,
        },
        _ => false,
    }
}

/// Whether `url` names the host that a `Host` header names.
pub fn names(url: &Url, host: &str) -> (r: bool)
    ensures
        r == names_host(url@, host@),
{
    match &url.host {
        None => false,
        Some(name) => {
            let mut full = name.clone();
            if let Some(port) = url.port {
                full.push(':');
                let number = decimal_text(port as u64);
                full.append(number.as_str());
                proof {
                    assert(full@ =~= name@ + seq![':'] + decimal(port as nat));
                }
            }
            let a = to_ascii_lower(full.as_str());
            let b = to_ascii_lower(host);
            same(a.as_str(), b.as_str())
        },
    }
}

/// Whether a state-changing request provably came from one of this app's own pages: its
/// `Origin` (or, failing that, `Referer`) must name the same host the request was sent to.
/// Browsers always attach `Origin` to cross-origin POSTs, so a forged form on another site
/// fails here even though a lax cookie would still let a same-site subdomain through.
pub fn is_same_origin(host: &Header, origin: &Header, referer: &Header) -> (r: bool)
    ensures
        r == from_own_page(*host, *origin, *referer),
{
    let host = match host {
        Header::Text(host) => host,
        _ => {
            return false;
        },
    };
    let source = match origin {
        Header::Absent => referer,
        _ => origin,
    };
    match source {
        Header::Text(raw) => match parse_url(raw.as_str()) {
            Ok(url) => names(&url, host.as_str()),
            Err(_) => false,
        },
        _ => false,
    }
}

/// Whether a method is a plain read.
pub open spec fn safe_method(method: Seq<char>) -> bool {
    method == "GET"@ || method == "HEAD"@
}

/// Whether a request reaches a handler: any that isn't a plain read has to be same-origin.
pub fn csrf(method: &str, host: &Header, origin: &Header, referer: &Header) -> (r: bool)
    ensures
        r == (safe_method(method@) || from_own_page(*host, *origin, *referer)),
{
    same(method, "GET") || same(method, "HEAD") || is_same_origin(host, origin, referer)
}

// ---------------------------------------------------------------------------------------
// Login throttling
// ---------------------------------------------------------------------------------------

/// Failures within the window that lock a key.
pub const LOGIN_MAX_FAILURES: usize = 5;

/// Milliseconds that a failure counts for: fifteen minutes.
pub const LOGIN_WINDOW: u64 = 900_000;

/// Failed-login throttle: `LOGIN_MAX_FAILURES` failures within `LOGIN_WINDOW` for the same
/// client IP *or* the same email lock further attempts for that key until the oldest failure
/// ages out. Per-email stops a distributed guess at one account; per-IP stops one client
/// spraying many accounts. Times are milliseconds since the process started.
pub struct LoginLimiter {
    failures: Table<Vec<u64>>,
}

impl View for LoginLimiter {
    type V = Map<Seq<char>, Seq<u64>>;

    closed spec fn view(&self) -> Map<Seq<char>, Seq<u64>> {
        times_by_key(self.failures@)
    }
}

spec fn times_by_key(m: Map<Seq<char>, Vec<u64>>) -> Map<Seq<char>, Seq<u64>> {
    m.map_values(|times: Vec<u64>| times@)
}

/// The key of a client's failures.
pub open spec fn ip_key(ip: Seq<char>) -> Seq<char> {
    "ip:"@ + ip
}

/// The key of an account's failures.
pub open spec fn email_key(email: Seq<char>) -> Seq<char> {
    "email:"@ + unicode_lower(trim(email))
}

/// The failures that still count.
pub open spec fn recent(times: Seq<u64>, now: u64) -> Seq<u64>
    decreases times.len(),
{
    if times.len() == 0 {
        Seq::empty()
    } else {
        let before = recent(times.drop_last(), now);
        if ago(now, times.last()) < LOGIN_WINDOW {
            before.push(times.last())
        } else {
            before
        }
    }
}

/// How long failures still lock their key.
pub open spec fn lock(times: Seq<u64>, now: u64) -> Option<u64> {
    let counted = recent(times, now);
    if counted.len() >= LOGIN_MAX_FAILURES {
        Some(ago(LOGIN_WINDOW, ago(now, counted[0])))
    } else {
        None
    }
}

/// A key's failures: none where it has no entry.
pub open spec fn times_of(m: Map<Seq<char>, Seq<u64>>, key: Seq<char>) -> Seq<u64> {
    if m.contains_key(key) {
        m[key]
    } else {
        Seq::empty()
    }
}

/// The longer of two waits.
pub open spec fn longer(a: Option<u64>, b: Option<u64>) -> Option<u64> {
    match (a, b) {
        (Some(x), Some(y)) => if x > y {
            Some(x)
        } else {
            Some(y)
        },
        (Some(x), None) => Some(x),
        (None, y) => y,
    }
}

/// How long a client and an account are locked out.
pub open spec fn locked(m: Map<Seq<char>, Seq<u64>>, ip: Seq<char>, email: Seq<char>, now: u64) ->
    Option<u64> {
    longer(lock(times_of(m, ip_key(ip)), now), lock(times_of(m, email_key(email)), now))
}

/// The failures with those of a key that no longer count left out.
pub open spec fn tidied(m: Map<Seq<char>, Seq<u64>>, key: Seq<char>, now: u64) -> Map<
    Seq<char>,
    Seq<u64>,
> {
    if m.contains_key(key) {
        m.insert(key, recent(m[key], now))
    } else {
        m
    }
}

/// The failures with one more at `now` under a key.
pub open spec fn failed(m: Map<Seq<char>, Seq<u64>>, key: Seq<char>, now: u64) -> Map<
    Seq<char>,
    Seq<u64>,
> {
    m.insert(key, times_of(m, key).push(now))
}

proof fn lemma_keys_differ(ip: Seq<char>, email: Seq<char>)
    ensures
        ip_key(ip) != email_key(email),
{
    reveal_strlit("ip:");
    reveal_strlit("email:");
    assert(ip_key(ip)[0] == 'i');
    assert(email_key(email)[0] == 'e');
}

fn key_of_ip(ip: &str) -> (r: String)
    ensures
        r@ == ip_key(ip@),
{
    let mut key = "ip:".to_owned();
    key.append(ip);
    key
}

fn key_of_email(email: &str) -> (r: String)
    ensures
        r@ == email_key(email@),
{
    let mut key = "email:".to_owned();
    let clean = trimmed(email);
    let lower = to_lower(clean.as_str());
    key.append(lower.as_str());
    key
}

fn recent_of(times: &Vec<u64>, now: u64) -> (r: Vec<u64>)
    ensures
        r@ == recent(times@, now),
{
    let mut out: Vec<u64> = Vec::new();
    let mut i: usize = 0;
    proof {
        assert(times@.take(0) =~= Seq::<u64>::empty());
    }
    while i < times.len()
        invariant
            i <= times@.len(),
            out@ == recent(times@.take(i as int), now),
        decreases times@.len() - i,
    {
        proof {
            assert(times@.take(i as int + 1).drop_last() =~= times@.take(i as int));
            assert(times@.take(i as int + 1).last() == times@[i as int]);
        }
        if now.saturating_sub(times[i]) < LOGIN_WINDOW {
            out.push(times[i]);
        }
        i += 1;
    }
    proof {
        assert(times@.take(times@.len() as int) =~= times@);
    }
    out
}

impl Default for LoginLimiter {
    fn default() -> (r: Self)
        ensures
            r.wf(),
            r@ == Map::<Seq<char>, Seq<u64>>::empty(),
    {
        let r = LoginLimiter { failures: Table::new() };
        proof {
            assert(r@ =~= Map::<Seq<char>, Seq<u64>>::empty());
        }
        r
    }
}

impl LoginLimiter {
    /// Every key stands once.
    pub closed spec fn wf(&self) -> bool {
        self.failures.wf()
    }

    fn lock_of(&mut self, key: &str, now: u64) -> (r: Option<u64>)
        requires
            old(self).wf(),
        ensures
            final(self).wf(),
            r == lock(times_of(old(self)@, key@), now),
            final(self)@ == tidied(old(self)@, key@, now),
    {
        let ghost before = self.failures@;
        match self.failures.take(key) {
            None => {
                proof {
                    assert(times_by_key(before.remove(key@)) =~= times_by_key(before));
                    assert(recent(Seq::<u64>::empty(), now).len() == 0);
                }
                None
            },
            Some(times) => {
                let kept = recent_of(&times, now);
                let wait: Option<u64> = if kept.len() >= LOGIN_MAX_FAILURES {
                    Some(LOGIN_WINDOW.saturating_sub(now.saturating_sub(kept[0])))
                } else {
                    None
                };
                self.failures.insert(key, kept);
                proof {
                    assert(times_by_key(before.remove(key@).insert(key@, kept)) =~= times_by_key(
                        before,
                    ).insert(key@, kept@));
                }
                wait
            },
        }
    }

    /// `Some(wait)` if this IP or email is currently locked out, with the wait in milliseconds.
    /// Failures of the two that no longer count are dropped.
    pub fn locked_for(&mut self, ip: &str, email: &str, now: u64) -> (r: Option<u64>)
        requires
            old(self).wf(),
        ensures
            final(self).wf(),
            r == locked(old(self)@, ip@, email@, now),
            final(self)@ == tidied(
                tidied(old(self)@, ip_key(ip@), now),
                email_key(email@),
                now,
            ),
    {
        proof {
            lemma_keys_differ(ip@, email@);
        }
        let a_key = key_of_ip(ip);
        let b_key = key_of_email(email);
        let a = self.lock_of(a_key.as_str(), now);
        let b = self.lock_of(b_key.as_str(), now);
        match (a, b) {
            (Some(x), Some(y)) => if x > y {
                Some(x)
            } else {
                Some(y)
            },
            (Some(x), None) => Some(x),
            (None, y) => y,
        }
    }

    fn fail(&mut self, key: &str, now: u64)
        requires
            old(self).wf(),
        ensures
            final(self).wf(),
            final(self)@ == failed(old(self)@, key@, now),
    {
        let ghost before = self.failures@;
        let mut times = match self.failures.take(key) {
            Some(times) => times,
            None => Vec::new(),
        };
        times.push(now);
        self.failures.insert(key, times);
        proof {
            assert(times_by_key(before.remove(key@).insert(key@, times)) =~= times_by_key(
                before,
            ).insert(key@, times@));
        }
    }

    /// Counts a failure against the client and against the account.
    pub fn record_failure(&mut self, ip: &str, email: &str, now: u64)
        requires
            old(self).wf(),
        ensures
            final(self).wf(),
            final(self)@ == failed(
                failed(old(self)@, ip_key(ip@), now),
                email_key(email@),
                now,
            ),
    {
        let a = key_of_ip(ip);
        let b = key_of_email(email);
        self.fail(a.as_str(), now);
        self.fail(b.as_str(), now);
    }

    /// Forgets the failures of the client and of the account.
    pub fn record_success(&mut self, ip: &str, email: &str)
        requires
            old(self).wf(),
        ensures
            final(self).wf(),
            final(self)@ == old(self)@.remove(ip_key(ip@)).remove(email_key(email@)),
    {
        let ghost before = self.failures@;
        let a = key_of_ip(ip);
        let b = key_of_email(email);
        let gone = self.failures.take(a.as_str());
        let gone_too = self.failures.take(b.as_str());
        proof {
            assert(times_by_key(before.remove(a@).remove(b@)) =~= times_by_key(before).remove(
                a@,
            ).remove(b@));
        }
    }
}

// ---------------------------------------------------------------------------------------
// Who is asking
// ---------------------------------------------------------------------------------------

/// Whether an address is this machine's own.
pub open spec fn loopback(ip: Ip) -> bool {
    match ip {
        Ip::V4(octets) => octets@[0] == 127,
        Ip::V6(groups) => groups@ == seq![0u16, 0, 0, 0, 0, 0, 0, 1],
    }
}

fn is_loopback(ip: Ip) -> (r: bool)
    ensures
        r == loopback(ip),
{
    match ip {
        Ip::V4(octets) => octets[0] == 127,
        Ip::V6(g) => {
            let r = g[0] == 0 && g[1] == 0 && g[2] == 0 && g[3] == 0 && g[4] == 0 && g[5] == 0
                && g[6] == 0 && g[7] == 1;
            proof {
                if r {
                    assert(g@ =~= seq![0u16, 0, 0, 0, 0, 0, 0, 1]);
                }
            }
            r
        },
    }
}

/// Who a request comes from: the connection's address and its text, and the text of the address
/// that the proxy names.
pub open spec fn client(peer: Option<(Ip, Seq<char>)>, forwarded: Option<Seq<char>>) -> Seq<char> {
    match (peer, forwarded) {
        (None, _) => "unknown"@,
        (Some((ip, text)), Some(named)) => if loopback(ip) {
            named
        } else {
            text
        },
        (Some((ip, text)), None) => text,
    }
}

/// The client's address, as text. Behind the local reverse proxy (a connection from loopback)
/// that's what the proxy's `X-Real-IP` names; from anywhere else the header is ignored, since
/// a direct client could put anything in it. `peer` is the connection's address and its text,
/// `forwarded` the text of the address in the header, where it holds one.
pub fn client_ip(peer: Option<(Ip, String)>, forwarded: Option<String>) -> (r: String)
    ensures
        r@ == client(
            match peer {
                Some((ip, text)) => Some((ip, text@)),
                None => None,
            },
            opt_view(forwarded),
        ),
{
    match (peer, forwarded) {
        (None, _) => "unknown".to_owned(),
        (Some((ip, text)), Some(named)) => if is_loopback(ip) {
            named
        } else {
            text
        },
        (Some((_, text)), None) => text,
    }
}

// ---------------------------------------------------------------------------------------
// What holds of every request
// ---------------------------------------------------------------------------------------

/// A request that changes something and says nothing of where it came from is refused.
pub proof fn lemma_unsigned_changes_are_refused(method: Seq<char>, host: Header)
    requires
        !safe_method(method),
    ensures
        !(safe_method(method) || from_own_page(host, Header::Absent, Header::Absent)),
{
}

/// An `Origin` that can't be read is not made up for by a `Referer`.
pub proof fn lemma_opaque_origins_are_refused(host: Header, referer: Header)
    ensures
        !from_own_page(host, Header::Opaque, referer),
{
}

proof fn lemma_recent_bound(times: Seq<u64>, now: u64)
    ensures
        recent(times, now).len() <= times.len(),
    decreases times.len(),
{
    if times.len() > 0 {
        lemma_recent_bound(times.drop_last(), now);
    }
}

/// A success leaves neither the client nor the account locked.
pub proof fn lemma_success_unlocks(
    m: Map<Seq<char>, Seq<u64>>,
    ip: Seq<char>,
    email: Seq<char>,
    now: u64,
)
    ensures
        locked(m.remove(ip_key(ip)).remove(email_key(email)), ip, email, now) is None,
{
    lemma_recent_bound(Seq::<u64>::empty(), now);
}

/// A client is locked out exactly when it or the account has failed often enough of late, and
/// what either did elsewhere counts just the same.
pub proof fn lemma_locks_count_the_recent_failures(
    m: Map<Seq<char>, Seq<u64>>,
    ip: Seq<char>,
    email: Seq<char>,
    now: u64,
)
    ensures
        locked(m, ip, email, now) is Some == (recent(times_of(m, ip_key(ip)), now).len()
            >= LOGIN_MAX_FAILURES || recent(times_of(m, email_key(email)), now).len()
            >= LOGIN_MAX_FAILURES),
{
}

/// Whether failures came one after the other, none of them after `now`.
pub open spec fn in_time(times: Seq<u64>, now: u64) -> bool {
    &&& forall|i: int, j: int| 0 <= i < j < times.len() ==> times[i] <= times[j]
    &&& forall|i: int| 0 <= i < times.len() ==> #[trigger] times[i] <= now
}

proof fn lemma_recent_all(times: Seq<u64>, now: u64)
    requires
        forall|i: int| 0 <= i < times.len() ==> ago(now, #[trigger] times[i]) < LOGIN_WINDOW,
    ensures
        recent(times, now) == times,
    decreases times.len(),
{
    if times.len() > 0 {
        assert(ago(now, times[times.len() - 1]) < LOGIN_WINDOW);
        assert forall|i: int| 0 <= i < times.drop_last().len() implies ago(
            now,
            #[trigger] times.drop_last()[i],
        ) < LOGIN_WINDOW by {
            assert(times.drop_last()[i] == times[i]);
        }
        lemma_recent_all(times.drop_last(), now);
        assert(times.drop_last().push(times.last()) =~= times);
    } else {
        assert(times =~= Seq::<u64>::empty());
    }
}

proof fn lemma_first_ages_out(times: Seq<u64>, now: u64)
    requires
        times.len() > 0,
        ago(now, times[0]) >= LOGIN_WINDOW,
    ensures
        recent(times, now).len() < times.len(),
    decreases times.len(),
{
    if times.len() > 1 {
        lemma_first_ages_out(times.drop_last(), now);
    } else {
        lemma_recent_bound(times.drop_last(), now);
    }
}

/// Five failures lock a key for as long as the wait says, to the millisecond: until the oldest
/// of them ages out.
pub proof fn lemma_locks_last_until_the_oldest_failure_ages_out(
    times: Seq<u64>,
    now: u64,
    later: u64,
)
    requires
        times.len() == LOGIN_MAX_FAILURES,
        in_time(times, now),
        lock(times, now) is Some,
        later >= now,
    ensures
        lock(times, later) is Some == (later < now + lock(times, now)->0),
{
    lemma_recent_bound(times, now);
    if ago(now, times[0]) >= LOGIN_WINDOW {
        lemma_first_ages_out(times, now);
    }
    assert forall|i: int| 0 <= i < times.len() implies ago(now, #[trigger] times[i])
        < LOGIN_WINDOW by {
        if i > 0 {
            assert(times[0] <= times[i]);
        }
        assert(times[i] <= now);
        assert(times[0] <= now);
    }
    lemma_recent_all(times, now);
    assert(times[0] <= now);
    if later < now + lock(times, now)->0 {
        assert forall|i: int| 0 <= i < times.len() implies ago(later, #[trigger] times[i])
            < LOGIN_WINDOW by {
            if i > 0 {
                assert(times[0] <= times[i]);
            }
            assert(times[i] <= now);
        }
        lemma_recent_all(times, later);
    } else {
        lemma_first_ages_out(times, later);
    }
}

/// From anywhere but this machine, the forwarding header changes nothing.
pub proof fn lemma_only_the_local_proxy_is_believed(
    ip: Ip,
    text: Seq<char>,
    forwarded: Option<Seq<char>>,
)
    requires
        !loopback(ip),
    ensures
        client(Some((ip, text)), forwarded) == text,
{
}

} // verus!
