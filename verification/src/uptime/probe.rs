//! One health check: what is asked of an app, and what its answer makes of it.

use vstd::prelude::*;

use crate::bundles::bundle_views;
use crate::bundles::bundles_of;
use crate::bundles::extract;
use crate::bundles::page_refs;
use crate::bundles::Bundle;
use crate::bundles::BundleProblem;
use crate::i18n::I18n;
use crate::i18n::Lang;
use crate::i18n::Localize;
use crate::outbound::policy_host;
use crate::outbound::HealthTarget;
use crate::outbound::Outbound;
use crate::registry::copied_codes;
use crate::registry::copied_headers;
use crate::registry::opt_copy;
use crate::registry::CheckHeader;
use crate::registry::RegisteredApp;
use crate::text::contains;
use crate::text::decimal;
use crate::text::decimal_text;
use crate::text::has_text;
use crate::text::starts_with;
use crate::text::trim;
use crate::uptime::history::ago;
use crate::uptime::light;
use crate::uptime::Heartbeat;
use crate::uptime::Status;
use crate::uptime::DAY_SECS;
use crate::weburl::parsed_url;
use crate::weburl::Url;
use crate::weburl::UrlView;

verus! {

/// Max bytes of a health response read when looking at its body.
pub const BODY_LIMIT: usize = 262_144;

/// Seconds between two attempts at a check that failed.
pub const RETRY_DELAY: u64 = 5;

/// How apps are checked and how long their history is kept. Durations are in seconds.
#[derive(Debug, Clone, Copy)]
pub struct CheckPolicy {
    pub interval: u64,
    /// Global "slow" threshold; an app's own `degraded_after_ms` overrides it.
    pub degraded_after_ms: u32,
    /// Extra attempts (`RETRY_DELAY` apart) before a failed check is recorded as down.
    pub retries: u32,
    /// A certificate expiring within this many days marks the app degraded.
    pub cert_warn_days: u32,
    pub retention: u64,
    /// Global check timeout; an app's own `timeout_secs` overrides it.
    pub timeout: u64,
    /// Share of apps down at once that counts as a mass outage (0 = off).
    pub mass_down_pct: u8,
    /// Language of the check messages: they're shown in the UI and alerts.
    pub lang: Lang,
}

/// An app's own number of seconds, or the global one.
pub open spec fn own_secs(own: Option<u32>, global: u64) -> u64 {
    match own {
        Some(secs) => secs as u64,
        None => global,
    }
}

fn secs_or(own: Option<u32>, global: u64) -> (r: u64)
    ensures
        r == own_secs(own, global),
{
    match own {
        Some(secs) => secs as u64,
        None => global,
    }
}

impl CheckPolicy {
    /// Seconds between two checks of an app.
    #[must_use]
    pub fn interval_for(&self, app: &RegisteredApp) -> (r: u64)
        ensures
            r == own_secs(app.interval_secs, self.interval),
    {
        secs_or(app.interval_secs, self.interval)
    }
}

/// What a single probe needs to know about one app.
#[derive(Debug)]
pub struct ProbeTarget {
    pub url: String,
    pub degraded_after_ms: u32,
    pub expect_body: Option<String>,
    pub cert_warn_days: u32,
    /// Also verify the page's JS/CSS bundles (single-page apps).
    pub check_assets: bool,
    /// Seconds before the check gives up.
    pub timeout: u64,
    /// Status codes that count as up; empty = any 2xx.
    pub expect_status: Vec<u16>,
    pub headers: Vec<CheckHeader>,
}

/// Outcome of one probe: the heartbeat, plus the TLS certificate's expiry when the connection
/// got far enough to see one.
#[derive(Debug)]
pub struct ProbeResult {
    pub beat: Heartbeat,
    pub cert_expires_at: Option<u64>,
}

/// What has to be done for a probe.
#[derive(Debug)]
pub enum ProbePlan {
    /// Send a GET request.
    Http(Url),
    /// Open (and drop) a connection.
    Tcp { host: String, port: u16 },
    /// Nothing: the URL is outside the policy.
    Refused(ProbeResult),
}

/// A response's head.
#[derive(Debug, Clone, Copy)]
pub struct HttpAnswer {
    pub code: u16,
    pub latency_ms: u32,
    /// Unix seconds when the server's certificate expires, where one was seen.
    pub cert_expires_at: Option<u64>,
}

/// Whether a status code counts as up.
pub open spec fn accepted(expect_status: Seq<u16>, code: u16) -> bool {
    if expect_status.len() == 0 {
        200 <= code < 300
    } else {
        expect_status.contains(code)
    }
}

/// How an answer is written in a heartbeat: its code and what the code is called.
pub uninterp spec fn status_text(code: u16) -> Seq<char>;

/// Calls `reqwest::StatusCode::from_u16` and the code's `to_string`: on a code that has three
/// digits, the code in decimal, a space and the code's canonical name.
#[verifier::external_body]
fn code_text(code: u16) -> (r: String)
    requires
        100 <= code <= 999,
    ensures
        r@ == status_text(code),
        starts_with(r@, decimal(code as nat).push(' ')),
{
    match reqwest::StatusCode::from_u16(code) {
        Ok(status) => status.to_string(),
        Err(_) => String::new(),
    }
}

/// The unix time at which a DER-encoded certificate's validity ends, as the X.509 parser reads
/// it; `None` where the bytes are not a certificate.
pub uninterp spec fn not_after(der: Seq<u8>) -> Option<i64>;

/// Calls `x509_parser::parse_x509_certificate`, and `timestamp` of its validity's end: named,
/// with nothing said of which bytes are a certificate.
#[verifier::external_body]
fn parse_not_after(der: &[u8]) -> (r: Option<i64>)
    ensures
        r == not_after(der@),
{
    match x509_parser::parse_x509_certificate(der) {
        Ok((_, cert)) => Some(cert.validity().not_after.timestamp()),
        Err(_) => None,
    }
}

/// A timestamp from 1970 on.
pub open spec fn since_epoch(at: Option<i64>) -> Option<u64> {
    match at {
        Some(secs) => if secs >= 0 {
            Some(secs as u64)
        } else {
            None
        },
        None => None,
    }
}

/// A timestamp as unix seconds; `None` before 1970.
pub fn unix_secs(at: Option<i64>) -> (r: Option<u64>)
    ensures
        r == since_epoch(at),
{
    match at {
        Some(secs) => if secs >= 0 {
            Some(secs as u64)
        } else {
            None
        },
        None => None,
    }
}

/// Unix-seconds expiry (`notAfter`) of a DER-encoded X.509 certificate.
pub fn cert_not_after(der: &[u8]) -> (r: Option<u64>)
    ensures
        r == since_epoch(not_after(der@)),
{
    unix_secs(parse_not_after(der))
}

/// Milliseconds as a latency: what does not fit is the longest there is.
pub fn latency_of(millis: u128) -> (r: u32)
    ensures
        r == if millis > u32::MAX {
            u32::MAX as u128
        } else {
            millis
        },
{
    if millis > u32::MAX as u128 {
        u32::MAX
    } else {
        millis as u32
    }
}

/// Adds a chunk to what was read of a body, up to `BODY_LIMIT` bytes; whether more is wanted.
pub fn extend_body(body: &mut Vec<u8>, chunk: &[u8]) -> (r: bool)
    requires
        old(body)@.len() <= BODY_LIMIT,
    ensures
        final(body)@ == crate::uptime::history::at_most(old(body)@ + chunk@, BODY_LIMIT as nat),
        r == (final(body)@.len() < BODY_LIMIT),
{
    let ghost all = body@ + chunk@;
    let mut i: usize = 0;
    proof {
        assert(body@ =~= all.take(body@.len() as int));
    }
    while i < chunk.len() && body.len() < BODY_LIMIT
        invariant
            i <= chunk@.len(),
            body@.len() <= BODY_LIMIT,
            all.len() == body@.len() - i + chunk@.len(),
            forall|j: int|
                0 <= j < chunk@.len() ==> #[trigger] chunk@[j] == all[all.len() - chunk@.len() + j],
            body@ == all.take(body@.len() as int),
        decreases chunk@.len() - i,
    {
        proof {
            assert(all.take(body@.len() as int + 1) =~= body@.push(chunk@[i as int]));
        }
        body.push(chunk[i]);
        i += 1;
    }
    proof {
        assert(all.take(all.len() as int) =~= all);
    }
    body.len() < BODY_LIMIT
}

/// Whether the body was read and lacks the text it should hold.
pub open spec fn keyword_missing(target: ProbeTarget, body: Option<Seq<char>>) -> bool {
    target.expect_body is Some && body is Some && !contains(body->0, target.expect_body->0@)
}

/// Days until a certificate expires.
pub open spec fn days_left(expires: u64, now: u64) -> nat {
    (ago(expires, now) / DAY_SECS) as nat
}

/// The light of an answer, before its body and its certificate are looked at.
pub open spec fn first_light(target: ProbeTarget, answer: HttpAnswer) -> Status {
    light(
        accepted(target.expect_status@, answer.code),
        answer.latency_ms,
        target.degraded_after_ms,
    )
}

/// Whether an answered check is short of a certificate that lasts.
pub open spec fn cert_expiring(target: ProbeTarget, answer: HttpAnswer, now: u64) -> bool {
    answer.cert_expires_at is Some && days_left(answer.cert_expires_at->0, now)
        < target.cert_warn_days
}

/// The status and the message of an answered check: a missing keyword or a broken bundle is
/// down; a certificate about to expire makes an up check degraded.
pub open spec fn answered(
    target: ProbeTarget,
    answer: HttpAnswer,
    body: Option<Seq<char>>,
    broken: Option<BundleProblem>,
    i18n: I18n,
    now: u64,
) -> (Status, Seq<char>) {
    let first = first_light(target, answer);
    if keyword_missing(target, body) {
        (
            Status::Down,
            i18n.message(
                "check.keyword_missing"@,
                seq![("keyword"@, target.expect_body->0@)],
            ),
        )
    } else if first != Status::Down && target.check_assets && body is Some && broken is Some {
        (Status::Down, broken->0.localized(&i18n))
    } else if first == Status::Up && cert_expiring(target, answer, now) {
        (
            Status::Degraded,
            i18n.message(
                "check.cert_expiring"@,
                seq![("days"@, decimal(days_left(answer.cert_expires_at->0, now)))],
            ),
        )
    } else {
        (first, "HTTP "@ + status_text(answer.code))
    }
}

/// What a TCP check is called.
pub open spec fn tcp_name(host: Seq<char>, port: u16) -> Seq<char> {
    "TCP "@ + host + seq![':'] + decimal(port as nat)
}

fn tcp_text(host: &str, port: u16) -> (r: String)
    ensures
        r@ == tcp_name(host@, port),
{
    let mut message = "TCP ".to_owned();
    message.append(host);
    message.push(':');
    let number = decimal_text(port as u64);
    message.append(number.as_str());
    proof {
        assert(message@ =~= tcp_name(host@, port));
    }
    message
}

/// Why a health URL may not be probed, in the UI's language; `None` when it may.
pub open spec fn refusal(
    url: Result<UrlView, Seq<char>>,
    outbound: Outbound,
    i18n: I18n,
) -> Option<Seq<char>> {
    match url {
        Err(error) => Some(i18n.message("outbound.invalid_url"@, seq![("error"@, error)])),
        Ok(url) => if url.scheme != "https"@ && url.scheme != "tcp"@ {
            Some(i18n.template("outbound.not_https"@))
        } else if !outbound.allows(policy_host(url)) {
            Some(i18n.message("outbound.host_not_allowed"@, seq![("host"@, policy_host(url))]))
        } else if url.scheme == "tcp"@ && url.port is None {
            Some(i18n.template("outbound.missing_port"@))
        } else {
            None
        },
    }
}

pub open spec fn body_view(body: Option<&str>) -> Option<Seq<char>> {
    match body {
        Some(text) => Some(text@),
        None => None,
    }
}

impl ProbeTarget {
    /// `None` for an app without a health URL.
    pub fn new(app: &RegisteredApp, policy: &CheckPolicy) -> (r: Option<Self>)
        ensures
            match (app.health_url, r) {
                (None, None) => true,
                (Some(url), Some(target)) => {
                    &&& target.url == url
                    &&& target.degraded_after_ms == match app.degraded_after_ms {
                        Some(ms) => ms,
                        None => policy.degraded_after_ms,
                    }
                    &&& target.expect_body == app.expect_body
                    &&& target.check_assets == app.check_assets
                    &&& target.cert_warn_days == policy.cert_warn_days
                    &&& target.timeout == own_secs(app.timeout_secs, policy.timeout)
                    &&& target.expect_status@ == app.expect_status@
                    &&& target.headers@ == app.headers@
                },
                _ => false,
            },
    {
        match &app.health_url {
            None => None,
            Some(url) => {
                let degraded_after_ms: u32 = match app.degraded_after_ms {
                    Some(ms) => ms,
                    None => policy.degraded_after_ms,
                };
                Some(
                    ProbeTarget {
                        url: url.clone(),
                        degraded_after_ms,
                        expect_body: opt_copy(&app.expect_body),
                        cert_warn_days: policy.cert_warn_days,
                        check_assets: app.check_assets,
                        timeout: secs_or(app.timeout_secs, policy.timeout),
                        expect_status: copied_codes(&app.expect_status),
                        headers: copied_headers(&app.headers),
                    },
                )
            },
        }
    }

    /// How to probe this target. The policy is asked on every probe, not just at registration:
    /// an entry saved before the allowlist was narrowed must not slip through.
    pub fn probe(&self, outbound: &Outbound, i18n: &I18n, now: u64) -> (r: ProbePlan)
        ensures
            match refusal(parsed_url(trim(self.url@)), *outbound, *i18n) {
                Some(why) => {
                    &&& r matches ProbePlan::Refused(result)
                    &&& result.cert_expires_at is None
                    &&& result.beat.at == now
                    &&& result.beat.status == Status::Down
                    &&& result.beat.latency_ms is None
                    &&& result.beat.message@ == i18n.message(
                        "check.url_refused"@,
                        seq![("error"@, why)],
                    )
                },
                None => {
                    let url = parsed_url(trim(self.url@))->Ok_0;
                    if url.scheme == "https"@ {
                        r matches ProbePlan::Http(target) && target@ == url
                    } else {
                        r matches ProbePlan::Tcp { host, port } && host@ == policy_host(url)
                            && url.port == Some(port)
                    }
                },
            },
    {
        proof {
            reveal_strlit("tcp");
            reveal_strlit("https");
            assert("tcp"@.len() != "https"@.len());
        }
        match outbound.check_health(self.url.as_str()) {
            Ok(HealthTarget::Http(url)) => ProbePlan::Http(url),
            Ok(HealthTarget::Tcp { host, port }) => ProbePlan::Tcp { host, port },
            Err(error) => {
                let why = error.localize(i18n);
                let message = i18n.line1("check.url_refused", "error", why.as_str());
                ProbePlan::Refused(
                    ProbeResult {
                        beat: Heartbeat::down(message, None, now),
                        cert_expires_at: None,
                    },
                )
            },
        }
    }

    /// What came of a TCP check, which only opens (and drops) a connection: up if it connected
    /// in time.
    pub fn probe_tcp(
        &self,
        host: &str,
        port: u16,
        connected: Result<(), String>,
        latency_ms: u32,
        now: u64,
    ) -> (r: ProbeResult)
        ensures
            r.cert_expires_at is None,
            r.beat.at == now,
            match connected {
                Ok(_) => {
                    &&& r.beat.status == light(true, latency_ms, self.degraded_after_ms)
                    &&& r.beat.latency_ms == Some(latency_ms)
                    &&& r.beat.message@ == tcp_name(host@, port) + " OK"@
                },
                Err(error) => {
                    &&& r.beat.status == Status::Down
                    &&& r.beat.latency_ms is None
                    &&& r.beat.message@ == tcp_name(host@, port) + ": "@ + error@
                },
            },
    {
        let mut message = tcp_text(host, port);
        let beat = match connected {
            Ok(_) => {
                message.append(" OK");
                let status = Status::classify(true, latency_ms, self.degraded_after_ms);
                Heartbeat { at: now, status, latency_ms: Some(latency_ms), message }
            },
            Err(error) => {
                message.append(": ");
                message.append(error.as_str());
                Heartbeat::down(message, None, now)
            },
        };
        ProbeResult { beat, cert_expires_at: None }
    }

    /// Whether a status code counts as up.
    #[must_use]
    pub fn accepts(&self, code: u16) -> (r: bool)
        ensures
            r == accepted(self.expect_status@, code),
    {
        if self.expect_status.len() == 0 {
            return 200 <= code && code < 300;
        }
        let mut i: usize = 0;
        while i < self.expect_status.len()
            invariant
                i <= self.expect_status@.len(),
                forall|j: int| 0 <= j < i ==> self.expect_status@[j] != code,
            decreases self.expect_status@.len() - i,
        {
            if self.expect_status[i] == code {
                return true;
            }
            i += 1;
        }
        false
    }

    fn first_status(&self, answer: HttpAnswer) -> (r: Status)
        ensures
            r == first_light(*self, answer),
    {
        Status::classify(self.accepts(answer.code), answer.latency_ms, self.degraded_after_ms)
    }

    /// Whether the response's body is looked at: it is only read when something needs it.
    pub fn needs_body(&self, answer: HttpAnswer) -> (r: bool)
        ensures
            r == (first_light(*self, answer) != Status::Down && (self.expect_body is Some
                || self.check_assets)),
    {
        self.first_status(answer) != Status::Down && (self.expect_body.is_some()
            || self.check_assets)
    }

    fn lacks_keyword(&self, body: Option<&str>) -> (r: bool)
        ensures
            r == keyword_missing(*self, body_view(body)),
    {
        match (&self.expect_body, body) {
            (Some(expected), Some(text)) => !has_text(text, expected.as_str()),
            _ => false,
        }
    }

    /// The bundles of the page at `page` that have to load, once its body is read.
    pub fn bundles(&self, answer: HttpAnswer, body: &str, page: &Url) -> (r: Vec<Bundle>)
        ensures
            bundle_views(r@) == if first_light(*self, answer) != Status::Down && self.check_assets
                && !keyword_missing(*self, Some(body@)) {
                bundles_of(page_refs(body@), page@.text)
            } else {
                Seq::empty()
            },
    {
        if self.first_status(answer) != Status::Down && self.check_assets && !self.lacks_keyword(
            Some(body),
        ) {
            extract(body, page)
        } else {
            let none: Vec<Bundle> = Vec::new();
            proof {
                assert(bundle_views(none@) =~= Seq::empty());
            }
            none
        }
    }

    /// What came of an HTTP check that was answered: `body` is what was read of the body, and
    /// `broken` what is wrong with the first bundle that doesn't load.
    pub fn probe_http(
        &self,
        answer: HttpAnswer,
        body: Option<&str>,
        broken: Option<BundleProblem>,
        i18n: &I18n,
        now: u64,
    ) -> (r: ProbeResult)
        requires
            100 <= answer.code <= 999,
        ensures
            r.cert_expires_at == answer.cert_expires_at,
            r.beat.at == now,
            r.beat.latency_ms == Some(answer.latency_ms),
            (r.beat.status, r.beat.message@) == answered(
                *self,
                answer,
                body_view(body),
                broken,
                *i18n,
                now,
            ),
    {
        let first = self.first_status(answer);
        let mut status = first;
        let code = code_text(answer.code);
        let mut message = "HTTP ".to_owned();
        message.append(code.as_str());
        if self.lacks_keyword(body) {
            status = Status::Down;
            if let Some(expected) = &self.expect_body {
                message = i18n.line1("check.keyword_missing", "keyword", expected.as_str());
            }
        } else if first != Status::Down && self.check_assets && body.is_some() && broken.is_some() {
            status = Status::Down;
            if let Some(why) = &broken {
                message = why.localize(i18n);
            }
        } else if first == Status::Up {
            if let Some(expires) = answer.cert_expires_at {
                let left: u64 = if expires < now {
                    0
                } else {
                    expires - now
                };
                let days: u64 = left / DAY_SECS;
                if days < self.cert_warn_days as u64 {
                    status = Status::Degraded;
                    let text = decimal_text(days);
                    message = i18n.line1("check.cert_expiring", "days", text.as_str());
                }
            }
        }
        ProbeResult {
            beat: Heartbeat { at: now, status, latency_ms: Some(answer.latency_ms), message },
            cert_expires_at: answer.cert_expires_at,
        }
    }

    /// What came of an HTTP check that got no response.
    pub fn unanswered(error: String, now: u64) -> (r: ProbeResult)
        ensures
            r.cert_expires_at is None,
            r.beat == (Heartbeat { at: now, status: Status::Down, latency_ms: None, message: error }),
    {
        ProbeResult { beat: Heartbeat::down(error, None, now), cert_expires_at: None }
    }
}

/// What to do after an attempt at a check.
#[derive(Debug)]
pub enum Confirmation {
    /// It failed, and may be tried again after `RETRY_DELAY`.
    Retry,
    Confirmed(ProbeResult),
}

/// Whether a check is tried again after `attempt` retries: one dropped packet shouldn't paint an
/// app red.
pub open spec fn tried_again(status: Status, attempt: nat, retries: nat) -> bool {
    status == Status::Down && attempt < retries
}

/// What an attempt makes of a check, `attempt` retries after the first: a failure is only
/// accepted when the retries are used up, and then tells how many attempts there were.
pub fn probe_confirmed(attempt: u32, retries: u32, result: ProbeResult, i18n: &I18n) -> (r:
    Confirmation)
    ensures
        match r {
            Confirmation::Retry => tried_again(result.beat.status, attempt as nat, retries as nat),
            Confirmation::Confirmed(last) => {
                &&& !tried_again(result.beat.status, attempt as nat, retries as nat)
                &&& last.cert_expires_at == result.cert_expires_at
                &&& last.beat.at == result.beat.at
                &&& last.beat.status == result.beat.status
                &&& last.beat.latency_ms == result.beat.latency_ms
                &&& last.beat.message@ == if result.beat.status == Status::Down && attempt > 0
                    && attempt == retries {
                    i18n.message(
                        "check.attempts"@,
                        seq![
                            ("message"@, result.beat.message@),
                            ("n"@, decimal((retries + 1) as nat)),
                        ],
                    )
                } else {
                    result.beat.message@
                }
            },
        },
{
    if result.beat.status == Status::Down && attempt < retries {
        return Confirmation::Retry;
    }
    let mut last = result;
    if last.beat.status == Status::Down && attempt > 0 && attempt == retries {
        let n = decimal_text(retries as u64 + 1);
        last.beat.message =
        i18n.line2(
            "check.attempts",
            ("message", last.beat.message.as_str()),
            ("n", n.as_str()),
        );
    }
    Confirmation::Confirmed(last)
}

/// The attempt whose outcome is accepted, when the attempts come out as `statuses`.
pub open spec fn settled(statuses: Seq<Status>, attempt: nat, retries: nat) -> nat
    decreases retries - attempt,
{
    if attempt < retries && tried_again(statuses[attempt as int], attempt, retries) {
        settled(statuses, attempt + 1, retries)
    } else {
        attempt
    }
}

// ---------------------------------------------------------------------------------------
// What holds of every check
// ---------------------------------------------------------------------------------------

/// A check is recorded as down only when the first attempt and every retry failed; otherwise
/// the first attempt that didn't fail is the one that counts. There are never more attempts
/// than the retries and one.
pub proof fn lemma_down_needs_every_attempt(statuses: Seq<Status>, retries: nat)
    requires
        statuses.len() == retries + 1,
    ensures
        settled(statuses, 0, retries) <= retries,
        forall|i: int|
            0 <= i < settled(statuses, 0, retries) ==> #[trigger] statuses[i] == Status::Down,
        (statuses[settled(statuses, 0, retries) as int] == Status::Down) == (forall|i: int|
            0 <= i < statuses.len() ==> #[trigger] statuses[i] == Status::Down),
{
    lemma_settled(statuses, 0, retries);
}

proof fn lemma_settled(statuses: Seq<Status>, attempt: nat, retries: nat)
    requires
        statuses.len() == retries + 1,
        attempt <= retries,
        forall|i: int| 0 <= i < attempt ==> #[trigger] statuses[i] == Status::Down,
    ensures
        settled(statuses, attempt, retries) <= retries,
        forall|i: int|
            0 <= i < settled(statuses, attempt, retries) ==> #[trigger] statuses[i] == Status::Down,
        (statuses[settled(statuses, attempt, retries) as int] == Status::Down) == (forall|i: int|
            0 <= i < statuses.len() ==> #[trigger] statuses[i] == Status::Down),
    decreases retries - attempt,
{
    if attempt < retries && tried_again(statuses[attempt as int], attempt, retries) {
        lemma_settled(statuses, attempt + 1, retries);
    } else if statuses[attempt as int] == Status::Down {
        assert(attempt == retries);
    }
}

/// A URL outside the policy is down without a request: the plan for it is a refusal, never a
/// request or a connection.
pub proof fn lemma_only_allowed_hosts_are_probed(
    url: UrlView,
    outbound: Outbound,
    i18n: I18n,
)
    requires
        !outbound.allows(policy_host(url)),
    ensures
        refusal(Ok(url), outbound, i18n) is Some,
{
}

/// With a list of expected codes each code of the list is accepted, wherever it stands in it,
/// and no other; the order of the list doesn't matter. Without one the 2xx codes are.
pub proof fn lemma_every_listed_code_is_accepted(list: Seq<u16>, code: u16)
    ensures
        forall|i: int| 0 <= i < list.len() ==> accepted(list, #[trigger] list[i]),
        list.len() > 0 && accepted(list, code) ==> exists|i: int|
            0 <= i < list.len() && #[trigger] list[i] == code,
        list.len() == 0 ==> (accepted(list, code) <==> 200 <= code <= 299),
        forall|other: Seq<u16>|
            other.to_multiset() == list.to_multiset() ==> #[trigger] accepted(other, code)
                == accepted(list, code),
{
    assert forall|i: int| 0 <= i < list.len() implies accepted(list, #[trigger] list[i]) by {
        assert(list.contains(list[i]));
    }
    broadcast use vstd::seq_lib::group_to_multiset_ensures;

    assert forall|other: Seq<u16>|
        other.to_multiset() == list.to_multiset() implies #[trigger] accepted(other, code)
        == accepted(list, code) by {
        assert(other.len() == other.to_multiset().len());
        assert(list.len() == list.to_multiset().len());
        assert(other.contains(code) <==> other.to_multiset().count(code) > 0);
        assert(list.contains(code) <==> list.to_multiset().count(code) > 0);
    }
}

/// What makes an answered check down: a code that isn't accepted, a body without the expected
/// text, or a broken bundle of a page whose bundles are checked. Nothing else does, and nothing
/// makes up for one of them.
pub proof fn lemma_what_makes_a_check_down(
    target: ProbeTarget,
    answer: HttpAnswer,
    body: Option<Seq<char>>,
    broken: Option<BundleProblem>,
    i18n: I18n,
    now: u64,
)
    ensures
        answered(target, answer, body, broken, i18n, now).0 == Status::Down <==> {
            ||| !accepted(target.expect_status@, answer.code)
            ||| target.expect_body is Some && body is Some && !contains(
                body->0,
                target.expect_body->0@,
            )
            ||| target.check_assets && body is Some && broken is Some
        },
{
}

/// A check that isn't down is up exactly when it was fast enough and its certificate, where
/// there is one, lasts for at least the days that the policy asks for.
pub proof fn lemma_what_makes_a_check_up(
    target: ProbeTarget,
    answer: HttpAnswer,
    body: Option<Seq<char>>,
    broken: Option<BundleProblem>,
    i18n: I18n,
    now: u64,
)
    requires
        answered(target, answer, body, broken, i18n, now).0 != Status::Down,
    ensures
        answered(target, answer, body, broken, i18n, now).0 == Status::Up <==> answer.latency_ms
            <= target.degraded_after_ms && (answer.cert_expires_at is Some
            && target.cert_warn_days > 0 ==> answer.cert_expires_at->0 >= now
            + target.cert_warn_days * 86_400),
{
    if let Some(expires) = answer.cert_expires_at {
        let left: int = if expires < now {
            0
        } else {
            expires - now
        };
        let days = target.cert_warn_days as int;
        assert(left / 86_400 < days <==> left < days * 86_400) by (nonlinear_arith)
            requires
                left >= 0,
        ;
    }
}

/// An app's own interval or timeout counts wherever it has one.
pub proof fn lemma_own_settings_count(own: u32, global: u64)
    ensures
        own_secs(Some(own), global) == own,
        own_secs(None, global) == global,
{
}

/// A certificate's expiry is read as it stands, and one before 1970 isn't one.
pub proof fn lemma_expiries_are_kept(at: i64)
    ensures
        since_epoch(Some(at)) is Some <==> at >= 0,
        at >= 0 ==> since_epoch(Some(at))->0 == at,
        since_epoch(None) is None,
{
}

/// What may be probed: an https URL of an allowed host, or a tcp one that names its port. Every
/// such URL is.
pub proof fn lemma_what_may_be_probed(url: UrlView, outbound: Outbound, i18n: I18n)
    ensures
        refusal(Ok(url), outbound, i18n) is None <==> outbound.allows(policy_host(url)) && (
        url.scheme == "https"@ || (url.scheme == "tcp"@ && url.port is Some)),
        forall|error: Seq<char>| (#[trigger] refusal(Err(error), outbound, i18n)) is Some,
{
    reveal_strlit("tcp");
    reveal_strlit("https");
    assert("tcp"@.len() != "https"@.len());
}

/// What a check says: the text that is missing, the bundle that is broken, the days that the
/// certificate has left, and otherwise the status that was answered.
pub proof fn lemma_checks_say_why(
    target: ProbeTarget,
    answer: HttpAnswer,
    body: Option<Seq<char>>,
    broken: Option<BundleProblem>,
    i18n: I18n,
    now: u64,
)
    ensures
        ({
            let (status, words) = answered(target, answer, body, broken, i18n, now);
            let missing = target.expect_body is Some && body is Some && !contains(
                body->0,
                target.expect_body->0@,
            );
            let fine = accepted(target.expect_status@, answer.code);
            let unloaded = fine && target.check_assets && body is Some && broken is Some;
            let slow = answer.latency_ms > target.degraded_after_ms;
            &&& missing ==> words == i18n.message(
                "check.keyword_missing"@,
                seq![("keyword"@, target.expect_body->0@)],
            )
            &&& !missing && unloaded ==> words == broken->0.localized(&i18n)
            &&& !missing && !unloaded && fine && !slow && status == Status::Degraded
                ==> answer.cert_expires_at is Some && exists|days: nat|
                words == i18n.message("check.cert_expiring"@, seq![("days"@, #[trigger] decimal(days))])
                    && (answer.cert_expires_at->0 >= now ==> days * 86_400
                    <= answer.cert_expires_at->0 - now < (days + 1) * 86_400) && (
                answer.cert_expires_at->0 < now ==> days == 0)
            &&& !missing && !unloaded && (!fine || slow || status == Status::Up) ==> words
                == "HTTP "@ + status_text(answer.code)
        }),
{
    if answer.cert_expires_at is Some {
        let days = days_left(answer.cert_expires_at->0, now);
        assert(decimal(days) == decimal(days));
    }
}

/// Why a URL isn't probed is told: what is wrong with it, in the order in which it is looked at.
pub proof fn lemma_refusals_say_why(url: UrlView, error: Seq<char>, outbound: Outbound, i18n: I18n)
    ensures
        refusal(Err(error), outbound, i18n) == Some(
            i18n.message("outbound.invalid_url"@, seq![("error"@, error)]),
        ),
        url.scheme != "https"@ && url.scheme != "tcp"@ ==> refusal(Ok(url), outbound, i18n) == Some(
            i18n.template("outbound.not_https"@),
        ),
        (url.scheme == "https"@ || url.scheme == "tcp"@) && !outbound.allows(policy_host(url))
            ==> refusal(Ok(url), outbound, i18n) == Some(
            i18n.message("outbound.host_not_allowed"@, seq![("host"@, policy_host(url))]),
        ),
        url.scheme == "tcp"@ && url.port is None && outbound.allows(policy_host(url)) ==> refusal(
            Ok(url),
            outbound,
            i18n,
        ) == Some(i18n.template("outbound.missing_port"@)),
{
}

/// A TCP check is called by its host and port; a failed check waits five seconds for another
/// attempt, and is tried again as often as the policy says; a body counts up to 256 KiB.
pub proof fn lemma_attempts_and_limits(host: Seq<char>, port: u16, attempt: nat, retries: nat)
    ensures
        tcp_name(host, port) == "TCP "@ + host + ":"@ + decimal(port as nat),
        RETRY_DELAY == 5,
        BODY_LIMIT == 256 * 1024,
        tried_again(Status::Down, attempt, retries) <==> attempt < retries,
        !tried_again(Status::Up, attempt, retries),
        !tried_again(Status::Degraded, attempt, retries),
{
    reveal_strlit(":");
    assert(":"@ =~= seq![':']);
}

} // verus!
