//! Server-side proxy to a registered app's logs endpoint. The browser only ever talks to this
//! app (same origin, cookie auth): the session token is attached here and never sent to
//! client-side JS, so there's nothing for a compromised page to steal it with. The registered
//! endpoint enforces its own admin check on every call; a stale or revoked token surfaces here
//! as a 401/403 that is passed straight through.

use vstd::prelude::*;
use vstd::utf8::encode_utf8;

use crate::auth::access;
use crate::auth::access_for;
use crate::auth::Access;
use crate::auth::Role;
use crate::auth::Route;
use crate::auth::Session;
use crate::i18n::I18n;
use crate::i18n::Localize;
use crate::outbound::policy_host;
use crate::outbound::Outbound;
use crate::registry::opt_copy;
use crate::registry::AppView;
use crate::registry::RegisteredApp;
use crate::text::decimal;
use crate::text::decimal_text;
use crate::text::trim;
use crate::weburl::opt_view;
use crate::weburl::parsed_url;
use crate::weburl::Url;
use crate::weburl::UrlView;

verus! {

/// What the logs endpoint is asked.
#[derive(Debug)]
pub struct LogsQuery {
    pub stream: Option<String>,
    pub lines: Option<String>,
}

/// A request to an app's logs endpoint.
#[derive(Debug)]
pub struct LogsRequest {
    pub url: Url,
    /// Sent as a Bearer token, where there is one.
    pub bearer: Option<String>,
    /// Sent as `X-Admin-Logs-Key`, where it is configured.
    pub key: Option<String>,
    pub stream: Option<String>,
    pub lines: Option<String>,
}

/// What is done with a request for logs.
#[derive(Debug)]
pub enum LogsPlan {
    Refuse { status: u16, error: String },
    Fetch(LogsRequest),
}

/// Why a URL may not be requested, in the UI's language; `None` when it may.
pub open spec fn url_refusal(
    url: Result<UrlView, Seq<char>>,
    outbound: Outbound,
    i18n: I18n,
) -> Option<Seq<char>> {
    match url {
        Err(error) => Some(i18n.message("outbound.invalid_url"@, seq![("error"@, error)])),
        Ok(url) => if url.scheme != "https"@ {
            Some(i18n.template("outbound.not_https"@))
        } else if !outbound.allows(policy_host(url)) {
            Some(i18n.message("outbound.host_not_allowed"@, seq![("host"@, policy_host(url))]))
        } else {
            None
        },
    }
}

/// The refusal that a request for logs meets, if any: its status and its message.
pub open spec fn logs_refusal(
    session: Option<Session>,
    slug: Seq<char>,
    app: Option<AppView>,
    outbound: Outbound,
    i18n: I18n,
) -> Option<(u16, Seq<char>)> {
    let role = match session {
        Some(session) => Some(session.role),
        None => None,
    };
    match (access(Route::LogsApi, role), app) {
        (Access::Granted, None) => Some(
            (404, i18n.message("api.not_registered"@, seq![("slug"@, slug)])),
        ),
        (Access::Granted, Some(app)) => match app.settings.logs_url {
            None => Some(
                (404, i18n.message("api.no_logs"@, seq![("name"@, app.settings.name)])),
            ),
            Some(raw) => match url_refusal(parsed_url(trim(raw)), outbound, i18n) {
                Some(error) => Some(
                    (
                        403,
                        i18n.message(
                            "api.logs_refused"@,
                            seq![("name"@, app.settings.name), ("error"@, error)],
                        ),
                    ),
                ),
                None => None,
            },
        },
        (Access::Forbidden, _) => Some((403, i18n.template("api.forbidden"@))),
        _ => Some((401, i18n.template("api.no_session"@))),
    }
}

/// What is done with a request for an app's logs. The URL is checked before anything is sent:
/// the request carries the admin's token and the shared key, which must only ever reach
/// allowlisted https hosts.
pub fn plan(
    session: Option<&Session>,
    slug: &str,
    app: Option<&RegisteredApp>,
    outbound: &Outbound,
    admin_logs_key: &Option<String>,
    query: &LogsQuery,
    i18n: &I18n,
) -> (r: LogsPlan)
    ensures
        match logs_refusal(
            match session {
                Some(session) => Some(*session),
                None => None,
            },
            slug@,
            match app {
                Some(app) => Some(app@),
                None => None,
            },
            *outbound,
            *i18n,
        ) {
            Some((status, error)) => r matches LogsPlan::Refuse { status: s, error: e } && s
                == status && e@ == error,
            None => {
                &&& r matches LogsPlan::Fetch(request)
                &&& parsed_url(trim(app->0@.settings.logs_url->0)) == Ok::<UrlView, Seq<char>>(
                    request.url@,
                )
                &&& opt_view(request.bearer) == if session->0.upstream_token@.len() == 0 {
                    None
                } else {
                    Some(session->0.upstream_token@)
                }
                &&& request.key == *admin_logs_key
                &&& request.stream == query.stream
                &&& request.lines == query.lines
            },
        },
{
    let role = match session {
        Some(session) => Some(session.role),
        None => None,
    };
    match access_for(Route::LogsApi, role) {
        Access::Granted => {},
        Access::Forbidden => {
            return LogsPlan::Refuse { status: 403, error: i18n.line("api.forbidden") };
        },
        _ => {
            return LogsPlan::Refuse { status: 401, error: i18n.line("api.no_session") };
        },
    }
    let app = match app {
        Some(app) => app,
        None => {
            return LogsPlan::Refuse {
                status: 404,
                error: i18n.line1("api.not_registered", "slug", slug),
            };
        },
    };
    let raw = match &app.logs_url {
        Some(raw) => raw,
        None => {
            return LogsPlan::Refuse {
                status: 404,
                error: i18n.line1("api.no_logs", "name", app.name.as_str()),
            };
        },
    };
    let url = match outbound.check(raw.as_str()) {
        Ok(url) => url,
        Err(error) => {
            let why = error.localize(i18n);
            return LogsPlan::Refuse {
                status: 403,
                error: i18n.line2(
                    "api.logs_refused",
                    ("name", app.name.as_str()),
                    ("error", why.as_str()),
                ),
            };
        },
    };
    let bearer = match session {
        Some(session) => if session.upstream_token.as_str().is_empty() {
            None
        } else {
            Some(session.upstream_token.clone())
        },
        None => None,
    };
    LogsPlan::Fetch(
        LogsRequest {
            url,
            bearer,
            key: opt_copy(admin_logs_key),
            stream: opt_copy(&query.stream),
            lines: opt_copy(&query.lines),
        },
    )
}

/// What came of a request to an app's logs endpoint.
#[derive(Debug)]
pub enum LogsReply {
    /// No connection.
    Unreachable(String),
    /// A response whose body could not be read.
    Unreadable(String),
    Answered { status: u16, body: String },
}

/// What the browser is answered.
#[derive(Debug)]
pub struct LogsAnswer {
    pub status: u16,
    pub body: LogsBody,
}

#[derive(Debug)]
pub enum LogsBody {
    /// The endpoint's JSON, written anew.
    Json(String),
    Error(String),
}

/// What `serde_json` writes of the value that it reads in a text; `None` where the text isn't
/// JSON.
pub uninterp spec fn json_rewritten(text: Seq<char>) -> Option<Seq<char>>;

/// `serde_json::from_str` for a `Value`, and the compact text of that value (its `Display`):
/// the result depends on the characters of `text` alone. Nothing is said of which texts are
/// JSON, nor of how a value is written.
#[verifier::external_body]
fn rewrite_json(text: &str) -> (r: Option<String>)
    ensures
        opt_view(r) == json_rewritten(text@),
{
    match serde_json::from_str::<serde_json::Value>(text) {
        Ok(value) => Some(value.to_string()),
        Err(_) => None,
    }
}

/// A status that can be sent, or 502 in its place.
pub open spec fn sendable(status: u16) -> u16 {
    if 100 <= status <= 999 {
        status
    } else {
        502
    }
}

/// Whether an answer is what a reply comes to: its value written anew, where the body is JSON.
/// The endpoint's status is forwarded either way; a body that isn't JSON is never echoed back,
/// only its length.
pub open spec fn relays(
    answer: LogsAnswer,
    name: Seq<char>,
    status: u16,
    body: Seq<char>,
    json: Option<Seq<char>>,
    i18n: I18n,
) -> bool {
    &&& answer.status == sendable(status)
    &&& match json {
        Some(value) => answer.body matches LogsBody::Json(text) && text@ == value,
        None => error_in(answer) == Some(
            i18n.message(
                "api.not_json"@,
                seq![
                    ("name"@, name),
                    ("status"@, decimal(status as nat)),
                    ("bytes"@, decimal(encode_utf8(body).len())),
                ],
            ),
        ),
    }
}

/// The error that an answer tells, if it is one.
pub open spec fn error_in(answer: LogsAnswer) -> Option<Seq<char>> {
    match answer.body {
        LogsBody::Error(text) => Some(text@),
        LogsBody::Json(_) => None,
    }
}

/// What an endpoint's answer comes to, given its JSON written anew, where its body is JSON.
pub fn relayed(name: &str, status: u16, body: &str, json: Option<String>, i18n: &I18n) -> (r:
    LogsAnswer)
    ensures
        relays(r, name@, status, body@, opt_view(json), *i18n),
{
    let out_status: u16 = if 100 <= status && status <= 999 {
        status
    } else {
        502
    };
    if let Some(value) = json {
        return LogsAnswer { status: out_status, body: LogsBody::Json(value) };
    }
    let code = decimal_text(status as u64);
    let bytes = decimal_text(body.as_bytes().len() as u64);
    LogsAnswer {
        status: out_status,
        body: LogsBody::Error(
            i18n.line3(
                "api.not_json",
                ("name", name),
                ("status", code.as_str()),
                ("bytes", bytes.as_str()),
            ),
        ),
    }
}

/// What the browser is answered, for what came of the request to the endpoint of `name`.
pub fn get_logs(name: &str, reply: LogsReply, i18n: &I18n) -> (r: LogsAnswer)
    ensures
        match reply {
            LogsReply::Unreachable(error) => r.status == 502 && error_in(r) == Some(
                i18n.message("api.unreachable"@, seq![("name"@, name@), ("error"@, error@)]),
            ),
            LogsReply::Unreadable(error) => r.status == 502 && error_in(r) == Some(
                i18n.message("api.unreadable"@, seq![("name"@, name@), ("error"@, error@)]),
            ),
            LogsReply::Answered { status, body } => relays(
                r,
                name@,
                status,
                body@,
                json_rewritten(body@),
                *i18n,
            ),
        },
{
    match reply {
        LogsReply::Unreachable(error) => LogsAnswer {
            status: 502,
            body: LogsBody::Error(
                i18n.line2("api.unreachable", ("name", name), ("error", error.as_str())),
            ),
        },
        LogsReply::Unreadable(error) => LogsAnswer {
            status: 502,
            body: LogsBody::Error(
                i18n.line2("api.unreadable", ("name", name), ("error", error.as_str())),
            ),
        },
        LogsReply::Answered { status, body } => {
            let json = rewrite_json(body.as_str());
            relayed(name, status, body.as_str(), json, i18n)
        },
    }
}

// ---------------------------------------------------------------------------------------
// What holds of every request for logs
// ---------------------------------------------------------------------------------------

/// Without an admin's session nothing is sent.
pub proof fn lemma_only_admins_reach_the_logs(
    session: Option<Session>,
    slug: Seq<char>,
    app: Option<AppView>,
    outbound: Outbound,
    i18n: I18n,
)
    requires
        session is Some ==> session->0.role != Role::Admin,
    ensures
        logs_refusal(session, slug, app, outbound, i18n) is Some,
{
}

/// The admin's token and the shared key only ever reach allowlisted https hosts: any other URL
/// is refused.
pub proof fn lemma_tokens_only_reach_allowed_hosts(
    session: Option<Session>,
    slug: Seq<char>,
    app: AppView,
    outbound: Outbound,
    i18n: I18n,
    url: UrlView,
)
    requires
        app.settings.logs_url is Some,
        parsed_url(trim(app.settings.logs_url->0)) == Ok::<UrlView, Seq<char>>(url),
        url.scheme != "https"@ || !outbound.allows(policy_host(url)),
    ensures
        logs_refusal(session, slug, Some(app), outbound, i18n) is Some,
{
}

/// The raw body of a response that isn't JSON never gets out: answers to bodies of the same
/// length are the same.
pub proof fn lemma_other_bodies_are_not_echoed(
    a: LogsAnswer,
    b: LogsAnswer,
    name: Seq<char>,
    status: u16,
    one: Seq<char>,
    other: Seq<char>,
    i18n: I18n,
)
    requires
        relays(a, name, status, one, None, i18n),
        relays(b, name, status, other, None, i18n),
        encode_utf8(one).len() == encode_utf8(other).len(),
    ensures
        a.status == b.status,
        error_in(a) is Some,
        error_in(a) == error_in(b),
{
}

} // verus!
