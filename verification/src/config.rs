//! The deployment's settings, read from its environment variables.

use vstd::prelude::*;

use crate::alert_templates::TemplateStore;
use crate::alerts::alerter::AlertSettings;
use crate::i18n::entry_views;
use crate::i18n::lang_named;
use crate::i18n::Lang;
use crate::registry::MAX_TIMEOUT_SECS;
use crate::text::copied;
use crate::text::decimal;
use crate::text::decimal_text;
use crate::text::list_entries;
use crate::text::nonblank;
use crate::text::parse_unsigned;
use crate::text::same;
use crate::text::split;
use crate::text::to_lower;
use crate::text::trim;
use crate::text::trimmed;
use crate::text::unicode_lower;
use crate::text::unsigned;
use crate::text::views;
use crate::uptime::probe::CheckPolicy;
use crate::weburl::opt_view;

verus! {

/// What is wrong with the environment.
#[derive(Debug, PartialEq, Eq)]
pub enum ConfigError {
    /// A required variable is unset or blank.
    Missing(String),
    /// A variable has a value that its meaning doesn't allow.
    Invalid { name: String, value: String },
}

/// What is wrong with the environment.
pub enum Fault {
    Missing(Seq<char>),
    Invalid(Seq<char>, Seq<char>),
}

impl View for ConfigError {
    type V = Fault;

    open spec fn view(&self) -> Fault {
        match self {
            ConfigError::Missing(name) => Fault::Missing(name@),
            ConfigError::Invalid { name, value } => Fault::Invalid(name@, value@),
        }
    }
}

/// The environment's variables, by name.
pub type Env = Vec<(String, String)>;

/// A variable's value.
pub open spec fn env_value(env: Seq<(Seq<char>, Seq<char>)>, name: Seq<char>) -> Option<Seq<char>>
    decreases env.len(),
{
    if env.len() == 0 {
        None
    } else if env[0].0 == name {
        Some(env[0].1)
    } else {
        env_value(env.skip(1), name)
    }
}

/// A variable that is set and not blank, trimmed.
pub open spec fn set(env: Seq<(Seq<char>, Seq<char>)>, name: Seq<char>) -> Option<Seq<char>> {
    match env_value(env, name) {
        Some(value) => if trim(value).len() == 0 {
            None
        } else {
            Some(trim(value))
        },
        None => None,
    }
}

/// A variable that is set and not blank, or a default.
pub open spec fn set_or(
    env: Seq<(Seq<char>, Seq<char>)>,
    name: Seq<char>,
    default: Seq<char>,
) -> Seq<char> {
    match set(env, name) {
        Some(value) => value,
        None => default,
    }
}

/// A number, or a default when unset; `None` where it is set and doesn't parse.
pub open spec fn number(
    env: Seq<(Seq<char>, Seq<char>)>,
    name: Seq<char>,
    default: nat,
    max: nat,
) -> Option<nat> {
    match set(env, name) {
        Some(value) => unsigned(value, max),
        None => Some(default),
    }
}

/// The truth value that a text writes.
pub open spec fn boolean(s: Seq<char>) -> Option<bool> {
    if s == "true"@ {
        Some(true)
    } else if s == "false"@ {
        Some(false)
    } else {
        None
    }
}

/// A truth value, or a default when unset.
pub open spec fn flag(
    env: Seq<(Seq<char>, Seq<char>)>,
    name: Seq<char>,
    default: bool,
) -> Option<bool> {
    match set(env, name) {
        Some(value) => boolean(value),
        None => Some(default),
    }
}

/// A language, or Spanish when unset.
pub open spec fn language(env: Seq<(Seq<char>, Seq<char>)>) -> Option<Lang> {
    match set(env, "APP_LANG"@) {
        Some(value) => lang_named(value),
        None => Some(Lang::Es),
    }
}

/// A comma-separated list; empty when unset.
pub open spec fn list(env: Seq<(Seq<char>, Seq<char>)>, name: Seq<char>) -> Seq<Seq<char>> {
    match set(env, name) {
        Some(value) => nonblank(split(value, ',')),
        None => Seq::empty(),
    }
}

/// The fault of a required variable, if it has one.
pub open spec fn missing(env: Seq<(Seq<char>, Seq<char>)>, name: Seq<char>) -> Option<Fault> {
    match set(env, name) {
        Some(_) => None,
        None => Some(Fault::Missing(name)),
    }
}

/// The fault of a variable that has to parse, if it has one.
pub open spec fn unparsed<T>(
    env: Seq<(Seq<char>, Seq<char>)>,
    name: Seq<char>,
    value: Option<T>,
) -> Option<Fault> {
    match value {
        Some(_) => None,
        None => Some(Fault::Invalid(name, set(env, name)->0)),
    }
}

/// The first of two faults.
pub open spec fn first(a: Option<Fault>, b: Option<Fault>) -> Option<Fault> {
    if a is Some {
        a
    } else {
        b
    }
}

fn value_in(env: &Env, name: &str) -> (r: Option<String>)
    ensures
        opt_view(r) == set(entry_views(env@), name@),
{
    let ghost all = entry_views(env@);
    let mut i: usize = 0;
    proof {
        assert(all.skip(0) =~= all);
    }
    while i < env.len()
        invariant
            i <= env@.len(),
            all == entry_views(env@),
            env_value(all.skip(i as int), name@) == env_value(all, name@),
        decreases env@.len() - i,
    {
        proof {
            let rest = all.skip(i as int);
            assert(rest[0] == (env@[i as int].0@, env@[i as int].1@));
            assert(rest.skip(1) =~= all.skip(i as int + 1));
        }
        if same(env[i].0.as_str(), name) {
            let value = trimmed(env[i].1.as_str());
            return if value.as_str().is_empty() {
                None
            } else {
                Some(value)
            };
        }
        i += 1;
    }
    None
}

fn value_or(env: &Env, name: &str, default: &str) -> (r: String)
    ensures
        r@ == set_or(entry_views(env@), name@, default@),
{
    match value_in(env, name) {
        Some(value) => value,
        None => default.to_owned(),
    }
}

fn required(env: &Env, name: &str) -> (r: Result<String, ConfigError>)
    ensures
        match r {
            Ok(value) => set(entry_views(env@), name@) == Some(value@),
            Err(error) => set(entry_views(env@), name@) is None && error@ == Fault::Missing(name@),
        },
{
    match value_in(env, name) {
        Some(value) => Ok(value),
        None => Err(ConfigError::Missing(name.to_owned())),
    }
}

fn number_in(env: &Env, name: &str, default: u64, max: u64) -> (r: Result<u64, ConfigError>)
    requires
        default <= max,
    ensures
        match r {
            Ok(n) => n <= max && number(entry_views(env@), name@, default as nat, max as nat)
                == Some(n as nat),
            Err(error) => {
                let want = number(entry_views(env@), name@, default as nat, max as nat);
                want is None && unparsed(entry_views(env@), name@, want) == Some(error@)
            },
        },
{
    match value_in(env, name) {
        None => Ok(default),
        Some(value) => match parse_unsigned(value.as_str(), max) {
            Some(n) => Ok(n),
            None => Err(ConfigError::Invalid { name: name.to_owned(), value }),
        },
    }
}

fn flag_in(env: &Env, name: &str, default: bool) -> (r: Result<bool, ConfigError>)
    ensures
        match r {
            Ok(b) => flag(entry_views(env@), name@, default) == Some(b),
            Err(error) => {
                let want = flag(entry_views(env@), name@, default);
                want is None && unparsed(entry_views(env@), name@, want) == Some(error@)
            },
        },
{
    proof {
        reveal_strlit("true");
        reveal_strlit("false");
        assert("true"@.len() != "false"@.len());
    }
    match value_in(env, name) {
        None => Ok(default),
        Some(value) => if same(value.as_str(), "true") {
            Ok(true)
        } else if same(value.as_str(), "false") {
            Ok(false)
        } else {
            Err(ConfigError::Invalid { name: name.to_owned(), value })
        },
    }
}

fn lang_in(env: &Env) -> (r: Result<Lang, ConfigError>)
    ensures
        match r {
            Ok(lang) => language(entry_views(env@)) == Some(lang),
            Err(error) => language(entry_views(env@)) is None && unparsed(
                entry_views(env@),
                "APP_LANG"@,
                language(entry_views(env@)),
            ) == Some(error@),
        },
{
    match value_in(env, "APP_LANG") {
        None => Ok(Lang::Es),
        Some(value) => match Lang::parse(value.as_str()) {
            Some(lang) => Ok(lang),
            None => Err(ConfigError::Invalid { name: "APP_LANG".to_owned(), value }),
        },
    }
}

fn list_in(env: &Env, name: &str) -> (r: Vec<String>)
    ensures
        views(r@) == list(entry_views(env@), name@),
{
    match value_in(env, name) {
        Some(value) => list_entries(value.as_str()),
        None => {
            let none: Vec<String> = Vec::new();
            proof {
                assert(views(none@) =~= Seq::<Seq<char>>::empty());
            }
            none
        },
    }
}

// ---------------------------------------------------------------------------------------
// Logins
// ---------------------------------------------------------------------------------------

/// One local account: an email and its argon2 PHC hash (from `heartbeat hash-password`).
#[derive(Debug)]
pub struct LocalAccount {
    pub email: String,
    pub password_hash: String,
}

/// How users log in.
#[derive(Debug)]
pub enum AuthMode {
    /// Credentials are forwarded to an external login server, which must answer with
    /// `access_token` and `is_admin`. The token is kept in the session and sent to registered
    /// apps' logs endpoints. With `allow_viewers`, users without `is_admin` get in as
    /// read-only viewers instead of being turned away.
    Upstream { login_url: String, allow_viewers: bool },
    /// A local admin and, optionally, a read-only viewer. Sessions carry no upstream token, so
    /// logs endpoints are authorized by the shared key alone.
    Password { admin: LocalAccount, viewer: Option<LocalAccount> },
}

/// What a way to log in is.
pub enum AuthView {
    Upstream { login_url: Seq<char>, allow_viewers: bool },
    Password { admin: (Seq<char>, Seq<char>), viewer: Option<(Seq<char>, Seq<char>)> },
}

impl View for AuthMode {
    type V = AuthView;

    open spec fn view(&self) -> AuthView {
        match self {
            AuthMode::Upstream { login_url, allow_viewers } => AuthView::Upstream {
                login_url: login_url@,
                allow_viewers: *allow_viewers,
            },
            AuthMode::Password { admin, viewer } => AuthView::Password {
                admin: (admin.email@, admin.password_hash@),
                viewer: match viewer {
                    Some(account) => Some((account.email@, account.password_hash@)),
                    None => None,
                },
            },
        }
    }
}

/// The way to log in that the environment names.
pub open spec fn mode(env: Seq<(Seq<char>, Seq<char>)>) -> Seq<char> {
    set_or(env, "AUTH_MODE"@, "upstream"@)
}

/// What is wrong with how the environment says to log in, if anything.
pub open spec fn auth_fault(env: Seq<(Seq<char>, Seq<char>)>) -> Option<Fault> {
    if mode(env) == "upstream"@ {
        first(
            missing(env, "LOGIN_URL"@),
            unparsed(env, "UPSTREAM_VIEWERS"@, flag(env, "UPSTREAM_VIEWERS"@, false)),
        )
    } else if mode(env) == "password"@ {
        first(
            missing(env, "ADMIN_EMAIL"@),
            first(
                missing(env, "ADMIN_PASSWORD_HASH"@),
                if set(env, "VIEWER_EMAIL"@) is Some {
                    missing(env, "VIEWER_PASSWORD_HASH"@)
                } else {
                    None
                },
            ),
        )
    } else {
        Some(Fault::Invalid("AUTH_MODE"@, mode(env)))
    }
}

/// How the environment says to log in.
pub open spec fn auth_of(env: Seq<(Seq<char>, Seq<char>)>) -> AuthView {
    if mode(env) == "upstream"@ {
        AuthView::Upstream {
            login_url: set(env, "LOGIN_URL"@)->0,
            allow_viewers: flag(env, "UPSTREAM_VIEWERS"@, false)->0,
        }
    } else {
        AuthView::Password {
            admin: (
                unicode_lower(set(env, "ADMIN_EMAIL"@)->0),
                set(env, "ADMIN_PASSWORD_HASH"@)->0,
            ),
            viewer: match set(env, "VIEWER_EMAIL"@) {
                Some(email) => Some(
                    (unicode_lower(email), set(env, "VIEWER_PASSWORD_HASH"@)->0),
                ),
                None => None,
            },
        }
    }
}

impl AuthMode {
    /// How the environment says to log in.
    pub fn from_env(env: &Env) -> (r: Result<Self, ConfigError>)
        ensures
            match auth_fault(entry_views(env@)) {
                Some(fault) => r is Err && r->Err_0@ == fault,
                None => r is Ok && r->Ok_0@ == auth_of(entry_views(env@)),
            },
    {
        proof {
            reveal_strlit("upstream");
            reveal_strlit("password");
            assert("upstream"@[0] == 'u');
            assert("password"@[0] == 'p');
        }
        let how = value_or(env, "AUTH_MODE", "upstream");
        if same(how.as_str(), "upstream") {
            let login_url = match required(env, "LOGIN_URL") {
                Ok(url) => url,
                Err(error) => {
                    return Err(error);
                },
            };
            match flag_in(env, "UPSTREAM_VIEWERS", false) {
                Ok(allow_viewers) => Ok(AuthMode::Upstream { login_url, allow_viewers }),
                Err(error) => Err(error),
            }
        } else if same(how.as_str(), "password") {
            let email = match required(env, "ADMIN_EMAIL") {
                Ok(email) => to_lower(email.as_str()),
                Err(error) => {
                    return Err(error);
                },
            };
            let password_hash = match required(env, "ADMIN_PASSWORD_HASH") {
                Ok(hash) => hash,
                Err(error) => {
                    return Err(error);
                },
            };
            let viewer = match value_in(env, "VIEWER_EMAIL") {
                None => None,
                Some(email) => match required(env, "VIEWER_PASSWORD_HASH") {
                    Ok(hash) => Some(
                        LocalAccount { email: to_lower(email.as_str()), password_hash: hash },
                    ),
                    Err(error) => {
                        return Err(error);
                    },
                },
            };
            Ok(AuthMode::Password { admin: LocalAccount { email, password_hash }, viewer })
        } else {
            Err(ConfigError::Invalid { name: "AUTH_MODE".to_owned(), value: how })
        }
    }
}

// ---------------------------------------------------------------------------------------
// Everything
// ---------------------------------------------------------------------------------------

#[derive(Debug)]
pub struct Config {
    pub host: String,
    pub port: u16,
    pub auth: AuthMode,
    /// UI language.
    pub app_lang: Lang,
    /// Where the registered-apps list is persisted.
    pub apps_file: String,
    /// Directory holding one heartbeat history per app.
    pub uptime_dir: String,
    /// Seconds between health checks of every registered app.
    pub uptime_interval_secs: u64,
    /// A health check slower than this many ms is "degraded" (yellow), not "up".
    pub uptime_degraded_ms: u32,
    /// Extra attempts before a failed check is recorded as down.
    pub uptime_retries: u32,
    /// Certificate expiring within this many days marks the app degraded.
    pub uptime_cert_warn_days: u32,
    /// Days of heartbeat history kept.
    pub uptime_retention_days: u32,
    /// Seconds before a check gives up (each app can override it).
    pub uptime_timeout_secs: u32,
    /// Share (%) of monitored apps down at once treated as a mass outage; 0 = off.
    pub uptime_mass_down_pct: u8,
    /// Minutes between "still down" reminders; 0 = no reminders.
    pub alert_remind_mins: u32,
    /// Webhooks notified on status changes (Slack, Discord or generic JSON).
    pub alert_webhook_urls: Vec<String>,
    /// Also alert on up <-> degraded changes (off: only down and recovery).
    pub alert_on_degraded: bool,
    /// Who to ping when an app goes down.
    pub alert_mentions: Vec<String>,
    /// Where alert message templates edited from the settings page are stored.
    pub alert_templates_file: String,
    /// Pinged after every round of checks (dead man's switch for the monitor itself).
    pub heartbeat_ping_url: Option<String>,
    /// Public base URL of this deployment, used for links in alerts.
    pub public_url: Option<String>,
    /// Where sessions are persisted so restarts don't log everyone out.
    pub sessions_file: String,
    /// Where the incident notices are stored.
    pub notices_file: String,
    /// Bearer token for the metrics endpoint; `None` = the endpoint is off.
    pub metrics_token: Option<String>,
    /// Comma-separated hosts registered apps' URLs may point at (`*.example.com` = any
    /// subdomain). Requests carry the admin's token and the shared logs key, so they only go
    /// to these hosts, over https.
    pub allowed_hosts: String,
    /// Mark the session cookie `Secure` (HTTPS-only). Only turn off for local http dev.
    pub cookie_secure: bool,
    /// Shared secret sent on every proxied call to a registered app's logs endpoint, besides
    /// the logged-in user's own session token: a personal token is only meaningful inside the
    /// environment that issued it. `None` = no key is sent.
    pub admin_logs_key: Option<String>,
}

pub open spec fn max32() -> nat {
    u32::MAX as nat
}

/// Seconds between two checks.
pub open spec fn interval(env: Seq<(Seq<char>, Seq<char>)>) -> Option<nat> {
    number(env, "UPTIME_INTERVAL_SECS"@, 60, u64::MAX as nat)
}

pub open spec fn timeout(env: Seq<(Seq<char>, Seq<char>)>) -> Option<nat> {
    number(env, "UPTIME_TIMEOUT_SECS"@, 10, max32())
}

pub open spec fn mass_pct(env: Seq<(Seq<char>, Seq<char>)>) -> Option<nat> {
    number(env, "UPTIME_MASS_DOWN_PCT"@, 50, u8::MAX as nat)
}

/// The fault of a number that has to lie within bounds, if it has one: it is named as it was
/// understood.
pub open spec fn out_of_bounds(
    env: Seq<(Seq<char>, Seq<char>)>,
    name: Seq<char>,
    value: Option<nat>,
    low: nat,
    high: nat,
) -> Option<Fault> {
    match value {
        None => unparsed(env, name, value),
        Some(n) => if low <= n <= high {
            None
        } else {
            Some(Fault::Invalid(name, decimal(n)))
        },
    }
}

/// The first thing that is wrong with the environment, if anything.
pub open spec fn fault(env: Seq<(Seq<char>, Seq<char>)>) -> Option<Fault> {
    first(
        out_of_bounds(env, "UPTIME_INTERVAL_SECS"@, interval(env), 1, u64::MAX as nat),
        first(
            out_of_bounds(
                env,
                "UPTIME_TIMEOUT_SECS"@,
                timeout(env),
                1,
                MAX_TIMEOUT_SECS as nat,
            ),
            first(
                out_of_bounds(env, "UPTIME_MASS_DOWN_PCT"@, mass_pct(env), 0, 100),
                first(
                    unparsed(env, "PORT"@, number(env, "PORT"@, 8090, u16::MAX as nat)),
                    first(auth_fault(env), later_fault(env)),
                ),
            ),
        ),
    )
}

/// The first thing that is wrong with what is read after the logins, if anything.
pub open spec fn later_fault(env: Seq<(Seq<char>, Seq<char>)>) -> Option<Fault> {
    first(
        unparsed(env, "APP_LANG"@, language(env)),
        first(
            unparsed(env, "UPTIME_DEGRADED_MS"@, number(env, "UPTIME_DEGRADED_MS"@, 800, max32())),
            first(
                unparsed(env, "UPTIME_RETRIES"@, number(env, "UPTIME_RETRIES"@, 2, max32())),
                first(
                    unparsed(
                        env,
                        "UPTIME_CERT_WARN_DAYS"@,
                        number(env, "UPTIME_CERT_WARN_DAYS"@, 14, max32()),
                    ),
                    first(
                        unparsed(
                            env,
                            "UPTIME_RETENTION_DAYS"@,
                            number(env, "UPTIME_RETENTION_DAYS"@, 30, max32()),
                        ),
                        first(
                            unparsed(
                                env,
                                "ALERT_REMIND_MINS"@,
                                number(env, "ALERT_REMIND_MINS"@, 60, max32()),
                            ),
                            first(
                                unparsed(
                                    env,
                                    "ALERT_ON_DEGRADED"@,
                                    flag(env, "ALERT_ON_DEGRADED"@, false),
                                ),
                                first(
                                    missing(env, "ALLOWED_HOSTS"@),
                                    unparsed(
                                        env,
                                        "COOKIE_SECURE"@,
                                        flag(env, "COOKIE_SECURE"@, true),
                                    ),
                                ),
                            ),
                        ),
                    ),
                ),
            ),
        ),
    )
}

/// Whether a configuration says what the environment says.
pub open spec fn configured(c: Config, env: Seq<(Seq<char>, Seq<char>)>) -> bool {
    let retention = number(env, "UPTIME_RETENTION_DAYS"@, 30, max32())->0;
    &&& c.host@ == set_or(env, "HOST"@, "0.0.0.0"@)
    &&& number(env, "PORT"@, 8090, u16::MAX as nat) == Some(c.port as nat)
    &&& c.auth@ == auth_of(env)
    &&& language(env) == Some(c.app_lang)
    &&& c.apps_file@ == set_or(env, "APPS_FILE"@, "./data/apps.json"@)
    &&& c.uptime_dir@ == set_or(env, "UPTIME_DIR"@, "./data/uptime"@)
    &&& interval(env) == Some(c.uptime_interval_secs as nat)
    &&& number(env, "UPTIME_DEGRADED_MS"@, 800, max32()) == Some(c.uptime_degraded_ms as nat)
    &&& number(env, "UPTIME_RETRIES"@, 2, max32()) == Some(c.uptime_retries as nat)
    &&& number(env, "UPTIME_CERT_WARN_DAYS"@, 14, max32()) == Some(c.uptime_cert_warn_days as nat)
    &&& c.uptime_retention_days == if retention == 0 {
        1
    } else {
        retention
    }
    &&& timeout(env) == Some(c.uptime_timeout_secs as nat)
    &&& mass_pct(env) == Some(c.uptime_mass_down_pct as nat)
    &&& number(env, "ALERT_REMIND_MINS"@, 60, max32()) == Some(c.alert_remind_mins as nat)
    &&& views(c.alert_webhook_urls@) == list(env, "ALERT_WEBHOOK_URLS"@)
    &&& flag(env, "ALERT_ON_DEGRADED"@, false) == Some(c.alert_on_degraded)
    &&& views(c.alert_mentions@) == list(env, "ALERT_MENTIONS"@)
    &&& c.alert_templates_file@ == set_or(
        env,
        "ALERT_TEMPLATES_FILE"@,
        "./data/alert_templates.json"@,
    )
    &&& opt_view(c.heartbeat_ping_url) == set(env, "HEARTBEAT_PING_URL"@)
    &&& opt_view(c.public_url) == set(env, "PUBLIC_URL"@)
    &&& c.sessions_file@ == set_or(env, "SESSIONS_FILE"@, "./data/sessions.json"@)
    &&& c.notices_file@ == set_or(env, "NOTICES_FILE"@, "./data/notices.json"@)
    &&& opt_view(c.metrics_token) == set(env, "METRICS_TOKEN"@)
    &&& set(env, "ALLOWED_HOSTS"@) == Some(c.allowed_hosts@)
    &&& flag(env, "COOKIE_SECURE"@, true) == Some(c.cookie_secure)
    &&& opt_view(c.admin_logs_key) == set(env, "ADMIN_LOGS_KEY"@)
}

fn bounded_in(env: &Env, name: &str, default: u64, max: u64, low: u64, high: u64) -> (r: Result<
    u64,
    ConfigError,
>)
    requires
        default <= max,
    ensures
        ({
            let want = number(entry_views(env@), name@, default as nat, max as nat);
            match r {
                Ok(n) => low <= n <= high && n <= max && want == Some(n as nat),
                Err(error) => out_of_bounds(
                    entry_views(env@),
                    name@,
                    want,
                    low as nat,
                    high as nat,
                ) == Some(error@),
            }
        }),
{
    match number_in(env, name, default, max) {
        Err(error) => Err(error),
        Ok(n) => if low <= n && n <= high {
            Ok(n)
        } else {
            Err(ConfigError::Invalid { name: name.to_owned(), value: decimal_text(n) })
        },
    }
}

impl Config {
    /// The settings that the environment makes. A value that is set but doesn't parse is an
    /// error rather than a silent fallback: a typo shouldn't quietly change behavior. What
    /// names the deployment's own login server and hosts has no default.
    pub fn from_env(env: &Env) -> (r: Result<Self, ConfigError>)
        ensures
            match fault(entry_views(env@)) {
                Some(fault) => r is Err && r->Err_0@ == fault,
                None => r is Ok && configured(r->Ok_0, entry_views(env@)),
            },
    {
        let uptime_interval_secs = match bounded_in(
            env,
            "UPTIME_INTERVAL_SECS",
            60,
            u64::MAX,
            1,
            u64::MAX,
        ) {
            Ok(n) => n,
            Err(error) => {
                return Err(error);
            },
        };
        let uptime_timeout_secs = match bounded_in(
            env,
            "UPTIME_TIMEOUT_SECS",
            10,
            u32::MAX as u64,
            1,
            MAX_TIMEOUT_SECS as u64,
        ) {
            Ok(n) => n as u32,
            Err(error) => {
                return Err(error);
            },
        };
        let uptime_mass_down_pct = match bounded_in(
            env,
            "UPTIME_MASS_DOWN_PCT",
            50,
            u8::MAX as u64,
            0,
            100,
        ) {
            Ok(n) => n as u8,
            Err(error) => {
                return Err(error);
            },
        };
        let port = match number_in(env, "PORT", 8090, u16::MAX as u64) {
            Ok(n) => n as u16,
            Err(error) => {
                return Err(error);
            },
        };
        let auth = match AuthMode::from_env(env) {
            Ok(auth) => auth,
            Err(error) => {
                return Err(error);
            },
        };
        let app_lang = match lang_in(env) {
            Ok(lang) => lang,
            Err(error) => {
                return Err(error);
            },
        };
        let uptime_degraded_ms = match number_in(env, "UPTIME_DEGRADED_MS", 800, u32::MAX as u64) {
            Ok(n) => n as u32,
            Err(error) => {
                return Err(error);
            },
        };
        let uptime_retries = match number_in(env, "UPTIME_RETRIES", 2, u32::MAX as u64) {
            Ok(n) => n as u32,
            Err(error) => {
                return Err(error);
            },
        };
        let uptime_cert_warn_days = match number_in(
            env,
            "UPTIME_CERT_WARN_DAYS",
            14,
            u32::MAX as u64,
        ) {
            Ok(n) => n as u32,
            Err(error) => {
                return Err(error);
            },
        };
        let uptime_retention_days: u32 = match number_in(
            env,
            "UPTIME_RETENTION_DAYS",
            30,
            u32::MAX as u64,
        ) {
            Ok(n) => if n == 0 {
                1
            } else {
                n as u32
            },
            Err(error) => {
                return Err(error);
            },
        };
        let alert_remind_mins = match number_in(env, "ALERT_REMIND_MINS", 60, u32::MAX as u64) {
            Ok(n) => n as u32,
            Err(error) => {
                return Err(error);
            },
        };
        let alert_on_degraded = match flag_in(env, "ALERT_ON_DEGRADED", false) {
            Ok(b) => b,
            Err(error) => {
                return Err(error);
            },
        };
        let allowed_hosts = match required(env, "ALLOWED_HOSTS") {
            Ok(hosts) => hosts,
            Err(error) => {
                return Err(error);
            },
        };
        let cookie_secure = match flag_in(env, "COOKIE_SECURE", true) {
            Ok(b) => b,
            Err(error) => {
                return Err(error);
            },
        };
        Ok(
            Config {
                host: value_or(env, "HOST", "0.0.0.0"),
                port,
                auth,
                app_lang,
                apps_file: value_or(env, "APPS_FILE", "./data/apps.json"),
                uptime_dir: value_or(env, "UPTIME_DIR", "./data/uptime"),
                uptime_interval_secs,
                uptime_degraded_ms,
                uptime_retries,
                uptime_cert_warn_days,
                uptime_retention_days,
                uptime_timeout_secs,
                uptime_mass_down_pct,
                alert_remind_mins,
                alert_webhook_urls: list_in(env, "ALERT_WEBHOOK_URLS"),
                alert_on_degraded,
                alert_mentions: list_in(env, "ALERT_MENTIONS"),
                alert_templates_file: value_or(
                    env,
                    "ALERT_TEMPLATES_FILE",
                    "./data/alert_templates.json",
                ),
                heartbeat_ping_url: value_in(env, "HEARTBEAT_PING_URL"),
                public_url: value_in(env, "PUBLIC_URL"),
                sessions_file: value_or(env, "SESSIONS_FILE", "./data/sessions.json"),
                notices_file: value_or(env, "NOTICES_FILE", "./data/notices.json"),
                metrics_token: value_in(env, "METRICS_TOKEN"),
                allowed_hosts,
                cookie_secure,
                admin_logs_key: value_in(env, "ADMIN_LOGS_KEY"),
            },
        )
    }

    /// How apps are checked, in seconds where the settings count days.
    pub fn check_policy(&self) -> (r: CheckPolicy)
        ensures
            r.interval == self.uptime_interval_secs,
            r.degraded_after_ms == self.uptime_degraded_ms,
            r.retries == self.uptime_retries,
            r.cert_warn_days == self.uptime_cert_warn_days,
            r.retention == self.uptime_retention_days * 86_400,
            r.timeout == self.uptime_timeout_secs,
            r.mass_down_pct == self.uptime_mass_down_pct,
            r.lang == self.app_lang,
    {
        CheckPolicy {
            interval: self.uptime_interval_secs,
            degraded_after_ms: self.uptime_degraded_ms,
            retries: self.uptime_retries,
            cert_warn_days: self.uptime_cert_warn_days,
            retention: self.uptime_retention_days as u64 * 86_400,
            timeout: self.uptime_timeout_secs as u64,
            mass_down_pct: self.uptime_mass_down_pct,
            lang: self.app_lang,
        }
    }

    /// Who is alerted and when, in seconds where the settings count minutes.
    pub fn alert_settings(&self, templates: TemplateStore) -> (r: AlertSettings)
        ensures
            r.webhook_urls@ == self.alert_webhook_urls@,
            r.on_degraded == self.alert_on_degraded,
            r.public_url == self.public_url,
            r.mentions@ == self.alert_mentions@,
            r.templates == Some(templates),
            r.remind_after is Some,
            r.remind_after->0 == self.alert_remind_mins * 60,
    {
        AlertSettings {
            webhook_urls: copied(&self.alert_webhook_urls),
            on_degraded: self.alert_on_degraded,
            public_url: match &self.public_url {
                Some(url) => Some(url.clone()),
                None => None,
            },
            mentions: copied(&self.alert_mentions),
            templates: Some(templates),
            remind_after: Some(self.alert_remind_mins as u64 * 60),
        }
    }
}

// ---------------------------------------------------------------------------------------
// What holds of every environment
// ---------------------------------------------------------------------------------------

/// No configuration is made without the hosts that requests may go to.
pub proof fn lemma_hosts_are_required(env: Seq<(Seq<char>, Seq<char>)>)
    requires
        set(env, "ALLOWED_HOSTS"@) is None,
    ensures
        fault(env) is Some,
{
}

/// A configuration that is made keeps every interval above zero and the share of apps within a
/// hundred percent.
pub proof fn lemma_configured_numbers_are_in_bounds(c: Config, env: Seq<(Seq<char>, Seq<char>)>)
    requires
        fault(env) is None,
        configured(c, env),
    ensures
        c.uptime_interval_secs >= 1,
        1 <= c.uptime_timeout_secs <= MAX_TIMEOUT_SECS,
        c.uptime_mass_down_pct <= 100,
        c.uptime_retention_days >= 1,
{
}

/// A blank variable is as good as none.
pub proof fn lemma_blank_is_unset(env: Seq<(Seq<char>, Seq<char>)>, name: Seq<char>)
    requires
        env_value(env, name) is Some,
        trim(env_value(env, name)->0).len() == 0,
    ensures
        set(env, name) is None,
{
}

} // verus!
