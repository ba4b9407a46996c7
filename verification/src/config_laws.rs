//! What holds of every configuration: what an environment needs, and what becomes of it.

use vstd::prelude::*;

use crate::config::auth_fault;
use crate::config::configured;
use crate::config::env_value;
use crate::config::fault;
use crate::config::first;
use crate::config::flag;
use crate::config::interval;
use crate::config::language;
use crate::config::list;
use crate::config::mass_pct;
use crate::config::missing;
use crate::config::number;
use crate::config::out_of_bounds;
use crate::config::set_or;
use crate::config::timeout;
use crate::config::unparsed;
use crate::config::Config;
use crate::config::Fault;
use crate::i18n::lang_named;
use crate::i18n::Lang;
use crate::text::decimal;
use crate::text::nonblank;
use crate::text::split;
use crate::text::trim;
use crate::text::unicode_lower;
use crate::text::unsigned;
use crate::text::views;

verus! {

/// What a variable holds, trimmed, where it is set and not blank.
pub open spec fn given(env: Seq<(Seq<char>, Seq<char>)>, name: Seq<char>) -> Option<Seq<char>> {
    crate::config::set(env, name)
}

/// A variable has its first value; unset or blank it has none, and what it has is trimmed.
pub proof fn lemma_variables_are_read(env: Seq<(Seq<char>, Seq<char>)>, name: Seq<char>)
    ensures
        match given(env, name) {
            Some(value) => value.len() > 0 && exists|i: int|
                0 <= i < env.len() && (#[trigger] env[i]).0 == name && trim(env[i].1) == value
                    && forall|j: int| 0 <= j < i ==> (#[trigger] env[j]).0 != name,
            None => (forall|j: int| 0 <= j < env.len() ==> (#[trigger] env[j]).0 != name)
                || exists|i: int|
                0 <= i < env.len() && (#[trigger] env[i]).0 == name && trim(env[i].1).len() == 0
                    && forall|j: int| 0 <= j < i ==> (#[trigger] env[j]).0 != name,
        },
{
    lemma_env_value(env, name);
}

proof fn lemma_env_value(env: Seq<(Seq<char>, Seq<char>)>, name: Seq<char>)
    ensures
        match env_value(env, name) {
            Some(value) => exists|i: int|
                0 <= i < env.len() && (#[trigger] env[i]).0 == name && env[i].1 == value
                    && forall|j: int| 0 <= j < i ==> (#[trigger] env[j]).0 != name,
            None => forall|j: int| 0 <= j < env.len() ==> (#[trigger] env[j]).0 != name,
        },
    decreases env.len(),
{
    if env.len() > 0 {
        if env[0].0 != name {
            let rest = env.skip(1);
            lemma_env_value(rest, name);
            if env_value(rest, name) is Some {
                let i = choose|i: int|
                    0 <= i < rest.len() && (#[trigger] rest[i]).0 == name && rest[i].1
                        == env_value(rest, name)->0 && forall|j: int|
                        0 <= j < i ==> (#[trigger] rest[j]).0 != name;
                assert(env[i + 1] == rest[i]);
                assert forall|j: int| 0 <= j < i + 1 implies (#[trigger] env[j]).0 != name by {
                    if j > 0 {
                        assert(rest[j - 1] == env[j]);
                    }
                }
            } else {
                assert forall|j: int| 0 <= j < env.len() implies (#[trigger] env[j]).0 != name by {
                    if j > 0 {
                        assert(rest[j - 1] == env[j]);
                    }
                }
            }
        } else {
            assert(env[0].0 == name);
        }
    }
}

/// What a variable is understood as: a text, a number, a truth value or a list, with a default
/// where it isn't set.
pub proof fn lemma_values_are_understood(
    env: Seq<(Seq<char>, Seq<char>)>,
    name: Seq<char>,
    text: Seq<char>,
    n: nat,
    max: nat,
    on: bool,
)
    ensures
        given(env, name) is None ==> set_or(env, name, text) == text && number(env, name, n, max)
            == Some(n) && flag(env, name, on) == Some(on) && list(env, name).len() == 0,
        given(env, name) is Some ==> {
            let value = given(env, name)->0;
            &&& set_or(env, name, text) == value
            &&& number(env, name, n, max) == unsigned(value, max)
            &&& flag(env, name, on) == Some(true) <==> value == "true"@
            &&& flag(env, name, on) == Some(false) <==> value == "false"@
            &&& list(env, name) == nonblank(split(value, ','))
        },
        given(env, "APP_LANG"@) is None ==> language(env) == Some(Lang::Es),
        given(env, "APP_LANG"@) is Some ==> language(env) == lang_named(given(env, "APP_LANG"@)->0),
{
    reveal_strlit("true");
    reveal_strlit("false");
    assert("true"@.len() != "false"@.len());
}

/// Whether a variable, where it is set, is a number between two others.
pub open spec fn sound(env: Seq<(Seq<char>, Seq<char>)>, name: Seq<char>, low: nat, high: nat) -> bool {
    given(env, name) is Some ==> unsigned(given(env, name)->0, u64::MAX as nat) is Some && low
        <= unsigned(given(env, name)->0, u64::MAX as nat)->0 <= high
}

/// Whether a variable, where it is set, says `true` or `false`.
pub open spec fn yes_or_no(env: Seq<(Seq<char>, Seq<char>)>, name: Seq<char>) -> bool {
    given(env, name) is Some ==> given(env, name)->0 == "true"@ || given(env, name)->0 == "false"@
}

/// What isn't set has its default.
pub proof fn lemma_defaults(c: Config, env: Seq<(Seq<char>, Seq<char>)>)
    requires
        fault(env) is None,
        configured(c, env),
    ensures
        given(env, "HOST"@) is None ==> c.host@ == "0.0.0.0"@,
        given(env, "APPS_FILE"@) is None ==> c.apps_file@ == "./data/apps.json"@,
        given(env, "UPTIME_DIR"@) is None ==> c.uptime_dir@ == "./data/uptime"@,
        given(env, "ALERT_TEMPLATES_FILE"@) is None ==> c.alert_templates_file@ == "./data/alert_templates.json"@,
        given(env, "SESSIONS_FILE"@) is None ==> c.sessions_file@ == "./data/sessions.json"@,
        given(env, "NOTICES_FILE"@) is None ==> c.notices_file@ == "./data/notices.json"@,
        given(env, "PORT"@) is None ==> c.port == 8090,
        given(env, "UPTIME_INTERVAL_SECS"@) is None ==> c.uptime_interval_secs == 60,
        given(env, "UPTIME_DEGRADED_MS"@) is None ==> c.uptime_degraded_ms == 800,
        given(env, "UPTIME_RETRIES"@) is None ==> c.uptime_retries == 2,
        given(env, "UPTIME_CERT_WARN_DAYS"@) is None ==> c.uptime_cert_warn_days == 14,
        given(env, "UPTIME_TIMEOUT_SECS"@) is None ==> c.uptime_timeout_secs == 10,
        given(env, "UPTIME_MASS_DOWN_PCT"@) is None ==> c.uptime_mass_down_pct == 50,
        given(env, "ALERT_REMIND_MINS"@) is None ==> c.alert_remind_mins == 60,
        given(env, "UPTIME_RETENTION_DAYS"@) is None ==> c.uptime_retention_days == 30,
        given(env, "ALERT_ON_DEGRADED"@) is None ==> c.alert_on_degraded == false,
        given(env, "COOKIE_SECURE"@) is None ==> c.cookie_secure == true,
        given(env, "HEARTBEAT_PING_URL"@) is None ==> c.heartbeat_ping_url is None,
        given(env, "PUBLIC_URL"@) is None ==> c.public_url is None,
        given(env, "METRICS_TOKEN"@) is None ==> c.metrics_token is None,
        given(env, "ADMIN_LOGS_KEY"@) is None ==> c.admin_logs_key is None,
        given(env, "ALERT_WEBHOOK_URLS"@) is None ==> c.alert_webhook_urls@.len() == 0,
        given(env, "ALERT_MENTIONS"@) is None ==> c.alert_mentions@.len() == 0,
        given(env, "APP_LANG"@) is None ==> c.app_lang == Lang::Es,
        given(env, "AUTH_MODE"@) is None ==> c.auth is Upstream,
{
    reveal_strlit("upstream");
    reveal_strlit("password");
    assert(given(env, "ALERT_WEBHOOK_URLS"@) is None ==> views(c.alert_webhook_urls@).len() == 0);
    assert(given(env, "ALERT_MENTIONS"@) is None ==> views(c.alert_mentions@).len() == 0);
}

/// What is set counts: as the text, number, truth value or list that it writes.
pub proof fn lemma_what_is_set_counts(c: Config, env: Seq<(Seq<char>, Seq<char>)>)
    requires
        fault(env) is None,
        configured(c, env),
    ensures
        given(env, "HOST"@) is Some ==> given(env, "HOST"@) == Some(c.host@),
        given(env, "APPS_FILE"@) is Some ==> given(env, "APPS_FILE"@) == Some(c.apps_file@),
        given(env, "UPTIME_DIR"@) is Some ==> given(env, "UPTIME_DIR"@) == Some(c.uptime_dir@),
        given(env, "ALERT_TEMPLATES_FILE"@) is Some ==> given(env, "ALERT_TEMPLATES_FILE"@) == Some(c.alert_templates_file@),
        given(env, "SESSIONS_FILE"@) is Some ==> given(env, "SESSIONS_FILE"@) == Some(c.sessions_file@),
        given(env, "NOTICES_FILE"@) is Some ==> given(env, "NOTICES_FILE"@) == Some(c.notices_file@),
        given(env, "PORT"@) is Some ==> unsigned(given(env, "PORT"@)->0, u64::MAX as nat) == Some(
            c.port as nat,
        ),
        given(env, "UPTIME_INTERVAL_SECS"@) is Some ==> unsigned(given(env, "UPTIME_INTERVAL_SECS"@)->0, u64::MAX as nat) == Some(
            c.uptime_interval_secs as nat,
        ),
        given(env, "UPTIME_DEGRADED_MS"@) is Some ==> unsigned(given(env, "UPTIME_DEGRADED_MS"@)->0, u64::MAX as nat) == Some(
            c.uptime_degraded_ms as nat,
        ),
        given(env, "UPTIME_RETRIES"@) is Some ==> unsigned(given(env, "UPTIME_RETRIES"@)->0, u64::MAX as nat) == Some(
            c.uptime_retries as nat,
        ),
        given(env, "UPTIME_CERT_WARN_DAYS"@) is Some ==> unsigned(given(env, "UPTIME_CERT_WARN_DAYS"@)->0, u64::MAX as nat) == Some(
            c.uptime_cert_warn_days as nat,
        ),
        given(env, "UPTIME_TIMEOUT_SECS"@) is Some ==> unsigned(given(env, "UPTIME_TIMEOUT_SECS"@)->0, u64::MAX as nat) == Some(
            c.uptime_timeout_secs as nat,
        ),
        given(env, "UPTIME_MASS_DOWN_PCT"@) is Some ==> unsigned(given(env, "UPTIME_MASS_DOWN_PCT"@)->0, u64::MAX as nat) == Some(
            c.uptime_mass_down_pct as nat,
        ),
        given(env, "ALERT_REMIND_MINS"@) is Some ==> unsigned(given(env, "ALERT_REMIND_MINS"@)->0, u64::MAX as nat) == Some(
            c.alert_remind_mins as nat,
        ),
        given(env, "UPTIME_RETENTION_DAYS"@) is Some ==> {
            let days = unsigned(given(env, "UPTIME_RETENTION_DAYS"@)->0, u64::MAX as nat);
            &&& days is Some
            &&& days->0 >= 1 ==> c.uptime_retention_days == days->0
            &&& days->0 == 0 ==> c.uptime_retention_days == 1
        },
        given(env, "ALERT_ON_DEGRADED"@) is Some ==> (c.alert_on_degraded <==> given(env, "ALERT_ON_DEGRADED"@)->0 == "true"@),
        given(env, "COOKIE_SECURE"@) is Some ==> (c.cookie_secure <==> given(env, "COOKIE_SECURE"@)->0 == "true"@),
        given(env, "HEARTBEAT_PING_URL"@) is Some ==> c.heartbeat_ping_url is Some && c.heartbeat_ping_url->0@ == given(
            env,
            "HEARTBEAT_PING_URL"@,
        )->0,
        given(env, "PUBLIC_URL"@) is Some ==> c.public_url is Some && c.public_url->0@ == given(
            env,
            "PUBLIC_URL"@,
        )->0,
        given(env, "METRICS_TOKEN"@) is Some ==> c.metrics_token is Some && c.metrics_token->0@ == given(
            env,
            "METRICS_TOKEN"@,
        )->0,
        given(env, "ADMIN_LOGS_KEY"@) is Some ==> c.admin_logs_key is Some && c.admin_logs_key->0@ == given(
            env,
            "ADMIN_LOGS_KEY"@,
        )->0,
        given(env, "ALERT_WEBHOOK_URLS"@) is Some ==> views(c.alert_webhook_urls@) == nonblank(
            split(given(env, "ALERT_WEBHOOK_URLS"@)->0, ','),
        ),
        given(env, "ALERT_MENTIONS"@) is Some ==> views(c.alert_mentions@) == nonblank(
            split(given(env, "ALERT_MENTIONS"@)->0, ','),
        ),
        given(env, "APP_LANG"@) is Some ==> lang_named(given(env, "APP_LANG"@)->0) == Some(c.app_lang),
        given(env, "ALLOWED_HOSTS"@) == Some(c.allowed_hosts@),
{
    reveal_strlit("true");
    reveal_strlit("false");
}

/// How the login is set up: with the server's URL and whether viewers are let in, or with the
/// accounts of an admin and, where an email is given, of a viewer.
pub proof fn lemma_logins_are_set_up(c: Config, env: Seq<(Seq<char>, Seq<char>)>)
    requires
        fault(env) is None,
        configured(c, env),
    ensures
        c.auth is Upstream <==> given(env, "AUTH_MODE"@) is None || given(env, "AUTH_MODE"@)->0
            == "upstream"@,
        c.auth is Password <==> given(env, "AUTH_MODE"@) is Some && given(env, "AUTH_MODE"@)->0
            == "password"@,
        c.auth is Upstream ==> Some(c.auth->login_url@) == given(env, "LOGIN_URL"@) && (
        c.auth->allow_viewers <==> given(env, "UPSTREAM_VIEWERS"@) is Some && given(
            env,
            "UPSTREAM_VIEWERS"@,
        )->0 == "true"@),
        c.auth is Password ==> {
            let admin = c.auth->admin;
            let viewer = c.auth->viewer;
            &&& given(env, "ADMIN_EMAIL"@) is Some && admin.email@ == unicode_lower(
                given(env, "ADMIN_EMAIL"@)->0,
            )
            &&& Some(admin.password_hash@) == given(env, "ADMIN_PASSWORD_HASH"@)
            &&& viewer is Some <==> given(env, "VIEWER_EMAIL"@) is Some
            &&& viewer is Some ==> viewer->0.email@ == unicode_lower(given(env, "VIEWER_EMAIL"@)->0)
                && Some(viewer->0.password_hash@) == given(env, "VIEWER_PASSWORD_HASH"@)
        },
{
    reveal_strlit("upstream");
    reveal_strlit("password");
    reveal_strlit("true");
    reveal_strlit("false");
    assert("upstream"@[0] == 'u');
    assert("password"@[0] == 'p');
}

/// The logins are set up as they have to be exactly where the way is known and what it needs is
/// there.
pub proof fn lemma_what_logins_need(env: Seq<(Seq<char>, Seq<char>)>)
    ensures
        auth_fault(env) is None <==> {
            let way = given(env, "AUTH_MODE"@);
            ||| {
                &&& way is None || way->0 == "upstream"@
                &&& given(env, "LOGIN_URL"@) is Some
                &&& yes_or_no(env, "UPSTREAM_VIEWERS"@)
            }
            ||| {
                &&& way is Some && way->0 == "password"@
                &&& given(env, "ADMIN_EMAIL"@) is Some
                &&& given(env, "ADMIN_PASSWORD_HASH"@) is Some
                &&& given(env, "VIEWER_EMAIL"@) is Some ==> given(env, "VIEWER_PASSWORD_HASH"@) is Some
            }
        },
{
    reveal_strlit("upstream");
    reveal_strlit("password");
    assert("upstream"@[0] == 'u');
    assert("password"@[0] == 'p');
}

/// An environment is accepted exactly where every number is one, within its bounds, every truth
/// value is one, the language is known, the hosts are named and the logins are set up.
pub proof fn lemma_what_environments_need(env: Seq<(Seq<char>, Seq<char>)>)
    ensures
        fault(env) is None <==> {
            &&& sound(env, "UPTIME_INTERVAL_SECS"@, 1, 0xffff_ffff_ffff_ffff)
            &&& sound(env, "UPTIME_TIMEOUT_SECS"@, 1, 60)
            &&& sound(env, "UPTIME_MASS_DOWN_PCT"@, 0, 100)
            &&& sound(env, "PORT"@, 0, 65_535)
            &&& sound(env, "UPTIME_DEGRADED_MS"@, 0, 0xffff_ffff)
            &&& sound(env, "UPTIME_RETRIES"@, 0, 0xffff_ffff)
            &&& sound(env, "UPTIME_CERT_WARN_DAYS"@, 0, 0xffff_ffff)
            &&& sound(env, "UPTIME_RETENTION_DAYS"@, 0, 0xffff_ffff)
            &&& sound(env, "ALERT_REMIND_MINS"@, 0, 0xffff_ffff)
            &&& yes_or_no(env, "ALERT_ON_DEGRADED"@)
            &&& yes_or_no(env, "COOKIE_SECURE"@)
            &&& given(env, "ALLOWED_HOSTS"@) is Some
            &&& given(env, "APP_LANG"@) is Some ==> lang_named(given(env, "APP_LANG"@)->0) is Some
            &&& auth_fault(env) is None
        },
{
}

/// A variable that has to be there and isn't is named, and so is one that can't be understood,
/// with what it holds; of two faults the first one counts.
pub proof fn lemma_faults_name_the_variable(
    env: Seq<(Seq<char>, Seq<char>)>,
    name: Seq<char>,
    n: nat,
    low: nat,
    high: nat,
    a: Option<Fault>,
    b: Option<Fault>,
)
    ensures
        given(env, name) is None ==> missing(env, name) == Some(Fault::Missing(name)),
        given(env, name) is Some ==> missing(env, name) is None,
        unparsed(env, name, None::<nat>) == Some(Fault::Invalid(name, given(env, name)->0)),
        unparsed(env, name, Some(n)) is None,
        out_of_bounds(env, name, Some(n), low, high) is None <==> low <= n && n <= high,
        n < low || high < n ==> out_of_bounds(env, name, Some(n), low, high) == Some(
            Fault::Invalid(name, decimal(n)),
        ),
        a is Some ==> first(a, b) == a,
        a is None ==> first(a, b) == b,
{
}

/// Faults are looked for in one order: the interval, the timeout, the share of a mass outage and
/// the port come before the logins, and the logins before the rest.
pub proof fn lemma_faults_come_in_order(env: Seq<(Seq<char>, Seq<char>)>)
    ensures
        out_of_bounds(env, "UPTIME_INTERVAL_SECS"@, interval(env), 1, u64::MAX as nat) is Some
            ==> fault(env) == out_of_bounds(
            env,
            "UPTIME_INTERVAL_SECS"@,
            interval(env),
            1,
            u64::MAX as nat,
        ),
        sound(env, "UPTIME_INTERVAL_SECS"@, 1, u64::MAX as nat) && out_of_bounds(
            env,
            "UPTIME_TIMEOUT_SECS"@,
            timeout(env),
            1,
            60,
        ) is Some ==> fault(env) == out_of_bounds(env, "UPTIME_TIMEOUT_SECS"@, timeout(env), 1, 60),
        sound(env, "UPTIME_INTERVAL_SECS"@, 1, u64::MAX as nat) && sound(
            env,
            "UPTIME_TIMEOUT_SECS"@,
            1,
            60,
        ) && out_of_bounds(env, "UPTIME_MASS_DOWN_PCT"@, mass_pct(env), 0, 100) is Some ==> fault(
            env,
        ) == out_of_bounds(env, "UPTIME_MASS_DOWN_PCT"@, mass_pct(env), 0, 100),
        sound(env, "UPTIME_INTERVAL_SECS"@, 1, u64::MAX as nat) && sound(
            env,
            "UPTIME_TIMEOUT_SECS"@,
            1,
            60,
        ) && sound(env, "UPTIME_MASS_DOWN_PCT"@, 0, 100) && sound(env, "PORT"@, 0, 65_535)
            && auth_fault(env) is Some ==> fault(env) == auth_fault(env),
{
}

} // verus!
