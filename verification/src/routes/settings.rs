//! The settings page: the current configuration, read-only, as it comes from the environment.

use vstd::prelude::*;

use crate::alerts::alerter::TestKind;
use crate::config::AuthMode;
use crate::config::Config;
use crate::i18n::lang_code;
use crate::registry::opt_copy;

verus! {

/// Configuration as the page shows it: secrets reduced to "set / not set".
#[derive(Debug)]
pub struct ConfigView {
    pub auth_mode: &'static str,
    pub login_url: Option<String>,
    pub admin_email: Option<String>,
    pub app_lang: &'static str,
    pub public_url: Option<String>,
    pub allowed_hosts: String,
    pub admin_logs_key: bool,
    pub interval_secs: u64,
    pub degraded_ms: u32,
    pub retries: u32,
    pub cert_warn_days: u32,
    pub retention_days: u32,
    pub dead_mans_switch: bool,
    pub alert_on_degraded: bool,
    pub timeout_secs: u32,
    pub mass_down_pct: u8,
    pub remind_mins: u32,
}

/// What the page calls a way to log in.
pub fn mode_name(auth: &AuthMode) -> (r: &'static str)
    ensures
        r@ == match auth {
            AuthMode::Upstream { .. } => "upstream"@,
            AuthMode::Password { .. } => "password"@,
        },
{
    match auth {
        AuthMode::Upstream { .. } => "upstream",
        AuthMode::Password { .. } => "password",
    }
}

/// Whether a view shows a configuration, its secrets left out.
pub open spec fn shows(view: ConfigView, cfg: Config) -> bool {
    &&& match cfg.auth {
        AuthMode::Upstream { login_url, .. } => view.auth_mode@ == "upstream"@ && view.login_url
            == Some(login_url) && view.admin_email is None,
        AuthMode::Password { admin, .. } => view.auth_mode@ == "password"@ && view.login_url is None
            && view.admin_email == Some(admin.email),
    }
    &&& view.app_lang@ == lang_code(cfg.app_lang)
    &&& view.public_url == cfg.public_url
    &&& view.allowed_hosts == cfg.allowed_hosts
    &&& view.admin_logs_key == (cfg.admin_logs_key is Some)
    &&& view.interval_secs == cfg.uptime_interval_secs
    &&& view.degraded_ms == cfg.uptime_degraded_ms
    &&& view.retries == cfg.uptime_retries
    &&& view.cert_warn_days == cfg.uptime_cert_warn_days
    &&& view.retention_days == cfg.uptime_retention_days
    &&& view.dead_mans_switch == (cfg.heartbeat_ping_url is Some)
    &&& view.alert_on_degraded == cfg.alert_on_degraded
    &&& view.timeout_secs == cfg.uptime_timeout_secs
    &&& view.mass_down_pct == cfg.uptime_mass_down_pct
    &&& view.remind_mins == cfg.alert_remind_mins
}

impl ConfigView {
    /// A configuration, its secrets left out.
    pub fn of(cfg: &Config) -> (r: Self)
        ensures
            shows(r, *cfg),
    {
        let (login_url, admin_email) = match &cfg.auth {
            AuthMode::Upstream { login_url, .. } => (Some(login_url.clone()), None),
            AuthMode::Password { admin, .. } => (None, Some(admin.email.clone())),
        };
        ConfigView {
            auth_mode: mode_name(&cfg.auth),
            login_url,
            admin_email,
            app_lang: cfg.app_lang.code(),
            public_url: opt_copy(&cfg.public_url),
            allowed_hosts: cfg.allowed_hosts.clone(),
            admin_logs_key: cfg.admin_logs_key.is_some(),
            interval_secs: cfg.uptime_interval_secs,
            degraded_ms: cfg.uptime_degraded_ms,
            retries: cfg.uptime_retries,
            cert_warn_days: cfg.uptime_cert_warn_days,
            retention_days: cfg.uptime_retention_days,
            dead_mans_switch: cfg.heartbeat_ping_url.is_some(),
            alert_on_degraded: cfg.alert_on_degraded,
            timeout_secs: cfg.uptime_timeout_secs,
            mass_down_pct: cfg.uptime_mass_down_pct,
            remind_mins: cfg.alert_remind_mins,
        }
    }
}

/// What a test of the alerts asks for.
#[derive(Debug, Clone, Copy)]
pub struct TestRequest {
    /// Webhook index; absent = every webhook.
    pub target: Option<usize>,
    pub kind: TestKind,
}

} // verus!
