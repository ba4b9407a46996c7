use heartbeat::alert_templates::AlertTemplates;
use heartbeat::alert_templates::TemplateStore;
use heartbeat::assets::etag;
use heartbeat::assets::is_fresh;
use heartbeat::auth::Role;
use heartbeat::auth::SessionStore;
use heartbeat::config::AuthMode;
use heartbeat::config::Config;
use heartbeat::config::ConfigError;
use heartbeat::config::Env;
use heartbeat::config::LocalAccount;
use heartbeat::i18n::I18n;
use heartbeat::i18n::Lang;
use heartbeat::i18n::Localize;
use heartbeat::login::authenticate_password;
use heartbeat::login::authenticate_upstream;
use heartbeat::login::count_attempt;
use heartbeat::login::password_verdict;
use heartbeat::login::throttled;
use heartbeat::login::upstream_verdict;
use heartbeat::login::LoginFailure;
use heartbeat::login::LoginFields;
use heartbeat::login::LoginForm;
use heartbeat::login::LoginReply;
use heartbeat::outbound::is_public;
use heartbeat::outbound::reachable;
use heartbeat::outbound::HealthTarget;
use heartbeat::outbound::Ip;
use heartbeat::outbound::Outbound;
use heartbeat::outbound::OutboundError;
use heartbeat::password::entered;
use heartbeat::password::hash;
use heartbeat::password::hash_with;
use heartbeat::password::verify;
use heartbeat::password::HashError;
use heartbeat::security::client_ip;
use heartbeat::security::csrf;
use heartbeat::security::headers;
use heartbeat::security::is_same_origin;
use heartbeat::security::Header;
use heartbeat::security::LoginLimiter;
use heartbeat::security::LOGIN_MAX_FAILURES;
use heartbeat::security::LOGIN_WINDOW;
use heartbeat::token::hex_of;
use heartbeat::token::random_hex;
use heartbeat::token::secret_matches;

const NOW: u64 = 1_700_000_000;
const MILLIS: u64 = NOW * 1000;
const ADMIN_EMAIL: &str = "admin@example.com";
const VIEWER_EMAIL: &str = "viewer@example.com";
const ADMIN_PASSWORD: &str = "correct horse";

fn text(value: &str) -> Header {
    Header::Text(value.to_string())
}

#[test]
fn same_origin_requires_a_matching_origin_or_referer() {
    assert!(is_same_origin(
        &text("status.example.com"),
        &text("https://status.example.com"),
        &Header::Absent
    ));
    assert!(is_same_origin(
        &text("localhost:8090"),
        &Header::Absent,
        &text("http://localhost:8090/apps")
    ));
    for (origin, why) in [
        (Some("https://evil.example.com"), "other host"),
        (Some("https://status.example.com.evil.com"), "prefix trick"),
        (Some("null"), "opaque origin"),
        (None, "no origin nor referer"),
    ] {
        let origin = match origin {
            Some(o) => text(o),
            None => Header::Absent,
        };
        assert!(
            !is_same_origin(&text("status.example.com"), &origin, &Header::Absent),
            "{why}"
        );
    }
}

#[test]
fn cross_origin_posts_are_rejected_before_any_handler() {
    let host = text("localhost:8090");
    for origin in [Header::Absent, text("https://evil.example.com")] {
        assert!(!csrf("POST", &host, &origin, &Header::Absent));
        assert!(csrf("GET", &host, &origin, &Header::Absent));
        assert!(csrf("HEAD", &host, &origin, &Header::Absent));
        assert!(!csrf("OPTIONS", &host, &origin, &Header::Absent));
    }
    assert!(csrf(
        "POST",
        &host,
        &text("http://localhost:8090"),
        &Header::Absent
    ));
    assert!(!csrf("DELETE", &host, &Header::Opaque, &Header::Absent));
    assert!(!csrf(
        "POST",
        &Header::Absent,
        &text("http://localhost:8090"),
        &Header::Absent
    ));
}

#[test]
fn limiter_locks_after_max_failures_per_ip_or_email() {
    let mut limiter = LoginLimiter::default();
    for _ in 0..LOGIN_MAX_FAILURES {
        assert!(limiter.locked_for("1.1.1.1", "a@b.c", MILLIS).is_none());
        limiter.record_failure("1.1.1.1", "a@b.c", MILLIS);
    }
    assert!(limiter.locked_for("1.1.1.1", "a@b.c", MILLIS).is_some());
    // Same email from another IP: still locked (per-email key).
    assert!(limiter.locked_for("2.2.2.2", "A@B.C ", MILLIS).is_some());
    // Same IP, another email: still locked (per-IP key).
    assert!(limiter.locked_for("1.1.1.1", "other@b.c", MILLIS).is_some());
    // Unrelated client and account: free.
    assert!(limiter.locked_for("3.3.3.3", "x@y.z", MILLIS).is_none());

    limiter.record_success("1.1.1.1", "a@b.c");
    assert!(limiter.locked_for("1.1.1.1", "a@b.c", MILLIS).is_none());
}

#[test]
fn locks_end_when_the_oldest_failure_ages_out() {
    let mut limiter = LoginLimiter::default();
    for i in 0..5 {
        limiter.record_failure("1.1.1.1", "a@b.c", i * 1000);
    }
    assert_eq!(
        limiter.locked_for("1.1.1.1", "a@b.c", 4000),
        Some(LOGIN_WINDOW - 4000)
    );
    assert!(limiter
        .locked_for("1.1.1.1", "a@b.c", LOGIN_WINDOW)
        .is_none());
}

#[test]
fn client_ip_trusts_x_real_ip_only_from_loopback() {
    let proxied = client_ip(
        Some((Ip::V4([127, 0, 0, 1]), "127.0.0.1".to_string())),
        Some("203.0.113.7".to_string()),
    );
    assert_eq!(proxied, "203.0.113.7");
    let direct = client_ip(
        Some((Ip::V4([198, 51, 100, 2]), "198.51.100.2".to_string())),
        Some("203.0.113.7".to_string()),
    );
    assert_eq!(direct, "198.51.100.2");
    assert_eq!(client_ip(None, Some("203.0.113.7".to_string())), "unknown");
    let local6 = client_ip(
        Some((Ip::V6([0, 0, 0, 0, 0, 0, 0, 1]), "::1".to_string())),
        None,
    );
    assert_eq!(local6, "::1");
}

#[test]
fn every_response_carries_the_security_headers() {
    let all = headers();
    let get = |name: &str| {
        all.iter()
            .find(|(n, _)| n.eq_ignore_ascii_case(name))
            .map(|(_, v)| *v)
            .unwrap()
    };
    assert!(get("Content-Security-Policy").contains("frame-ancestors 'none'"));
    assert_eq!(get("X-Frame-Options"), "DENY");
    assert_eq!(get("X-Content-Type-Options"), "nosniff");
}

#[test]
fn hash_then_verify_round_trips() {
    let h = hash("correct horse").unwrap();
    assert!(h.starts_with("$argon2id$"));
    assert!(verify("correct horse", &h));
    assert!(!verify("wrong", &h));
    assert!(!verify("correct horse", "not-a-hash"));
}

#[test]
fn hashes_depend_on_the_salt_alone() {
    let salt = vec![7u8; 16];
    let a = hash_with("secret", &salt).unwrap();
    assert_eq!(a, hash_with("secret", &salt).unwrap());
    assert_ne!(a, hash_with("secret", &vec![8u8; 16]).unwrap());
    assert!(verify("secret", &a));
    assert!(matches!(
        hash_with("secret", &vec![1u8, 2, 3]),
        Err(HashError::Argon2(_))
    ));
    assert!(matches!(
        hash_with("secret", &vec![1u8; 7]),
        Err(HashError::Argon2(_))
    ));
    assert!(hash_with("secret", &vec![1u8; 8]).is_ok());
    assert!(hash_with("secret", &vec![1u8; 48]).is_ok());
    assert!(matches!(
        hash_with("secret", &vec![1u8; 49]),
        Err(HashError::Argon2(_))
    ));
}

#[test]
fn entered_passwords_lose_only_the_line_end() {
    assert_eq!(entered("secret\n").as_deref(), Some("secret"));
    assert_eq!(entered("secret\r\n").as_deref(), Some("secret"));
    assert_eq!(entered(" a b \n").as_deref(), Some(" a b "));
    assert_eq!(entered("\n"), None);
}

fn account(email: &str) -> LocalAccount {
    LocalAccount {
        email: email.to_string(),
        password_hash: hash(ADMIN_PASSWORD).unwrap(),
    }
}

fn form(email: &str, password: &str) -> LoginForm {
    LoginForm {
        email: email.to_string(),
        password: password.to_string(),
    }
}

#[test]
fn password_login_grants_a_session_that_opens_pages() {
    let admin = account(ADMIN_EMAIL);
    let viewer = Some(account(VIEWER_EMAIL));
    let admission =
        authenticate_password(&form(ADMIN_EMAIL, ADMIN_PASSWORD), &admin, &viewer).unwrap();
    assert_eq!(admission.role, Role::Admin);
    let mut sessions = SessionStore::load(Vec::new(), NOW);
    let id = sessions
        .create(admission.upstream_token, admission.role, NOW)
        .unwrap();
    assert_eq!(sessions.find(&id, NOW).map(|s| s.role), Some(Role::Admin));

    let second =
        authenticate_password(&form(VIEWER_EMAIL, ADMIN_PASSWORD), &admin, &viewer).unwrap();
    assert_eq!(second.role, Role::Viewer);
    assert!(authenticate_password(&form(ADMIN_EMAIL, "wrong"), &admin, &viewer).is_err());
    assert!(authenticate_password(&form(VIEWER_EMAIL, ADMIN_PASSWORD), &admin, &None).is_err());
}

#[test]
fn repeated_failed_logins_are_throttled_even_with_the_right_password() {
    let i18n = I18n::new(Lang::Es);
    let admin = account(ADMIN_EMAIL);
    let mut limiter = LoginLimiter::default();
    for _ in 0..5 {
        assert!(throttled(&mut limiter, "1.1.1.1", ADMIN_EMAIL, &i18n, MILLIS).is_none());
        let outcome = authenticate_password(&form(ADMIN_EMAIL, "wrong"), &admin, &None);
        count_attempt(&mut limiter, "1.1.1.1", ADMIN_EMAIL, &outcome, MILLIS);
    }
    let refused = throttled(&mut limiter, "1.1.1.1", ADMIN_EMAIL, &i18n, MILLIS).unwrap();
    assert!(refused.contains("Demasiados intentos"));
    assert!(refused.contains("15 min"));
    let later = throttled(
        &mut limiter,
        "1.1.1.1",
        ADMIN_EMAIL,
        &i18n,
        MILLIS + LOGIN_WINDOW - 1,
    )
    .unwrap();
    assert!(later.contains("1 min"), "waits are rounded up: {later}");
}

#[test]
fn an_unreachable_login_server_costs_no_attempt() {
    let i18n = I18n::new(Lang::Es);
    let mut limiter = LoginLimiter::default();
    for _ in 0..10 {
        let outcome = authenticate_upstream(LoginReply::Unreachable, false);
        assert!(matches!(outcome, Err(LoginFailure::Unavailable(_))));
        count_attempt(&mut limiter, "1.1.1.1", ADMIN_EMAIL, &outcome, MILLIS);
    }
    assert!(throttled(&mut limiter, "1.1.1.1", ADMIN_EMAIL, &i18n, MILLIS).is_none());
}

fn reply(status: u16, body: &str) -> LoginReply {
    LoginReply::Answered {
        status,
        body: body.as_bytes().to_vec(),
    }
}

#[test]
fn the_login_server_decides_who_is_an_admin() {
    let i18n = I18n::new(Lang::Es);
    let ok = authenticate_upstream(
        reply(200, r#"{"is_admin":true,"access_token":"jwt"}"#),
        false,
    );
    match ok {
        Ok(admission) => {
            assert_eq!(admission.role, Role::Admin);
            assert_eq!(admission.upstream_token, "jwt");
        }
        Err(e) => panic!("{}", e.message(&i18n)),
    }
    let plain = r#"{"is_admin":false,"access_token":"jwt"}"#;
    let refused = authenticate_upstream(reply(200, plain), false).unwrap_err();
    assert!(refused.message(&i18n).contains("administrador"));
    let viewer = authenticate_upstream(reply(200, plain), true);
    assert!(matches!(viewer, Ok(a) if a.role == Role::Viewer));

    let told = authenticate_upstream(reply(401, r#"{"error":"Cuenta bloqueada"}"#), true);
    assert_eq!(told.unwrap_err().message(&i18n), "Cuenta bloqueada");
    let untold = authenticate_upstream(reply(401, "{}"), true);
    assert_eq!(
        untold.unwrap_err().message(&i18n),
        "Email o contraseña incorrectos"
    );
    let garbage = authenticate_upstream(reply(200, "<html>"), true);
    assert!(matches!(garbage, Err(LoginFailure::Unavailable(_))));
    let tokenless = authenticate_upstream(reply(200, r#"{"is_admin":true}"#), true);
    assert!(matches!(tokenless, Err(LoginFailure::Unavailable(_))));
}

#[test]
fn verdicts_follow_the_checked_passwords() {
    let admin = LocalAccount {
        email: ADMIN_EMAIL.to_string(),
        password_hash: String::new(),
    };
    let viewer = Some(LocalAccount {
        email: VIEWER_EMAIL.to_string(),
        password_hash: String::new(),
    });
    let role = |email: &str, a: bool, v: bool| {
        password_verdict(email, &admin, a, &viewer, v)
            .ok()
            .map(|x| x.role)
    };
    assert_eq!(role(ADMIN_EMAIL, true, false), Some(Role::Admin));
    assert_eq!(role(ADMIN_EMAIL, false, true), None);
    assert_eq!(role(VIEWER_EMAIL, false, true), Some(Role::Viewer));
    assert_eq!(role(VIEWER_EMAIL, true, false), None);
    assert_eq!(role("other@example.com", true, true), None);
    let fields = LoginFields {
        error: None,
        is_admin: None,
        access_token: Some("t".to_string()),
    };
    assert!(matches!(
        upstream_verdict(204, fields, true),
        Ok(a) if a.role == Role::Viewer
    ));
}

#[test]
fn check_enforces_https_and_the_allowlist() {
    let out = Outbound::new("*.example.com, api.partner.com");
    assert!(out.check("https://api.example.com/health").is_ok());
    assert!(out.check("https://a.b.example.com/x").is_ok());
    assert!(out.check("https://API.PARTNER.COM/x").is_ok());

    assert!(matches!(
        out.check("http://api.example.com/x"),
        Err(OutboundError::NotHttps)
    ));
    for bad in [
        "https://example.com/x",          // bare domain isn't a subdomain
        "https://evil-example.com/x",     // suffix without the dot
        "https://example.com.evil.com/x", // allowed name as a prefix
        "https://sub.partner.com/x",      // exact entry doesn't cover subdomains
        "https://169.254.169.254/latest/meta-data/",
        "https://127.0.0.1/x",
    ] {
        assert!(
            matches!(out.check(bad), Err(OutboundError::HostNotAllowed(_))),
            "{bad}"
        );
    }
    assert!(Outbound::new("").check("https://x.example.com").is_err());
}

#[test]
fn health_urls_may_also_be_tcp() {
    let out = Outbound::new("*.example.com");
    match out.check_health("tcp://db.example.com:5432") {
        Ok(HealthTarget::Tcp { host, port }) => {
            assert_eq!((host.as_str(), port), ("db.example.com", 5432));
        }
        other => panic!("{other:?}"),
    }
    assert!(matches!(
        out.check_health("tcp://db.example.com"),
        Err(OutboundError::MissingPort)
    ));
    assert!(matches!(
        out.check_health("tcp://db.evil.com:1"),
        Err(OutboundError::HostNotAllowed(_))
    ));
    assert!(matches!(
        out.check_health("https://x.example.com/"),
        Ok(HealthTarget::Http(_))
    ));
    match out.check("nonsense") {
        Err(OutboundError::InvalidUrl(why)) => {
            let es = OutboundError::InvalidUrl(why).localize(&I18n::new(Lang::Es));
            assert!(es.starts_with("URL inválida: "), "{es}");
        }
        other => panic!("{other:?}"),
    }
}

/// An address from its parts: four octets, or eight segments.
fn v4(a: u8, b: u8, c: u8, d: u8) -> Ip {
    Ip::V4([a, b, c, d])
}

fn v6(first: u16, rest: [u16; 7]) -> Ip {
    let [b, c, d, e, f, g, h] = rest;
    Ip::V6([first, b, c, d, e, f, g, h])
}

#[test]
fn only_public_ips_pass() {
    for (blocked, name) in [
        (v4(127, 0, 0, 1), "127.0.0.1"),
        (v4(10, 0, 0, 1), "10.0.0.1"),
        (v4(172, 16, 5, 4), "172.16.5.4"),
        (v4(192, 168, 1, 1), "192.168.1.1"),
        (v4(169, 254, 169, 254), "169.254.169.254"),
        (v4(100, 64, 0, 1), "100.64.0.1"),
        (v4(0, 0, 0, 0), "0.0.0.0"),
        (v6(0, [0, 0, 0, 0, 0, 0, 1]), "::1"),
        (v6(0xfd00, [0, 0, 0, 0, 0, 0, 1]), "fd00::1"),
        (v6(0xfe80, [0, 0, 0, 0, 0, 0, 1]), "fe80::1"),
        (
            v6(0, [0, 0, 0, 0, 0xffff, 0x7f00, 0x0001]),
            "::ffff:127.0.0.1",
        ),
        (
            v6(0, [0, 0, 0, 0, 0xffff, 0xa9fe, 0xa9fe]),
            "::ffff:169.254.169.254",
        ),
    ] {
        assert!(!is_public(blocked), "{name}");
    }
    for (allowed, name) in [
        (v4(1, 1, 1, 1), "1.1.1.1"),
        (v4(54, 23, 10, 8), "54.23.10.8"),
        (
            v6(0x2606, [0x4700, 0x4700, 0, 0, 0, 0, 0x1111]),
            "2606:4700:4700::1111",
        ),
    ] {
        assert!(is_public(allowed), "{name}");
    }
}

#[test]
fn resolver_refuses_names_that_only_resolve_privately() {
    let local = v4(127, 0, 0, 1);
    assert!(reachable(&vec![local, v6(0, [0, 0, 0, 0, 0, 0, 1])]).is_none());
    assert!(reachable(&Vec::new()).is_none());
    let some = reachable(&vec![local, v4(1, 1, 1, 1)]).unwrap();
    assert_eq!(some, [v4(1, 1, 1, 1)]);
}

#[test]
fn tokens_are_hex_and_compare_whole() {
    assert_eq!(hex_of(&vec![0, 15, 16, 255]), "000f10ff");
    assert_eq!(random_hex(0).as_deref(), Ok(""));
    let token = random_hex(24).unwrap();
    assert_eq!(token.len(), 48);
    assert!(token.chars().all(|c| matches!(c, '0'..='9' | 'a'..='f')));
    assert_ne!(token, random_hex(24).unwrap());
    assert!(secret_matches("abc", "abc"));
    assert!(!secret_matches("abc", "abd"));
    assert!(!secret_matches("abc", "ab"));
    assert!(!secret_matches("", ""), "an empty secret matches nothing");
}

#[test]
fn assets_are_fresh_only_under_their_own_tag() {
    let hash: Vec<u8> = (0..32).collect();
    let tag = etag(&hash);
    assert_eq!(tag, "\"000102030405060708090a0b\"");
    assert!(is_fresh(&text(&tag), &tag));
    assert!(!is_fresh(&text("\"other\""), &tag));
    assert!(!is_fresh(&Header::Absent, &tag));
}

fn env(pairs: &[(&str, &str)]) -> Env {
    pairs
        .iter()
        .map(|(k, v)| (k.to_string(), v.to_string()))
        .collect()
}

const BASE: [(&str, &str); 4] = [
    ("AUTH_MODE", "password"),
    ("ADMIN_EMAIL", "admin@example.com"),
    ("ADMIN_PASSWORD_HASH", "$argon2id$x"),
    ("ALLOWED_HOSTS", "*.example.com"),
];

#[test]
fn configuration_has_defaults_for_everything_optional() {
    let cfg = Config::from_env(&env(&BASE)).unwrap();
    assert_eq!(cfg.uptime_interval_secs, 60);
    assert_eq!(cfg.uptime_mass_down_pct, 50);
    assert_eq!(cfg.app_lang, Lang::Es);
    assert_eq!(cfg.metrics_token, None);
    assert_eq!(cfg.allowed_hosts, "*.example.com");
    assert!(matches!(cfg.auth, AuthMode::Password { viewer: None, .. }));
}

#[test]
fn missing_and_invalid_settings_are_named() {
    match Config::from_env(&env(&BASE[..3])) {
        Err(ConfigError::Missing(name)) => assert_eq!(name, "ALLOWED_HOSTS"),
        other => panic!("{other:?}"),
    }
    let mut pairs = BASE.to_vec();
    pairs.push(("PORT", "eighty"));
    match Config::from_env(&env(&pairs)) {
        Err(ConfigError::Invalid { name, value }) => {
            assert_eq!((name.as_str(), value.as_str()), ("PORT", "eighty"));
        }
        other => panic!("{other:?}"),
    }
    let mut blank = BASE.to_vec();
    blank.push(("METRICS_TOKEN", "  "));
    assert_eq!(Config::from_env(&env(&blank)).unwrap().metrics_token, None);
}

#[test]
fn numbers_out_of_bounds_are_refused() {
    for (name, value) in [
        ("UPTIME_INTERVAL_SECS", "0"),
        ("UPTIME_TIMEOUT_SECS", "61"),
        ("UPTIME_MASS_DOWN_PCT", "101"),
    ] {
        let mut pairs = BASE.to_vec();
        pairs.push((name, value));
        assert_eq!(
            Config::from_env(&env(&pairs)).unwrap_err(),
            ConfigError::Invalid {
                name: name.to_string(),
                value: value.to_string()
            }
        );
    }
    let mut pairs = BASE.to_vec();
    pairs.push(("UPTIME_MASS_DOWN_PCT", "100"));
    assert_eq!(Config::from_env(&env(&pairs)).unwrap().uptime_mass_down_pct, 100);
}

#[test]
fn the_login_server_is_the_default_way_in() {
    match AuthMode::from_env(&env(&[
        ("LOGIN_URL", "https://login.example.com"),
        ("UPSTREAM_VIEWERS", "true"),
    ])) {
        Ok(AuthMode::Upstream {
            login_url,
            allow_viewers,
        }) => {
            assert_eq!(login_url, "https://login.example.com");
            assert!(allow_viewers);
        }
        other => panic!("{other:?}"),
    }
    assert_eq!(
        AuthMode::from_env(&env(&[])).unwrap_err(),
        ConfigError::Missing("LOGIN_URL".to_string())
    );
}

#[test]
fn settings_become_a_policy_and_alert_settings_in_seconds() {
    let mut pairs = BASE.to_vec();
    pairs.extend([
        ("UPTIME_INTERVAL_SECS", "45"),
        ("UPTIME_DEGRADED_MS", "900"),
        ("UPTIME_RETRIES", "2"),
        ("UPTIME_CERT_WARN_DAYS", "21"),
        ("UPTIME_RETENTION_DAYS", "7"),
        ("UPTIME_TIMEOUT_SECS", "5"),
        ("UPTIME_MASS_DOWN_PCT", "40"),
        ("ALERT_REMIND_MINS", "15"),
        ("ALERT_WEBHOOK_URLS", "https://example.com/a, https://example.com/b"),
        ("ALERT_MENTIONS", "here"),
        ("ALERT_ON_DEGRADED", "true"),
        ("PUBLIC_URL", "https://status.example.com"),
    ]);
    let cfg = Config::from_env(&env(&pairs)).unwrap();
    let policy = cfg.check_policy();
    assert_eq!(policy.interval, 45);
    assert_eq!(policy.degraded_after_ms, 900);
    assert_eq!(policy.retries, 2);
    assert_eq!(policy.cert_warn_days, 21);
    assert_eq!(policy.retention, 7 * 86_400);
    assert_eq!(policy.timeout, 5);
    assert_eq!(policy.mass_down_pct, 40);
    assert_eq!(policy.lang, Lang::Es);

    let templates = TemplateStore::new(AlertTemplates::default(), &I18n::new(Lang::Es));
    let settings = cfg.alert_settings(templates);
    assert_eq!(
        settings.webhook_urls,
        ["https://example.com/a", "https://example.com/b"]
    );
    assert_eq!(settings.mentions, ["here"]);
    assert!(settings.on_degraded);
    assert_eq!(settings.public_url.as_deref(), Some("https://status.example.com"));
    assert_eq!(settings.remind_after, Some(900));
    assert!(settings.templates.is_some());
}
