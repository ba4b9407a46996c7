use heartbeat::auth::Role;
use heartbeat::auth::Session;
use heartbeat::config::AuthMode;
use heartbeat::config::Config;
use heartbeat::i18n::I18n;
use heartbeat::i18n::Lang;
use heartbeat::outbound::Outbound;
use heartbeat::registry::AppRegistry;
use heartbeat::registry::AppSettings;
use heartbeat::routes::api::get_logs;
use heartbeat::routes::api::plan;
use heartbeat::routes::api::relayed;
use heartbeat::routes::api::LogsBody;
use heartbeat::routes::api::LogsPlan;
use heartbeat::routes::api::LogsQuery;
use heartbeat::routes::api::LogsReply;
use heartbeat::routes::apps::hosts_text;
use heartbeat::routes::apps::hours_asked;
use heartbeat::routes::apps::pause_until;
use heartbeat::routes::apps::AppForm;
use heartbeat::routes::apps::ToggleForm;
use heartbeat::routes::dashboard::show_app;
use heartbeat::routes::dashboard::LogPage;
use heartbeat::routes::embed::badge;
use heartbeat::routes::embed::badge_slug;
use heartbeat::routes::embed::badge_svg;
use heartbeat::routes::embed::opened;
use heartbeat::routes::embed::text_width;
use heartbeat::routes::embed::xml_escape;
use heartbeat::routes::embed::EmbedStatus;
use heartbeat::routes::embed::State;
use heartbeat::routes::metrics::admitted;
use heartbeat::routes::metrics::label;
use heartbeat::routes::metrics::render;
use heartbeat::routes::metrics::Scrape;
use heartbeat::routes::settings::mode_name;
use heartbeat::routes::settings::ConfigView;
use heartbeat::routes::status::published;
use heartbeat::routes::status::verdict;
use heartbeat::routes::status::Level;
use heartbeat::routes::status::Verdict;
use heartbeat::routes::uptime::csv;
use heartbeat::routes::uptime::csv_field;
use heartbeat::routes::uptime::export_file;
use heartbeat::routes::uptime::window_hours;
use heartbeat::routes::uptime::ExportFormat;
use heartbeat::security::Header;
use heartbeat::uptime::history::DayUptime;
use heartbeat::uptime::history::Share;
use heartbeat::uptime::monitor::MonitorSummary;
use heartbeat::uptime::monitor::UptimeMonitor;
use heartbeat::uptime::probe::CheckPolicy;
use heartbeat::uptime::Heartbeat;
use heartbeat::uptime::Status;

const NOW: u64 = 1_700_000_000;

fn es() -> I18n {
    I18n::new(Lang::Es)
}

fn billing() -> AppSettings {
    AppSettings {
        name: "Billing".into(),
        logs_url: "https://api.example.com/logs".into(),
        health_url: "https://api.example.com/health".into(),
        ..AppSettings::default()
    }
}

fn registry_with(settings: AppSettings) -> (AppRegistry, String) {
    let mut registry = AppRegistry::load(Vec::new()).unwrap().0;
    let slug = registry.add(settings).unwrap();
    (registry, slug)
}

fn monitor() -> UptimeMonitor {
    UptimeMonitor::load(
        CheckPolicy {
            interval: 60,
            degraded_after_ms: 800,
            retries: 0,
            cert_warn_days: 14,
            retention: 720 * 3600,
            timeout: 10,
            mass_down_pct: 50,
            lang: Lang::Es,
        },
        Vec::new(),
        NOW,
    )
}

#[test]
fn embed_needs_the_right_token_and_never_leaks_urls() {
    let (registry, slug) = registry_with(billing());
    let token = registry.find(&slug).unwrap().embed_token.clone();
    assert!(opened(&registry, &slug, "nope").is_none(), "wrong token");
    assert!(opened(&registry, "missing", &token).is_none(), "unknown app");

    let app = opened(&registry, &slug, &token).unwrap();
    let mut monitor = monitor();
    monitor.record(
        &slug,
        Heartbeat {
            at: NOW,
            status: Status::Up,
            latency_ms: Some(9),
            message: "https://api.example.com/ answered".into(),
        },
        NOW,
    );
    let embedded = EmbedStatus::of(monitor.summary(app, NOW));
    assert_eq!(embedded.name, "Billing");
    assert_eq!(embedded.recent[0].latency_ms, Some(9));
    let shown = format!("{embedded:?}");
    assert!(
        !shown.contains("api.example.com"),
        "embed must not expose URLs: {shown}"
    );
}

#[test]
fn status_pages_exist_only_for_public_apps_and_hide_urls() {
    let (mut registry, slug) = registry_with(billing());
    assert!(published(&registry, &slug).is_none());
    registry.set_public(&slug, true).unwrap();
    assert_eq!(
        published(&registry, &slug).map(|a| a.name.as_str()),
        Some("Billing")
    );
    assert!(published(&registry, "nope").is_none());
}

#[test]
fn status_headlines_follow_the_state_and_the_notices() {
    assert_eq!(verdict(State::Up, false), Verdict::State(State::Up));
    assert_eq!(verdict(State::Up, true), Verdict::Incident);
    assert_eq!(
        verdict(State::Down, true),
        Verdict::State(State::Down),
        "an outage stays in the headline"
    );
    assert_eq!(verdict(State::Up, true).key(), "incident");
}

#[test]
fn days_are_graded_by_their_uptime() {
    let day = |up: u64, total: u64| {
        Level::of(DayUptime {
            start: 0,
            up,
            total,
        })
    };
    assert_eq!(day(0, 0), Level::Unmeasured);
    assert_eq!(day(10_000, 10_000), Level::Up);
    assert_eq!(day(9_995, 10_000), Level::Up);
    assert_eq!(day(9_994, 10_000), Level::Degraded);
    assert_eq!(day(99, 100), Level::Degraded);
    assert_eq!(day(98, 100), Level::Down);
    assert_eq!(day(0, 1), Level::Down);
}

#[test]
fn metrics_need_the_bearer_token() {
    let token = Some("scrape-me".to_string());
    assert_eq!(admitted(&token, &Header::Absent), Scrape::Unauthorized);
    assert_eq!(
        admitted(&token, &Header::Text("Bearer wrong".into())),
        Scrape::Unauthorized
    );
    assert_eq!(
        admitted(&token, &Header::Text("Bearer scrape-me".into())),
        Scrape::Granted
    );
    assert_eq!(
        admitted(&None, &Header::Text("Bearer scrape-me".into())),
        Scrape::Off
    );
    let (registry, slug) = registry_with(billing());
    let summary = monitor().summary(registry.find(&slug).unwrap(), NOW);
    let out = render(&vec![summary], &vec![None], &vec![None]);
    assert!(
        out.contains("heartbeat_paused{app=\"billing\",name=\"Billing\"} 0"),
        "{out}"
    );
}

fn summary_of(status: Option<Status>) -> MonitorSummary {
    MonitorSummary {
        slug: "api".into(),
        name: "API \"v2\"".into(),
        health_url: None,
        has_logs: false,
        paused: false,
        paused_at: None,
        paused_until: None,
        status,
        latency_ms: None,
        avg_latency_24h_ms: None,
        uptime_24h: Some(Share {
            up: 199,
            total: 200,
        }),
        uptime_30d: None,
        cert_expires_at: Some(1_900_000_000),
        recent: Vec::new(),
    }
}

#[test]
fn samples_are_labelled_and_escaped() {
    let m = summary_of(Some(Status::Down));
    let ratio = m
        .uptime_24h
        .map(|s| (s.up as f64 / s.total as f64).to_string());
    let out = render(&vec![m], &vec![ratio], &vec![None]);
    assert!(
        out.contains("heartbeat_up{app=\"api\",name=\"API \\\"v2\\\"\"} 0\n"),
        "{out}"
    );
    assert!(
        out.contains("heartbeat_uptime_24h_ratio{app=\"api\",name=\"API \\\"v2\\\"\"} 0.995\n")
    );
    assert!(out.contains("heartbeat_cert_expiry_timestamp_seconds{app=\"api\""));
    assert!(
        !out.contains("heartbeat_latency_milliseconds{"),
        "no value, no sample"
    );
}

#[test]
fn labels_stay_in_their_quotes() {
    assert_eq!(label("a\\b\"c\nd"), "a\\\\b\\\"c\\nd");
}

#[test]
fn badges_escape_their_text() {
    let svg = badge_svg("<script>", "Operational", "#3fb950");
    assert!(svg.starts_with("<svg") && svg.contains("&lt;script&gt;"));
    assert!(!svg.contains("<script>"));
    assert_eq!(xml_escape("a&b<c>\"d"), "a&amp;b&lt;c&gt;&quot;d");
}

#[test]
fn badges_on_one_page_never_share_ids() {
    let up = badge_svg("API", "Operational", "#3fb950");
    let down = badge_svg("API", "Down", "#e5534b");
    let clip = |svg: &str| svg.split("clipPath id=\"").nth(1).unwrap()[..10].to_string();
    assert_ne!(clip(&up), clip(&down));
}

#[test]
fn a_pause_form_asks_for_hours_in_digits() {
    assert_eq!(hours_asked(" 12 "), Some(12));
    assert_eq!(hours_asked("+3"), Some(3));
    assert_eq!(hours_asked("0"), Some(0));
    assert_eq!(hours_asked("18446744073709551615"), Some(u64::MAX));
    for text in ["", " ", "-1", "1.5", "two", "18446744073709551616"] {
        assert_eq!(hours_asked(text), None, "{text}");
    }
}

#[test]
fn badges_need_the_embed_token_and_exports_a_session() {
    let (registry, slug) = registry_with(billing());
    let token = registry.find(&slug).unwrap().embed_token.clone();
    assert_eq!(badge_slug("billing.svg"), "billing");
    assert!(opened(&registry, &badge_slug("billing.svg"), "nope").is_none());
    let app = opened(&registry, &badge_slug("billing.svg"), &token).unwrap();
    let svg = badge(&monitor().summary(app, NOW), Some("API"), &es());
    assert!(svg.contains(">API<") && svg.contains("Sin datos"), "{svg}");
    let named = badge(&monitor().summary(app, NOW), None, &es());
    assert!(named.contains(">Billing<"));
    assert!(csv(&Vec::new()).starts_with("at,status,latency_ms,message\n"));
}

#[test]
fn widths_count_narrow_and_wide_letters() {
    assert_eq!(text_width("il"), 8);
    assert_eq!(text_width("mW"), 20);
    assert_eq!(text_width("AÑ"), 16);
    assert_eq!(text_width("ab"), 14);
}

#[test]
fn states_have_their_colors() {
    assert_eq!(State::of(true, Some(Status::Down)), State::Paused);
    assert_eq!(State::of(false, None), State::Unknown);
    assert_eq!(State::of(false, Some(Status::Up)).color(), "#3fb950");
    assert_eq!(State::Degraded.color(), "#d29922");
    assert_eq!(State::Down.key(), "down");
}

#[test]
fn csv_fields_are_quoted_only_when_needed() {
    assert_eq!(csv_field("HTTP 200 OK"), "HTTP 200 OK");
    assert_eq!(csv_field("a, \"b\""), "\"a, \"\"b\"\"\"");
}

#[test]
fn exports_hold_one_line_per_heartbeat() {
    let beats = vec![
        Heartbeat {
            at: 5,
            status: Status::Degraded,
            latency_ms: Some(12),
            message: "slow, very".into(),
        },
        Heartbeat {
            at: 6,
            status: Status::Down,
            latency_ms: None,
            message: "x\ny".into(),
        },
    ];
    assert_eq!(
        csv(&beats),
        "at,status,latency_ms,message\n5,degraded,12,\"slow, very\"\n6,down,,\"x\ny\"\n"
    );
    let file = export_file("billing", 24, ExportFormat::Csv);
    assert_eq!(
        file.disposition,
        "attachment; filename=\"billing-24h.csv\""
    );
    assert_eq!(
        export_file("b", 1, ExportFormat::Json).content_type,
        "application/json"
    );
    assert_eq!(window_hours(None, 6), 6);
    assert_eq!(window_hours(Some(0), 6), 1);
    assert_eq!(window_hours(Some(9999), 6), 720);
}

fn session(role: Role, token: &str) -> Session {
    Session {
        upstream_token: token.into(),
        role,
        expires_at: u64::MAX,
    }
}

fn asked() -> LogsQuery {
    LogsQuery {
        stream: Some("out".into()),
        lines: None,
    }
}

#[test]
fn logs_are_fetched_for_admins_only() {
    let (registry, slug) = registry_with(billing());
    let app = registry.find(&slug);
    let outbound = Outbound::new("*.example.com");
    let status = |session: Option<&Session>, outbound: &Outbound| {
        match plan(session, &slug, app, outbound, &None, &asked(), &es()) {
            LogsPlan::Refuse { status, .. } => status,
            LogsPlan::Fetch(_) => 200,
        }
    };
    assert_eq!(status(None, &outbound), 401);
    assert_eq!(status(Some(&session(Role::Viewer, "")), &outbound), 403);
    let admin = session(Role::Admin, "jwt");
    assert_eq!(status(Some(&admin), &outbound), 200);
    assert_eq!(status(Some(&admin), &Outbound::new("other.com")), 403);
    match plan(
        Some(&admin),
        &slug,
        app,
        &outbound,
        &Some("key".to_string()),
        &asked(),
        &es(),
    ) {
        LogsPlan::Fetch(request) => {
            assert_eq!(request.url.text, "https://api.example.com/logs");
            assert_eq!(request.bearer.as_deref(), Some("jwt"));
            assert_eq!(request.key.as_deref(), Some("key"));
            assert_eq!(request.stream.as_deref(), Some("out"));
        }
        LogsPlan::Refuse { error, .. } => panic!("{error}"),
    }
    match plan(
        Some(&admin),
        "gone",
        None,
        &outbound,
        &None,
        &asked(),
        &es(),
    ) {
        LogsPlan::Refuse { status, error } => {
            assert_eq!(status, 404);
            assert_eq!(error, "App 'gone' no está registrada");
        }
        LogsPlan::Fetch(_) => panic!("nothing to fetch"),
    }
}

#[test]
fn passed_on_json_is_written_anew() {
    let rewritten = |body: &str| {
        let reply = LogsReply::Answered {
            status: 200,
            body: body.into(),
        };
        match get_logs("Billing", reply, &es()).body {
            LogsBody::Json(text) => text,
            LogsBody::Error(e) => panic!("{e}"),
        }
    };
    assert_eq!(rewritten("{ \"b\": 1, \"a\": 2 }"), "{\"a\":2,\"b\":1}");
    assert_eq!(rewritten("{\"a\":1,\"a\":2}"), "{\"a\":2}");
    assert_eq!(rewritten(" [ null,\ttrue ]\n"), "[null,true]");
    assert_eq!(rewritten("\"\\u00e1\""), "\"á\"");
}

#[test]
fn json_is_relayed_as_given_and_anything_else_by_its_length() {
    let json = relayed("Billing", 1000, "{ }", Some("{}".into()), &es());
    assert_eq!(json.status, 502);
    assert!(matches!(json.body, LogsBody::Json(text) if text == "{}"));
    let other = relayed("Billing", 404, "", None, &es());
    assert_eq!(other.status, 404);
    assert!(matches!(other.body, LogsBody::Error(e) if e.contains("(0 bytes)")));
}

#[test]
fn only_json_bodies_are_passed_on() {
    let json = get_logs(
        "Billing",
        LogsReply::Answered {
            status: 200,
            body: "{\"out\":[]}".into(),
        },
        &es(),
    );
    assert_eq!(json.status, 200);
    assert!(matches!(json.body, LogsBody::Json(b) if b == "{\"out\":[]}"));
    let html = get_logs(
        "Billing",
        LogsReply::Answered {
            status: 500,
            body: "<h1>ñ</h1>".into(),
        },
        &es(),
    );
    assert_eq!(html.status, 500);
    match html.body {
        LogsBody::Error(e) => {
            assert_eq!(e, "'Billing' respondió 500 con un cuerpo no-JSON (11 bytes)");
        }
        LogsBody::Json(_) => panic!("not JSON"),
    }
    let gone = get_logs("Billing", LogsReply::Unreachable("timeout".into()), &es());
    assert_eq!(gone.status, 502);
    let cut = get_logs("Billing", LogsReply::Unreadable("reset".into()), &es());
    assert!(matches!(cut.body, LogsBody::Error(e) if e.ends_with(": reset")));
}

fn form() -> AppForm {
    AppForm {
        name: "Billing".into(),
        logs_url: String::new(),
        health_url: "https://api.example.com/health".into(),
        degraded_after_ms: " 1500 ".into(),
        expect_body: String::new(),
        check_assets: false,
        interval_secs: String::new(),
        timeout_secs: "5".into(),
        expect_status: "200, 401".into(),
        headers: "X-Token: abc\n\nX-Other: d".into(),
        alert_webhooks: "https://hooks.example.com/x\n".into(),
        alert_mentions: "here, U1".into(),
    }
}

#[test]
fn forms_become_settings() {
    let settings = form().settings(&es()).unwrap();
    assert_eq!(settings.degraded_after_ms, Some(1500));
    assert_eq!(settings.interval_secs, None);
    assert_eq!(settings.timeout_secs, Some(5));
    assert_eq!(settings.expect_status, [200, 401]);
    assert_eq!(settings.headers.len(), 2);
    assert_eq!(settings.alert_webhooks, ["https://hooks.example.com/x"]);
    assert_eq!(settings.alert_mentions, ["here", "U1"]);

    let mut bad = form();
    bad.degraded_after_ms = "soon".into();
    assert_eq!(
        bad.settings(&es()).err().as_deref(),
        Some("El umbral debe ser un número de milisegundos")
    );
    let mut bad = form();
    bad.expect_status = "200,abc".into();
    assert_eq!(
        bad.settings(&es()).err().as_deref(),
        Some("abc no es un código de estado HTTP")
    );
}

#[test]
fn urls_outside_the_policy_are_refused_before_storing() {
    let outbound = Outbound::new("*.example.com");
    assert!(form().check_urls(&outbound, &es()).is_ok());
    let mut bad = form();
    bad.logs_url = "https://evil.com/logs".into();
    let why = bad.check_urls(&outbound, &es()).unwrap_err();
    assert_eq!(why, "URL de logs: el host 'evil.com' no está en ALLOWED_HOSTS");
    let mut bad = form();
    bad.health_url = "http://api.example.com/".into();
    assert!(bad
        .check_urls(&outbound, &es())
        .unwrap_err()
        .starts_with("URL de health: "));
    assert_eq!(hosts_text(" *.a.com ,, b.com"), "*.a.com, b.com");
}

#[test]
fn pauses_last_an_hour_to_a_month() {
    let until = |value: bool, hours: Option<u64>| pause_until(&ToggleForm { value, hours }, NOW);
    assert_eq!(until(true, None), None);
    assert_eq!(until(false, Some(5)), None);
    assert_eq!(until(true, Some(2)), Some(NOW + 7200));
    assert_eq!(until(true, Some(0)), Some(NOW + 3600));
    assert_eq!(until(true, Some(10_000)), Some(NOW + 720 * 3600));
}

#[test]
fn apps_without_logs_go_back_to_the_dashboard() {
    let mut settings = billing();
    settings.logs_url = String::new();
    let (registry, slug) = registry_with(settings);
    assert!(matches!(
        show_app(&slug, registry.find(&slug), &es()),
        LogPage::Redirect(to) if to == "/#billing"
    ));
    let (registry, slug) = registry_with(billing());
    assert!(matches!(
        show_app(&slug, registry.find(&slug), &es()),
        LogPage::Show
    ));
    assert!(matches!(show_app("x", None, &es()), LogPage::Missing(_)));
}

#[test]
fn the_settings_page_shows_no_secret() {
    let env = [
        ("LOGIN_URL", "https://login.example.com"),
        ("ALLOWED_HOSTS", "*.example.com"),
        ("ADMIN_LOGS_KEY", "hunter2"),
        ("HEARTBEAT_PING_URL", "https://ping.example.com/hunter2"),
    ]
    .map(|(k, v)| (k.to_string(), v.to_string()))
    .to_vec();
    let cfg = Config::from_env(&env).unwrap();
    assert!(matches!(cfg.auth, AuthMode::Upstream { .. }));
    assert_eq!(mode_name(&cfg.auth), "upstream");
    let view = ConfigView::of(&cfg);
    assert!(view.admin_logs_key && view.dead_mans_switch);
    assert_eq!(view.login_url.as_deref(), Some("https://login.example.com"));
    assert!(!format!("{view:?}").contains("hunter2"));
}
