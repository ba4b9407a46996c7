use heartbeat::bundles::attr;
use heartbeat::bundles::extract;
use heartbeat::bundles::problem;
use heartbeat::bundles::reply_problem;
use heartbeat::bundles::requestable;
use heartbeat::bundles::tags;
use heartbeat::bundles::Bundle;
use heartbeat::bundles::BundleKind;
use heartbeat::bundles::BundleProblem;
use heartbeat::bundles::BundleReply;
use heartbeat::bundles::MAX_BUNDLES;
use heartbeat::calendar::date_of;
use heartbeat::calendar::rfc3339;
use heartbeat::calendar::Date;
use heartbeat::demo::crate_name;
use heartbeat::demo::fields;
use heartbeat::demo::fnv1a;
use heartbeat::demo::logs;
use heartbeat::demo::stderr_lines;
use heartbeat::demo::stdout_line;
use heartbeat::demo::Profile;
use heartbeat::demo::Rng;
use heartbeat::i18n::I18n;
use heartbeat::i18n::Lang;
use heartbeat::i18n::Localize;
use heartbeat::outbound::Outbound;
use heartbeat::registry::RegisteredApp;
use heartbeat::uptime::probe::cert_not_after;
use heartbeat::uptime::probe::extend_body;
use heartbeat::uptime::probe::latency_of;
use heartbeat::uptime::probe::probe_confirmed;
use heartbeat::uptime::probe::unix_secs;
use heartbeat::uptime::probe::CheckPolicy;
use heartbeat::uptime::probe::Confirmation;
use heartbeat::uptime::probe::HttpAnswer;
use heartbeat::uptime::probe::ProbePlan;
use heartbeat::uptime::probe::ProbeResult;
use heartbeat::uptime::probe::ProbeTarget;
use heartbeat::uptime::probe::BODY_LIMIT;
use heartbeat::uptime::Heartbeat;
use heartbeat::uptime::Status;
use heartbeat::weburl::Url;

const NOW: u64 = 1_700_000_000;

const VITE_INDEX: &str = r#"<!doctype html>
<html lang="es">
  <head>
    <link rel="icon" href="/favicon.ico">
    <title>Pulso | Adquiere.co</title>
    <script type="module" crossorigin src="/assets/index-BmLipbGa.js"></script>
    <link rel="modulepreload" crossorigin href="/assets/vendor-X1.js">
    <LINK REL=stylesheet crossorigin href='/assets/index-Bf41gqzV.css'>
    <script>window.inline = true</script>
    <script src="https://cdn.example.com/lib.js"></script>
    <script src="/assets/index-BmLipbGa.js"></script>
  </head>
  <body><div id="app"></div></body>
</html>"#;

fn base() -> Url {
    Url::parse("https://app.example.com/dashboard").unwrap()
}

fn found(bundles: &[Bundle]) -> Vec<(&str, BundleKind)> {
    bundles
        .iter()
        .map(|b| (b.url.text.as_str(), b.kind))
        .collect()
}

#[test]
fn extracts_scripts_preloads_and_stylesheets_once() {
    let bundles = extract(VITE_INDEX, &base());
    assert_eq!(
        found(&bundles),
        [
            (
                "https://app.example.com/assets/index-BmLipbGa.js",
                BundleKind::Script
            ),
            ("https://cdn.example.com/lib.js", BundleKind::Script),
            (
                "https://app.example.com/assets/vendor-X1.js",
                BundleKind::Script
            ),
            (
                "https://app.example.com/assets/index-Bf41gqzV.css",
                BundleKind::Stylesheet
            ),
        ]
    );
}

#[test]
fn ignores_non_bundles() {
    let html = r#"<scripty src="/x.js"><link rel="icon" href="/i.png"><script data-src="/y.js"></script>
            <script src="data:text/javascript,1"></script>"#;
    assert_eq!(extract(html, &base()), Vec::new());
}

#[test]
fn pages_have_at_most_a_dozen_bundles() {
    let mut html = String::new();
    for i in 0..30 {
        html.push_str(&format!("<script src=\"/s{i}.js\"></script>"));
    }
    let bundles = extract(&html, &base());
    assert_eq!(bundles.len(), MAX_BUNDLES);
    assert_eq!(bundles[11].url.path, "/s11.js");
}

#[test]
fn tags_and_attributes_are_read_leniently() {
    let all = tags("<SCRIPT a='1'>x</SCRIPT><script\nb=2>", "script");
    assert_eq!(all.len(), 2);
    assert_eq!(attr(&all[0], "a").as_deref(), Some("1"));
    assert_eq!(attr(&all[1], "b").as_deref(), Some("2"));
    assert_eq!(attr(&all[1], "a"), None);
}

#[test]
fn a_bundle_served_as_html_or_missing_is_a_problem() {
    let js = Bundle {
        url: Url::parse("https://app.example.com/assets/index-X.js").unwrap(),
        kind: BundleKind::Script,
    };
    let css = Bundle {
        url: Url::parse("https://app.example.com/assets/index-X.css").unwrap(),
        kind: BundleKind::Stylesheet,
    };
    assert_eq!(
        problem(&js, 200, "application/javascript; charset=utf-8"),
        None
    );
    assert_eq!(problem(&js, 200, "text/javascript"), None);
    assert_eq!(problem(&css, 200, "text/css"), None);
    assert_eq!(
        problem(&js, 200, "text/html; charset=utf-8"),
        Some(BundleProblem::WrongType {
            path: "/assets/index-X.js".into(),
            content_type: Some("text/html".into()),
        })
    );
    assert_eq!(
        problem(&css, 404, "text/html"),
        Some(BundleProblem::Status {
            path: "/assets/index-X.css".into(),
            status: 404,
        })
    );
    assert_eq!(
        problem(&js, 200, ""),
        Some(BundleProblem::WrongType {
            path: "/assets/index-X.js".into(),
            content_type: None,
        })
    );
}

#[test]
fn problems_read_in_the_ui_language() {
    let p = BundleProblem::WrongType {
        path: "/assets/x.js".into(),
        content_type: Some("text/html".into()),
    };
    assert_eq!(
        p.localize(&I18n::new(Lang::Es)),
        "Bundle roto: /assets/x.js respondió text/html"
    );
    assert_eq!(
        p.localize(&I18n::new(Lang::En)),
        "Broken bundle: /assets/x.js answered text/html"
    );
}

#[test]
fn bundles_of_other_hosts_are_not_requested() {
    let outbound = Outbound::new("app.example.com");
    let bundles = extract(VITE_INDEX, &base());
    assert!(requestable(&outbound, &bundles[0]).is_some());
    assert!(requestable(&outbound, &bundles[1]).is_none());
    assert_eq!(
        reply_problem(
            &bundles[0],
            BundleReply::Failed {
                error: "timeout".into()
            }
        ),
        Some(BundleProblem::Unreachable {
            path: "/assets/index-BmLipbGa.js".into(),
            error: "timeout".into(),
        })
    );
    assert_eq!(
        reply_problem(
            &bundles[0],
            BundleReply::Answered {
                status: 200,
                content_type: "text/javascript".into()
            }
        ),
        None
    );
}

fn target(url: &str) -> ProbeTarget {
    ProbeTarget {
        url: url.to_string(),
        degraded_after_ms: 1000,
        expect_body: None,
        cert_warn_days: 14,
        check_assets: false,
        timeout: 10,
        expect_status: Vec::new(),
        headers: Vec::new(),
    }
}

fn outbound() -> Outbound {
    Outbound::new("*.example.com")
}

fn refused(url: &str) -> ProbeResult {
    match target(url).probe(&outbound(), &I18n::new(Lang::Es), NOW) {
        ProbePlan::Refused(result) => result,
        other => panic!("{url}: {other:?}"),
    }
}

#[test]
fn probe_refuses_urls_outside_the_policy_without_sending() {
    for url in [
        "http://127.0.0.1:1/health",
        "https://169.254.169.254/latest/meta-data/",
    ] {
        let beat = refused(url).beat;
        assert_eq!(beat.status, Status::Down);
        assert!(
            beat.message.starts_with("URL de health no permitida"),
            "{url}"
        );
    }
}

#[test]
fn allowed_urls_are_probed_as_they_are() {
    let i18n = I18n::new(Lang::Es);
    match target(" https://api.example.com/health ").probe(&outbound(), &i18n, NOW) {
        ProbePlan::Http(url) => assert_eq!(url.text, "https://api.example.com/health"),
        other => panic!("{other:?}"),
    }
    match target("tcp://db.example.com:5432").probe(&outbound(), &i18n, NOW) {
        ProbePlan::Tcp { host, port } => {
            assert_eq!((host.as_str(), port), ("db.example.com", 5432));
        }
        other => panic!("{other:?}"),
    }
}

#[test]
fn retries_are_skipped_when_the_first_probe_is_final() {
    // A URL outside the policy fails instantly; with retries = 0 there's no second attempt and
    // no "(N intentos)" suffix.
    let i18n = I18n::new(Lang::Es);
    match probe_confirmed(0, 0, refused("http://127.0.0.1:1/"), &i18n) {
        Confirmation::Confirmed(result) => {
            assert_eq!(result.beat.status, Status::Down);
            assert!(!result.beat.message.contains("intentos"));
        }
        other => panic!("{other:?}"),
    }
}

fn down(message: &str) -> ProbeResult {
    ProbeResult {
        beat: Heartbeat::down(message.to_string(), None, NOW),
        cert_expires_at: None,
    }
}

#[test]
fn a_down_is_confirmed_by_every_attempt() {
    let i18n = I18n::new(Lang::Es);
    for attempt in 0..2 {
        assert!(matches!(
            probe_confirmed(attempt, 2, down("timeout"), &i18n),
            Confirmation::Retry
        ));
    }
    match probe_confirmed(2, 2, down("timeout"), &i18n) {
        Confirmation::Confirmed(result) => {
            assert_eq!(result.beat.message, "timeout (3 intentos)");
        }
        other => panic!("{other:?}"),
    }
}

#[test]
fn expected_status_codes_replace_the_2xx_rule() {
    let mut t = target("https://x.example.com/");
    assert!(t.accepts(200));
    assert!(!t.accepts(401));
    t.expect_status = vec![401];
    assert!(t.accepts(401));
    assert!(!t.accepts(200));
}

fn answer(code: u16, latency_ms: u32) -> HttpAnswer {
    HttpAnswer {
        code,
        latency_ms,
        cert_expires_at: None,
    }
}

#[test]
fn answers_become_heartbeats() {
    let i18n = I18n::new(Lang::Es);
    let t = target("https://x.example.com/");
    let fine = t.probe_http(answer(200, 40), None, None, &i18n, NOW).beat;
    assert_eq!(fine.status, Status::Up);
    assert_eq!(fine.message, "HTTP 200 OK");
    assert_eq!((fine.at, fine.latency_ms), (NOW, Some(40)));
    let slow = t.probe_http(answer(204, 1001), None, None, &i18n, NOW).beat;
    assert_eq!(slow.status, Status::Degraded);
    let failed = t.probe_http(answer(503, 5), None, None, &i18n, NOW).beat;
    assert_eq!(failed.status, Status::Down);
    assert_eq!(failed.message, "HTTP 503 Service Unavailable");
}

#[test]
fn a_missing_keyword_is_down() {
    let i18n = I18n::new(Lang::Es);
    let mut t = target("https://x.example.com/");
    t.expect_body = Some("healthy".to_string());
    assert!(t.needs_body(answer(200, 1)));
    assert!(!t.needs_body(answer(500, 1)));
    let ok = t
        .probe_http(answer(200, 1), Some("all healthy"), None, &i18n, NOW)
        .beat;
    assert_eq!(ok.status, Status::Up);
    let bad = t
        .probe_http(answer(200, 1), Some("sick"), None, &i18n, NOW)
        .beat;
    assert_eq!(bad.status, Status::Down);
    assert_eq!(bad.message, "La respuesta no contiene «healthy»");
}

#[test]
fn an_expiring_certificate_degrades() {
    let i18n = I18n::new(Lang::Es);
    let t = target("https://x.example.com/");
    let with_cert = |secs: u64| HttpAnswer {
        code: 200,
        latency_ms: 1,
        cert_expires_at: Some(NOW + secs),
    };
    let soon = t.probe_http(with_cert(3 * 86_400 + 5), None, None, &i18n, NOW);
    assert_eq!(soon.beat.status, Status::Degraded);
    assert_eq!(soon.beat.message, "El certificado vence en 3 días");
    assert_eq!(soon.cert_expires_at, Some(NOW + 3 * 86_400 + 5));
    let far = t.probe_http(with_cert(14 * 86_400), None, None, &i18n, NOW);
    assert_eq!(far.beat.status, Status::Up);
}

#[test]
fn a_broken_bundle_is_down() {
    let i18n = I18n::new(Lang::Es);
    let mut t = target("https://app.example.com/");
    t.check_assets = true;
    let page = Url::parse("https://app.example.com/").unwrap();
    assert_eq!(t.bundles(answer(200, 1), VITE_INDEX, &page).len(), 4);
    assert!(t.bundles(answer(500, 1), VITE_INDEX, &page).is_empty());
    let broken = BundleProblem::Status {
        path: "/a.js".into(),
        status: 404,
    };
    let beat = t
        .probe_http(answer(200, 1), Some(VITE_INDEX), Some(broken), &i18n, NOW)
        .beat;
    assert_eq!(beat.status, Status::Down);
    assert_eq!(beat.message, "Bundle roto: /a.js respondió HTTP 404");
}

#[test]
fn tcp_checks_report_the_connection() {
    let t = target("tcp://db.example.com:5432");
    let ok = t.probe_tcp("db.example.com", 5432, Ok(()), 12, NOW).beat;
    assert_eq!(ok.status, Status::Up);
    assert_eq!(ok.message, "TCP db.example.com:5432 OK");
    let bad = t
        .probe_tcp("db.example.com", 5432, Err("refused".to_string()), 12, NOW)
        .beat;
    assert_eq!(bad.status, Status::Down);
    assert_eq!(bad.message, "TCP db.example.com:5432: refused");
    let gone = ProbeTarget::unanswered("timeout".to_string(), NOW).beat;
    assert_eq!((gone.status, gone.message.as_str()), (Status::Down, "timeout"));
}

#[test]
fn bodies_are_cut_at_the_limit() {
    let mut body: Vec<u8> = vec![b'a'; BODY_LIMIT - 3];
    assert!(!extend_body(&mut body, b"xy") || body.len() == BODY_LIMIT - 1);
    extend_body(&mut body, b"12345");
    assert_eq!(body.len(), BODY_LIMIT);
    assert_eq!(&body[BODY_LIMIT - 3..], b"xy1");
}

#[test]
fn latencies_saturate() {
    assert_eq!(latency_of(12), 12);
    assert_eq!(latency_of(u128::MAX), u32::MAX);
    assert_eq!(unix_secs(Some(-1)), None);
    assert_eq!(unix_secs(Some(7)), Some(7));
    assert_eq!(unix_secs(None), None);
}

/// One DER element.
fn der(tag: u8, parts: &[&[u8]]) -> Vec<u8> {
    let body: Vec<u8> = parts.concat();
    assert!(body.len() < 128);
    let mut out = vec![tag, u8::try_from(body.len()).unwrap()];
    out.extend(body);
    out
}

/// A certificate with nothing in it but its validity.
fn certificate(not_before: &[u8], not_after: &[u8]) -> Vec<u8> {
    let algorithm = der(0x30, &[&der(0x06, &[&[0x2a, 0x86, 0x48, 0xce, 0x3d, 4, 3, 2]])]);
    let name = der(0x30, &[]);
    let bits = der(0x03, &[&[0, 1]]);
    let key = der(0x30, &[&algorithm, &bits]);
    let validity = der(0x30, &[&der(0x17, &[not_before]), &der(0x17, &[not_after])]);
    let version = der(0xa0, &[&der(0x02, &[&[2]])]);
    let serial = der(0x02, &[&[1]]);
    let tbs = der(
        0x30,
        &[
            &version, &serial, &algorithm, &name, &validity, &name, &key,
        ],
    );
    der(0x30, &[&tbs, &algorithm, &bits])
}

#[test]
fn certificates_tell_when_they_expire() {
    let cert = certificate(b"200101000000Z", b"300101000000Z");
    assert_eq!(cert_not_after(&cert), Some(1_893_456_000));
    assert_eq!(cert_not_after(b"nonsense"), None);
}

#[test]
fn targets_take_the_apps_own_settings_first() {
    let policy = CheckPolicy {
        interval: 60,
        degraded_after_ms: 800,
        retries: 1,
        cert_warn_days: 14,
        retention: 86_400,
        timeout: 10,
        mass_down_pct: 50,
        lang: Lang::Es,
    };
    let mut app = RegisteredApp {
        slug: "a".into(),
        name: "A".into(),
        logs_url: None,
        health_url: Some("https://x.example.com/".into()),
        embed_token: String::new(),
        paused: false,
        public: false,
        degraded_after_ms: Some(50),
        expect_body: None,
        check_assets: false,
        paused_at: None,
        paused_until: None,
        interval_secs: None,
        timeout_secs: Some(3),
        expect_status: vec![204],
        headers: Vec::new(),
        alert_webhooks: Vec::new(),
        alert_mentions: Vec::new(),
    };
    let t = ProbeTarget::new(&app, &policy).unwrap();
    assert_eq!((t.degraded_after_ms, t.timeout), (50, 3));
    assert_eq!(t.expect_status, [204]);
    assert_eq!(policy.interval_for(&app), 60);
    app.interval_secs = Some(300);
    app.timeout_secs = None;
    app.degraded_after_ms = None;
    let t = ProbeTarget::new(&app, &policy).unwrap();
    assert_eq!((t.degraded_after_ms, t.timeout), (800, 10));
    assert_eq!(policy.interval_for(&app), 300);
    app.health_url = None;
    assert!(ProbeTarget::new(&app, &policy).is_none());
}

fn url(slug: &str) -> Url {
    Url::parse(&format!("https://logs.heartbeat.invalid/{slug}/logs")).unwrap()
}

fn json(line: &str) -> serde_json::Value {
    serde_json::from_str(line).unwrap()
}

#[test]
fn only_demo_urls_get_generated_logs() {
    assert!(logs(
        &Url::parse("https://api.example.com/logs").unwrap(),
        None,
        None,
        NOW
    )
    .is_none());
    let body = logs(&url("demo-caida"), Some("both"), Some("50"), NOW).unwrap();
    assert_eq!(body.out.len(), 50);
    let first = json(&body.out[0]);
    assert!(first["timestamp"].as_str().unwrap().ends_with('Z'));
    assert!(first["target"].as_str().unwrap().contains("::"));
    assert!(
        body.out.iter().any(|l| l.contains("\"ERROR\"")),
        "a down app logs errors"
    );
}

#[test]
fn the_backend_logs_from_more_modules_than_fit_collapsed() {
    let body = logs(&url("demo-backend"), None, Some("500"), NOW).unwrap();
    let targets: std::collections::HashSet<String> = body
        .out
        .iter()
        .filter_map(|l| serde_json::from_str::<serde_json::Value>(l).ok())
        .filter_map(|l| l["target"].as_str().map(str::to_string))
        .collect();
    assert!(targets.len() > 8, "{targets:?}");
}

#[test]
fn refreshing_keeps_the_older_lines() {
    let a = stdout_line("demo-estable", Profile::Steady, 1000, 3);
    let b = stdout_line("demo-estable", Profile::Steady, 1000, 3);
    assert_eq!(a, b);
    let before = logs(&url("demo-estable"), None, Some("20"), NOW).unwrap();
    let after = logs(&url("demo-estable"), None, Some("20"), NOW + 4).unwrap();
    assert_eq!(before.out[1..], after.out[..19]);
}

#[test]
fn demo_streams_can_be_asked_for_alone() {
    let out = logs(&url("demo-caida"), Some("out"), Some("400"), NOW).unwrap();
    assert_eq!(out.out.len(), 400);
    assert!(out.error.is_empty());
    let error = logs(&url("demo-caida"), Some("error"), Some("400"), NOW).unwrap();
    assert!(error.out.is_empty());
    assert!(!error.error.is_empty());
    assert_eq!(
        logs(&url("demo-caida"), None, Some("0"), NOW).unwrap().out.len(),
        1
    );
    assert_eq!(
        logs(&url("demo-caida"), None, Some("x"), NOW).unwrap().out.len(),
        500
    );
}

#[test]
fn steady_apps_do_not_panic() {
    assert!(stderr_lines("demo-estable", Profile::Steady, 10_000, 2000).is_empty());
    assert!(!stderr_lines("demo-caida", Profile::Down, 10_000, 2000).is_empty());
    assert_eq!(Profile::for_slug("demo-intermitente"), Profile::Flaky);
    assert_eq!(crate_name("demo-mi-app"), "mi_app");
}

#[test]
fn the_generator_is_reproducible() {
    assert_eq!(fnv1a(""), 0xcbf2_9ce4_8422_2325);
    assert_eq!(fnv1a("a"), 0xaf63_dc4c_8601_ec8c);
    let mut a = Rng::new(42);
    let mut b = Rng::new(42);
    assert_eq!(a.next(), b.next());
    assert!(a.below(10) < 10);
}

#[test]
fn timestamps_are_valid_utc() {
    assert_eq!(rfc3339(0), "1970-01-01T00:00:00.000000Z");
    assert!(rfc3339(1_790_000_000_123).starts_with("2026-09-21T"));
}

#[test]
fn leap_years_follow_the_calendar() {
    assert_eq!(
        date_of(11_016),
        Date {
            year: 2000,
            month: 2,
            day: 29
        }
    );
    assert_eq!(
        date_of(47_541),
        Date {
            year: 2100,
            month: 3,
            day: 1
        }
    );
    assert_eq!(rfc3339(951_826_554_007), "2000-02-29T12:15:54.007000Z");
}

#[test]
fn bare_attribute_values_end_at_white_space() {
    assert_eq!(attr(" src=/assets/app.js", "src").as_deref(), Some("/assets/app.js"));
    assert_eq!(attr(" src=/a/b.js defer", "src").as_deref(), Some("/a/b.js"));
    assert_eq!(attr(" href=/dir/ rel=stylesheet", "href").as_deref(), Some("/dir/"));
    assert_eq!(attr(" href=app.css/", "href").as_deref(), Some("app.css"));
    assert_eq!(attr(" href=app.css /", "href").as_deref(), Some("app.css"));
    let bundles = extract(
        "<script src=/assets/app.js></script><link rel=stylesheet href=/assets/app.css/>",
        &base(),
    );
    let paths: Vec<&str> = bundles.iter().map(|b| b.url.path.as_str()).collect();
    assert_eq!(paths, ["/assets/app.js", "/assets/app.css"]);
}

#[test]
fn every_event_draws_a_fixed_number_of_times() {
    for (kind, draws) in [3, 3, 3, 3, 2, 3, 2, 3, 3].into_iter().enumerate() {
        let mut rng = Rng::new(7);
        let mut same = Rng::new(7);
        let values = fields(kind, &mut rng, Profile::Steady);
        assert_eq!(values[0].0, "message");
        for _ in 0..draws {
            same.next();
        }
        assert_eq!(rng.state, same.state, "kind {kind}");
    }
}

#[test]
fn draws_below_nothing_are_zero() {
    let mut rng = Rng::new(3);
    let mut same = Rng::new(3);
    assert_eq!(rng.below(0), 0);
    same.next();
    assert_eq!(rng.state, same.state);
    let drawn = Rng::new(3).next();
    assert_eq!(Rng::new(3).below(100), drawn % 100);
}

#[test]
fn the_last_slot_there_is_has_lines_too() {
    assert!(stderr_lines("demo-estable", Profile::Steady, u64::MAX, 3000).is_empty());
    assert!(!stderr_lines("demo-caida", Profile::Down, u64::MAX, 3000).is_empty());
}
