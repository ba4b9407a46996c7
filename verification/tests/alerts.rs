use heartbeat::alert_templates::AlertTemplates;
use heartbeat::alert_templates::TemplateKind;
use heartbeat::alert_templates::TemplateStore;
use heartbeat::alerts::alerter::after_attempt;
use heartbeat::alerts::alerter::test_delivery;
use heartbeat::alerts::alerter::test_outcome;
use heartbeat::alerts::alerter::AlertSettings;
use heartbeat::alerts::alerter::Alerter;
use heartbeat::alerts::alerter::Attempt;
use heartbeat::alerts::alerter::Delivery;
use heartbeat::alerts::alerter::NextStep;
use heartbeat::alerts::alerter::Payload;
use heartbeat::alerts::alerter::TestKind;
use heartbeat::alerts::alerter::TestReply;
use heartbeat::alerts::format_duration;
use heartbeat::alerts::mask;
use heartbeat::alerts::AppRoute;
use heartbeat::alerts::Flavor;
use heartbeat::alerts::MassOutage;
use heartbeat::alerts::Mention;
use heartbeat::alerts::StatusChange;
use heartbeat::alerts::Webhook;
use heartbeat::alerts::WebhookError;
use heartbeat::i18n::I18n;
use heartbeat::i18n::Lang;
use heartbeat::uptime::Heartbeat;
use heartbeat::uptime::Status;
use heartbeat::weburl::Url;

const NOW: u64 = 1_700_000_000;

fn change(from: Status, to: Status) -> StatusChange {
    StatusChange {
        slug: "billing".to_string(),
        name: "Billing API".to_string(),
        from,
        to,
        beat: Heartbeat {
            at: 100,
            status: to,
            latency_ms: Some(1200),
            message: "HTTP 503 Service Unavailable".to_string(),
        },
        down_since: Some(40),
        route: AppRoute::default(),
    }
}

fn es() -> I18n {
    I18n::new(Lang::Es)
}

fn alerter_with(on_degraded: bool, mentions: &[&str]) -> Alerter {
    Alerter::new(
        AlertSettings {
            webhook_urls: vec![
                "https://hooks.slack.com/services/T/B/x".to_string(),
                "https://discord.com/api/webhooks/1/x".to_string(),
                "https://example.com/hook".to_string(),
                "not a url".to_string(),
            ],
            on_degraded,
            public_url: Some("https://status.example.com/".to_string()),
            mentions: mentions.iter().map(|m| (*m).to_string()).collect(),
            templates: None,
            ..AlertSettings::default()
        },
        es(),
    )
}

fn alerter(on_degraded: bool) -> Alerter {
    alerter_with(on_degraded, &[])
}

fn slack_text(payload: Payload) -> String {
    match payload {
        Payload::Slack { text } => text,
        other => panic!("{other:?}"),
    }
}

fn discord_text(payload: Payload) -> String {
    match payload {
        Payload::Discord { content } => content,
        other => panic!("{other:?}"),
    }
}

#[test]
fn detects_the_webhook_flavor_and_skips_invalid_urls() {
    let a = alerter(false);
    let flavors: Vec<Flavor> = a.global_webhooks().iter().map(|h| h.flavor).collect();
    assert_eq!(flavors, [Flavor::Slack, Flavor::Discord, Flavor::Generic]);
    assert!(!Alerter::new(AlertSettings::default(), es()).has_global_webhooks());
}

#[test]
fn degraded_only_alerts_when_enabled() {
    let quiet = alerter(false);
    assert!(!quiet.worth_alerting(Status::Up, Status::Degraded));
    assert!(quiet.worth_alerting(Status::Degraded, Status::Down));
    assert!(quiet.worth_alerting(Status::Down, Status::Degraded));
    assert!(!quiet.worth_alerting(Status::Up, Status::Up));

    let loud = alerter(true);
    assert!(loud.worth_alerting(Status::Up, Status::Degraded));
}

#[test]
fn payloads_match_each_service() {
    let a = alerter(false);
    let down = change(Status::Up, Status::Down);
    assert_eq!(
        slack_text(a.payload(Flavor::Slack, &down)),
        "🔴 Billing API está caída: HTTP 503 Service Unavailable\nhttps://status.example.com/#billing"
    );
    assert!(matches!(
        a.payload(Flavor::Discord, &down),
        Payload::Discord { .. }
    ));

    match a.payload(Flavor::Generic, &change(Status::Down, Status::Up)) {
        Payload::Event { event, from, to, slug, .. } => {
            assert_eq!(event, "status_change");
            assert_eq!(from, Status::Down);
            assert_eq!(to, Status::Up);
            assert_eq!(slug, "billing");
        }
        other => panic!("{other:?}"),
    }
    assert!(a
        .text(Flavor::Slack, &change(Status::Down, Status::Up))
        .starts_with("🟢 Billing API se recuperó"));
}

#[test]
fn mention_entries_parse_to_the_right_kind() {
    let parsed: Vec<Mention> = [
        "here",
        "@channel",
        "U0123ABCD",
        "S02XYZ",
        "123456789",
        "&987654",
    ]
    .iter()
    .map(|e| e.parse().unwrap())
    .collect();
    assert_eq!(
        parsed,
        [
            Mention::Here,
            Mention::Channel,
            Mention::SlackUser("U0123ABCD".into()),
            Mention::SlackGroup("S02XYZ".into()),
            Mention::DiscordUser("123456789".into()),
            Mention::DiscordRole("987654".into()),
        ]
    );
    assert!(
        "@emiliano".parse::<Mention>().is_err(),
        "names can't be resolved, only IDs"
    );
}

#[test]
fn mentions_page_only_on_down_in_each_services_syntax() {
    let a = alerter_with(
        false,
        &["U0123ABCD", "S02XYZ", "here", "123456789", "nope nope"],
    );
    assert_eq!(a.global_mentions().len(), 4, "the invalid entry is skipped");

    let down = change(Status::Up, Status::Down);
    let slack = slack_text(a.payload(Flavor::Slack, &down));
    assert!(
        slack.starts_with("<@U0123ABCD> <!subteam^S02XYZ> <!here> 🔴 Billing API"),
        "{slack}"
    );
    assert!(
        !slack.contains("123456789"),
        "Discord IDs stay out of Slack: {slack}"
    );

    let discord = discord_text(a.payload(Flavor::Discord, &down));
    assert!(discord.starts_with("@here <@123456789> 🔴"), "{discord}");

    match a.payload(Flavor::Generic, &down) {
        Payload::Event { mentions, .. } => assert_eq!(mentions.len(), 4),
        other => panic!("{other:?}"),
    }

    let recovered = change(Status::Down, Status::Up);
    let slack_ok = slack_text(a.payload(Flavor::Slack, &recovered));
    assert!(
        slack_ok.starts_with("🟢"),
        "recovery doesn't page: {slack_ok}"
    );
    match a.payload(Flavor::Generic, &recovered) {
        Payload::Event { mentions, .. } => assert!(mentions.is_empty()),
        other => panic!("{other:?}"),
    }
}

#[test]
fn mask_keeps_webhooks_distinguishable_but_unusable() {
    let url = Url::parse(
        "https://example.com/services/T00000FAKE/B00000FAKE/XXXXXXXXXXXXXXXXXXXXabcd",
    )
    .unwrap();
    let masked = mask(&url);
    assert_eq!(masked, "https://example.com/services/T000…/B000…/…abcd");
    assert!(!masked.contains("XXXXXXXXXXXXXXXXXXXX"));
}

#[test]
fn overview_previews_every_alert_kind_with_mentions_on_down() {
    let overview = alerter_with(false, &["U0123ABCD", "bogus entry"]).overview(NOW);
    assert_eq!(overview.webhooks.len(), 3);
    assert_eq!(overview.rejected_mentions, ["bogus entry"]);
    let kinds: Vec<TestKind> = overview.previews.iter().map(|p| p.kind).collect();
    assert_eq!(
        kinds,
        [
            TestKind::Down,
            TestKind::Reminder,
            TestKind::Degraded,
            TestKind::Recovered
        ]
    );
    assert!(overview.previews[0]
        .text
        .starts_with("<@U0123ABCD> 🔴 [Prueba]"));
    assert!(
        overview.previews[1].text.contains("sigue caída (25 min)"),
        "{}",
        overview.previews[1].text
    );
    assert!(
        overview.previews[2].text.starts_with("🟡"),
        "degraded preview even when off"
    );
    assert!(overview.previews[3].text.starts_with("🟢"));
}

#[test]
fn test_sends_report_the_webhooks_answer() {
    let a = Alerter::new(
        AlertSettings {
            webhook_urls: vec!["http://127.0.0.1:4000/hook".to_string()],
            mentions: vec!["here".to_string()],
            ..AlertSettings::default()
        },
        es(),
    );
    let targets = a.test_targets(None);
    assert_eq!(targets, [0]);
    match a.test_payload(TestKind::Down, Flavor::Generic, AppRoute::default(), NOW) {
        Payload::Event { event, mentions, .. } => {
            assert_eq!(event, "status_change");
            assert_eq!(mentions, ["here"]);
        }
        other => panic!("{other:?}"),
    }
    let outcome = test_outcome(
        0,
        Flavor::Generic,
        TestReply::Answered {
            status: 200,
            body: "ok".to_string(),
        },
        12,
    );
    assert!(outcome.ok, "{outcome:?}");
    assert_eq!(outcome.status, Some(200));
    assert_eq!(outcome.detail, "ok");

    assert!(
        a.test_targets(Some(7)).is_empty(),
        "an out-of-range target sends nothing"
    );
}

#[test]
fn real_alerts_use_the_saved_template() {
    let en = I18n::new(Lang::En);
    let mut a = Alerter::new(
        AlertSettings {
            webhook_urls: vec!["https://hooks.slack.com/services/T/B/x".to_string()],
            mentions: vec!["here".to_string()],
            templates: Some(TemplateStore::in_memory(&en)),
            ..AlertSettings::default()
        },
        es(),
    );
    let down = change(Status::Up, Status::Down);
    assert!(a
        .text(Flavor::Slack, &down)
        .starts_with("<!here> 🔴 Billing API is down"));

    a.save_templates(AlertTemplates {
        down: Some("{mentions} CAÍDA {app} -> {message}".into()),
        ..AlertTemplates::default()
    });
    assert_eq!(
        a.text(Flavor::Slack, &down),
        "<!here> CAÍDA Billing API -> HTTP 503 Service Unavailable"
    );
    match a.payload(Flavor::Generic, &down) {
        Payload::Event { text, .. } => assert_eq!(
            text,
            "CAÍDA Billing API -> HTTP 503 Service Unavailable"
        ),
        other => panic!("{other:?}"),
    }
}

fn failed(status: Option<u16>) -> Attempt {
    Attempt::Failed {
        status,
        error: "HTTP 500 Internal Server Error".to_string(),
    }
}

/// Runs a delivery against a server that fails `failures` times and then accepts.
fn deliver(failures: usize) -> (Delivery, usize, u64) {
    let mut hits = 0;
    let mut waited = 0;
    loop {
        let outcome = if hits < failures {
            failed(Some(500))
        } else {
            Attempt::Delivered
        };
        hits += 1;
        match after_attempt(hits - 1, outcome, NOW) {
            NextStep::Wait(secs) => waited += secs,
            NextStep::Record(delivery) => return (delivery, hits, waited),
        }
    }
}

#[test]
fn transient_failures_are_retried_until_delivered() {
    let (last, hits, waited) = deliver(2);
    assert!(last.ok, "{last:?}");
    assert_eq!(hits, 3);
    assert_eq!(waited, 12);
}

#[test]
fn a_webhook_that_keeps_failing_is_reported() {
    let (last, hits, waited) = deliver(usize::MAX);
    assert!(!last.ok && last.detail.contains("500"), "{last:?}");
    assert_eq!(hits, 4);
    assert_eq!(waited, 42);
}

#[test]
fn final_answers_are_not_retried() {
    for status in [400u16, 401, 404, 408, 410] {
        match after_attempt(0, failed(Some(status)), NOW) {
            NextStep::Record(d) => assert!(!d.ok),
            other => panic!("{other:?}"),
        }
    }
    for status in [None, Some(429u16), Some(500), Some(503)] {
        assert!(
            matches!(after_attempt(0, failed(status), NOW), NextStep::Wait(2)),
            "{status:?}"
        );
    }
}

#[test]
fn app_routes_add_their_own_webhooks_and_mentions() {
    let a = alerter_with(false, &["here"]);
    let mut down = change(Status::Up, Status::Down);
    down.route = AppRoute {
        webhooks: vec![
            "https://hooks.slack.com/services/T/B/x".into(), // already global
            "https://hooks.slack.com/services/T/B/team".into(),
            "http://insecure.example.com/hook".into(), // not https: skipped
        ],
        mentions: vec!["U0TEAM".into(), "here".into()],
    };
    assert_eq!(a.destinations(&down.route).len(), 4);
    let slack = a.text(Flavor::Slack, &down);
    assert!(slack.starts_with("<!here> <@U0TEAM> 🔴"), "{slack}");
}

#[test]
fn reminders_and_recoveries_say_how_long_it_has_been_down() {
    let a = alerter(false);
    let mut still = change(Status::Down, Status::Down);
    still.beat.at = 10_000;
    still.down_since = Some(10_000 - 25 * 60);
    assert!(still.is_reminder());
    assert!(a
        .text(Flavor::Slack, &still)
        .contains("sigue caída (25 min)"));
    match a.payload(Flavor::Generic, &still) {
        Payload::Event { event, down_for_secs, .. } => {
            assert_eq!(event, "still_down");
            assert_eq!(down_for_secs, Some(25 * 60));
        }
        other => panic!("{other:?}"),
    }
}

#[test]
fn durations_read_naturally() {
    assert_eq!(format_duration(45), "45 s");
    assert_eq!(format_duration(12 * 60), "12 min");
    assert_eq!(format_duration(3 * 3600), "3 h");
    assert_eq!(format_duration(3 * 3600 + 20 * 60), "3 h 20 min");
    assert_eq!(format_duration(2 * 86_400 + 4 * 3600 + 59), "2 d 4 h");
}

#[test]
fn durations_change_unit_on_the_boundary() {
    assert_eq!(format_duration(0), "0 s");
    assert_eq!(format_duration(59), "59 s");
    assert_eq!(format_duration(60), "1 min");
    assert_eq!(format_duration(3599), "59 min");
    assert_eq!(format_duration(3600), "1 h");
    assert_eq!(format_duration(86_399), "23 h 59 min");
    assert_eq!(format_duration(86_400), "1 d");
}

#[test]
fn mass_outage_notices_are_short_and_page() {
    let a = alerter_with(false, &["here"]);
    let started = a.mass_text(Flavor::Slack, MassOutage::Started { down: 4, total: 5 });
    assert!(started.starts_with("<!here> 🌐 4 de 5 apps"), "{started}");
    let ended = a.mass_payload(Flavor::Generic, MassOutage::Ended { total: 5 }, NOW);
    assert!(matches!(
        ended,
        Payload::MassOutageEnded { total: 5, at: NOW, .. }
    ));
}

#[test]
fn mass_notices_go_to_the_global_webhooks_only() {
    let a = alerter(false);
    let sent = a.outgoing_mass(MassOutage::Started { down: 3, total: 4 }, NOW);
    assert_eq!(sent.len(), 3);
    assert!(matches!(
        sent[2].1,
        Payload::MassOutageStarted { down: 3, total: 4, at: NOW, .. }
    ));
}

#[test]
fn an_alert_goes_to_every_destination_in_its_own_syntax() {
    let a = alerter(false);
    let sent = a.outgoing(&change(Status::Up, Status::Down));
    assert_eq!(sent.len(), 3);
    assert!(matches!(sent[0].1, Payload::Slack { .. }));
    assert!(matches!(sent[1].1, Payload::Discord { .. }));
    assert!(matches!(sent[2].1, Payload::Event { .. }));
    assert_eq!(sent[2].0.url.text, "https://example.com/hook");
}

#[test]
fn app_webhooks_must_be_https_urls() {
    assert!(matches!(
        Webhook::for_app("http://example.com/hook"),
        Err(WebhookError::NotHttps)
    ));
    assert!(matches!(
        Webhook::for_app("nonsense"),
        Err(WebhookError::Invalid(_))
    ));
    let hook = Webhook::for_app("https://hooks.slack.com/services/T/B/x").unwrap();
    assert_eq!(hook.flavor, Flavor::Slack);
}

#[test]
fn deliveries_are_kept_per_webhook() {
    let mut a = alerter(false);
    assert_eq!(a.last_delivery("https://example.com/hook"), None);
    let first = Delivery {
        at: 1,
        ok: false,
        detail: "HTTP 500".to_string(),
    };
    a.record("https://example.com/hook", first.clone());
    assert_eq!(a.last_delivery("https://example.com/hook"), Some(first));
    let second = Delivery {
        at: 2,
        ok: true,
        detail: String::new(),
    };
    a.record("https://example.com/hook", second.clone());
    assert_eq!(
        a.last_delivery("https://example.com/hook"),
        Some(second.clone())
    );
    assert_eq!(a.last_delivery("https://example.com/other"), None);
    assert_eq!(a.overview(NOW).webhooks[2].last, Some(second));
}

#[test]
fn a_failed_test_leaves_its_reason_on_the_record() {
    let failed = test_outcome(
        1,
        Flavor::Slack,
        TestReply::Answered {
            status: 404,
            body: "é".repeat(300),
        },
        7,
    );
    assert!(!failed.ok);
    assert_eq!(failed.detail, "é".repeat(200));
    let delivery = test_delivery(&failed, 9);
    assert_eq!(delivery.at, 9);
    assert_eq!(delivery.detail, "é".repeat(200));

    let unreachable = test_outcome(
        1,
        Flavor::Slack,
        TestReply::Failed {
            error: "connection refused".to_string(),
        },
        7,
    );
    assert_eq!(unreachable.status, None);
    assert_eq!(unreachable.detail, "connection refused");

    let fine = test_outcome(
        1,
        Flavor::Slack,
        TestReply::Answered {
            status: 204,
            body: "ok".to_string(),
        },
        7,
    );
    assert_eq!(test_delivery(&fine, 9).detail, "");
}

#[test]
fn mentions_render_only_where_they_mean_something() {
    let user = Mention::SlackUser("U1".to_string());
    assert_eq!(user.render(Flavor::Slack).as_deref(), Some("<@U1>"));
    assert_eq!(user.render(Flavor::Discord), None);
    assert_eq!(user.raw(), "U1");
    let role = Mention::DiscordRole("42".to_string());
    assert_eq!(role.render(Flavor::Discord).as_deref(), Some("<@&42>"));
    assert_eq!(role.render(Flavor::Slack), None);
    assert_eq!(role.raw(), "&42");
    assert_eq!(Mention::Channel.render(Flavor::Slack).as_deref(), Some("<!channel>"));
    assert_eq!(Mention::Channel.render(Flavor::Discord).as_deref(), Some("@everyone"));
    assert_eq!(Mention::Here.render(Flavor::Discord).as_deref(), Some("@here"));
}

#[test]
fn a_ping_is_no_alert() {
    let a = alerter(false);
    assert!(a.sample(TestKind::Ping, AppRoute::default(), NOW).is_none());
    let sample = a
        .sample(TestKind::Recovered, AppRoute::default(), NOW)
        .unwrap();
    assert_eq!(sample.from, Status::Down);
    assert_eq!(sample.to, Status::Up);
    assert_eq!(sample.down_since, Some(NOW - 420));
    assert_eq!(TestKind::of(TemplateKind::Reminder), TestKind::Reminder);
}

#[test]
fn masks_do_not_tell_hidden_characters_apart() {
    let a = Url::parse("https://example.com/services/T00000AAAA/XXXXXXXXabcd").unwrap();
    let b = Url::parse("https://example.com/services/T00099BBBB/YYYYYabcd").unwrap();
    assert_eq!(mask(&a), mask(&b));
    assert_eq!(mask(&a), "https://example.com/services/T000…/…abcd");
    let port = Url::parse("https://example.com:8443/a/b").unwrap();
    assert_eq!(mask(&port), "https://example.com:8443/a/b");
}

#[test]
fn mentions_read_back_as_they_are_written() {
    for raw in ["here", "channel", "U0123ABCD", "S02XYZ", "123456789", "&987654"] {
        let mention: Mention = raw.parse().unwrap();
        assert_eq!(mention.raw(), raw);
        assert_eq!(mention.raw().parse::<Mention>().unwrap(), mention);
    }
}

#[test]
fn alerts_are_symmetric() {
    let all = [Status::Up, Status::Degraded, Status::Down];
    for a in [alerter(false), alerter(true)] {
        for from in all {
            for to in all {
                assert_eq!(a.worth_alerting(from, to), a.worth_alerting(to, from));
            }
        }
    }
}

#[test]
fn global_mentions_page_once_however_often_they_are_written() {
    let a = alerter_with(false, &["here", "@here"]);
    let mut down = change(Status::Up, Status::Down);
    down.route.mentions = vec!["here".into(), "U0TEAM".into()];
    assert_eq!(
        a.mentions_for(&down),
        vec![Mention::Here, Mention::SlackUser("U0TEAM".into())]
    );
    let slack = a.text(Flavor::Slack, &down);
    assert!(slack.starts_with("<!here> <@U0TEAM> 🔴"), "{slack}");
}

#[test]
fn a_webhook_that_is_listed_twice_gets_an_alert_once() {
    let hook = "https://hooks.slack.com/services/T/B/x".to_string();
    let a = Alerter::new(
        AlertSettings {
            webhook_urls: vec![hook.clone(), hook.clone()],
            ..AlertSettings::default()
        },
        es(),
    );
    let mut down = change(Status::Up, Status::Down);
    down.route.webhooks = vec![hook.clone(), "https://example.com/team".into()];
    let urls: Vec<String> = a
        .destinations(&down.route)
        .into_iter()
        .map(|h| h.url.text)
        .collect();
    assert_eq!(urls, [hook, "https://example.com/team".to_string()]);
    assert_eq!(a.outgoing(&down).len(), 2);
}

#[test]
fn a_first_down_alert_tells_no_duration() {
    let a = alerter(false);
    let event = |change: &StatusChange| match a.payload(Flavor::Generic, change) {
        Payload::Event { down_for_secs, .. } => down_for_secs,
        _ => panic!("a generic event"),
    };
    assert_eq!(event(&change(Status::Up, Status::Down)), None);
    assert_eq!(event(&change(Status::Down, Status::Down)), Some(60));
    assert_eq!(event(&change(Status::Down, Status::Up)), Some(60));
    assert_eq!(a.vars(Flavor::Slack, &change(Status::Up, Status::Down)).duration, "");
    assert_eq!(a.vars(Flavor::Slack, &change(Status::Down, Status::Up)).duration, "1 min");
}

#[test]
fn mass_outage_notices_list_the_mentions_as_they_are_configured() {
    let a = alerter_with(false, &["here", "@here"]);
    let started = MassOutage::Started { down: 4, total: 5 };
    let notice = a.mass_text(Flavor::Slack, started);
    assert!(notice.starts_with("<!here> <!here> 🌐 4 de 5 apps"), "{notice}");
    let Payload::MassOutageStarted { mentions, .. } = a.mass_payload(Flavor::Generic, started, NOW)
    else {
        panic!("a generic notice");
    };
    assert_eq!(mentions, ["here", "here"]);
}
