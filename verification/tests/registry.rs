use heartbeat::i18n::I18n;
use heartbeat::i18n::Lang;
use heartbeat::i18n::Localize;
use heartbeat::registry::slugify;
use heartbeat::registry::AppRegistry;
use heartbeat::registry::AppSettings;
use heartbeat::registry::CheckHeader;
use heartbeat::registry::RegisteredApp;
use heartbeat::registry::RegistryError;
use heartbeat::registry::MAX_HEADERS;
use heartbeat::registry::MAX_WEBHOOKS;

const NOW: u64 = 1_700_000_000;

fn settings(name: &str, logs_url: &str, health_url: &str) -> AppSettings {
    AppSettings {
        name: name.to_string(),
        logs_url: logs_url.to_string(),
        health_url: health_url.to_string(),
        ..AppSettings::default()
    }
}

fn empty() -> AppRegistry {
    AppRegistry::load(Vec::new()).unwrap().0
}

/// The registry that reads back what this one would be saved as.
fn reload(registry: &AppRegistry) -> AppRegistry {
    AppRegistry::load(registry.list().to_vec()).unwrap().0
}

fn old_entry() -> RegisteredApp {
    RegisteredApp {
        slug: "old".to_string(),
        name: "Old".to_string(),
        logs_url: Some("https://x/logs".to_string()),
        health_url: None,
        embed_token: String::new(),
        paused: false,
        public: false,
        degraded_after_ms: None,
        expect_body: None,
        check_assets: false,
        paused_at: None,
        paused_until: None,
        interval_secs: None,
        timeout_secs: None,
        expect_status: Vec::new(),
        headers: Vec::new(),
        alert_webhooks: Vec::new(),
        alert_mentions: Vec::new(),
    }
}

#[test]
fn update_keeps_slug_and_token_and_pause_persists() {
    let mut registry = empty();
    let slug = registry
        .add(settings(
            "Billing API",
            "https://x/logs",
            "https://x/health",
        ))
        .unwrap();
    let token = registry.find(&slug).unwrap().embed_token.clone();

    let mut changed = settings("Billing API v2", "https://y/logs", "https://y/health");
    changed.degraded_after_ms = Some(1500);
    changed.expect_body = Some("  ok  ".to_string());
    registry.update(&slug, changed).unwrap();
    registry.set_paused(&slug, true, None, NOW).unwrap();
    registry.set_public(&slug, true).unwrap();

    let reloaded = reload(&registry);
    let app = reloaded.find(&slug).unwrap();
    assert_eq!(app.name, "Billing API v2");
    assert_eq!(app.embed_token, token);
    assert_eq!(app.degraded_after_ms, Some(1500));
    assert_eq!(app.expect_body.as_deref(), Some("ok"));
    assert!(app.paused && app.public);

    assert!(matches!(
        registry.update("missing", settings("a", "https://x", "https://x")),
        Err(RegistryError::NotFound(_))
    ));
}

#[test]
fn slugify_lowercases_and_collapses_punctuation() {
    assert_eq!(slugify("Billing API (staging)"), "billing-api-staging");
    assert_eq!(slugify("  leading/trailing  "), "leading-trailing");
    assert_eq!(slugify("já-acentuado"), "j-acentuado");
}

#[test]
fn slugs_of_names_with_nothing_to_keep_are_empty() {
    assert_eq!(slugify("¡¿?!"), "");
    assert_eq!(slugify("A1--b2"), "a1-b2");
    assert_eq!(slugify("K"), "k", "the Kelvin sign lowercases to k");
}

#[test]
fn add_then_find_round_trips() {
    let mut registry = empty();
    let slug = registry
        .add(settings(
            "Billing API",
            "https://x/logs",
            "https://x/health",
        ))
        .unwrap();
    assert_eq!(slug, "billing-api");
    let found = registry.find(&slug).unwrap();
    assert_eq!(found.name, "Billing API");
    assert_eq!(found.logs_url.as_deref(), Some("https://x/logs"));
    assert_eq!(found.health_url.as_deref(), Some("https://x/health"));
}

#[test]
fn add_rejects_a_slug_collision() {
    let mut registry = empty();
    registry
        .add(settings(
            "Billing API",
            "https://x/logs",
            "https://x/health",
        ))
        .unwrap();
    let err = registry.add(settings(
        "billing api",
        "https://y/logs",
        "https://y/health",
    ));
    assert!(err.is_err());
    assert!(matches!(err, Err(RegistryError::SlugTaken)));
    assert_eq!(registry.list().len(), 1);
}

#[test]
fn add_rejects_a_url_without_a_scheme() {
    let mut registry = empty();
    let err = registry.add(settings("Bad", "not-a-url", "https://x/health"));
    assert!(err.is_err());
}

#[test]
fn add_rejects_a_health_url_without_a_scheme() {
    let mut registry = empty();
    let err = registry.add(settings("Bad", "https://x/logs", ""));
    assert!(err.is_err());
    assert!(registry.list().is_empty(), "a refused app is not stored");
}

#[test]
fn loads_entries_saved_before_health_url_existed() {
    let registry = AppRegistry::load(vec![old_entry()]).unwrap().0;
    assert_eq!(registry.find("old").unwrap().health_url, None);
}

#[test]
fn add_generates_an_embed_token_and_rotate_replaces_it() {
    let mut registry = empty();
    let slug = registry
        .add(settings(
            "Billing API",
            "https://x/logs",
            "https://x/health",
        ))
        .unwrap();
    let app = registry.find(&slug).unwrap().clone();
    assert_eq!(app.embed_token.len(), 48);
    assert!(app.embed_token_matches(&app.embed_token.clone()));
    assert!(!app.embed_token_matches(""));
    assert!(!app.embed_token_matches(&"0".repeat(48)));

    registry.rotate_embed_token(&slug).unwrap();
    let rotated = registry.find(&slug).unwrap();
    assert_ne!(rotated.embed_token, app.embed_token);
    assert!(!rotated.embed_token_matches(&app.embed_token));
}

#[test]
fn load_backfills_missing_embed_tokens_and_persists_them() {
    let (registry, changed) = AppRegistry::load(vec![old_entry()]).unwrap();
    assert!(changed, "the new token has to be saved");
    let token = registry.find("old").unwrap().embed_token.clone();
    assert_eq!(token.len(), 48);
    let (reloaded, again) = AppRegistry::load(registry.list().to_vec()).unwrap();
    assert!(!again);
    assert_eq!(reloaded.find("old").unwrap().embed_token, token);
}

#[test]
fn persists_across_a_reload() {
    let mut registry = empty();
    registry
        .add(settings(
            "Billing API",
            "https://x/logs",
            "https://x/health",
        ))
        .unwrap();
    assert_eq!(reload(&registry).list().len(), 1);
}

#[test]
fn remove_then_reload_reflects_the_removal() {
    let mut registry = empty();
    let slug = registry
        .add(settings(
            "Billing API",
            "https://x/logs",
            "https://x/health",
        ))
        .unwrap();
    registry.remove(&slug).unwrap();
    assert!(registry.list().is_empty());
    assert!(reload(&registry).list().is_empty());
    assert!(matches!(
        registry.remove(&slug),
        Err(RegistryError::NotFound(_))
    ));
}

#[test]
fn monitor_only_apps_have_no_logs_url() {
    let mut registry = empty();
    let mut frontend = settings("Frontend", "   ", "https://x/");
    frontend.check_assets = true;
    let slug = registry.add(frontend).unwrap();
    let reloaded = reload(&registry);
    let app = reloaded.find(&slug).unwrap();
    assert_eq!(app.logs_url, None);
    assert!(app.check_assets);
}

/// Breaks one field, then checks the error it produces.
type Case = (fn(&mut AppSettings), fn(&RegistryError) -> bool);

#[test]
fn check_options_are_validated_and_normalized() {
    let mut registry = empty();
    let mut good = settings("Db", "", "tcp://db.example.com:5432");
    good.interval_secs = Some(30);
    good.expect_status = vec![401, 200, 401];
    good.headers = vec![CheckHeader::parse_line("X-Token: abc").unwrap()];
    good.alert_webhooks = vec![
        " https://hooks.slack.com/services/T/B/x ".into(),
        String::new(),
    ];
    good.alert_mentions = vec!["U0TEAM".into()];
    let slug = registry.add(good).unwrap();
    let app = registry.find(&slug).unwrap();
    assert_eq!(app.expect_status, [200, 401]);
    assert_eq!(
        app.alert_webhooks,
        ["https://hooks.slack.com/services/T/B/x"]
    );
    assert_eq!(app.alert_route().mentions, ["U0TEAM"]);

    let cases: [Case; 5] = [
        (
            |s| s.interval_secs = Some(5),
            |e| matches!(e, RegistryError::IntervalOutOfRange),
        ),
        (
            |s| s.timeout_secs = Some(600),
            |e| matches!(e, RegistryError::TimeoutOutOfRange),
        ),
        (
            |s| s.expect_status = vec![42],
            |e| matches!(e, RegistryError::InvalidStatus(42)),
        ),
        (
            |s| s.alert_webhooks = vec!["http://hooks.example.com/x".into()],
            |e| matches!(e, RegistryError::InvalidWebhook(_)),
        ),
        (
            |s| s.alert_mentions = vec!["@someone".into()],
            |e| matches!(e, RegistryError::InvalidMention(_)),
        ),
    ];
    for (i, (break_it, expected)) in cases.into_iter().enumerate() {
        let mut bad = settings(&format!("Bad {i}"), "", "https://x.example.com/health");
        break_it(&mut bad);
        let err = registry.add(bad).unwrap_err();
        assert!(expected(&err), "case {i}: {err:?}");
    }
}

#[test]
fn every_other_setting_has_its_own_error() {
    let cases: [Case; 7] = [
        (
            |s| s.name = "  ".into(),
            |e| matches!(e, RegistryError::EmptyName),
        ),
        (
            |s| s.name = "!!!".into(),
            |e| matches!(e, RegistryError::NameWithoutAlphanumerics),
        ),
        (
            |s| s.health_url = "nowhere".into(),
            |e| matches!(e, RegistryError::InvalidUrl(_)),
        ),
        (
            |s| s.timeout_secs = Some(61),
            |e| matches!(e, RegistryError::TimeoutOutOfRange),
        ),
        (
            |s| s.interval_secs = Some(86_401),
            |e| matches!(e, RegistryError::IntervalOutOfRange),
        ),
        (
            |s| {
                s.headers = (0..=MAX_HEADERS)
                    .map(|i| CheckHeader {
                        name: format!("X-{i}"),
                        value: "v".into(),
                    })
                    .collect()
            },
            |e| matches!(e, RegistryError::TooMany(_)),
        ),
        (
            |s| {
                s.alert_webhooks = (0..=MAX_WEBHOOKS)
                    .map(|i| format!("https://hooks.example.com/{i}"))
                    .collect()
            },
            |e| matches!(e, RegistryError::TooMany(_)),
        ),
    ];
    for (i, (break_it, expected)) in cases.into_iter().enumerate() {
        let mut bad = settings("Fine", "", "https://x.example.com/health");
        break_it(&mut bad);
        let err = empty().add(bad).unwrap_err();
        assert!(expected(&err), "case {i}: {err:?}");
    }
}

#[test]
fn zero_means_the_default() {
    let mut zero = settings("Fine", "", "https://x.example.com/health");
    zero.interval_secs = Some(0);
    zero.timeout_secs = Some(0);
    let valid = zero.normalized().unwrap();
    assert_eq!((valid.interval_secs, valid.timeout_secs), (None, None));
}

#[test]
fn headers_parse_from_lines_and_reserved_ones_are_refused() {
    let h = CheckHeader::parse_line("Authorization:  Bearer x ").unwrap();
    assert_eq!(
        (h.name.as_str(), h.value.as_str()),
        ("Authorization", "Bearer x")
    );
    for bad in [
        "no colon",
        "Host: evil.example.com",
        "Bad Name: x",
        "Connection: close",
    ] {
        assert!(CheckHeader::parse_line(bad).is_err(), "{bad}");
    }
}

#[test]
fn header_values_must_be_printable() {
    let bad = CheckHeader {
        name: "X-Token".into(),
        value: "a\nb".into(),
    };
    assert!(!bad.validate());
    let mut registry = empty();
    let mut with_header = settings("Fine", "", "https://x.example.com/health");
    with_header.headers = vec![bad];
    assert!(matches!(
        registry.add(with_header),
        Err(RegistryError::InvalidHeader(_))
    ));
}

#[test]
fn scheduled_pauses_end_by_themselves() {
    let mut registry = empty();
    let a = registry.add(settings("A", "", "https://x/health")).unwrap();
    let b = registry.add(settings("B", "", "https://y/health")).unwrap();
    registry.set_paused(&a, true, Some(1000), 500).unwrap();
    registry.set_paused(&b, true, None, 500).unwrap();
    let paused_at = registry.find(&b).unwrap().paused_at;
    assert!(paused_at.is_some());

    assert_eq!(registry.resume_expired(999), Vec::<String>::new());
    assert_eq!(registry.resume_expired(1000), [a.as_str()]);
    let resumed = registry.find(&a).unwrap();
    assert!(!resumed.paused && resumed.paused_until.is_none() && resumed.paused_at.is_none());
    assert!(registry.find(&b).unwrap().paused, "indefinite pauses stay");

    registry.set_paused(&b, true, Some(5000), 2000).unwrap();
    assert_eq!(
        registry.find(&b).unwrap().paused_at,
        paused_at,
        "rescheduling keeps when the pause began"
    );
}

#[test]
fn resuming_clears_the_whole_pause() {
    let mut registry = empty();
    let slug = registry.add(settings("A", "", "https://x/health")).unwrap();
    registry.set_paused(&slug, true, Some(900), 100).unwrap();
    assert!(!registry.find(&slug).unwrap().is_monitored());
    registry.set_paused(&slug, false, Some(900), 200).unwrap();
    let app = registry.find(&slug).unwrap();
    assert!(app.is_monitored());
    assert_eq!((app.paused_at, app.paused_until), (None, None));
}

#[test]
fn changes_to_missing_apps_are_refused() {
    let mut registry = empty();
    assert!(matches!(
        registry.set_paused("x", true, None, 1),
        Err(RegistryError::NotFound(_))
    ));
    assert!(matches!(
        registry.set_public("x", true),
        Err(RegistryError::NotFound(_))
    ));
    assert!(matches!(
        registry.rotate_embed_token("x"),
        Err(RegistryError::NotFound(_))
    ));
}

#[test]
fn an_empty_token_matches_nothing() {
    let app = old_entry();
    assert!(!app.embed_token_matches(""));
}

#[test]
fn registry_errors_read_in_both_languages() {
    let es = I18n::new(Lang::Es);
    let en = I18n::new(Lang::En);
    for e in [
        RegistryError::EmptyName,
        RegistryError::InvalidUrl("x".into()),
        RegistryError::InvalidStatus(42),
        RegistryError::NotFound("billing".into()),
        RegistryError::TooMany("headers".into()),
    ] {
        let (a, b) = (e.localize(&es), e.localize(&en));
        assert_ne!(a, b);
        assert!(!a.contains('{') && !b.contains('{'), "{a} / {b}");
    }
}

#[test]
fn a_given_token_is_kept() {
    let mut registry = empty();
    let slug = registry
        .add_with_token(settings("A", "", "https://x/health"), "t0k3n".to_string())
        .unwrap();
    assert!(registry.find(&slug).unwrap().embed_token_matches("t0k3n"));
    registry
        .set_embed_token(&slug, "other".to_string())
        .unwrap();
    assert!(!registry.find(&slug).unwrap().embed_token_matches("t0k3n"));
    assert!(matches!(
        registry.add_with_token(settings("a", "", "https://x/health"), "t".to_string()),
        Err(RegistryError::SlugTaken)
    ));
}

#[test]
fn the_slug_of_a_slug_is_that_slug() {
    for name in ["Billing API (staging)", "  leading/trailing  ", "A1--b2", "\u{130}stanbul", ""] {
        let slug = slugify(name);
        assert_eq!(slugify(&slug), slug, "{name}");
    }
    assert_eq!(slugify("billing-api-staging"), "billing-api-staging");
    assert_eq!(slugify("\u{a1}\u{e1}!"), "", "no letter or digit of ASCII");
}

#[test]
fn headers_are_trimmed_like_every_other_setting() {
    let mut registry = empty();
    let mut padded = settings("Padded", "", "https://x.example.com/health");
    padded.headers = vec![CheckHeader {
        name: " X-Token ".into(),
        value: "  abc ".into(),
    }];
    let slug = registry.add(padded).unwrap();
    let stored = &registry.find(&slug).unwrap().headers[0];
    assert_eq!((stored.name.as_str(), stored.value.as_str()), ("X-Token", "abc"));
}
