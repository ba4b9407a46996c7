use heartbeat::alert_templates::render;
use heartbeat::alert_templates::AlertTemplates;
use heartbeat::alert_templates::TemplateKind;
use heartbeat::alert_templates::TemplateStore;
use heartbeat::alert_templates::TemplateVars;
use heartbeat::alert_templates::MAX_TEMPLATE_CHARS;
use heartbeat::i18n::I18n;
use heartbeat::i18n::Lang;

fn vars() -> TemplateVars {
    TemplateVars {
        app: "Billing".into(),
        message: "HTTP 503".into(),
        latency: "412 ms".into(),
        link: "https://status.example.com/#billing".into(),
        mentions: "<@U1>".into(),
        duration: "25 min".into(),
    }
}

#[test]
fn render_fills_every_placeholder() {
    let out = render("{mentions} {app}: {message} ({latency})\n{link}", &vars());
    assert_eq!(
        out,
        "<@U1> Billing: HTTP 503 (412 ms)\nhttps://status.example.com/#billing"
    );
}

#[test]
fn render_tidies_what_empty_placeholders_leave() {
    let empty = TemplateVars {
        app: "Billing".into(),
        ..TemplateVars::default()
    };
    assert_eq!(
        render("{mentions} 🔴 {app} ({latency})\n{link}", &empty),
        "🔴 Billing"
    );
}

#[test]
fn render_knows_the_duration_and_keeps_unknown_words() {
    assert_eq!(render("{app}: {duration} {other}", &vars()), "Billing: 25 min {other}");
}

#[test]
fn rendered_lines_have_no_outer_space_and_no_blank_end() {
    let out = render("  a   b  \n\n  c\t d\n \n", &vars());
    assert_eq!(out, "a b\n\nc d");
}

#[test]
fn defaults_follow_the_language() {
    let es = TemplateStore::in_memory(&I18n::new(Lang::Es));
    let en = TemplateStore::in_memory(&I18n::new(Lang::En));
    assert!(es.effective(TemplateKind::Down).contains("está caída"));
    assert!(en.effective(TemplateKind::Down).contains("is down"));
}

#[test]
fn custom_templates_persist_and_blank_means_default() {
    let i18n = I18n::new(Lang::Es);
    let mut store = TemplateStore::new(AlertTemplates::default(), &i18n);
    store.save(AlertTemplates {
        down: Some("  ALERTA {app}  ".into()),
        degraded: Some("   ".into()),
        ..AlertTemplates::default()
    });
    assert_eq!(store.effective(TemplateKind::Down), "ALERTA {app}");
    assert_eq!(
        store.effective(TemplateKind::Degraded),
        store.default_for(TemplateKind::Degraded)
    );

    let saved = store.custom();
    let reloaded = TemplateStore::new(
        AlertTemplates {
            down: saved.down.clone(),
            reminder: saved.reminder.clone(),
            degraded: saved.degraded.clone(),
            recovered: saved.recovered.clone(),
        },
        &i18n,
    );
    assert_eq!(reloaded.effective(TemplateKind::Down), "ALERTA {app}");
    assert_eq!(reloaded.custom().degraded, None);
    assert!(reloaded.is_custom(TemplateKind::Down));
    assert!(!reloaded.is_custom(TemplateKind::Degraded));
}

#[test]
fn too_long_is_reported() {
    let t = AlertTemplates {
        recovered: Some("x".repeat(MAX_TEMPLATE_CHARS + 1)),
        ..AlertTemplates::default()
    };
    assert_eq!(t.too_long(), Some(TemplateKind::Recovered));
}

#[test]
fn a_template_of_the_longest_length_is_fine() {
    let t = AlertTemplates {
        down: Some("ñ".repeat(MAX_TEMPLATE_CHARS)),
        ..AlertTemplates::default()
    };
    assert_eq!(t.too_long(), None);
    assert_eq!(t.get(TemplateKind::Down).map(|s| s.chars().count()), Some(1000));
}

#[test]
fn cleaning_templates_twice_changes_nothing_more() {
    let once = AlertTemplates {
        down: Some("  a ".into()),
        reminder: Some("\n".into()),
        ..AlertTemplates::default()
    }
    .normalized();
    assert_eq!(once.down.as_deref(), Some("a"));
    assert_eq!(once.reminder, None);
    let twice = once.normalized();
    assert_eq!(twice.down.as_deref(), Some("a"));
    assert_eq!(twice.reminder, None);
}
