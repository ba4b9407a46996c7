use heartbeat::auth::access_for;
use heartbeat::auth::guard;
use heartbeat::auth::Access;
use heartbeat::auth::Role;
use heartbeat::auth::Route;
use heartbeat::auth::Session;
use heartbeat::auth::SessionStore;
use heartbeat::auth::SESSION_SECS;
use heartbeat::i18n::I18n;
use heartbeat::i18n::Lang;
use heartbeat::i18n::Localize;
use heartbeat::notices::draft_from;
use heartbeat::notices::draft_of;
use heartbeat::notices::NoticeDraft;
use heartbeat::notices::NoticeError;
use heartbeat::notices::NoticeState;
use heartbeat::notices::NoticeStore;
use heartbeat::notices::MAX_BODY_CHARS;
use heartbeat::notices::MAX_TITLE_CHARS;
use heartbeat::notices::RESOLVED_VISIBLE_SECS;
use heartbeat::table::Table;

const NOW: u64 = 1_700_000_000;

fn rows(store: &SessionStore) -> Vec<(String, Session)> {
    (0..store.len())
        .map(|i| {
            let (id, s) = store.row(i);
            (
                id.to_string(),
                Session {
                    upstream_token: s.upstream_token.clone(),
                    role: s.role,
                    expires_at: s.expires_at,
                },
            )
        })
        .collect()
}

#[test]
fn only_issued_live_sessions_resolve_and_survive_a_reload() {
    let mut store = SessionStore::load(Vec::new(), NOW);
    let id = store.create("jwt".to_string(), Role::Admin, NOW).unwrap();
    assert_eq!(id.len(), 64);
    assert_eq!(store.upstream_token(&id, NOW).as_deref(), Some("jwt"));
    assert_eq!(store.upstream_token("cualquier-cosa", NOW), None);

    let mut reloaded = SessionStore::load(rows(&store), NOW);
    assert_eq!(reloaded.upstream_token(&id, NOW).as_deref(), Some("jwt"));

    assert!(reloaded.remove(&id));
    assert_eq!(reloaded.upstream_token(&id, NOW), None);
    assert!(!reloaded.remove(&id), "nothing left to remove");
    let after_logout = SessionStore::load(rows(&reloaded), NOW);
    assert_eq!(after_logout.upstream_token(&id, NOW), None);
}

#[test]
fn expired_sessions_do_not_resolve_nor_load() {
    let store = SessionStore::load(
        vec![(
            "old".to_string(),
            Session {
                upstream_token: "jwt".to_string(),
                role: Role::Admin,
                expires_at: 1,
            },
        )],
        NOW,
    );
    assert_eq!(store.upstream_token("old", NOW), None);
    assert_eq!(store.len(), 0);
}

#[test]
fn sessions_end_after_twelve_hours() {
    let mut store = SessionStore::load(Vec::new(), NOW);
    store.create_with_id("id", "jwt".to_string(), Role::Viewer, NOW);
    assert_eq!(store.find("id", NOW + SESSION_SECS - 1).map(|s| s.role), Some(Role::Viewer));
    assert!(store.find("id", NOW + SESSION_SECS).is_none());
    store.drop_expired(NOW + SESSION_SECS);
    assert_eq!(store.len(), 0);
}

#[test]
fn creating_a_session_drops_the_expired_ones() {
    let mut store = SessionStore::load(Vec::new(), NOW);
    store.create_with_id("first", String::new(), Role::Admin, NOW);
    store.create_with_id("second", String::new(), Role::Admin, NOW + SESSION_SECS);
    assert_eq!(store.len(), 1);
    assert_eq!(store.row(0).0, "second");
}

#[test]
fn pages_redirect_to_login_without_a_real_session() {
    let store = SessionStore::load(Vec::new(), NOW);
    for cookie in [None, Some("forged-value")] {
        assert_eq!(guard(&store, cookie, Route::Apps, NOW), Access::Login);
        assert_eq!(
            guard(&store, cookie, Route::Uptime, NOW),
            Access::Unauthorized
        );
    }
}

#[test]
fn settings_page_and_alert_tests_require_a_session() {
    let mut store = SessionStore::load(Vec::new(), NOW);
    assert_eq!(guard(&store, None, Route::Settings, NOW), Access::Login);
    assert_eq!(
        guard(&store, None, Route::AlertsApi, NOW),
        Access::Unauthorized
    );
    store.create_with_id("id", String::new(), Role::Admin, NOW);
    assert_eq!(
        guard(&store, Some("id"), Route::Settings, NOW),
        Access::Granted
    );
    assert_eq!(
        guard(&store, Some("id"), Route::AlertsApi, NOW),
        Access::Granted
    );
}

#[test]
fn viewers_see_the_dashboard_but_nothing_else() {
    let mut store = SessionStore::load(Vec::new(), NOW);
    store.create_with_id("v", String::new(), Role::Viewer, NOW);
    for route in [Route::Dashboard, Route::Uptime] {
        assert_eq!(guard(&store, Some("v"), route, NOW), Access::Granted);
    }
    for route in [
        Route::Apps,
        Route::Settings,
        Route::Notices,
        Route::Logs,
        Route::LogsApi,
        Route::AlertsApi,
    ] {
        assert_eq!(guard(&store, Some("v"), route, NOW), Access::Forbidden);
        assert_eq!(access_for(route, Some(Role::Admin)), Access::Granted);
    }
}

fn draft(title: &str, state: NoticeState) -> NoticeDraft {
    NoticeDraft {
        title: title.into(),
        body: "  We're on it.  ".into(),
        state,
        apps: Vec::new(),
    }
}

#[test]
fn notices_persist_and_resolving_moves_them_to_recent() {
    let mut store = NoticeStore::load(Vec::new());
    let id = store
        .create(draft(" Slow checkout ", NoticeState::Investigating), NOW)
        .unwrap();
    let public = store.public_for("any", NOW);
    assert_eq!(public.open.len(), 1);
    assert_eq!(public.open[0].title, "Slow checkout");
    assert_eq!(public.open[0].body, "We're on it.");

    store
        .update(&id, draft("Slow checkout", NoticeState::Resolved), NOW)
        .unwrap();
    let mut reloaded = NoticeStore::load(store.all().to_vec());
    let public = reloaded.public_for("any", NOW);
    assert!(public.open.is_empty());
    assert_eq!(public.recent.len(), 1);
    assert!(public.recent[0].resolved_at.is_some());

    let later = NOW + RESOLVED_VISIBLE_SECS + 1;
    assert!(
        reloaded.public_for("any", later).recent.is_empty(),
        "old ones drop off"
    );

    reloaded.remove(&id).unwrap();
    assert!(reloaded.list().is_empty());
}

#[test]
fn notices_show_only_on_the_apps_they_name() {
    let mut store = NoticeStore::load(Vec::new());
    let mut billing = draft("Billing down", NoticeState::Investigating);
    billing.apps = vec![" billing ".into(), "billing".into()];
    store.create(billing, NOW).unwrap();
    store
        .create(draft("Everything slow", NoticeState::Identified), NOW)
        .unwrap();
    assert_eq!(store.public_for("billing", NOW).open.len(), 2);
    let other = store.public_for("search", NOW).open;
    assert_eq!(other.len(), 1, "a notice naming no app applies to all");
    assert_eq!(other[0].title, "Everything slow");
    let named: Vec<_> = store
        .list()
        .into_iter()
        .filter(|n| !n.apps.is_empty())
        .collect();
    assert_eq!(named[0].apps, ["billing"], "trimmed and deduplicated");
}

#[test]
fn drafts_are_validated() {
    let mut store = NoticeStore::load(Vec::new());
    assert!(matches!(
        store.create(draft("   ", NoticeState::Identified), NOW),
        Err(NoticeError::EmptyTitle)
    ));
    assert!(matches!(
        store.create(
            draft(&"x".repeat(MAX_TITLE_CHARS + 1), NoticeState::Identified),
            NOW
        ),
        Err(NoticeError::TooLong)
    ));
    let mut wordy = draft("fine", NoticeState::Identified);
    wordy.body = "y".repeat(MAX_BODY_CHARS + 1);
    assert!(matches!(
        store.create(wordy, NOW),
        Err(NoticeError::TooLong)
    ));
    assert!(store.list().is_empty());
}

#[test]
fn the_resolution_time_follows_the_state() {
    let mut store = NoticeStore::load(Vec::new());
    store
        .create_with_id(draft("a", NoticeState::Resolved), "1".into(), 10)
        .unwrap();
    assert_eq!(store.all()[0].resolved_at, Some(10));
    store
        .update("1", draft("a", NoticeState::Resolved), 20)
        .unwrap();
    assert_eq!(store.all()[0].resolved_at, Some(10), "edits keep it");
    assert_eq!(store.all()[0].updated_at, 20);
    store
        .update("1", draft("a", NoticeState::Monitoring), 30)
        .unwrap();
    assert_eq!(store.all()[0].resolved_at, None);
    store
        .update("1", draft("a", NoticeState::Resolved), 40)
        .unwrap();
    assert_eq!(store.all()[0].resolved_at, Some(40));
    assert_eq!(store.all()[0].created_at, 10);
}

#[test]
fn removing_a_notice_twice_is_an_error() {
    let mut store = NoticeStore::load(Vec::new());
    store
        .create_with_id(draft("a", NoticeState::Identified), "1".into(), 10)
        .unwrap();
    store.remove("1").unwrap();
    assert!(matches!(store.remove("1"), Err(NoticeError::NotFound(_))));
    assert!(matches!(
        store.update("1", draft("a", NoticeState::Identified), 5),
        Err(NoticeError::NotFound(_))
    ));
    let es = I18n::new(Lang::Es);
    let text = NoticeError::NotFound("1".into()).localize(&es);
    assert!(!text.contains('{'));
}

#[test]
fn notice_ids_are_sixteen_hex_digits() {
    let mut store = NoticeStore::load(Vec::new());
    let id = store
        .create(draft("a", NoticeState::Identified), NOW)
        .unwrap();
    assert_eq!(id.len(), 16);
    assert!(id.chars().all(|c| c.is_ascii_hexdigit()));
}

#[test]
fn status_pages_are_per_published_app_with_their_notices() {
    let draft = draft_from(
        "title=Pagos+lentos&body=Revisando.&state=investigating&apps=billing&apps=search"
            .as_bytes(),
    )
    .unwrap();
    assert_eq!(draft.title, "Pagos lentos");
    assert_eq!(draft.body, "Revisando.");
    assert_eq!(draft.state, NoticeState::Investigating);
    assert_eq!(draft.apps, ["billing", "search"]);

    let mut store = NoticeStore::load(Vec::new());
    store.create(draft, NOW).unwrap();
    assert_eq!(store.public_for("billing", NOW).open.len(), 1);
    assert_eq!(store.public_for("other", NOW).open.len(), 0);
}

#[test]
fn a_notice_form_needs_a_state_it_knows() {
    assert!(draft_from("title=x&state=nonsense".as_bytes()).is_none());
    assert!(draft_of(&vec![("title".to_string(), "x".to_string())]).is_none());
    assert_eq!(NoticeState::parse("resolved"), Some(NoticeState::Resolved));
    assert_eq!(NoticeState::parse("Resolved"), None);
}

#[test]
fn tables_keep_the_last_value_per_name() {
    let mut t: Table<u64> = Table::new();
    t.insert("a", 1);
    t.insert("b", 2);
    t.insert("a", 3);
    assert_eq!(t.len(), 2);
    assert_eq!(t.get("a"), Some(&3));
    assert_eq!(t.take("a"), Some(3));
    assert_eq!(t.take("a"), None);
    assert_eq!(t.pop(), Some(("b".to_string(), 2)));
    assert_eq!(t.pop(), None);
}

#[test]
fn every_session_is_handed_out_once() {
    let mut store = SessionStore::load(Vec::new(), NOW);
    for id in ["a", "b", "a", "c"] {
        store.create_with_id(id, String::new(), Role::Admin, NOW);
    }
    let mut ids: Vec<&str> = (0..store.len()).map(|i| store.row(i).0).collect();
    ids.sort_unstable();
    assert_eq!(ids, ["a", "b", "c"]);
}
