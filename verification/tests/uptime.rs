use heartbeat::alerts::alerter::AlertSettings;
use heartbeat::alerts::alerter::Alerter;
use heartbeat::alerts::AppRoute;
use heartbeat::alerts::MassOutage;
use heartbeat::alerts::StatusChange;
use heartbeat::i18n::I18n;
use heartbeat::i18n::Lang;
use heartbeat::registry::RegisteredApp;
use heartbeat::uptime::gate::OutageGate;
use heartbeat::uptime::history::DayUptime;
use heartbeat::uptime::history::History;
use heartbeat::uptime::history::Share;
use heartbeat::uptime::incidents::Incident;
use heartbeat::uptime::incidents::IncidentReport;
use heartbeat::uptime::monitor::UptimeMonitor;
use heartbeat::uptime::probe::CheckPolicy;
use heartbeat::uptime::schedule::tick_secs;
use heartbeat::uptime::schedule::Scheduler;
use heartbeat::uptime::Heartbeat;
use heartbeat::uptime::Status;
use heartbeat::uptime::DAY_SECS;

const RETENTION: u64 = 720 * 3600;
const NOW: u64 = 1_700_000_000;

fn policy() -> CheckPolicy {
    CheckPolicy {
        interval: 60,
        degraded_after_ms: 1000,
        retries: 0,
        cert_warn_days: 14,
        retention: RETENTION,
        timeout: 10,
        mass_down_pct: 50,
        lang: Lang::Es,
    }
}

fn beat(at: u64, status: Status, latency_ms: Option<u32>) -> Heartbeat {
    Heartbeat {
        at,
        status,
        latency_ms,
        message: String::new(),
    }
}

fn registered(slug: &str) -> RegisteredApp {
    RegisteredApp {
        slug: slug.to_string(),
        name: slug.to_string(),
        logs_url: None,
        health_url: Some("https://x.example.com/health".to_string()),
        embed_token: String::new(),
        paused: false,
        public: false,
        degraded_after_ms: None,
        expect_body: None,
        check_assets: false,
        paused_at: None,
        paused_until: None,
        interval_secs: None,
        timeout_secs: None,
        expect_status: Vec::new(),
        headers: Vec::new(),
        alert_webhooks: Vec::new(),
        alert_mentions: Vec::new(),
    }
}

#[test]
fn uptime_and_avg_latency_only_count_the_window() {
    let history = History::new(vec![
        beat(10, Status::Down, None),
        beat(20, Status::Up, Some(100)),
        beat(30, Status::Degraded, Some(1400)),
        beat(40, Status::Down, Some(900)),
    ]);
    let pct = |share: Option<Share>| share.map(|s| s.up as f64 * 100.0 / s.total as f64);
    // Degraded still counts as available.
    assert_eq!(pct(history.uptime(0)), Some(50.0));
    assert_eq!(pct(history.uptime(20)), Some(200.0 / 3.0));
    assert_eq!(history.uptime(20), Some(Share { up: 2, total: 3 }));
    // Down heartbeats' latency is excluded from the average; degraded ones are not.
    assert_eq!(history.avg_latency_ms(0), Some(750));
    assert_eq!(History::default().uptime(0), None);
    assert_eq!(History::default().avg_latency_ms(0), None);
}

#[test]
fn classify_is_a_traffic_light() {
    assert_eq!(Status::classify(true, 200, 1000), Status::Up);
    assert_eq!(Status::classify(true, 1000, 1000), Status::Up);
    assert_eq!(Status::classify(true, 1001, 1000), Status::Degraded);
    assert_eq!(Status::classify(false, 50, 1000), Status::Down);
    assert_eq!(Status::classify(false, 5000, 1000), Status::Down);
}

#[test]
fn severity_orders_the_traffic_light() {
    assert!(Status::Up.severity() < Status::Degraded.severity());
    assert!(Status::Degraded.severity() < Status::Down.severity());
    assert!(Status::Degraded.is_available());
    assert!(!Status::Down.is_available());
}

#[test]
fn events_are_status_flips_newest_first() {
    let history = History::new(vec![
        beat(1, Status::Up, None),
        beat(2, Status::Up, None),
        beat(3, Status::Down, None),
        beat(4, Status::Degraded, None),
        beat(5, Status::Up, None),
    ]);
    let ats: Vec<u64> = history.events().iter().map(|b| b.at).collect();
    assert_eq!(ats, [5, 4, 3, 1]);
}

#[test]
fn events_are_capped() {
    let flips = (0..100)
        .map(|t| {
            let status = if t % 2 == 0 { Status::Up } else { Status::Down };
            beat(t, status, None)
        })
        .collect();
    let events = History::new(flips).events();
    assert_eq!(events.len(), 30);
    assert_eq!(events[0].at, 99);
    assert_eq!(events[29].at, 70);
}

#[test]
fn prune_drops_heartbeats_past_retention() {
    let now = RETENTION + 1000;
    let mut history = History::new(vec![
        beat(500, Status::Up, None),
        beat(1500, Status::Up, None),
    ]);
    history.prune(now, RETENTION);
    assert_eq!(history.len(), 1);
    assert_eq!(history.get(0).at, 1500);
}

#[test]
fn pushing_prunes_and_appends() {
    let mut history = History::new(vec![beat(5, Status::Up, None)]);
    history.push(beat(200, Status::Down, None), 200, 100);
    assert_eq!(history.len(), 1);
    assert_eq!(history.last().map(|b| b.at), Some(200));
    history.push(beat(201, Status::Up, Some(3)), 201, 100);
    let recent: Vec<u64> = history.recent(5).iter().map(|b| b.at).collect();
    assert_eq!(recent, [200, 201]);
    let last: Vec<u64> = history.recent(1).iter().map(|b| b.at).collect();
    assert_eq!(last, [201]);
    assert_eq!(history.all().len(), 2);
    assert_eq!(history.since(201).len(), 1);
}

fn saved(monitor: &UptimeMonitor) -> Vec<(String, Vec<Heartbeat>)> {
    (0..monitor.count())
        .map(|i| {
            let (slug, beats) = monitor.entry(i);
            (slug.to_string(), beats)
        })
        .collect()
}

#[test]
fn records_persist_across_a_reload_and_forget_removes_them() {
    let mut monitor = UptimeMonitor::load(policy(), Vec::new(), NOW);
    let first = monitor.record("app", beat(NOW, Status::Up, Some(12)), NOW);
    assert_eq!(
        first.previous, None,
        "an app's first heartbeat has no predecessor"
    );
    let second = monitor.record("app", beat(NOW, Status::Down, None), NOW);
    assert_eq!(second.previous, Some(Status::Up));
    assert!(second.down_since.is_some(), "a new outage starts now");

    let mut reloaded = UptimeMonitor::load(policy(), saved(&monitor), NOW);
    assert!(reloaded.detail_fits("app", 3600, NOW));
    assert_eq!(reloaded.detail("app", 3600, NOW).beats.len(), 2);
    reloaded.forget("app");
    assert_eq!(reloaded.count(), 0);
    assert!(reloaded.detail_fits("app", RETENTION, NOW));
    assert!(reloaded.detail("app", RETENTION, NOW).beats.is_empty());
    assert!(reloaded.export("app", RETENTION, NOW).is_empty());
}

#[test]
fn downsampling_keeps_the_worst_status_and_averages_latency() {
    // 1000 one-second beats, one outage at t=500: 10 buckets of 100 beats each.
    let history = History::new(
        (0..1000)
            .map(|t| {
                if t == 500 {
                    beat(t, Status::Down, None)
                } else {
                    beat(
                        t,
                        Status::Up,
                        Some(100 + u32::try_from(t % 2).unwrap() * 100),
                    )
                }
            })
            .collect(),
    );
    assert!(history.has_room(0, 1000, 10));
    let points = history.downsampled(0, 1000, 10);
    assert_eq!(points.len(), 10);
    assert_eq!(
        points.iter().filter(|b| b.status == Status::Down).count(),
        1
    );
    assert_eq!(
        points[5].status,
        Status::Down,
        "the outage survives aggregation"
    );
    assert_eq!(points[0].latency_ms, Some(150));
    // Few beats: returned as-is.
    assert_eq!(history.downsampled(990, 1000, 600).len(), 10);
}

#[test]
fn downsampling_counts_late_beats_in_the_last_bucket() {
    let history = History::new((0..=100).map(|t| beat(t, Status::Up, Some(7))).collect());
    let points = history.downsampled(0, 100, 10);
    assert_eq!(points.len(), 10);
    assert!(points.iter().all(|b| b.latency_ms == Some(7)));
}

/// Records one check, then alerts on it the way a round does.
fn step(
    monitor: &mut UptimeMonitor,
    alerter: &Alerter,
    app: &RegisteredApp,
    at: u64,
    status: Status,
) -> Option<(Status, bool, Option<u64>)> {
    let recorded = monitor.record(&app.slug, beat(at, status, None), at);
    let change = monitor.alert_for(alerter, app, recorded, beat(at, status, None));
    let told = change
        .as_ref()
        .map(|c| (c.from, c.is_reminder(), c.down_since));
    let dispatched = monitor.dispatch(change.into_iter().collect(), &vec![app.clone()]);
    assert!(dispatched.outage.is_none());
    assert_eq!(dispatched.deliver.len(), usize::from(told.is_some()));
    told
}

fn reminding() -> Alerter {
    Alerter::new(
        AlertSettings {
            remind_after: Some(600),
            ..AlertSettings::default()
        },
        I18n::new(Lang::Es),
    )
}

#[test]
fn reminders_repeat_on_schedule_and_stop_after_recovery() {
    let alerter = reminding();
    let mut monitor = UptimeMonitor::load(policy(), Vec::new(), NOW);
    let app = registered("api");
    let t = NOW;

    assert!(step(&mut monitor, &alerter, &app, t, Status::Up).is_none());
    let (from, _, since) = step(&mut monitor, &alerter, &app, t + 60, Status::Down).unwrap();
    assert_eq!((from, since), (Status::Up, Some(t + 60)));
    assert!(step(&mut monitor, &alerter, &app, t + 120, Status::Down).is_none());
    assert!(step(&mut monitor, &alerter, &app, t + 659, Status::Down).is_none());

    let (_, reminder, since) = step(&mut monitor, &alerter, &app, t + 660, Status::Down).unwrap();
    assert!(reminder);
    assert_eq!(since, Some(t + 60), "counts from the outage start");
    assert!(
        step(&mut monitor, &alerter, &app, t + 720, Status::Down).is_none(),
        "the next one waits another interval"
    );

    let (_, _, since) = step(&mut monitor, &alerter, &app, t + 780, Status::Up).unwrap();
    assert_eq!(since, Some(t + 60));

    // Recovery clears the reminder clock: a new outage starts its own.
    assert!(step(&mut monitor, &alerter, &app, t + 840, Status::Down).is_some());
    assert!(step(&mut monitor, &alerter, &app, t + 1439, Status::Down).is_none());
    assert!(step(&mut monitor, &alerter, &app, t + 1440, Status::Down).is_some());
}

#[test]
fn a_first_check_is_quiet_even_when_down() {
    let alerter = reminding();
    let mut monitor = UptimeMonitor::load(policy(), Vec::new(), NOW);
    let app = registered("api");
    assert!(step(&mut monitor, &alerter, &app, NOW, Status::Down).is_none());
}

#[test]
fn a_round_with_a_mass_outage_is_one_notice() {
    let alerter = reminding();
    let mut monitor = UptimeMonitor::load(policy(), Vec::new(), NOW);
    let apps: Vec<RegisteredApp> = ["a", "b", "c", "d"].map(registered).to_vec();
    for app in &apps {
        monitor.record(&app.slug, beat(NOW, Status::Up, Some(1)), NOW);
    }
    let mut changes = Vec::new();
    for app in &apps[..3] {
        let down = beat(NOW + 60, Status::Down, None);
        let recorded = monitor.record(&app.slug, down.clone(), NOW + 60);
        changes.extend(monitor.alert_for(&alerter, app, recorded, down));
    }
    assert_eq!(changes.len(), 3);
    let held = monitor.dispatch(changes, &apps);
    assert_eq!(held.outage, Some(MassOutage::Started { down: 3, total: 4 }));
    assert!(held.deliver.is_empty());

    // Two come back: the third still gets its own alert.
    let mut changes = Vec::new();
    for app in &apps[..2] {
        let up = beat(NOW + 120, Status::Up, Some(1));
        let recorded = monitor.record(&app.slug, up.clone(), NOW + 120);
        changes.extend(monitor.alert_for(&alerter, app, recorded, up));
    }
    let over = monitor.dispatch(changes, &apps);
    assert_eq!(over.outage, Some(MassOutage::Ended { total: 4 }));
    assert_eq!(slugs(&over.deliver), ["c"]);
    assert_eq!(over.deliver[0].to, Status::Down);
}

#[test]
fn summaries_show_the_latest_check() {
    let mut monitor = UptimeMonitor::load(policy(), Vec::new(), NOW);
    let app = registered("api");
    let blank = monitor.summary(&app, NOW);
    assert_eq!(blank.status, None);
    assert_eq!(blank.uptime_24h, None);
    monitor.record("api", beat(NOW - 60, Status::Up, Some(100)), NOW - 60);
    monitor.record("api", beat(NOW, Status::Degraded, Some(1100)), NOW);
    monitor.note_cert("api", NOW + 500);
    let summary = monitor.summary(&app, NOW);
    assert_eq!(summary.status, Some(Status::Degraded));
    assert_eq!(summary.latency_ms, Some(1100));
    assert_eq!(summary.avg_latency_24h_ms, Some(600));
    assert_eq!(summary.uptime_24h, Some(Share { up: 2, total: 2 }));
    assert_eq!(summary.cert_expires_at, Some(NOW + 500));
    assert_eq!(summary.recent.len(), 2);
    assert!(!summary.has_logs);
}

#[test]
fn overviews_mix_every_apps_events_newest_first() {
    let mut monitor = UptimeMonitor::load(policy(), Vec::new(), NOW);
    let apps: Vec<RegisteredApp> = ["a", "b"].map(registered).to_vec();
    monitor.record("a", beat(NOW - 30, Status::Up, None), NOW);
    monitor.record("b", beat(NOW - 20, Status::Up, None), NOW);
    monitor.record("a", beat(NOW - 10, Status::Down, None), NOW);
    let overview = monitor.overview(&apps, NOW);
    assert_eq!(overview.interval_secs, 60);
    let seen: Vec<(&str, u64)> = overview
        .events
        .iter()
        .map(|e| (e.slug.as_str(), e.beat.at))
        .collect();
    assert_eq!(seen, [("a", NOW - 10), ("b", NOW - 20), ("a", NOW - 30)]);
    assert_eq!(overview.monitors.len(), 2);
}

#[test]
fn old_heartbeats_are_pruned_everywhere() {
    let mut monitor = UptimeMonitor::load(policy(), Vec::new(), NOW);
    monitor.record("a", beat(NOW, Status::Up, None), NOW);
    monitor.prune_all(NOW + RETENTION + 1);
    assert!(monitor.export("a", RETENTION, NOW + RETENTION + 1).is_empty());
    let loaded = UptimeMonitor::load(
        policy(),
        vec![("a".to_string(), vec![beat(1, Status::Up, None)])],
        NOW,
    );
    assert!(loaded.entry(0).1.is_empty());
}

#[test]
fn daily_uptime_buckets_by_utc_day() {
    let day = DAY_SECS;
    let history = History::new(vec![
        beat(10 * day + 10, Status::Up, None),
        beat(10 * day + 20, Status::Down, None),
        beat(12 * day + 5, Status::Degraded, None),
    ]);
    let days = history.daily(12 * day + 100, 3);
    assert_eq!(days.len(), 3);
    assert_eq!(
        days[0],
        DayUptime {
            start: 10 * day,
            up: 1,
            total: 2
        }
    );
    assert_eq!(days[1].total, 0, "no checks that day");
    assert_eq!(
        (days[2].up, days[2].total),
        (1, 1),
        "degraded still counts as available"
    );
}

#[test]
fn down_streak_start_finds_where_the_outage_began() {
    let history = History::new(vec![
        beat(0, Status::Down, None),
        beat(60, Status::Up, None),
        beat(120, Status::Down, None),
        beat(180, Status::Down, None),
    ]);
    assert_eq!(history.down_streak_start(), Some(120));
    let up = History::new(vec![beat(0, Status::Up, None)]);
    assert_eq!(up.down_streak_start(), None);
}

fn change(slug: &str, from: Status, to: Status) -> StatusChange {
    StatusChange {
        slug: slug.into(),
        name: slug.into(),
        from,
        to,
        beat: Heartbeat {
            at: 0,
            status: to,
            latency_ms: None,
            message: String::new(),
        },
        down_since: None,
        route: AppRoute::default(),
    }
}

fn slugs(changes: &[StatusChange]) -> Vec<&str> {
    changes.iter().map(|c| c.slug.as_str()).collect()
}

#[test]
fn mass_needs_both_the_minimum_and_the_share() {
    assert!(
        !OutageGate::is_mass(2, 2, 50),
        "two apps are never a mass outage"
    );
    assert!(OutageGate::is_mass(3, 6, 50));
    assert!(!OutageGate::is_mass(3, 7, 50));
    assert!(!OutageGate::is_mass(10, 10, 0), "0 turns it off");
}

#[test]
fn a_normal_round_passes_everything_through() {
    let mut gate = OutageGate::default();
    let review = gate.review(vec![change("a", Status::Up, Status::Down)], 1, 10, 50);
    assert_eq!(slugs(&review.deliver), ["a"]);
    assert!(review.outage.is_none());
}

#[test]
fn a_mass_outage_holds_downs_and_releases_only_the_apps_still_down() {
    let mut gate = OutageGate::default();
    let downs = ["a", "b", "c"].map(|s| change(s, Status::Up, Status::Down));
    let review = gate.review(Vec::from(downs), 3, 4, 50);
    assert_eq!(
        review.outage,
        Some(MassOutage::Started { down: 3, total: 4 })
    );
    assert!(review.deliver.is_empty(), "individual downs are held");

    // During the outage: a held app recovering stays quiet, reminders are dropped.
    let review = gate.review(
        vec![
            change("a", Status::Down, Status::Up),
            change("b", Status::Down, Status::Down),
        ],
        3,
        4,
        50,
    );
    assert!(review.deliver.is_empty() && review.outage.is_none());

    // Over: the rest come back, "a" came back earlier; "b" and "c" are released.
    let review = gate.review(vec![change("c", Status::Down, Status::Up)], 1, 4, 50);
    assert_eq!(review.outage, Some(MassOutage::Ended { total: 4 }));
    assert!(
        review.deliver.is_empty(),
        "c's recovery was never announced"
    );
    let mut released = review.release;
    released.sort();
    assert_eq!(released, ["b", "c"]);
}

fn cause(at: u64, status: Status, message: &str) -> Heartbeat {
    Heartbeat {
        at,
        status,
        latency_ms: None,
        message: message.into(),
    }
}

#[test]
fn down_runs_become_incidents_with_their_first_cause() {
    let beats = [
        cause(0, Status::Up, "ok"),
        cause(60, Status::Down, "HTTP 502"),
        cause(120, Status::Down, "timeout"),
        cause(180, Status::Degraded, "slow"),
        cause(240, Status::Down, "HTTP 500"),
    ];
    assert!(IncidentReport::fits(&beats, 0, 300));
    let report = IncidentReport::build(&beats, 0, 300, 10);
    assert_eq!(
        report.incidents,
        [
            Incident {
                started_at: 240,
                ended_at: None,
                duration_secs: 60,
                cause: "HTTP 500".into(),
                failed_checks: 1,
            },
            Incident {
                started_at: 60,
                ended_at: Some(180),
                duration_secs: 120,
                cause: "HTTP 502".into(),
                failed_checks: 2,
            },
        ]
    );
    assert_eq!(report.mttr_secs, Some(120), "only ended incidents count");
    assert_eq!(report.total_down_secs, 180);
}

#[test]
fn incidents_that_ended_before_the_window_are_left_out() {
    let beats = [
        cause(0, Status::Down, "x"),
        cause(60, Status::Up, "ok"),
        cause(500, Status::Down, "y"),
        cause(560, Status::Up, "ok"),
    ];
    let report = IncidentReport::build(&beats, 100, 600, 10);
    assert_eq!(report.incidents.len(), 1);
    assert_eq!(report.incidents[0].cause, "y");
}

#[test]
fn reports_count_incidents_that_are_not_listed() {
    let beats = [
        cause(0, Status::Down, "x"),
        cause(10, Status::Up, "ok"),
        cause(20, Status::Down, "y"),
        cause(50, Status::Up, "ok"),
    ];
    let report = IncidentReport::build(&beats, 0, 60, 1);
    assert_eq!(report.incidents.len(), 1);
    assert_eq!(report.incidents[0].cause, "y");
    assert_eq!(report.total_down_secs, 40);
    assert_eq!(report.mttr_secs, Some(20));
}

#[test]
fn checks_follow_each_apps_interval() {
    let mut scheduler = Scheduler::new();
    let mut slow = registered("slow");
    slow.interval_secs = Some(300);
    let mut off = registered("off");
    off.paused = true;
    let apps = vec![registered("quick"), slow, off];
    let p = policy();
    assert_eq!(scheduler.due(&apps, &p, 0), [0, 1]);
    assert!(scheduler.due(&apps, &p, 5_000).is_empty());
    assert_eq!(scheduler.due(&apps, &p, 60_000), [0]);
    assert_eq!(scheduler.due(&apps, &p, 300_000), [0, 1]);
}

#[test]
fn ticks_are_short() {
    assert_eq!(tick_secs(60), 5);
    assert_eq!(tick_secs(3), 3);
}

#[test]
fn pings_and_compactions_wait_their_turn() {
    let mut scheduler = Scheduler::new();
    assert!(scheduler.ping_due(60, 0));
    assert!(!scheduler.ping_due(60, 59_999));
    assert!(scheduler.ping_due(60, 60_000));
    assert!(!scheduler.compact_due(3_599_999));
    assert!(scheduler.compact_due(3_600_000));
    scheduler.compacted(3_600_000);
    assert!(!scheduler.compact_due(3_600_001));
}

#[test]
fn every_failed_check_belongs_to_one_incident() {
    let beats: Vec<Heartbeat> = (0..50)
        .map(|t| {
            let status = match t % 7 {
                1 | 2 | 5 => Status::Down,
                3 => Status::Degraded,
                _ => Status::Up,
            };
            cause(t * 10, status, "x")
        })
        .collect();
    let down = beats.iter().filter(|b| b.status == Status::Down).count();
    let report = IncidentReport::build(&beats, 0, 500, 100);
    let counted: u32 = report.incidents.iter().map(|i| i.failed_checks).sum();
    assert_eq!(counted, u32::try_from(down).unwrap());
    assert!(report.total_down_secs <= 500);
    let open = report.incidents.iter().filter(|i| i.ended_at.is_none());
    assert!(open.count() <= 1);
}

#[test]
fn a_forgotten_app_starts_clean() {
    let alerter = reminding();
    let mut monitor = UptimeMonitor::load(policy(), Vec::new(), NOW);
    let app = registered("api");
    monitor.note_cert("api", NOW + 86_400);
    assert_eq!(monitor.summary(&app, NOW).cert_expires_at, Some(NOW + 86_400));
    assert!(step(&mut monitor, &alerter, &app, NOW, Status::Up).is_none());
    assert!(step(&mut monitor, &alerter, &app, NOW + 60, Status::Down).is_some());

    monitor.forget("api");
    assert_eq!(monitor.count(), 0);
    assert_eq!(monitor.summary(&app, NOW).cert_expires_at, None);
    // The clock of the old outage is gone: a reminder waits for a whole interval.
    assert!(step(&mut monitor, &alerter, &app, NOW + 600, Status::Down).is_none());
    assert!(step(&mut monitor, &alerter, &app, NOW + 700, Status::Down).is_none());
    assert!(step(&mut monitor, &alerter, &app, NOW + 1299, Status::Down).is_none());
    assert!(step(&mut monitor, &alerter, &app, NOW + 1300, Status::Down).is_some());
}

#[test]
fn a_forgotten_app_has_no_alert_held() {
    let alerter = reminding();
    let mut monitor = UptimeMonitor::load(policy(), Vec::new(), NOW);
    let apps: Vec<RegisteredApp> = ["a", "b", "c", "d"].map(registered).to_vec();
    for app in &apps {
        monitor.record(&app.slug, beat(NOW, Status::Up, Some(1)), NOW);
    }
    let mut changes = Vec::new();
    for app in &apps[..3] {
        let down = beat(NOW + 60, Status::Down, None);
        let recorded = monitor.record(&app.slug, down.clone(), NOW + 60);
        changes.extend(monitor.alert_for(&alerter, app, recorded, down));
    }
    assert!(monitor.dispatch(changes, &apps).outage.is_some());

    monitor.forget("c");
    let mut changes = Vec::new();
    for (app, status) in [(&apps[0], Status::Up), (&apps[1], Status::Up), (&apps[2], Status::Down)] {
        let now = beat(NOW + 120, status, None);
        let recorded = monitor.record(&app.slug, now.clone(), NOW + 120);
        changes.extend(monitor.alert_for(&alerter, app, recorded, now));
    }
    let over = monitor.dispatch(changes, &apps);
    assert_eq!(over.outage, Some(MassOutage::Ended { total: 4 }));
    assert!(over.deliver.is_empty(), "its first check is quiet");
}

#[test]
fn every_history_is_handed_out_once() {
    let mut monitor = UptimeMonitor::load(policy(), Vec::new(), NOW);
    for slug in ["a", "b", "a", "c"] {
        monitor.record(slug, beat(NOW, Status::Up, Some(1)), NOW);
    }
    let mut slugs: Vec<String> = saved(&monitor).into_iter().map(|(slug, _)| slug).collect();
    slugs.sort();
    assert_eq!(slugs, ["a", "b", "c"]);
}
