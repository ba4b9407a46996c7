//! The monitor's memory: every app's history, its latest certificate, the mass-outage gate and
//! the reminder clock, and what is read off them.

use vstd::prelude::*;

use crate::alerts::alerter::worth;
use crate::alerts::alerter::Alerter;
use crate::alerts::MassOutage;
use crate::alerts::StatusChange;
use crate::registry::app_views;
use crate::registry::monitored;
use crate::registry::opt_copy;
use crate::registry::AppView;
use crate::registry::RegisteredApp;
use crate::table::Table;
use crate::text::distinct;
use crate::text::is_listed;
use crate::text::listed;
use crate::text::name_set;
use crate::text::same;
use crate::uptime::gate::held_back;
use crate::uptime::gate::mass;
use crate::uptime::gate::unheld;
use crate::uptime::gate::OutageGate;
use crate::uptime::history::ago;
use crate::uptime::history::at_most;
use crate::uptime::history::day_of;
use crate::uptime::history::first_day;
use crate::uptime::history::flips;
use crate::uptime::history::mean_latency;
use crate::uptime::history::middles_fit;
use crate::uptime::history::points;
use crate::uptime::history::pruned;
use crate::uptime::history::share_of;
use crate::uptime::history::since;
use crate::uptime::history::streak_start;
use crate::uptime::history::DayUptime;
use crate::uptime::history::History;
use crate::uptime::history::Share;
use crate::uptime::history::MAX_EVENTS;
use crate::uptime::incidents::incidents;
use crate::uptime::incidents::mttr;
use crate::uptime::incidents::report_fits;
use crate::uptime::incidents::total_secs;
use crate::uptime::incidents::windowed;
use crate::uptime::incidents::IncidentReport;
use crate::uptime::probe::CheckPolicy;
use crate::uptime::Heartbeat;
use crate::uptime::Status;
use crate::uptime::DAY_SECS;

verus! {

/// Most points the detail endpoint returns; longer windows are aggregated.
pub const MAX_DETAIL_POINTS: usize = 600;

/// How many of the latest heartbeats the summary carries for each app's bar strip. The
/// dashboard draws 40; the embed fits as many as its width allows, up to this.
pub const RECENT_BEATS: usize = 100;

/// How many incidents the detail endpoint lists.
pub const MAX_INCIDENTS: usize = 50;

/// Seconds of thirty days.
pub const MONTH_SECS: u64 = 2_592_000;

#[derive(Debug)]
pub struct MonitorSummary {
    pub slug: String,
    pub name: String,
    pub health_url: Option<String>,
    /// `false` for monitor-only apps (no logs endpoint).
    pub has_logs: bool,
    /// Paused apps aren't probed; `status` is then the last reading before the pause.
    pub paused: bool,
    /// Unix seconds when the current pause began.
    pub paused_at: Option<u64>,
    /// Unix seconds when a scheduled pause ends by itself.
    pub paused_until: Option<u64>,
    /// Status of the latest heartbeat; `None` = no health URL or not checked yet.
    pub status: Option<Status>,
    pub latency_ms: Option<u32>,
    pub avg_latency_24h_ms: Option<u32>,
    pub uptime_24h: Option<Share>,
    pub uptime_30d: Option<Share>,
    /// Unix seconds when the health endpoint's TLS certificate expires (last check).
    pub cert_expires_at: Option<u64>,
    pub recent: Vec<Heartbeat>,
}

/// A status change of one app.
#[derive(Debug)]
pub struct AppEvent {
    pub slug: String,
    pub name: String,
    pub beat: Heartbeat,
}

#[derive(Debug)]
pub struct Overview {
    pub interval_secs: u64,
    pub degraded_after_ms: u32,
    pub monitors: Vec<MonitorSummary>,
    /// Status changes across every app, newest first.
    pub events: Vec<AppEvent>,
}

#[derive(Debug)]
pub struct MonitorDetail {
    pub beats: Vec<Heartbeat>,
    pub events: Vec<Heartbeat>,
    /// Outages in the window, with MTTR and total downtime.
    pub incidents: IncidentReport,
}

/// What `record` learned about the heartbeat it stored.
#[derive(Debug, Clone, Copy, PartialEq, Eq, Structural)]
pub struct Recorded {
    /// Status of the check before it; `None` for an app's first ever.
    pub previous: Option<Status>,
    /// Start of the outage this check continues or ends, or starts (when down).
    pub down_since: Option<u64>,
}

/// What one round of checks has to send.
#[derive(Debug)]
pub struct Dispatch {
    pub outage: Option<MassOutage>,
    pub deliver: Vec<StatusChange>,
}

/// What a monitor remembers.
#[verifier::ext_equal]
pub struct MonitorView {
    pub policy: CheckPolicy,
    pub histories: Map<Seq<char>, Seq<Heartbeat>>,
    pub certs: Map<Seq<char>, u64>,
    /// When each app that's down was last alerted about.
    pub reminded: Map<Seq<char>, u64>,
    pub in_outage: bool,
    pub holding: Set<Seq<char>>,
}

pub struct UptimeMonitor {
    policy: CheckPolicy,
    histories: Table<History>,
    /// Latest TLS certificate expiry per app (memory only; refreshed every check).
    certs: Table<u64>,
    gate: OutageGate,
    /// When each app that's down was last alerted about (down or reminder).
    reminded: Table<u64>,
}

spec fn beats_by_name(m: Map<Seq<char>, History>) -> Map<Seq<char>, Seq<Heartbeat>> {
    m.map_values(|h: History| h@)
}

impl View for UptimeMonitor {
    type V = MonitorView;

    closed spec fn view(&self) -> MonitorView {
        MonitorView {
            policy: self.policy,
            histories: beats_by_name(self.histories@),
            certs: self.certs@,
            reminded: self.reminded@,
            in_outage: self.gate.in_outage(),
            holding: self.gate.holding(),
        }
    }
}

/// An app's heartbeats: none where it has no history.
pub open spec fn beats_of(m: Map<Seq<char>, Seq<Heartbeat>>, slug: Seq<char>) -> Seq<Heartbeat> {
    if m.contains_key(slug) {
        m[slug]
    } else {
        Seq::empty()
    }
}

/// The histories that files hold, each without what is older than `cutoff` at its front. Where
/// two bear one name, the later one counts.
pub open spec fn loaded(files: Seq<(String, Vec<Heartbeat>)>, cutoff: u64) -> Map<
    Seq<char>,
    Seq<Heartbeat>,
>
    decreases files.len(),
{
    if files.len() == 0 {
        Map::empty()
    } else {
        loaded(files.drop_last(), cutoff).insert(
            files.last().0@,
            pruned(files.last().1@, cutoff),
        )
    }
}

/// What a heartbeat is recorded as, after `before`.
pub open spec fn recorded(before: Seq<Heartbeat>, beat: Heartbeat) -> Recorded {
    Recorded {
        previous: if before.len() == 0 {
            None
        } else {
            Some(before.last().status)
        },
        down_since: if before.len() > 0 && before.last().status == Status::Down {
            streak_start(before)
        } else if beat.status == Status::Down {
            Some(beat.at)
        } else {
            None
        },
    }
}

/// Whether a change is `app` going `from` -> `beat`.
pub open spec fn change_of(
    change: StatusChange,
    app: RegisteredApp,
    from: Status,
    to: Status,
    beat: Heartbeat,
    down_since: Option<u64>,
) -> bool {
    &&& change.slug == app.slug
    &&& change.name == app.name
    &&& change.from == from
    &&& change.to == to
    &&& change.beat == beat
    &&& change.down_since == down_since
    &&& change.route.webhooks@ == app.alert_webhooks@
    &&& change.route.mentions@ == app.alert_mentions@
}

/// The status that a check's alert says the app came from, where the check deserves one, and
/// the reminder clocks after it: a change worth an alert, or a reminder when the app has been
/// down for long enough since the last alert. After a restart nobody knows when that was, so
/// the clock starts at the check.
pub open spec fn deserved(
    on_degraded: bool,
    remind_after: Option<u64>,
    reminded: Map<Seq<char>, u64>,
    slug: Seq<char>,
    previous: Option<Status>,
    beat: Heartbeat,
) -> (Option<Status>, Map<Seq<char>, u64>) {
    let clocks = if beat.status != Status::Down {
        reminded.remove(slug)
    } else {
        reminded
    };
    match previous {
        None => (None, clocks),
        Some(from) => if worth(on_degraded, from, beat.status) {
            (Some(from), clocks)
        } else if from == Status::Down && beat.status == Status::Down {
            match remind_after {
                None => (None, clocks),
                Some(every) => {
                    let started = if clocks.contains_key(slug) {
                        clocks
                    } else {
                        clocks.insert(slug, beat.at)
                    };
                    if ago(beat.at, started[slug]) < every {
                        (None, started)
                    } else {
                        (Some(Status::Down), started)
                    }
                },
            }
        } else {
            (None, clocks)
        },
    }
}

/// Whether an app's latest check is down.
pub open spec fn is_down(m: Map<Seq<char>, Seq<Heartbeat>>, slug: Seq<char>) -> bool {
    beats_of(m, slug).len() > 0 && beats_of(m, slug).last().status == Status::Down
}

/// How many of the apps are checked at all.
pub open spec fn count_monitored(apps: Seq<AppView>) -> nat
    decreases apps.len(),
{
    if apps.len() == 0 {
        0
    } else {
        count_monitored(apps.drop_last()) + if monitored(apps.last()) {
            1nat
        } else {
            0nat
        }
    }
}

/// The names of the monitored apps whose latest check is down, each once.
pub open spec fn down_names(apps: Seq<AppView>, m: Map<Seq<char>, Seq<Heartbeat>>) -> Seq<Seq<char>>
    decreases apps.len(),
{
    if apps.len() == 0 {
        Seq::empty()
    } else {
        let before = down_names(apps.drop_last(), m);
        let app = apps.last();
        if monitored(app) && is_down(m, app.slug) && !before.contains(app.slug) {
            before.push(app.slug)
        } else {
            before
        }
    }
}

/// The index of the first monitored app with a slug.
pub open spec fn monitored_index(apps: Seq<AppView>, slug: Seq<char>) -> Option<int>
    decreases apps.len(),
{
    if apps.len() == 0 {
        None
    } else if monitored(apps[0]) && apps[0].slug == slug {
        Some(0)
    } else {
        match monitored_index(apps.skip(1), slug) {
            Some(i) => Some(i + 1),
            None => None,
        }
    }
}

/// Of the apps whose alert was held, those that get it after all: the ones still checked and
/// still down, as indices of `apps`.
pub open spec fn released(
    names: Seq<Seq<char>>,
    apps: Seq<AppView>,
    m: Map<Seq<char>, Seq<Heartbeat>>,
) -> Seq<int>
    decreases names.len(),
{
    if names.len() == 0 {
        Seq::empty()
    } else {
        let before = released(names.drop_last(), apps, m);
        match monitored_index(apps, names.last()) {
            Some(i) => if is_down(m, names.last()) {
                before.push(i)
            } else {
                before
            },
            None => before,
        }
    }
}

/// Whether `late` are the alerts of the apps at `at`, as if each had gone down just now.
pub open spec fn late_alerts(
    late: Seq<StatusChange>,
    at: Seq<int>,
    apps: Seq<RegisteredApp>,
    m: Map<Seq<char>, Seq<Heartbeat>>,
) -> bool {
    late.len() == at.len() && forall|k: int|
        0 <= k < late.len() ==> {
            let app = apps[at[k]];
            let beats = beats_of(m, app.slug@);
            change_of(
                #[trigger] late[k],
                app,
                Status::Up,
                Status::Down,
                beats.last(),
                streak_start(beats),
            )
        }
}

/// A monitor that knows nothing of an app: neither its history nor its certificate, no reminder
/// clock and no alert that is held.
pub open spec fn forgotten(m: MonitorView, slug: Seq<char>) -> MonitorView {
    MonitorView {
        histories: m.histories.remove(slug),
        certs: m.certs.remove(slug),
        reminded: m.reminded.remove(slug),
        holding: m.holding.remove(slug),
        ..m
    }
}

/// A monitor after a heartbeat of an app was stored at `now`.
pub open spec fn with_beat(m: MonitorView, slug: Seq<char>, beat: Heartbeat, now: u64) -> MonitorView {
    MonitorView {
        histories: m.histories.insert(
            slug,
            pruned(beats_of(m.histories, slug).push(beat), ago(now, m.policy.retention)),
        ),
        ..m
    }
}

/// Whether `told` is the alert that a check of `app` deserves, and `after` the monitor once that
/// is decided.
pub open spec fn decides(
    before: MonitorView,
    after: MonitorView,
    on_degraded: bool,
    remind_after: Option<u64>,
    app: RegisteredApp,
    was: Recorded,
    beat: Heartbeat,
    told: Option<StatusChange>,
) -> bool {
    let (from, clocks) = deserved(
        on_degraded,
        remind_after,
        before.reminded,
        app.slug@,
        was.previous,
        beat,
    );
    &&& after == (MonitorView { reminded: clocks, ..before })
    &&& match from {
        None => told is None,
        Some(from) => told is Some && change_of(
            told->0,
            app,
            from,
            beat.status,
            beat,
            was.down_since,
        ),
    }
}

/// The reminder clocks after alerts went out.
pub open spec fn clocks_after(reminded: Map<Seq<char>, u64>, sent: Seq<StatusChange>) -> Map<
    Seq<char>,
    u64,
>
    decreases sent.len(),
{
    if sent.len() == 0 {
        reminded
    } else {
        let before = clocks_after(reminded, sent.drop_last());
        if sent.last().to == Status::Down {
            before.insert(sent.last().slug@, sent.last().beat.at)
        } else {
            before
        }
    }
}

/// Whether a round's changes come to `sent`: what mass-outage detection lets through, then the
/// late alerts of the apps whose names `held` lists.
pub open spec fn sent_of(
    sent: Seq<StatusChange>,
    through: Seq<StatusChange>,
    held: Seq<String>,
    apps: Seq<RegisteredApp>,
    m: Map<Seq<char>, Seq<Heartbeat>>,
) -> bool {
    &&& sent.len() >= through.len()
    &&& sent.take(through.len() as int) == through
    &&& late_alerts(
        sent.skip(through.len() as int),
        released(crate::text::views(held), app_views(apps), m),
        apps,
        m,
    )
}

/// Whether `r` is what is left to send of a round's changes, and `after` the monitor once it is
/// sent; `apps` is every registered app.
pub open spec fn dispatches(
    before: MonitorView,
    after: MonitorView,
    changes: Seq<StatusChange>,
    apps: Seq<RegisteredApp>,
    r: Dispatch,
) -> bool {
    let m = before.histories;
    let down = down_names(app_views(apps), m).len();
    let total = count_monitored(app_views(apps));
    let now_mass = mass(down, total, before.policy.mass_down_pct as nat);
    let holding = before.holding;
    &&& after == (MonitorView {
        in_outage: now_mass,
        holding: if now_mass {
            held_back(holding, changes).0
        } else if before.in_outage {
            Set::empty()
        } else {
            holding
        },
        reminded: clocks_after(before.reminded, r.deliver@),
        ..before
    })
    &&& match (before.in_outage, now_mass) {
        (false, false) => r.outage is None && r.deliver@ == changes,
        (active, true) => {
            &&& r.deliver@ == held_back(holding, changes).1
            &&& if active {
                r.outage is None
            } else {
                r.outage matches Some(MassOutage::Started { down: d, total: t }) && d == down && t
                    == total
            }
        },
        (true, false) => {
            &&& r.outage matches Some(MassOutage::Ended { total: t }) && t == total
            &&& exists|held: Seq<String>|
                distinct(held) && name_set(held) == holding && #[trigger] sent_of(
                    r.deliver@,
                    unheld(holding, changes),
                    held,
                    apps,
                    m,
                )
        },
    }
}

/// Whether a summary says what an app's heartbeats and certificate show.
pub open spec fn summarizes(
    s: MonitorSummary,
    app: RegisteredApp,
    beats: Seq<Heartbeat>,
    cert: Option<u64>,
    now: u64,
) -> bool {
    let day = since(beats, ago(now, DAY_SECS));
    &&& s.slug == app.slug
    &&& s.name == app.name
    &&& s.health_url == app.health_url
    &&& s.has_logs == (app.logs_url is Some)
    &&& s.paused == app.paused
    &&& s.paused_at == app.paused_at
    &&& s.paused_until == app.paused_until
    &&& s.status == if beats.len() == 0 {
        None
    } else {
        Some(beats.last().status)
    }
    &&& s.latency_ms == if beats.len() == 0 {
        None
    } else {
        beats.last().latency_ms
    }
    &&& s.avg_latency_24h_ms == mean_latency(day)
    &&& s.uptime_24h == share_of(day)
    &&& s.uptime_30d == share_of(since(beats, ago(now, MONTH_SECS)))
    &&& s.cert_expires_at == cert
    &&& s.recent@ == if beats.len() <= RECENT_BEATS {
        beats
    } else {
        beats.skip(beats.len() - RECENT_BEATS)
    }
}

/// A name's value in a map, if it has one.
pub open spec fn value_of(m: Map<Seq<char>, u64>, name: Seq<char>) -> Option<u64> {
    if m.contains_key(name) {
        Some(m[name])
    } else {
        None
    }
}

/// The events of one app: its status changes, newest first.
pub open spec fn app_events(app: RegisteredApp, beats: Seq<Heartbeat>) -> Seq<AppEvent> {
    at_most(flips(beats).reverse(), MAX_EVENTS as nat).map_values(
        |beat: Heartbeat| AppEvent { slug: app.slug, name: app.name, beat },
    )
}

/// The events of every app, one app after the other.
pub open spec fn all_events(
    apps: Seq<RegisteredApp>,
    m: Map<Seq<char>, Seq<Heartbeat>>,
) -> Seq<AppEvent>
    decreases apps.len(),
{
    if apps.len() == 0 {
        Seq::empty()
    } else {
        all_events(apps.drop_last(), m) + app_events(
            apps.last(),
            beats_of(m, apps.last().slug@),
        )
    }
}

/// An event put among newer and older ones, behind those of the same second.
pub open spec fn put(events: Seq<AppEvent>, event: AppEvent) -> Seq<AppEvent>
    decreases events.len(),
{
    if events.len() == 0 || events.last().beat.at >= event.beat.at {
        events.push(event)
    } else {
        put(events.drop_last(), event).push(events.last())
    }
}

/// Events newest first; those of the same second keep their order.
pub open spec fn newest_first(events: Seq<AppEvent>) -> Seq<AppEvent>
    decreases events.len(),
{
    if events.len() == 0 {
        Seq::empty()
    } else {
        put(newest_first(events.drop_last()), events.last())
    }
}

/// Whether the numbers of a detail view fit in what holds them.
pub open spec fn detail_fits(beats: Seq<Heartbeat>, window: u64, now: u64) -> bool {
    &&& middles_fit(beats, ago(now, window), now, MAX_DETAIL_POINTS as nat)
    &&& report_fits(beats, ago(now, window), now)
}

/// Puts `event` into its place among `events`.
fn place(events: &mut Vec<AppEvent>, event: AppEvent)
    ensures
        final(events)@ == put(old(events)@, event),
{
    let ghost all = events@;
    let mut i: usize = events.len();
    let ghost mut tail: Seq<AppEvent> = Seq::empty();
    proof {
        assert(all.take(all.len() as int) =~= all);
        assert(put(all, event) + tail =~= put(all, event));
    }
    while i > 0 && events[i - 1].beat.at < event.beat.at
        invariant
            i <= events@.len(),
            events@ == all,
            tail == all.skip(i as int),
            put(all.take(i as int), event) + tail == put(all, event),
        decreases i,
    {
        proof {
            let head = all.take(i as int);
            assert(head.drop_last() =~= all.take(i as int - 1));
            assert(head.last() == all[i as int - 1]);
            assert(put(head, event) == put(all.take(i as int - 1), event).push(head.last()));
            let longer = all.skip(i as int - 1);
            assert(put(all.take(i as int - 1), event).push(head.last()) + tail =~= put(
                all.take(i as int - 1),
                event,
            ) + longer);
            tail = longer;
        }
        i -= 1;
    }
    proof {
        let head = all.take(i as int);
        assert(put(head, event) == head.push(event)) by {
            if i > 0 {
                assert(head.last() == all[i as int - 1]);
            }
        }
        assert(head.push(event) + tail =~= all.insert(i as int, event));
    }
    events.insert(i, event);
}

proof fn lemma_monitored_index(apps: Seq<AppView>, slug: Seq<char>, i: int)
    requires
        0 <= i < apps.len(),
        monitored(apps[i]),
        apps[i].slug == slug,
        forall|j: int| 0 <= j < i ==> !(monitored(#[trigger] apps[j]) && apps[j].slug == slug),
    ensures
        monitored_index(apps, slug) == Some(i),
    decreases i,
{
    if i > 0 {
        assert(!(monitored(apps[0]) && apps[0].slug == slug));
        assert forall|j: int| 0 <= j < i - 1 implies !(monitored(#[trigger] apps.skip(1)[j])
            && apps.skip(1)[j].slug == slug) by {
            assert(apps.skip(1)[j] == apps[j + 1]);
        }
        lemma_monitored_index(apps.skip(1), slug, i - 1);
    }
}

proof fn lemma_not_monitored(apps: Seq<AppView>, slug: Seq<char>)
    requires
        forall|j: int|
            0 <= j < apps.len() ==> !(monitored(#[trigger] apps[j]) && apps[j].slug == slug),
    ensures
        monitored_index(apps, slug) is None,
    decreases apps.len(),
{
    if apps.len() > 0 {
        assert(!(monitored(apps[0]) && apps[0].slug == slug));
        assert forall|j: int| 0 <= j < apps.skip(1).len() implies !(monitored(
            #[trigger] apps.skip(1)[j],
        ) && apps.skip(1)[j].slug == slug) by {
            assert(apps.skip(1)[j] == apps[j + 1]);
        }
        lemma_not_monitored(apps.skip(1), slug);
    }
}

fn find_monitored(apps: &Vec<RegisteredApp>, slug: &str) -> (r: Option<usize>)
    ensures
        match r {
            Some(i) => i < apps@.len() && apps@[i as int].slug@ == slug@ && monitored_index(
                app_views(apps@),
                slug@,
            ) == Some(i as int),
            None => monitored_index(app_views(apps@), slug@) is None,
        },
{
    let ghost all = app_views(apps@);
    let mut i: usize = 0;
    while i < apps.len()
        invariant
            i <= apps@.len(),
            all == app_views(apps@),
            forall|j: int| 0 <= j < i ==> !(monitored(#[trigger] all[j]) && all[j].slug == slug@),
        decreases apps@.len() - i,
    {
        assert(all[i as int] == apps@[i as int]@);
        if apps[i].is_monitored() && same(apps[i].slug.as_str(), slug) {
            proof {
                lemma_monitored_index(all, slug@, i as int);
            }
            return Some(i);
        }
        i += 1;
    }
    proof {
        lemma_not_monitored(all, slug@);
    }
    None
}

impl UptimeMonitor {
    /// Every name stands once in each table, and no alert is held twice.
    pub closed spec fn wf(&self) -> bool {
        self.histories.wf() && self.certs.wf() && self.reminded.wf() && self.gate.wf()
    }

    /// A monitor over the histories that were kept on disk, each without what is past
    /// retention at `now`.
    pub fn load(policy: CheckPolicy, files: Vec<(String, Vec<Heartbeat>)>, now: u64) -> (r: Self)
        ensures
            r.wf(),
            r@ == (MonitorView {
                policy,
                histories: loaded(files@, ago(now, policy.retention)),
                certs: Map::empty(),
                reminded: Map::empty(),
                in_outage: false,
                holding: Set::empty(),
            }),
    {
        let ghost all = files@;
        let ghost cutoff = ago(now, policy.retention);
        let mut rest = files;
        let mut histories: Table<History> = Table::new();
        let ghost mut i: int = 0;
        proof {
            assert(all.take(0) =~= Seq::<(String, Vec<Heartbeat>)>::empty());
            assert(all.skip(0) =~= all);
            assert(beats_by_name(histories@) =~= Map::<Seq<char>, Seq<Heartbeat>>::empty());
        }
        while rest.len() > 0
            invariant
                0 <= i <= all.len(),
                rest@ == all.skip(i),
                histories.wf(),
                cutoff == ago(now, policy.retention),
                beats_by_name(histories@) == loaded(all.take(i), cutoff),
            decreases rest@.len(),
        {
            proof {
                assert(all.take(i + 1).drop_last() =~= all.take(i));
                assert(all.take(i + 1).last() == all[i]);
                assert(rest@[0] == all[i]);
                assert(rest@.remove(0) =~= all.skip(i + 1));
            }
            let (slug, beats) = rest.remove(0);
            let mut history = History::new(beats);
            history.prune(now, policy.retention);
            let ghost before = histories@;
            histories.insert(slug.as_str(), history);
            proof {
                assert(beats_by_name(before.insert(slug@, history)) =~= beats_by_name(
                    before,
                ).insert(slug@, history@));
                i = i + 1;
            }
        }
        proof {
            assert(all.take(i) =~= all);
        }
        UptimeMonitor {
            policy,
            histories,
            certs: Table::new(),
            gate: OutageGate::default(),
            reminded: Table::new(),
        }
    }

    /// How apps are checked.
    pub fn policy(&self) -> (r: CheckPolicy)
        ensures
            r == self@.policy,
    {
        self.policy
    }

    /// How many apps have a history.
    pub fn count(&self) -> (r: usize)
        requires
            self.wf(),
        ensures
            r == self.kept().len(),
    {
        self.histories.len()
    }

    /// The names of the apps with a history.
    pub closed spec fn kept(&self) -> Seq<Seq<char>> {
        self.histories.names()
    }

    /// The `i`-th history, with its app's slug: what its file holds.
    pub fn entry(&self, i: usize) -> (r: (&str, Vec<Heartbeat>))
        requires
            self.wf(),
            i < self.kept().len(),
        ensures
            r.0@ == self.kept()[i as int],
            self@.histories.contains_key(r.0@),
            r.1@ == self@.histories[r.0@],
    {
        let (slug, history) = self.histories.row(i);
        (slug, history.all())
    }

    /// Stores a heartbeat and reports what came before it.
    pub fn record(&mut self, slug: &str, beat: Heartbeat, now: u64) -> (r: Recorded)
        requires
            old(self).wf(),
        ensures
            final(self).wf(),
            r == recorded(beats_of(old(self)@.histories, slug@), beat),
            final(self)@ == with_beat(old(self)@, slug@, beat, now),
    {
        let ghost before = self.histories@;
        let mut history = match self.histories.take(slug) {
            Some(history) => history,
            None => History::default(),
        };
        let previous = match history.last() {
            Some(last) => Some(last.status),
            None => None,
        };
        let was_down = match previous {
            Some(status) => status == Status::Down,
            None => false,
        };
        let down_since: Option<u64> = if was_down {
            history.down_streak_start()
        } else if beat.status == Status::Down {
            Some(beat.at)
        } else {
            None
        };
        history.push(beat, now, self.policy.retention);
        self.histories.insert(slug, history);
        proof {
            assert(beats_by_name(before.remove(slug@).insert(slug@, history)) =~= beats_by_name(
                before,
            ).insert(slug@, history@));
        }
        Recorded { previous, down_since }
    }

    /// Remembers when an app's certificate expires.
    pub fn note_cert(&mut self, slug: &str, expires: u64)
        requires
            old(self).wf(),
        ensures
            final(self).wf(),
            final(self)@ == (MonitorView {
                certs: old(self)@.certs.insert(slug@, expires),
                ..old(self)@
            }),
    {
        self.certs.insert(slug, expires);
    }

    /// The alert this check deserves, if any: a status change, or a reminder that the app is
    /// still down.
    pub fn alert_for(
        &mut self,
        alerter: &Alerter,
        app: &RegisteredApp,
        recorded: Recorded,
        beat: Heartbeat,
    ) -> (r: Option<StatusChange>)
        requires
            old(self).wf(),
        ensures
            final(self).wf(),
            decides(
                old(self)@,
                final(self)@,
                alerter@.on_degraded,
                alerter@.remind_after,
                *app,
                recorded,
                beat,
                r,
            ),
    {
        if beat.status != Status::Down {
            let gone = self.reminded.take(app.slug.as_str());
        }
        let previous = match recorded.previous {
            Some(previous) => previous,
            None => {
                return None;
            },
        };
        if !alerter.worth_alerting(previous, beat.status) {
            if !(previous == Status::Down && beat.status == Status::Down) {
                return None;
            }
            let every: u64 = match alerter.remind_after() {
                Some(every) => every,
                None => {
                    return None;
                },
            };
            let last: u64 = match self.reminded.get(app.slug.as_str()) {
                Some(at) => *at,
                None => {
                    self.reminded.insert(app.slug.as_str(), beat.at);
                    beat.at
                },
            };
            if beat.at.saturating_sub(last) < every {
                return None;
            }
        }
        Some(
            StatusChange {
                slug: app.slug.clone(),
                name: app.name.clone(),
                from: previous,
                to: beat.status,
                beat,
                down_since: recorded.down_since,
                route: app.alert_route(),
            },
        )
    }
}

impl UptimeMonitor {
    /// Whether the latest check of `slug` is down.
    fn down_now(&self, slug: &str) -> (r: bool)
        requires
            self.wf(),
        ensures
            r == is_down(self@.histories, slug@),
    {
        match self.histories.get(slug) {
            Some(history) => match history.last() {
                Some(beat) => beat.status == Status::Down,
                None => false,
            },
            None => false,
        }
    }

    /// How many monitored apps are down, and how many are monitored.
    fn counts(&self, apps: &Vec<RegisteredApp>) -> (r: (usize, usize))
        requires
            self.wf(),
        ensures
            r.0 == down_names(app_views(apps@), self@.histories).len(),
            r.1 == count_monitored(app_views(apps@)),
    {
        let ghost all = app_views(apps@);
        let ghost m = self@.histories;
        let mut names: Vec<String> = Vec::new();
        let mut total: usize = 0;
        let mut i: usize = 0;
        proof {
            assert(all.take(0) =~= Seq::<AppView>::empty());
            assert(crate::text::views(names@) =~= Seq::<Seq<char>>::empty());
        }
        while i < apps.len()
            invariant
                self.wf(),
                i <= apps.len(),
                total <= i,
                all == app_views(apps@),
                m == self@.histories,
                total == count_monitored(all.take(i as int)),
                crate::text::views(names@) == down_names(all.take(i as int), m),
            decreases apps@.len() - i,
        {
            proof {
                assert(all.take(i as int + 1).drop_last() =~= all.take(i as int));
                assert(all.take(i as int + 1).last() == apps@[i as int]@);
            }
            if apps[i].is_monitored() {
                total += 1;
                if self.down_now(apps[i].slug.as_str()) {
                    proof {
                        crate::text::lemma_listed_contains(names@, apps@[i as int].slug@);
                    }
                    if !is_listed(&names, apps[i].slug.as_str()) {
                        proof {
                            crate::text::lemma_views_push(names@, apps@[i as int].slug);
                        }
                        names.push(apps[i].slug.clone());
                    }
                }
            }
            i += 1;
        }
        proof {
            assert(all.take(all.len() as int) =~= all);
        }
        (names.len(), total)
    }

    /// The late alert of an app that is still down, as if it had gone down just now.
    fn late_alert(&self, app: &RegisteredApp) -> (r: Option<StatusChange>)
        requires
            self.wf(),
        ensures
            r is Some == is_down(self@.histories, app.slug@),
            r is Some ==> change_of(
                r->0,
                *app,
                Status::Up,
                Status::Down,
                beats_of(self@.histories, app.slug@).last(),
                streak_start(beats_of(self@.histories, app.slug@)),
            ),
    {
        let history = match self.histories.get(app.slug.as_str()) {
            Some(history) => history,
            None => {
                return None;
            },
        };
        let beat = match history.last() {
            Some(beat) => beat.clone(),
            None => {
                return None;
            },
        };
        if beat.status != Status::Down {
            return None;
        }
        Some(
            StatusChange {
                slug: app.slug.clone(),
                name: app.name.clone(),
                from: Status::Up,
                to: Status::Down,
                beat,
                down_since: history.down_streak_start(),
                route: app.alert_route(),
            },
        )
    }

    /// `through`, and behind it the late alerts of the apps that `held` names.
    fn with_late_alerts(
        &self,
        through: Vec<StatusChange>,
        held: &Vec<String>,
        apps: &Vec<RegisteredApp>,
    ) -> (r: Vec<StatusChange>)
        requires
            self.wf(),
        ensures
            sent_of(r@, through@, held@, apps@, self@.histories),
    {
        let ghost first = through@;
        let ghost names = crate::text::views(held@);
        let ghost all = app_views(apps@);
        let ghost m = self@.histories;
        let mut sent = through;
        let mut i: usize = 0;
        proof {
            assert(names.take(0) =~= Seq::<Seq<char>>::empty());
            assert(sent@.take(first.len() as int) =~= first);
        }
        while i < held.len()
            invariant
                self.wf(),
                i <= held@.len(),
                names == crate::text::views(held@),
                all == app_views(apps@),
                m == self@.histories,
                sent@.len() >= first.len(),
                sent@.take(first.len() as int) == first,
                late_alerts(
                    sent@.skip(first.len() as int),
                    released(names.take(i as int), all, m),
                    apps@,
                    m,
                ),
            decreases held@.len() - i,
        {
            proof {
                assert(names.take(i as int + 1).drop_last() =~= names.take(i as int));
                assert(names.take(i as int + 1).last() == held@[i as int]@);
            }
            if let Some(k) = find_monitored(apps, held[i].as_str()) {
                if let Some(change) = self.late_alert(&apps[k]) {
                    let ghost late = sent@.skip(first.len() as int);
                    sent.push(change);
                    proof {
                        assert(sent@.take(first.len() as int) =~= first);
                        assert(sent@.skip(first.len() as int) =~= late.push(change));
                    }
                }
            }
            i += 1;
        }
        proof {
            assert(names.take(names.len() as int) =~= names);
        }
        sent
    }

    /// Starts the reminder clock of every app that an alert says is down.
    fn start_clocks(&mut self, sent: &Vec<StatusChange>)
        requires
            old(self).wf(),
        ensures
            final(self).wf(),
            final(self)@ == (MonitorView {
                reminded: clocks_after(old(self)@.reminded, sent@),
                ..old(self)@
            }),
    {
        let ghost start = self@;
        let ghost all = sent@;
        let mut i: usize = 0;
        proof {
            assert(all.take(0) =~= Seq::<StatusChange>::empty());
        }
        while i < sent.len()
            invariant
                self.wf(),
                i <= sent@.len(),
                all == sent@,
                self@ == (MonitorView {
                    reminded: clocks_after(start.reminded, all.take(i as int)),
                    ..start
                }),
            decreases sent@.len() - i,
        {
            proof {
                assert(all.take(i as int + 1).drop_last() =~= all.take(i as int));
                assert(all.take(i as int + 1).last() == all[i as int]);
            }
            if sent[i].to == Status::Down {
                self.reminded.insert(sent[i].slug.as_str(), sent[i].beat.at);
            }
            i += 1;
        }
        proof {
            assert(all.take(all.len() as int) =~= all);
        }
    }

    /// Runs the round's alerts through the mass-outage gate: what is left to send. `apps` is
    /// every registered app, for the count.
    pub fn dispatch(&mut self, changes: Vec<StatusChange>, apps: &Vec<RegisteredApp>) -> (r:
        Dispatch)
        requires
            old(self).wf(),
        ensures
            final(self).wf(),
            dispatches(old(self)@, final(self)@, changes@, apps@, r),
    {
        let ghost start = self@;
        let ghost given = changes@;
        let (down, total) = self.counts(apps);
        let review = self.gate.review(changes, down, total, self.policy.mass_down_pct);
        let ghost through = review.deliver@;
        let held = review.release;
        let deliver = self.with_late_alerts(review.deliver, &held, apps);
        proof {
            assert(sent_of(deliver@, through, held@, apps@, start.histories));
            if start.in_outage && !self.gate.in_outage() {
                assert(through == unheld(start.holding, given));
            }
            if name_set(held@) == Set::<Seq<char>>::empty() {
                if held@.len() > 0 {
                    assert(name_set(held@).contains(held@[0]@)) by {
                        assert(listed(held@, held@[0]@));
                    }
                }
                assert(crate::text::views(held@) =~= Seq::<Seq<char>>::empty());
                assert(deliver@ =~= through) by {
                    assert(deliver@.skip(through.len() as int).len() == 0);
                    assert(deliver@.take(through.len() as int) =~= through);
                }
            }
        }
        self.start_clocks(&deliver);
        Dispatch { outage: review.outage, deliver }
    }

    /// Drops from every history what is past retention at `now`.
    pub fn prune_all(&mut self, now: u64)
        requires
            old(self).wf(),
        ensures
            final(self).wf(),
            final(self)@ == (MonitorView {
                histories: old(self)@.histories.map_values(
                    |b: Seq<Heartbeat>| pruned(b, ago(now, old(self)@.policy.retention)),
                ),
                ..old(self)@
            }),
    {
        let ghost start = self.histories@;
        let retention = self.policy.retention;
        let ghost cutoff = ago(now, retention);
        let mut rest: Table<History> = Table::new();
        std::mem::swap(&mut rest, &mut self.histories);
        let mut kept: Table<History> = Table::new();
        loop
            invariant
                rest.wf(),
                kept.wf(),
                cutoff == ago(now, retention),
                forall|k: Seq<char>| #[trigger]
                    rest@.contains_key(k) ==> start.contains_key(k) && rest@[k] == start[k],
                forall|k: Seq<char>| #[trigger]
                    kept@.contains_key(k) == (start.contains_key(k) && !rest@.contains_key(k)),
                forall|k: Seq<char>| #[trigger]
                    kept@.contains_key(k) ==> kept@[k]@ == pruned(start[k]@, cutoff),
            ensures
                kept.wf(),
                rest@ == Map::<Seq<char>, History>::empty(),
                forall|k: Seq<char>| #[trigger]
                    kept@.contains_key(k) == (start.contains_key(k) && !rest@.contains_key(k)),
                forall|k: Seq<char>| #[trigger]
                    kept@.contains_key(k) ==> kept@[k]@ == pruned(start[k]@, cutoff),
            decreases rest.names().len(),
        {
            match rest.pop() {
                None => {
                    break ;
                },
                Some((name, history)) => {
                    let mut history = history;
                    history.prune(now, retention);
                    kept.insert(name.as_str(), history);
                },
            }
        }
        self.histories = kept;
        proof {
            assert(self@.histories =~= beats_by_name(start).map_values(
                |b: Seq<Heartbeat>| pruned(b, cutoff),
            ));
        }
    }
}

impl UptimeMonitor {
    /// Drops all that is known of an app, when the app is unregistered: a later registration
    /// under the same slug starts clean.
    pub fn forget(&mut self, slug: &str)
        requires
            old(self).wf(),
        ensures
            final(self).wf(),
            final(self)@ == forgotten(old(self)@, slug@),
    {
        let ghost before = self.histories@;
        let history = self.histories.take(slug);
        let cert = self.certs.take(slug);
        let clock = self.reminded.take(slug);
        self.gate.forget(slug);
        proof {
            assert(beats_by_name(before.remove(slug@)) =~= beats_by_name(before).remove(slug@));
        }
    }

    fn summary_of(history: &History, app: &RegisteredApp, now: u64, cert: Option<u64>) -> (r:
        MonitorSummary)
        ensures
            summarizes(r, *app, history@, cert, now),
    {
        let day_ago = now.saturating_sub(DAY_SECS);
        let month_ago = now.saturating_sub(MONTH_SECS);
        let (status, latency_ms) = match history.last() {
            Some(beat) => (Some(beat.status), beat.latency_ms),
            None => (None, None),
        };
        MonitorSummary {
            slug: app.slug.clone(),
            name: app.name.clone(),
            health_url: opt_copy(&app.health_url),
            has_logs: app.logs_url.is_some(),
            paused: app.paused,
            paused_at: app.paused_at,
            paused_until: app.paused_until,
            status,
            latency_ms,
            avg_latency_24h_ms: history.avg_latency_ms(day_ago),
            uptime_24h: history.uptime(day_ago),
            uptime_30d: history.uptime(month_ago),
            cert_expires_at: cert,
            recent: history.recent(RECENT_BEATS),
        }
    }

    fn cert_of(&self, slug: &str) -> (r: Option<u64>)
        requires
            self.wf(),
        ensures
            r == value_of(self@.certs, slug@),
    {
        match self.certs.get(slug) {
            Some(expires) => Some(*expires),
            None => None,
        }
    }

    /// One app's summary: what the public embed endpoint serves.
    pub fn summary(&self, app: &RegisteredApp, now: u64) -> (r: MonitorSummary)
        requires
            self.wf(),
        ensures
            summarizes(
                r,
                *app,
                beats_of(self@.histories, app.slug@),
                value_of(self@.certs, app.slug@),
                now,
            ),
    {
        let cert = self.cert_of(app.slug.as_str());
        match self.histories.get(app.slug.as_str()) {
            Some(history) => UptimeMonitor::summary_of(history, app, now, cert),
            None => {
                let empty = History::default();
                UptimeMonitor::summary_of(&empty, app, now, cert)
            },
        }
    }

    /// An app's status changes, newest first.
    fn events_of(&self, slug: &str) -> (r: Vec<Heartbeat>)
        requires
            self.wf(),
        ensures
            r@ == at_most(flips(beats_of(self@.histories, slug@)).reverse(), MAX_EVENTS as nat),
    {
        match self.histories.get(slug) {
            Some(history) => history.events(),
            None => {
                let empty = History::default();
                empty.events()
            },
        }
    }

    /// Every app's summary, and the latest status changes across all of them.
    pub fn overview(&self, apps: &Vec<RegisteredApp>, now: u64) -> (r: Overview)
        requires
            self.wf(),
        ensures
            r.interval_secs == self@.policy.interval,
            r.degraded_after_ms == self@.policy.degraded_after_ms,
            r.monitors@.len() == apps@.len(),
            forall|i: int|
                0 <= i < apps@.len() ==> summarizes(
                    #[trigger] r.monitors@[i],
                    apps@[i],
                    beats_of(self@.histories, apps@[i].slug@),
                    value_of(self@.certs, apps@[i].slug@),
                    now,
                ),
            r.events@ == at_most(
                newest_first(all_events(apps@, self@.histories)),
                MAX_EVENTS as nat,
            ),
    {
        let ghost m = self@.histories;
        let ghost certs = self@.certs;
        let mut monitors: Vec<MonitorSummary> = Vec::new();
        let mut events: Vec<AppEvent> = Vec::new();
        let mut i: usize = 0;
        proof {
            assert(apps@.take(0) =~= Seq::<RegisteredApp>::empty());
            assert(events@ =~= newest_first(all_events(apps@.take(0), m)));
        }
        while i < apps.len()
            invariant
                self.wf(),
                i <= apps@.len(),
                m == self@.histories,
                certs == self@.certs,
                monitors@.len() == i,
                forall|j: int|
                    0 <= j < i ==> summarizes(
                        #[trigger] monitors@[j],
                        apps@[j],
                        beats_of(m, apps@[j].slug@),
                        value_of(certs, apps@[j].slug@),
                        now,
                    ),
                events@ == newest_first(all_events(apps@.take(i as int), m)),
            decreases apps@.len() - i,
        {
            let ghost earlier = all_events(apps@.take(i as int), m);
            proof {
                assert(apps@.take(i as int + 1).drop_last() =~= apps@.take(i as int));
                assert(apps@.take(i as int + 1).last() == apps@[i as int]);
            }
            monitors.push(self.summary(&apps[i], now));
            let changes = self.events_of(apps[i].slug.as_str());
            let ghost fresh = app_events(apps@[i as int], beats_of(m, apps@[i as int].slug@));
            let mut k: usize = 0;
            proof {
                assert(earlier + fresh.take(0) =~= earlier);
            }
            while k < changes.len()
                invariant
                    i < apps@.len(),
                    k <= changes@.len(),
                    fresh.len() == changes@.len(),
                    forall|j: int|
                        0 <= j < fresh.len() ==> #[trigger] fresh[j] == (AppEvent {
                            slug: apps@[i as int].slug,
                            name: apps@[i as int].name,
                            beat: changes@[j],
                        }),
                    events@ == newest_first(earlier + fresh.take(k as int)),
                decreases changes@.len() - k,
            {
                let event = AppEvent {
                    slug: apps[i].slug.clone(),
                    name: apps[i].name.clone(),
                    beat: changes[k].clone(),
                };
                proof {
                    let longer = earlier + fresh.take(k as int + 1);
                    assert(event == fresh[k as int]);
                    assert(longer.drop_last() =~= earlier + fresh.take(k as int));
                    assert(longer.last() == event);
                }
                place(&mut events, event);
                k += 1;
            }
            proof {
                assert(fresh.take(fresh.len() as int) =~= fresh);
            }
            i += 1;
        }
        proof {
            assert(apps@.take(apps@.len() as int) =~= apps@);
        }
        if events.len() > MAX_EVENTS {
            events.truncate(MAX_EVENTS);
        }
        Overview {
            interval_secs: self.policy.interval,
            degraded_after_ms: self.policy.degraded_after_ms,
            monitors,
            events,
        }
    }

    /// Whether the numbers of an app's detail view fit in what holds them.
    pub fn detail_fits(&self, slug: &str, window: u64, now: u64) -> (r: bool)
        requires
            self.wf(),
        ensures
            r == detail_fits(beats_of(self@.histories, slug@), window, now),
    {
        let cutoff = now.saturating_sub(window);
        match self.histories.get(slug) {
            Some(history) => {
                let beats = history.all();
                history.has_room(cutoff, now, MAX_DETAIL_POINTS) && IncidentReport::fits(
                    beats.as_slice(),
                    cutoff,
                    now,
                )
            },
            None => {
                let empty = History::default();
                let beats = empty.all();
                empty.has_room(cutoff, now, MAX_DETAIL_POINTS) && IncidentReport::fits(
                    beats.as_slice(),
                    cutoff,
                    now,
                )
            },
        }
    }

    /// One app's window: its heartbeats (aggregated where they are many), its status changes
    /// and its outages. Empty for an app without a history.
    pub fn detail(&self, slug: &str, window: u64, now: u64) -> (r: MonitorDetail)
        requires
            self.wf(),
            detail_fits(beats_of(self@.histories, slug@), window, now),
        ensures
            if self@.histories.contains_key(slug@) {
                let beats = self@.histories[slug@];
                let cutoff = ago(now, window);
                let outages = windowed(incidents(beats, now), cutoff);
                &&& r.beats@ == points(beats, cutoff, now, MAX_DETAIL_POINTS as nat)
                &&& r.events@ == at_most(flips(beats).reverse(), MAX_EVENTS as nat)
                &&& r.incidents.incidents@ == at_most(outages.reverse(), MAX_INCIDENTS as nat)
                &&& r.incidents.mttr_secs == mttr(outages)
                &&& r.incidents.total_down_secs == total_secs(outages)
            } else {
                &&& r.beats@.len() == 0
                &&& r.events@.len() == 0
                &&& r.incidents.incidents@.len() == 0
                &&& r.incidents.mttr_secs is None
                &&& r.incidents.total_down_secs == 0
            },
    {
        match self.histories.get(slug) {
            None => MonitorDetail {
                beats: Vec::new(),
                events: Vec::new(),
                incidents: IncidentReport::default(),
            },
            Some(history) => {
                let cutoff = now.saturating_sub(window);
                let beats = history.all();
                MonitorDetail {
                    beats: history.downsampled(cutoff, now, MAX_DETAIL_POINTS),
                    events: history.events(),
                    incidents: IncidentReport::build(
                        beats.as_slice(),
                        cutoff,
                        now,
                        MAX_INCIDENTS,
                    ),
                }
            },
        }
    }

    /// Daily uptime for the last `days` days, oldest first.
    pub fn daily(&self, slug: &str, days: u64, now: u64) -> (r: Vec<DayUptime>)
        requires
            self.wf(),
        ensures
            ({
                let beats = beats_of(self@.histories, slug@);
                let first = first_day(now, days);
                let today = now as nat / DAY_SECS as nat;
                r@ == if today - first + 1 <= usize::MAX {
                    Seq::new((today - first + 1) as nat, |i: int| day_of(beats, (first + i) as nat))
                } else {
                    Seq::empty()
                }
            }),
    {
        match self.histories.get(slug) {
            Some(history) => history.daily(now, days),
            None => {
                let empty = History::default();
                empty.daily(now, days)
            },
        }
    }

    /// Every heartbeat in the window, not aggregated (for exports).
    pub fn export(&self, slug: &str, window: u64, now: u64) -> (r: Vec<Heartbeat>)
        requires
            self.wf(),
        ensures
            r@ == since(beats_of(self@.histories, slug@), ago(now, window)),
    {
        let cutoff = now.saturating_sub(window);
        match self.histories.get(slug) {
            Some(history) => history.since(cutoff),
            None => Vec::new(),
        }
    }
}

// ---------------------------------------------------------------------------------------
// What holds of every monitor
// ---------------------------------------------------------------------------------------

/// An outage keeps its start through every further failed check, and a check that fails after
/// one that didn't starts a new one.
pub proof fn lemma_outages_keep_their_start(before: Seq<Heartbeat>, beat: Heartbeat)
    requires
        beat.status == Status::Down,
    ensures
        streak_start(before.push(beat)) == recorded(before, beat).down_since,
        recorded(before, beat).down_since is Some,
{
    assert(before.push(beat).drop_last() =~= before);
}

/// While an app stays down, no reminder goes out before the interval has passed since the last
/// alert about it, and one does as soon as it has.
pub proof fn lemma_reminders_keep_their_distance(
    on_degraded: bool,
    every: u64,
    reminded: Map<Seq<char>, u64>,
    slug: Seq<char>,
    beat: Heartbeat,
)
    requires
        beat.status == Status::Down,
        reminded.contains_key(slug),
        reminded[slug] <= beat.at,
    ensures
        ({
            let (from, clocks) = deserved(
                on_degraded,
                Some(every),
                reminded,
                slug,
                Some(Status::Down),
                beat,
            );
            &&& from is Some == (beat.at - reminded[slug] >= every)
            &&& from is Some ==> from->0 == Status::Down
            &&& clocks == reminded
        }),
{
}

/// A recovery stops the reminders: the app's clock is gone, whatever it was before.
pub proof fn lemma_recovery_clears_the_clock(
    on_degraded: bool,
    remind_after: Option<u64>,
    reminded: Map<Seq<char>, u64>,
    slug: Seq<char>,
    previous: Option<Status>,
    beat: Heartbeat,
)
    requires
        beat.status != Status::Down,
    ensures
        !deserved(on_degraded, remind_after, reminded, slug, previous, beat).1.contains_key(slug),
{
}

/// An app's first check never alerts.
pub proof fn lemma_first_check_is_quiet(
    on_degraded: bool,
    remind_after: Option<u64>,
    reminded: Map<Seq<char>, u64>,
    slug: Seq<char>,
    beat: Heartbeat,
)
    ensures
        deserved(on_degraded, remind_after, reminded, slug, None, beat).0 is None,
{
}

/// An alert that an app is down, once sent, starts that app's reminder clock at its check.
pub proof fn lemma_sent_alerts_start_the_clock(
    reminded: Map<Seq<char>, u64>,
    sent: Seq<StatusChange>,
    k: int,
)
    requires
        0 <= k < sent.len(),
        sent[k].to == Status::Down,
        forall|j: int| k < j < sent.len() ==> (#[trigger] sent[j]).slug@ != sent[k].slug@,
    ensures
        clocks_after(reminded, sent).contains_key(sent[k].slug@),
        clocks_after(reminded, sent)[sent[k].slug@] == sent[k].beat.at,
    decreases sent.len(),
{
    if k < sent.len() - 1 {
        assert forall|j: int| k < j < sent.drop_last().len() implies (
        #[trigger] sent.drop_last()[j]).slug@ != sent.drop_last()[k].slug@ by {
            assert(sent.drop_last()[j] == sent[j]);
        }
        lemma_sent_alerts_start_the_clock(reminded, sent.drop_last(), k);
        assert(sent[sent.len() - 1].slug@ != sent[k].slug@);
    }
}

proof fn lemma_put_keeps_order(events: Seq<AppEvent>, event: AppEvent)
    requires
        forall|i: int, j: int|
            0 <= i < j < events.len() ==> (#[trigger] events[i]).beat.at >= (
            #[trigger] events[j]).beat.at,
    ensures
        put(events, event).len() == events.len() + 1,
        put(events, event).to_multiset() == events.to_multiset().insert(event),
        forall|i: int, j: int|
            0 <= i < j < put(events, event).len() ==> (#[trigger] put(events, event)[i]).beat.at
                >= (#[trigger] put(events, event)[j]).beat.at,
    decreases events.len(),
{
    broadcast use vstd::seq_lib::group_to_multiset_ensures;

    if events.len() == 0 || events.last().beat.at >= event.beat.at {
        assert(events.push(event).to_multiset() =~= events.to_multiset().insert(event));
    } else {
        let front = events.drop_last();
        assert forall|i: int, j: int| 0 <= i < j < front.len() implies (#[trigger] front[i]).beat.at
            >= (#[trigger] front[j]).beat.at by {
            assert(events[i].beat.at >= events[j].beat.at);
        }
        lemma_put_keeps_order(front, event);
        let placed = put(front, event);
        assert(events =~= front.push(events.last()));
        assert(placed.push(events.last()).to_multiset() =~= events.to_multiset().insert(event));
        assert forall|i: int| 0 <= i < placed.len() implies (#[trigger] placed[i]).beat.at
            >= events.last().beat.at by {
            assert(placed.to_multiset().count(placed[i]) > 0);
            if placed[i] != event {
                assert(front.to_multiset().count(placed[i]) > 0);
                assert(front.contains(placed[i]));
                let k = choose|k: int| 0 <= k < front.len() && front[k] == placed[i];
                assert(events[k].beat.at >= events[events.len() - 1].beat.at);
            }
        }
    }
}

/// The overview's events are the apps' events, none lost or made up, newest first.
pub proof fn lemma_events_are_sorted(events: Seq<AppEvent>)
    ensures
        newest_first(events).to_multiset() == events.to_multiset(),
        forall|i: int, j: int|
            0 <= i < j < newest_first(events).len() ==> (#[trigger] newest_first(
                events,
            )[i]).beat.at >= (#[trigger] newest_first(events)[j]).beat.at,
    decreases events.len(),
{
    broadcast use vstd::seq_lib::group_to_multiset_ensures;

    if events.len() > 0 {
        lemma_events_are_sorted(events.drop_last());
        lemma_put_keeps_order(newest_first(events.drop_last()), events.last());
        assert(events =~= events.drop_last().push(events.last()));
    } else {
        assert(events =~= Seq::<AppEvent>::empty());
    }
}

/// Once an app is forgotten, nothing is left of it, and its next check is as quiet as any first
/// one. Nothing changes for other apps.
pub proof fn lemma_forgotten_apps_start_clean(
    m: MonitorView,
    slug: Seq<char>,
    on_degraded: bool,
    remind_after: Option<u64>,
    beat: Heartbeat,
)
    ensures
        ({
            let clean = forgotten(m, slug);
            let first = recorded(beats_of(clean.histories, slug), beat);
            &&& beats_of(clean.histories, slug) == Seq::<Heartbeat>::empty()
            &&& value_of(clean.certs, slug) is None
            &&& value_of(clean.reminded, slug) is None
            &&& !clean.holding.contains(slug)
            &&& first.previous is None
            &&& deserved(on_degraded, remind_after, clean.reminded, slug, first.previous, beat) == (
                None::<Status>,
                clean.reminded,
            )
            &&& forall|other: Seq<char>|
                other != slug ==> {
                    &&& #[trigger] beats_of(clean.histories, other) == beats_of(m.histories, other)
                    &&& value_of(clean.certs, other) == value_of(m.certs, other)
                    &&& value_of(clean.reminded, other) == value_of(m.reminded, other)
                    &&& clean.holding.contains(other) == m.holding.contains(other)
                }
        }),
{
    let clean = forgotten(m, slug);
    assert(clean.reminded.remove(slug) =~= clean.reminded);
}

/// The histories that `entry` hands out are all there are, and each of them once.
pub proof fn lemma_entries_cover_the_histories(m: UptimeMonitor)
    requires
        m.wf(),
    ensures
        m.kept().no_duplicates(),
        forall|slug: Seq<char>| #[trigger]
            m.kept().contains(slug) <==> m@.histories.contains_key(slug),
{
    m.histories.lemma_names();
}

} // verus!
