//! The alerts of an app over any number of rounds: when an outage is announced, when reminders
//! go out, and what the recovery says.

use vstd::prelude::*;

use crate::alerts::reminder;
use crate::alerts::StatusChange;
use crate::registry::RegisteredApp;
use crate::uptime::history::ago;
use crate::uptime::history::streak_start;
use crate::uptime::monitor::beats_of;
use crate::uptime::monitor::change_of;
use crate::uptime::monitor::clocks_after;
use crate::uptime::monitor::decides;
use crate::uptime::monitor::deserved;
use crate::uptime::monitor::dispatches;
use crate::uptime::monitor::lemma_sent_alerts_start_the_clock;
use crate::uptime::monitor::recorded;
use crate::uptime::monitor::value_of;
use crate::uptime::monitor::with_beat;
use crate::uptime::monitor::Dispatch;
use crate::uptime::monitor::MonitorView;
use crate::uptime::Heartbeat;
use crate::uptime::Status;

verus! {

/// The reminder clocks after an app's checks `beats`, one round after another, where every
/// alert that a check deserves goes out. `kept` is the app's history before them, and `start`
/// the clocks.
pub open spec fn clocks_through(
    on_degraded: bool,
    remind_after: Option<u64>,
    start: Map<Seq<char>, u64>,
    slug: Seq<char>,
    kept: Seq<Heartbeat>,
    beats: Seq<Heartbeat>,
) -> Map<Seq<char>, u64>
    decreases beats.len(),
{
    if beats.len() == 0 {
        start
    } else {
        let before = beats.drop_last();
        let beat = beats.last();
        let (from, clocks) = deserved(
            on_degraded,
            remind_after,
            clocks_through(on_degraded, remind_after, start, slug, kept, before),
            slug,
            recorded(kept + before, beat).previous,
            beat,
        );
        if from is Some && beat.status == Status::Down {
            clocks.insert(slug, beat.at)
        } else {
            clocks
        }
    }
}

/// The alert that the `k`-th of an app's checks leads to, where every earlier one went out and
/// no check is past retention yet: the status it came from, and since when it has been down.
pub open spec fn alert_at(
    on_degraded: bool,
    remind_after: Option<u64>,
    start: Map<Seq<char>, u64>,
    slug: Seq<char>,
    kept: Seq<Heartbeat>,
    beats: Seq<Heartbeat>,
    k: int,
) -> Option<(Status, Option<u64>)> {
    let was = recorded(kept + beats.take(k), beats[k]);
    match deserved(
        on_degraded,
        remind_after,
        clocks_through(on_degraded, remind_after, start, slug, kept, beats.take(k)),
        slug,
        was.previous,
        beats[k],
    ).0 {
        Some(from) => Some((from, was.down_since)),
        None => None,
    }
}

/// Whether the checks from `first` to `last` are one outage: they fail, and the check before
/// `first` did not.
pub open spec fn outage_at(beats: Seq<Heartbeat>, first: int, last: int) -> bool {
    &&& 1 <= first <= last < beats.len()
    &&& beats[first - 1].status != Status::Down
    &&& forall|k: int| first <= k <= last ==> (#[trigger] beats[k]).status == Status::Down
}

proof fn lemma_outage_since(kept: Seq<Heartbeat>, beats: Seq<Heartbeat>, first: int, k: int)
    requires
        outage_at(beats, first, k),
    ensures
        streak_start(kept + beats.take(k + 1)) == Some(beats[first].at),
    decreases k,
{
    let now = kept + beats.take(k + 1);
    assert(now.drop_last() =~= kept + beats.take(k));
    assert(now.last() == beats[k]);
    if k > first {
        lemma_outage_since(kept, beats, first, k - 1);
    } else {
        assert((kept + beats.take(k)).last() == beats[first - 1]);
    }
}

/// Whether the `i`-th check led to the last alert up to the `k`-th.
spec fn last_alert(
    on_degraded: bool,
    remind_after: Option<u64>,
    start: Map<Seq<char>, u64>,
    slug: Seq<char>,
    kept: Seq<Heartbeat>,
    beats: Seq<Heartbeat>,
    i: int,
    k: int,
) -> bool {
    &&& i <= k
    &&& alert_at(on_degraded, remind_after, start, slug, kept, beats, i) is Some
    &&& forall|j: int|
        i < j <= k ==> #[trigger] alert_at(
            on_degraded,
            remind_after,
            start,
            slug,
            kept,
            beats,
            j,
        ) is None
}

/// During an outage the clock stands at the check of the last alert about it.
proof fn lemma_clock_in_outage(
    on_degraded: bool,
    every: u64,
    start: Map<Seq<char>, u64>,
    slug: Seq<char>,
    kept: Seq<Heartbeat>,
    beats: Seq<Heartbeat>,
    first: int,
    k: int,
) -> (i: int)
    requires
        outage_at(beats, first, k),
    ensures
        first <= i <= k,
        last_alert(on_degraded, Some(every), start, slug, kept, beats, i, k),
        ({
            let clocks = clocks_through(
                on_degraded,
                Some(every),
                start,
                slug,
                kept,
                beats.take(k + 1),
            );
            clocks.contains_key(slug) && clocks[slug] == beats[i].at
        }),
        alert_at(on_degraded, Some(every), start, slug, kept, beats, first) == Some(
            (beats[first - 1].status, Some(beats[first].at)),
        ),
    decreases k,
{
    let now = beats.take(k + 1);
    assert(now.drop_last() =~= beats.take(k));
    assert(now.last() == beats[k]);
    if k == first {
        assert((kept + beats.take(k)).last() == beats[first - 1]);
        first
    } else {
        let before = lemma_clock_in_outage(
            on_degraded,
            every,
            start,
            slug,
            kept,
            beats,
            first,
            k - 1,
        );
        assert((kept + beats.take(k)).last() == beats[k - 1]);
        if alert_at(on_degraded, Some(every), start, slug, kept, beats, k) is Some {
            k
        } else {
            before
        }
    }
}

/// What a check in an outage leads to, given the last alert before it.
proof fn lemma_next_alert(
    on_degraded: bool,
    every: u64,
    start: Map<Seq<char>, u64>,
    slug: Seq<char>,
    kept: Seq<Heartbeat>,
    beats: Seq<Heartbeat>,
    first: int,
    i: int,
    k: int,
)
    requires
        outage_at(beats, first, k),
        first <= i < k,
        last_alert(on_degraded, Some(every), start, slug, kept, beats, i, k - 1),
    ensures
        alert_at(on_degraded, Some(every), start, slug, kept, beats, k) == if ago(
            beats[k].at,
            beats[i].at,
        ) < every {
            None
        } else {
            Some((Status::Down, Some(beats[first].at)))
        },
{
    let at = lemma_clock_in_outage(on_degraded, every, start, slug, kept, beats, first, k - 1);
    assert(at == i);
    lemma_outage_since(kept, beats, first, k - 1);
    assert((kept + beats.take(k)).last() == beats[k - 1]);
}

/// What the check that ends an outage leads to.
proof fn lemma_recovery_alert(
    on_degraded: bool,
    every: u64,
    start: Map<Seq<char>, u64>,
    slug: Seq<char>,
    kept: Seq<Heartbeat>,
    beats: Seq<Heartbeat>,
    first: int,
    last: int,
)
    requires
        outage_at(beats, first, last),
        last + 1 < beats.len(),
        beats[last + 1].status != Status::Down,
    ensures
        alert_at(on_degraded, Some(every), start, slug, kept, beats, last + 1) == Some(
            (Status::Down, Some(beats[first].at)),
        ),
        !clocks_through(
            on_degraded,
            Some(every),
            start,
            slug,
            kept,
            beats.take(last + 2),
        ).contains_key(slug),
{
    lemma_outage_since(kept, beats, first, last);
    assert((kept + beats.take(last + 1)).last() == beats[last]);
    let now = beats.take(last + 2);
    assert(now.drop_last() =~= beats.take(last + 1));
    assert(now.last() == beats[last + 1]);
}

/// The alerts of one outage, with reminders every `every` seconds: its first failed check is
/// announced; after an alert nothing is said for as long as the interval lasts, and the first
/// check past it is a reminder; every reminder, and the recovery, tell the time at which the
/// outage started. After the recovery no clock runs.
pub proof fn lemma_reminder_cadence(
    on_degraded: bool,
    every: u64,
    start: Map<Seq<char>, u64>,
    slug: Seq<char>,
    kept: Seq<Heartbeat>,
    beats: Seq<Heartbeat>,
    first: int,
    last: int,
)
    requires
        outage_at(beats, first, last),
    ensures
        alert_at(on_degraded, Some(every), start, slug, kept, beats, first) == Some(
            (beats[first - 1].status, Some(beats[first].at)),
        ),
        forall|i: int, k: int|
            first <= i < k <= last && #[trigger] alert_at(
                on_degraded,
                Some(every),
                start,
                slug,
                kept,
                beats,
                i,
            ) is Some && (forall|j: int|
                i < j < k ==> #[trigger] alert_at(
                    on_degraded,
                    Some(every),
                    start,
                    slug,
                    kept,
                    beats,
                    j,
                ) is None) ==> #[trigger] alert_at(
                on_degraded,
                Some(every),
                start,
                slug,
                kept,
                beats,
                k,
            ) == if ago(beats[k].at, beats[i].at) < every {
                None
            } else {
                Some((Status::Down, Some(beats[first].at)))
            },
        last + 1 < beats.len() && beats[last + 1].status != Status::Down ==> {
            &&& alert_at(on_degraded, Some(every), start, slug, kept, beats, last + 1) == Some(
                (Status::Down, Some(beats[first].at)),
            )
            &&& !clocks_through(
                on_degraded,
                Some(every),
                start,
                slug,
                kept,
                beats.take(last + 2),
            ).contains_key(slug)
        },
{
    let rest = Some(every);
    let at_first = lemma_clock_in_outage(on_degraded, every, start, slug, kept, beats, first, first);
    assert forall|i: int, k: int|
        first <= i < k <= last && #[trigger] alert_at(
            on_degraded,
            rest,
            start,
            slug,
            kept,
            beats,
            i,
        ) is Some && (forall|j: int|
            i < j < k ==> #[trigger] alert_at(
                on_degraded,
                rest,
                start,
                slug,
                kept,
                beats,
                j,
            ) is None) implies #[trigger] alert_at(on_degraded, rest, start, slug, kept, beats, k)
        == if ago(beats[k].at, beats[i].at) < every {
        None
    } else {
        Some((Status::Down, Some(beats[first].at)))
    } by {
        lemma_next_alert(on_degraded, every, start, slug, kept, beats, first, i, k);
    }
    if last + 1 < beats.len() && beats[last + 1].status != Status::Down {
        lemma_recovery_alert(on_degraded, every, start, slug, kept, beats, first, last);
    }
}

/// One round in the eyes of one app: its check is recorded, the alert that it deserves is
/// decided, and the round's changes are dispatched. What the round does for other apps lies
/// between `decided` and `gathered`.
pub struct Round {
    pub before: MonitorView,
    pub decided: MonitorView,
    pub gathered: MonitorView,
    pub after: MonitorView,
    pub beat: Heartbeat,
    pub now: u64,
    /// The alert that the check deserves.
    pub told: Option<StatusChange>,
    /// The changes of all apps.
    pub changes: Seq<StatusChange>,
    pub apps: Seq<RegisteredApp>,
    pub sent: Dispatch,
}

/// Whether two monitors know the same of an app.
pub open spec fn alike(a: MonitorView, b: MonitorView, slug: Seq<char>) -> bool {
    &&& a.policy == b.policy
    &&& beats_of(a.histories, slug) == beats_of(b.histories, slug)
    &&& value_of(a.reminded, slug) == value_of(b.reminded, slug)
}

/// Whether `told` is all that `changes` say of an app.
pub open spec fn says_only(
    changes: Seq<StatusChange>,
    slug: Seq<char>,
    told: Option<StatusChange>,
) -> bool {
    match told {
        None => forall|j: int| 0 <= j < changes.len() ==> (#[trigger] changes[j]).slug@ != slug,
        Some(c) => exists|i: int|
            0 <= i < changes.len() && #[trigger] changes[i] == c && forall|j: int|
                0 <= j < changes.len() && j != i ==> (#[trigger] changes[j]).slug@ != slug,
    }
}

/// Whether a round ran as `record`, `alert_for` and `dispatch` run it, outside a mass outage.
pub open spec fn ran(
    r: Round,
    on_degraded: bool,
    remind_after: Option<u64>,
    app: RegisteredApp,
) -> bool {
    &&& decides(
        with_beat(r.before, app.slug@, r.beat, r.now),
        r.decided,
        on_degraded,
        remind_after,
        app,
        recorded(beats_of(r.before.histories, app.slug@), r.beat),
        r.beat,
        r.told,
    )
    &&& alike(r.decided, r.gathered, app.slug@)
    &&& says_only(r.changes, app.slug@, r.told)
    &&& dispatches(r.gathered, r.after, r.changes, r.apps, r.sent)
    &&& !r.gathered.in_outage
    &&& !r.after.in_outage
}

/// Whether nothing of an app changes between a round and the one before it.
pub open spec fn follows(rounds: Seq<Round>, k: int, slug: Seq<char>) -> bool {
    alike(rounds[k - 1].after, rounds[k].before, slug)
}

/// Whether the `k`-th round finds none of the app's checks past retention, from the earliest in
/// its history on.
pub open spec fn retains(rounds: Seq<Round>, k: int, slug: Seq<char>) -> bool {
    let all = beats_of(rounds[0].before.histories, slug) + beats_in(rounds);
    all[0].at >= ago(rounds[k].now, rounds[0].before.policy.retention)
}

/// Whether rounds follow one another: nothing of the app changes between them, and none of its
/// checks is past retention yet.
pub open spec fn consecutive(
    rounds: Seq<Round>,
    on_degraded: bool,
    remind_after: Option<u64>,
    app: RegisteredApp,
) -> bool {
    forall|k: int|
        0 <= k < rounds.len() ==> #[trigger] continues(rounds, k, on_degraded, remind_after, app)
}

/// Whether the `k`-th round ran, and went on where the one before it ended.
pub open spec fn continues(
    rounds: Seq<Round>,
    k: int,
    on_degraded: bool,
    remind_after: Option<u64>,
    app: RegisteredApp,
) -> bool {
    &&& ran(rounds[k], on_degraded, remind_after, app)
    &&& k > 0 ==> follows(rounds, k, app.slug@)
    &&& retains(rounds, k, app.slug@)
}

/// The checks of some rounds.
pub open spec fn beats_in(rounds: Seq<Round>) -> Seq<Heartbeat> {
    rounds.map_values(|r: Round| r.beat)
}

proof fn lemma_deserved_by_the_apps_own_clock(
    on_degraded: bool,
    remind_after: Option<u64>,
    a: Map<Seq<char>, u64>,
    b: Map<Seq<char>, u64>,
    slug: Seq<char>,
    previous: Option<Status>,
    beat: Heartbeat,
)
    requires
        value_of(a, slug) == value_of(b, slug),
    ensures
        deserved(on_degraded, remind_after, a, slug, previous, beat).0 == deserved(
            on_degraded,
            remind_after,
            b,
            slug,
            previous,
            beat,
        ).0,
        value_of(deserved(on_degraded, remind_after, a, slug, previous, beat).1, slug) == value_of(
            deserved(on_degraded, remind_after, b, slug, previous, beat).1,
            slug,
        ),
{
}

proof fn lemma_other_alerts_leave_the_clock(
    reminded: Map<Seq<char>, u64>,
    sent: Seq<StatusChange>,
    slug: Seq<char>,
)
    requires
        forall|j: int| 0 <= j < sent.len() ==> (#[trigger] sent[j]).slug@ != slug,
    ensures
        value_of(clocks_after(reminded, sent), slug) == value_of(reminded, slug),
    decreases sent.len(),
{
    if sent.len() > 0 {
        let front = sent.drop_last();
        assert forall|j: int| 0 <= j < front.len() implies (#[trigger] front[j]).slug@ != slug by {
            assert(front[j] == sent[j]);
        }
        lemma_other_alerts_leave_the_clock(reminded, front, slug);
        assert(sent[sent.len() - 1].slug@ != slug);
    }
}

proof fn lemma_recovery_leaves_the_clock(
    reminded: Map<Seq<char>, u64>,
    sent: Seq<StatusChange>,
    k: int,
)
    requires
        0 <= k < sent.len(),
        sent[k].to != Status::Down,
        forall|j: int|
            0 <= j < sent.len() && j != k ==> (#[trigger] sent[j]).slug@ != sent[k].slug@,
    ensures
        value_of(clocks_after(reminded, sent), sent[k].slug@) == value_of(reminded, sent[k].slug@),
    decreases sent.len(),
{
    let front = sent.drop_last();
    if k == sent.len() - 1 {
        assert forall|j: int| 0 <= j < front.len() implies (#[trigger] front[j]).slug@
            != sent[k].slug@ by {
            assert(front[j] == sent[j]);
        }
        lemma_other_alerts_leave_the_clock(reminded, front, sent[k].slug@);
    } else {
        assert forall|j: int| 0 <= j < front.len() && j != k implies (#[trigger] front[j]).slug@
            != front[k].slug@ by {
            assert(front[j] == sent[j]);
        }
        lemma_recovery_leaves_the_clock(reminded, front, k);
        assert(sent[sent.len() - 1].slug@ != sent[k].slug@);
    }
}

/// The clock of an app after a round: at its check, where that was an alert that it is down.
proof fn lemma_clock_after_round(
    r: Round,
    on_degraded: bool,
    remind_after: Option<u64>,
    app: RegisteredApp,
)
    requires
        ran(r, on_degraded, remind_after, app),
    ensures
        ({
            let slug = app.slug@;
            let clocks = deserved(
                on_degraded,
                remind_after,
                r.before.reminded,
                slug,
                recorded(beats_of(r.before.histories, slug), r.beat).previous,
                r.beat,
            ).1;
            value_of(r.after.reminded, slug) == if r.told is Some && r.beat.status == Status::Down {
                Some(r.beat.at)
            } else {
                value_of(clocks, slug)
            }
        }),
{
    let slug = app.slug@;
    assert(r.sent.deliver@ == r.changes);
    match r.told {
        None => {
            lemma_other_alerts_leave_the_clock(r.gathered.reminded, r.changes, slug);
        },
        Some(c) => {
            let i = choose|i: int|
                0 <= i < r.changes.len() && #[trigger] r.changes[i] == c && forall|j: int|
                    0 <= j < r.changes.len() && j != i ==> (#[trigger] r.changes[j]).slug@ != slug;
            assert(r.changes[i].slug@ == slug);
            if c.to == Status::Down {
                lemma_sent_alerts_start_the_clock(r.gathered.reminded, r.changes, i);
            } else {
                lemma_recovery_leaves_the_clock(r.gathered.reminded, r.changes, i);
            }
        },
    }
}

/// The history of an app after a round, where nothing is past retention.
proof fn lemma_history_after_round(
    r: Round,
    on_degraded: bool,
    remind_after: Option<u64>,
    app: RegisteredApp,
)
    requires
        ran(r, on_degraded, remind_after, app),
        beats_of(r.before.histories, app.slug@).push(r.beat)[0].at >= ago(
            r.now,
            r.before.policy.retention,
        ),
    ensures
        r.after.policy == r.before.policy,
        beats_of(r.after.histories, app.slug@) == beats_of(r.before.histories, app.slug@).push(
            r.beat,
        ),
{
    assert(beats_of(r.decided.histories, app.slug@) == beats_of(
        r.before.histories,
        app.slug@,
    ).push(r.beat));
}

proof fn lemma_rounds_so_far(
    rounds: Seq<Round>,
    on_degraded: bool,
    remind_after: Option<u64>,
    app: RegisteredApp,
    k: int,
)
    requires
        consecutive(rounds, on_degraded, remind_after, app),
        0 <= k < rounds.len(),
    ensures
        ({
            let slug = app.slug@;
            let kept = beats_of(rounds[0].before.histories, slug);
            let start = rounds[0].before.reminded;
            let beats = beats_in(rounds);
            &&& rounds[k].before.policy == rounds[0].before.policy
            &&& beats_of(rounds[k].before.histories, slug) == kept + beats.take(k)
            &&& value_of(rounds[k].before.reminded, slug) == value_of(
                clocks_through(on_degraded, remind_after, start, slug, kept, beats.take(k)),
                slug,
            )
        }),
    decreases k,
{
    let slug = app.slug@;
    let kept = beats_of(rounds[0].before.histories, slug);
    let start = rounds[0].before.reminded;
    let beats = beats_in(rounds);
    if k == 0 {
        assert(kept + beats.take(0) =~= kept);
    } else {
        let r = rounds[k - 1];
        lemma_rounds_so_far(rounds, on_degraded, remind_after, app, k - 1);
        assert(continues(rounds, k - 1, on_degraded, remind_after, app));
        assert(continues(rounds, k, on_degraded, remind_after, app));
        let now = beats.take(k);
        assert(now.drop_last() =~= beats.take(k - 1));
        assert(now.last() == r.beat);
        let all = kept + beats;
        let grown = (kept + beats.take(k - 1)).push(r.beat);
        assert(grown =~= kept + beats.take(k));
        assert(grown[0] == all[0]);
        lemma_history_after_round(r, on_degraded, remind_after, app);
        lemma_clock_after_round(r, on_degraded, remind_after, app);
        lemma_deserved_by_the_apps_own_clock(
            on_degraded,
            remind_after,
            r.before.reminded,
            clocks_through(on_degraded, remind_after, start, slug, kept, beats.take(k - 1)),
            slug,
            recorded(kept + beats.take(k - 1), r.beat).previous,
            r.beat,
        );
    }
}

/// What the rounds' calls tell of an app is what `alert_at` says of its checks, whatever the
/// rounds do for other apps.
pub proof fn lemma_rounds_tell_the_alerts(
    rounds: Seq<Round>,
    on_degraded: bool,
    remind_after: Option<u64>,
    app: RegisteredApp,
    k: int,
)
    requires
        consecutive(rounds, on_degraded, remind_after, app),
        0 <= k < rounds.len(),
    ensures
        match alert_at(
            on_degraded,
            remind_after,
            rounds[0].before.reminded,
            app.slug@,
            beats_of(rounds[0].before.histories, app.slug@),
            beats_in(rounds),
            k,
        ) {
            None => rounds[k].told is None,
            Some((from, since)) => rounds[k].told is Some && change_of(
                rounds[k].told->0,
                app,
                from,
                rounds[k].beat.status,
                rounds[k].beat,
                since,
            ),
        },
{
    let slug = app.slug@;
    let kept = beats_of(rounds[0].before.histories, slug);
    let start = rounds[0].before.reminded;
    let beats = beats_in(rounds);
    lemma_rounds_so_far(rounds, on_degraded, remind_after, app, k);
    assert(continues(rounds, k, on_degraded, remind_after, app));
    lemma_deserved_by_the_apps_own_clock(
        on_degraded,
        remind_after,
        rounds[k].before.reminded,
        clocks_through(on_degraded, remind_after, start, slug, kept, beats.take(k)),
        slug,
        recorded(kept + beats.take(k), rounds[k].beat).previous,
        rounds[k].beat,
    );
}

/// Whether the `i`-th round told something of the app and those between it and the `k`-th
/// nothing.
pub open spec fn told_last(rounds: Seq<Round>, i: int, k: int) -> bool {
    rounds[i].told is Some && forall|j: int| i < j < k ==> (#[trigger] rounds[j]).told is None
}

/// What the round of a check in an outage tells, given the last round that told something.
proof fn lemma_next_told(
    rounds: Seq<Round>,
    on_degraded: bool,
    every: u64,
    app: RegisteredApp,
    first: int,
    i: int,
    k: int,
)
    requires
        consecutive(rounds, on_degraded, Some(every), app),
        outage_at(beats_in(rounds), first, k),
        first <= i < k,
        told_last(rounds, i, k),
    ensures
        rounds[k].told is None == (ago(rounds[k].beat.at, rounds[i].beat.at) < every),
        rounds[k].told is Some ==> reminder(rounds[k].told->0) && rounds[k].told->0.down_since
            == Some(rounds[first].beat.at),
{
    let slug = app.slug@;
    let kept = beats_of(rounds[0].before.histories, slug);
    let start = rounds[0].before.reminded;
    let beats = beats_in(rounds);
    let rest = Some(every);
    assert(last_alert(on_degraded, rest, start, slug, kept, beats, i, k - 1)) by {
        lemma_rounds_tell_the_alerts(rounds, on_degraded, rest, app, i);
        assert forall|j: int| i < j <= k - 1 implies #[trigger] alert_at(
            on_degraded,
            rest,
            start,
            slug,
            kept,
            beats,
            j,
        ) is None by {
            lemma_rounds_tell_the_alerts(rounds, on_degraded, rest, app, j);
            assert(rounds[j].told is None);
        }
    }
    assert(outage_at(beats, first, k - 1));
    lemma_next_alert(on_degraded, every, start, slug, kept, beats, first, i, k);
    lemma_rounds_tell_the_alerts(rounds, on_degraded, rest, app, k);
    assert(beats[k].status == Status::Down);
}

/// What the round of the check that ends an outage tells.
proof fn lemma_recovery_told(
    rounds: Seq<Round>,
    on_degraded: bool,
    every: u64,
    app: RegisteredApp,
    first: int,
    last: int,
)
    requires
        consecutive(rounds, on_degraded, Some(every), app),
        outage_at(beats_in(rounds), first, last),
        last + 1 < rounds.len(),
        rounds[last + 1].beat.status != Status::Down,
    ensures
        rounds[last + 1].told is Some,
        rounds[last + 1].told->0.from == Status::Down,
        rounds[last + 1].told->0.down_since == Some(rounds[first].beat.at),
        value_of(rounds[last + 1].after.reminded, app.slug@) is None,
{
    let slug = app.slug@;
    let kept = beats_of(rounds[0].before.histories, slug);
    let start = rounds[0].before.reminded;
    let beats = beats_in(rounds);
    let r = rounds[last + 1];
    assert(beats[last + 1] == r.beat);
    lemma_recovery_alert(on_degraded, every, start, slug, kept, beats, first, last);
    lemma_rounds_tell_the_alerts(rounds, on_degraded, Some(every), app, last + 1);
    assert(continues(rounds, last + 1, on_degraded, Some(every), app));
    lemma_clock_after_round(r, on_degraded, Some(every), app);
}

/// Reminders on schedule, over the calls of each round: an outage is announced by its first
/// failed check; after an alert the following checks are silent until `every` seconds have
/// passed, and the first one past them is a reminder; the reminders and the recovery say when
/// the outage started.
pub proof fn lemma_reminders_go_out_on_schedule(
    rounds: Seq<Round>,
    on_degraded: bool,
    every: u64,
    app: RegisteredApp,
    first: int,
    last: int,
)
    requires
        consecutive(rounds, on_degraded, Some(every), app),
        outage_at(beats_in(rounds), first, last),
    ensures
        rounds[first].told is Some,
        rounds[first].told->0.from == rounds[first - 1].beat.status,
        rounds[first].told->0.down_since == Some(rounds[first].beat.at),
        forall|i: int, k: int|
            first <= i < k <= last && #[trigger] told_last(rounds, i, k) ==> {
                &&& rounds[k].told is None == (ago(rounds[k].beat.at, rounds[i].beat.at) < every)
                &&& rounds[k].told is Some ==> reminder(rounds[k].told->0)
                    && rounds[k].told->0.down_since == Some(rounds[first].beat.at)
            },
        last + 1 < rounds.len() && rounds[last + 1].beat.status != Status::Down ==> {
            &&& rounds[last + 1].told is Some
            &&& rounds[last + 1].told->0.from == Status::Down
            &&& rounds[last + 1].told->0.down_since == Some(rounds[first].beat.at)
            &&& value_of(rounds[last + 1].after.reminded, app.slug@) is None
        },
{
    let slug = app.slug@;
    let kept = beats_of(rounds[0].before.histories, slug);
    let start = rounds[0].before.reminded;
    let beats = beats_in(rounds);
    assert(outage_at(beats, first, first));
    let at_first = lemma_clock_in_outage(on_degraded, every, start, slug, kept, beats, first, first);
    lemma_rounds_tell_the_alerts(rounds, on_degraded, Some(every), app, first);
    assert forall|i: int, k: int|
        first <= i < k <= last && #[trigger] told_last(rounds, i, k) implies {
        &&& rounds[k].told is None == (ago(rounds[k].beat.at, rounds[i].beat.at) < every)
        &&& rounds[k].told is Some ==> reminder(rounds[k].told->0)
            && rounds[k].told->0.down_since == Some(rounds[first].beat.at)
    } by {
        assert(outage_at(beats, first, k));
        lemma_next_told(rounds, on_degraded, every, app, first, i, k);
    }
    if last + 1 < rounds.len() && rounds[last + 1].beat.status != Status::Down {
        lemma_recovery_told(rounds, on_degraded, every, app, first, last);
    }
}

} // verus!
