//! What holds of every monitor: whom it counts, what it alerts about, and what it shows.

use vstd::prelude::*;

use crate::alerts::MassOutage;
use crate::alerts::StatusChange;
use crate::alerts::alerter::worth;
use crate::registry::app_views;
use crate::registry::monitored;
use crate::registry::AppView;
use crate::registry::RegisteredApp;
use crate::text::views;
use crate::uptime::DAY_SECS;
use crate::uptime::Heartbeat;
use crate::uptime::Status;
use crate::uptime::gate::held_back;
use crate::uptime::gate::lemma_mass_outages_need_the_share;
use crate::uptime::gate::lemma_no_page_during_a_mass_outage;
use crate::uptime::gate::lemma_the_rest_goes_out_when_it_is_over;
use crate::uptime::gate::unheld;
use crate::uptime::history::ago;
use crate::uptime::history::flips;
use crate::uptime::history::lemma_prune_drops_only_the_old;
use crate::uptime::history::lemma_shares_count_the_checks;
use crate::uptime::history::lemma_since_keeps_what_is_not_older;
use crate::uptime::history::lemma_streak_is_the_last_run;
use crate::uptime::history::mean_latency;
use crate::uptime::history::outage_from;
use crate::uptime::history::pruned;
use crate::uptime::history::share_of;
use crate::uptime::history::since;
use crate::uptime::history::streak_start;
use crate::uptime::history::MAX_EVENTS;
use crate::uptime::monitor::all_events;
use crate::uptime::monitor::app_events;
use crate::uptime::monitor::beats_of;
use crate::uptime::monitor::change_of;
use crate::uptime::monitor::clocks_after;
use crate::uptime::monitor::count_monitored;
use crate::uptime::monitor::decides;
use crate::uptime::monitor::deserved;
use crate::uptime::monitor::dispatches;
use crate::uptime::monitor::down_names;
use crate::uptime::monitor::is_down;
use crate::uptime::monitor::late_alerts;
use crate::uptime::monitor::loaded;
use crate::uptime::monitor::monitored_index;
use crate::uptime::monitor::recorded;
use crate::uptime::monitor::released;
use crate::uptime::monitor::sent_of;
use crate::uptime::monitor::summarizes;
use crate::uptime::monitor::value_of;
use crate::uptime::monitor::with_beat;
use crate::uptime::monitor::AppEvent;
use crate::uptime::monitor::Dispatch;
use crate::uptime::monitor::MAX_DETAIL_POINTS;
use crate::uptime::monitor::MAX_INCIDENTS;
use crate::uptime::monitor::MONTH_SECS;
use crate::uptime::monitor::MonitorSummary;
use crate::uptime::monitor::MonitorView;
use crate::uptime::monitor::RECENT_BEATS;
use crate::uptime::monitor::Recorded;

verus! {

/// An app is watched exactly when it has a health URL and isn't paused.
pub proof fn lemma_paused_apps_are_not_watched(app: AppView)
    ensures
        app.paused || app.health_url is None <==> !monitored(app),
{
}

/// A stored heartbeat is the app's latest; nothing that is within retention goes, and no other
/// app's history changes.
pub proof fn lemma_stored_beats_are_the_latest(
    m: MonitorView,
    slug: Seq<char>,
    beat: Heartbeat,
    now: u64,
)
    requires
        beat.at + m.policy.retention >= now,
    ensures
        ({
            let after = with_beat(m, slug, beat, now);
            let old = beats_of(m.histories, slug);
            let new = beats_of(after.histories, slug);
            &&& new.len() > 0 && new.last() == beat
            &&& new.len() <= old.len() + 1
            &&& forall|i: int|
                0 <= i < new.len() - 1 ==> #[trigger] new[i] == old[old.len() + 1 - new.len() + i]
            &&& forall|i: int|
                0 <= i < old.len() + 1 - new.len() ==> (#[trigger] old[i]).at + m.policy.retention
                    < now
            &&& forall|other: Seq<char>|
                other != slug ==> #[trigger] beats_of(after.histories, other) == beats_of(
                    m.histories,
                    other,
                )
            &&& after.certs == m.certs && after.reminded == m.reminded && after.holding == m.holding
            &&& after.in_outage == m.in_outage && after.policy == m.policy
        }),
{
    let old = beats_of(m.histories, slug);
    let grown = old.push(beat);
    let cutoff = ago(now, m.policy.retention);
    let new = pruned(grown, cutoff);
    lemma_prune_drops_only_the_old(grown, cutoff);
    let gone = grown.len() - new.len();
    assert(new == grown.skip(gone));
    if new.len() == 0 {
        assert(grown[old.len() as int].at < cutoff);
    }
    assert forall|i: int| 0 <= i < gone implies (#[trigger] old[i]).at + m.policy.retention < now by {
        assert(grown[i] == old[i]);
    }
    assert forall|i: int| 0 <= i < new.len() - 1 implies #[trigger] new[i] == old[old.len() + 1
        - new.len() + i] by {
        assert(new[i] == grown[gone + i]);
    }
}

/// A check is recorded against the one before it, and knows the outage that it continues, ends
/// or starts: since the first of the down checks in a row.
pub proof fn lemma_checks_know_their_outage(before: Seq<Heartbeat>, beat: Heartbeat)
    ensures
        ({
            let was = recorded(before, beat);
            let down = before.len() > 0 && before.last().status == Status::Down;
            &&& was.previous is None <==> before.len() == 0
            &&& before.len() > 0 ==> was.previous == Some(before.last().status)
            &&& was.down_since is Some <==> down || beat.status == Status::Down
            &&& down ==> exists|k: int| #[trigger]
                outage_from(before, k) && was.down_since == Some(before[k].at)
            &&& !down && beat.status == Status::Down ==> was.down_since == Some(beat.at)
        }),
{
    lemma_streak_is_the_last_run(before);
}

/// What is alerted about: a change to down or from down, any other change only where degraded
/// counts, and an app that stays down once the interval since the last alert has passed. The
/// alert tells the status before. An app's clock is left alone by other apps' checks; it starts
/// at the first check that finds the app still down without one.
pub proof fn lemma_what_is_alerted_about(
    on_degraded: bool,
    remind_after: Option<u64>,
    reminded: Map<Seq<char>, u64>,
    slug: Seq<char>,
    previous: Option<Status>,
    beat: Heartbeat,
)
    ensures
        ({
            let (from, clocks) = deserved(on_degraded, remind_after, reminded, slug, previous, beat);
            let was_down = previous == Some(Status::Down);
            let down = beat.status == Status::Down;
            &&& from is Some ==> from == previous
            &&& previous is Some && was_down != down ==> from is Some
            &&& previous is Some && !was_down && !down ==> (from is Some <==> on_degraded
                && previous != Some(beat.status))
            &&& was_down && down && remind_after is None ==> from is None
            &&& was_down && down && remind_after is Some && reminded.contains_key(slug) ==> (
            from is Some <==> beat.at >= reminded[slug] + remind_after->0 || remind_after->0 == 0)
            &&& was_down && down && remind_after is Some && !reminded.contains_key(slug) ==> (
            from is Some <==> remind_after->0 == 0) && value_of(clocks, slug) == Some(beat.at)
            &&& !down ==> value_of(clocks, slug) is None
            &&& down && reminded.contains_key(slug) ==> value_of(clocks, slug) == Some(
                reminded[slug],
            )
            &&& forall|other: Seq<char>|
                other != slug ==> #[trigger] value_of(clocks, other) == value_of(reminded, other)
        }),
{
}

/// An alert is about the app that was checked: its name, both statuses, the check, the start of
/// the outage, and the app's own destinations.
pub proof fn lemma_alerts_are_about_their_app(
    before: MonitorView,
    after: MonitorView,
    on_degraded: bool,
    remind_after: Option<u64>,
    app: RegisteredApp,
    was: Recorded,
    beat: Heartbeat,
    told: Option<StatusChange>,
)
    requires
        decides(before, after, on_degraded, remind_after, app, was, beat, told),
        told is Some,
    ensures
        told->0.slug == app.slug,
        told->0.name == app.name,
        Some(told->0.from) == was.previous,
        told->0.to == beat.status,
        told->0.beat == beat,
        told->0.down_since == was.down_since,
        told->0.route.webhooks@ == app.alert_webhooks@,
        told->0.route.mentions@ == app.alert_mentions@,
        after.histories == before.histories,
        after.holding == before.holding,
{
}

/// A sent alert that an app is down sets its clock, and nothing else does: the clock stands at
/// the last of them.
pub proof fn lemma_clocks_follow_what_is_sent(
    reminded: Map<Seq<char>, u64>,
    sent: Seq<StatusChange>,
    slug: Seq<char>,
)
    ensures
        (forall|j: int|
            0 <= j < sent.len() && (#[trigger] sent[j]).slug@ == slug ==> sent[j].to
                != Status::Down) ==> value_of(clocks_after(reminded, sent), slug) == value_of(
            reminded,
            slug,
        ),
        forall|k: int|
            0 <= k < sent.len() && (#[trigger] sent[k]).slug@ == slug && sent[k].to == Status::Down
                && (forall|j: int|
                k < j < sent.len() && (#[trigger] sent[j]).slug@ == slug ==> sent[j].to
                    != Status::Down) ==> value_of(clocks_after(reminded, sent), slug) == Some(
                sent[k].beat.at,
            ),
    decreases sent.len(),
{
    if sent.len() > 0 {
        let front = sent.drop_last();
        lemma_clocks_follow_what_is_sent(reminded, front, slug);
        let last = sent.len() - 1;
        if forall|j: int|
            0 <= j < sent.len() && (#[trigger] sent[j]).slug@ == slug ==> sent[j].to
                != Status::Down {
            assert forall|j: int| 0 <= j < front.len() && (#[trigger] front[j]).slug@
                == slug implies front[j].to != Status::Down by {
                assert(front[j] == sent[j]);
            }
            assert(sent[last] == sent.last());
        }
        assert forall|k: int|
            0 <= k < sent.len() && (#[trigger] sent[k]).slug@ == slug && sent[k].to == Status::Down
                && (forall|j: int|
                k < j < sent.len() && (#[trigger] sent[j]).slug@ == slug ==> sent[j].to
                    != Status::Down) implies value_of(clocks_after(reminded, sent), slug) == Some(
            sent[k].beat.at,
        ) by {
            if k < last {
                assert(front[k] == sent[k]);
                assert forall|j: int| k < j < front.len() && (#[trigger] front[j]).slug@
                    == slug implies front[j].to != Status::Down by {
                    assert(front[j] == sent[j]);
                }
                assert(sent[last].slug@ == slug ==> sent[last].to != Status::Down);
            }
        }
    }
}

/// The apps that count for a mass outage are the watched ones.
pub proof fn lemma_watched_apps_are_counted(apps: Seq<AppView>)
    ensures
        count_monitored(apps) == apps.filter(
            |a: AppView| !a.paused && a.health_url is Some,
        ).len(),
    decreases apps.len(),
{
    reveal(Seq::filter);
    if apps.len() > 0 {
        lemma_watched_apps_are_counted(apps.drop_last());
    }
}

/// The apps that count as down are the watched ones whose latest check is down, each once.
pub proof fn lemma_down_apps_are_counted_once(
    apps: Seq<AppView>,
    m: Map<Seq<char>, Seq<Heartbeat>>,
)
    ensures
        down_names(apps, m).no_duplicates(),
        forall|slug: Seq<char>| #[trigger]
            down_names(apps, m).contains(slug) <==> beats_of(m, slug).len() > 0 && beats_of(
                m,
                slug,
            ).last().status == Status::Down && exists|i: int|
                0 <= i < apps.len() && (#[trigger] apps[i]).slug == slug && !apps[i].paused
                    && apps[i].health_url is Some,
    decreases apps.len(),
{
    if apps.len() > 0 {
        let front = apps.drop_last();
        let last = apps.last();
        lemma_down_apps_are_counted_once(front, m);
        let before = down_names(front, m);
        let all = down_names(apps, m);
        assert forall|slug: Seq<char>| #[trigger]
            all.contains(slug) <==> beats_of(m, slug).len() > 0 && beats_of(
                m,
                slug,
            ).last().status == Status::Down && exists|i: int|
                0 <= i < apps.len() && (#[trigger] apps[i]).slug == slug && !apps[i].paused
                    && apps[i].health_url is Some by {
            assert(before.contains(slug) <==> is_down(m, slug) && exists|i: int|
                0 <= i < front.len() && (#[trigger] front[i]).slug == slug && !front[i].paused
                    && front[i].health_url is Some);
            if exists|i: int|
                0 <= i < front.len() && (#[trigger] front[i]).slug == slug && !front[i].paused
                    && front[i].health_url is Some {
                let i = choose|i: int|
                    0 <= i < front.len() && (#[trigger] front[i]).slug == slug && !front[i].paused
                        && front[i].health_url is Some;
                assert(apps[i].slug == slug);
            }
            if exists|i: int|
                0 <= i < apps.len() && (#[trigger] apps[i]).slug == slug && !apps[i].paused
                    && apps[i].health_url is Some {
                let i = choose|i: int|
                    0 <= i < apps.len() && (#[trigger] apps[i]).slug == slug && !apps[i].paused
                        && apps[i].health_url is Some;
                if i < front.len() {
                    assert(front[i].slug == slug);
                }
            }
            assert(apps[apps.len() - 1] == last);
            if before.contains(slug) {
                let k = choose|k: int| 0 <= k < before.len() && before[k] == slug;
                assert(all[k] == slug);
            }
            if all.contains(slug) && !before.contains(slug) {
                let k = choose|k: int| 0 <= k < all.len() && all[k] == slug;
                assert(k == before.len());
            }
            if all.len() > before.len() {
                assert(all[before.len() as int] == last.slug);
            }
        }
        assert(all.no_duplicates()) by {
            if all.len() > before.len() {
                assert forall|i: int, j: int|
                    0 <= i < all.len() && 0 <= j < all.len() && i != j implies all[i] != all[j] by {
                    if i < before.len() && j < before.len() {
                        assert(before[i] != before[j]);
                    } else if i < before.len() {
                        assert(before.contains(before[i]));
                    } else {
                        assert(before.contains(before[j]));
                    }
                }
            }
        }
    }
}

/// The first watched app with a slug, if there is one.
pub proof fn lemma_watched_apps_are_found(apps: Seq<AppView>, slug: Seq<char>)
    ensures
        match monitored_index(apps, slug) {
            Some(i) => 0 <= i < apps.len() && apps[i].slug == slug && !apps[i].paused
                && apps[i].health_url is Some && forall|j: int|
                0 <= j < i && (#[trigger] apps[j]).slug == slug ==> apps[j].paused
                    || apps[j].health_url is None,
            None => forall|j: int|
                0 <= j < apps.len() && (#[trigger] apps[j]).slug == slug ==> apps[j].paused
                    || apps[j].health_url is None,
        },
    decreases apps.len(),
{
    if apps.len() > 0 && !(monitored(apps[0]) && apps[0].slug == slug) {
        let rest = apps.skip(1);
        lemma_watched_apps_are_found(rest, slug);
        let n: int = match monitored_index(apps, slug) {
            Some(i) => i,
            None => apps.len() as int,
        };
        assert forall|j: int| 0 <= j < n && (#[trigger] apps[j]).slug == slug implies apps[j].paused
            || apps[j].health_url is None by {
            if j > 0 {
                assert(rest[j - 1] == apps[j]);
            }
        }
        if let Some(i) = monitored_index(apps, slug) {
            assert(rest[i - 1] == apps[i]);
        }
    }
}

/// When a mass outage is over, the apps whose alert was held, that are still watched and whose
/// latest check is down, get it after all: each once, as an alert that it went down, since the
/// start of its outage. No other app does.
pub proof fn lemma_held_apps_still_down_are_alerted(
    late: Seq<StatusChange>,
    names: Seq<Seq<char>>,
    apps: Seq<RegisteredApp>,
    m: Map<Seq<char>, Seq<Heartbeat>>,
)
    requires
        late_alerts(late, released(names, app_views(apps), m), apps, m),
        names.no_duplicates(),
    ensures
        forall|k: int|
            0 <= k < late.len() ==> {
                let c = #[trigger] late[k];
                let beats = beats_of(m, c.slug@);
                &&& names.contains(c.slug@)
                &&& c.to == Status::Down && c.from == Status::Up
                &&& beats.len() > 0 && beats.last().status == Status::Down
                &&& c.beat == beats.last()
                &&& exists|s: int| #[trigger] outage_from(beats, s) && c.down_since == Some(
                    beats[s].at,
                )
            },
        forall|i: int|
            0 <= i < names.len() && monitored_index(app_views(apps), #[trigger] names[i]) is Some
                && beats_of(m, names[i]).len() > 0 && beats_of(m, names[i]).last().status
                == Status::Down ==> exists|k: int|
                0 <= k < late.len() && (#[trigger] late[k]).slug@ == names[i],
        forall|k: int, l: int|
            0 <= k < l < late.len() ==> (#[trigger] late[k]).slug@ != (#[trigger] late[l]).slug@,
{
    let seen = app_views(apps);
    let at = released(names, seen, m);
    lemma_released(names, seen, m);
    assert forall|k: int| 0 <= k < late.len() implies {
        let c = #[trigger] late[k];
        let beats = beats_of(m, c.slug@);
        &&& names.contains(c.slug@)
        &&& c.to == Status::Down && c.from == Status::Up
        &&& beats.len() > 0 && beats.last().status == Status::Down
        &&& c.beat == beats.last()
        &&& exists|s: int| #[trigger] outage_from(beats, s) && c.down_since == Some(beats[s].at)
    } by {
        assert(seen[at[k]].slug == apps[at[k]].slug@);
        lemma_streak_is_the_last_run(beats_of(m, apps[at[k]].slug@));
    }
    assert forall|i: int|
        0 <= i < names.len() && monitored_index(seen, #[trigger] names[i]) is Some && beats_of(
            m,
            names[i],
        ).len() > 0 && beats_of(m, names[i]).last().status == Status::Down implies exists|k: int|
        0 <= k < late.len() && (#[trigger] late[k]).slug@ == names[i] by {
        let k = choose|k: int| 0 <= k < at.len() && seen[#[trigger] at[k]].slug == names[i];
        assert(seen[at[k]].slug == apps[at[k]].slug@);
        assert(late[k].slug@ == names[i]);
    }
    assert forall|k: int, l: int| 0 <= k < l < late.len() implies (#[trigger] late[k]).slug@ != (
    #[trigger] late[l]).slug@ by {
        assert(seen[at[k]].slug == apps[at[k]].slug@);
        assert(seen[at[l]].slug == apps[at[l]].slug@);
    }
}

proof fn lemma_released(
    names: Seq<Seq<char>>,
    apps: Seq<AppView>,
    m: Map<Seq<char>, Seq<Heartbeat>>,
)
    requires
        names.no_duplicates(),
    ensures
        ({
            let at = released(names, apps, m);
            &&& forall|k: int|
                0 <= k < at.len() ==> 0 <= #[trigger] at[k] < apps.len() && names.contains(
                    apps[at[k]].slug,
                ) && is_down(m, apps[at[k]].slug)
            &&& forall|k: int, l: int|
                0 <= k < l < at.len() ==> apps[#[trigger] at[k]].slug != apps[
                #[trigger] at[l]].slug
            &&& forall|i: int|
                0 <= i < names.len() && monitored_index(apps, #[trigger] names[i]) is Some
                    && is_down(m, names[i]) ==> exists|k: int|
                    0 <= k < at.len() && apps[#[trigger] at[k]].slug == names[i]
        }),
    decreases names.len(),
{
    if names.len() > 0 {
        let front = names.drop_last();
        let last = names.last();
        lemma_released(front, apps, m);
        lemma_watched_apps_are_found(apps, last);
        let before = released(front, apps, m);
        let at = released(names, apps, m);
        assert(!front.contains(last)) by {
            if front.contains(last) {
                let i = choose|i: int| 0 <= i < front.len() && front[i] == last;
                assert(names[i] == names[names.len() - 1]);
            }
        }
        assert(names[names.len() - 1] == last);
        assert forall|k: int| 0 <= k < at.len() implies 0 <= #[trigger] at[k] < apps.len()
            && names.contains(apps[at[k]].slug) && is_down(m, apps[at[k]].slug) by {
            if k < before.len() {
                assert(at[k] == before[k]);
                let i = choose|i: int| 0 <= i < front.len() && front[i] == apps[before[k]].slug;
                assert(names[i] == apps[at[k]].slug);
            }
        }
        assert forall|k: int, l: int| 0 <= k < l < at.len() implies apps[#[trigger] at[k]].slug
            != apps[#[trigger] at[l]].slug by {
            assert(at[k] == before[k]);
            assert(front.contains(apps[before[k]].slug));
            if l < before.len() {
                assert(at[l] == before[l]);
            }
        }
        assert forall|i: int|
            0 <= i < names.len() && monitored_index(apps, #[trigger] names[i]) is Some && is_down(
                m,
                names[i],
            ) implies exists|k: int|
            0 <= k < at.len() && apps[#[trigger] at[k]].slug == names[i] by {
            if i < front.len() {
                assert(front[i] == names[i]);
                let k = choose|k: int|
                    0 <= k < before.len() && apps[#[trigger] before[k]].slug == front[i];
                assert(at[k] == before[k]);
            } else {
                let k = at.len() - 1;
                assert(apps[at[k]].slug == names[i]);
            }
        }
    }
}

/// Of a round's changes: outside a mass outage all go out as they are, without a notice; while
/// one is on nobody is paged, and only its first round brings the notice; the round that ends it
/// brings the other notice, and what it says of apps that were not held.
pub proof fn lemma_rounds_send_what_they_should(
    before: MonitorView,
    after: MonitorView,
    changes: Seq<StatusChange>,
    apps: Seq<RegisteredApp>,
    r: Dispatch,
)
    requires
        dispatches(before, after, changes, apps, r),
    ensures
        ({
            let down = down_names(app_views(apps), before.histories).len();
            let total = app_views(apps).filter(
                |a: AppView| !a.paused && a.health_url is Some,
            ).len();
            &&& after.in_outage <==> before.policy.mass_down_pct > 0 && down >= 3 && 100 * down
                >= before.policy.mass_down_pct * total
            &&& after.histories == before.histories && after.certs == before.certs
            &&& !before.in_outage && !after.in_outage ==> r.deliver@ == changes && r.outage is None
                && after.holding == before.holding
            &&& !before.in_outage && after.in_outage ==> r.outage == Some(
                MassOutage::Started { down: down as usize, total: total as usize },
            )
            &&& before.in_outage && after.in_outage ==> r.outage is None
            &&& before.in_outage && !after.in_outage ==> r.outage == Some(
                MassOutage::Ended { total: total as usize },
            ) && after.holding == Set::<Seq<char>>::empty()
            &&& after.in_outage ==> forall|i: int|
                0 <= i < r.deliver@.len() ==> (#[trigger] r.deliver@[i]).to != Status::Down
            &&& before.in_outage && !after.in_outage ==> {
                let through = changes.filter(
                    |c: StatusChange| !before.holding.contains(c.slug@),
                );
                &&& r.deliver@.len() >= through.len()
                &&& r.deliver@.take(through.len() as int) == through
            }
            &&& forall|slug: Seq<char>|
                (forall|j: int| 0 <= j < r.deliver@.len() ==> (#[trigger] r.deliver@[j]).slug@
                    != slug) ==> #[trigger] value_of(after.reminded, slug) == value_of(
                    before.reminded,
                    slug,
                )
        }),
{
    let down = down_names(app_views(apps), before.histories).len();
    let total = count_monitored(app_views(apps));
    lemma_watched_apps_are_counted(app_views(apps));
    lemma_mass_outages_need_the_share(down, total, before.policy.mass_down_pct as nat);
    lemma_no_page_during_a_mass_outage(before.holding, changes);
    lemma_the_rest_goes_out_when_it_is_over(before.holding, changes);
    assert forall|slug: Seq<char>|
        (forall|j: int| 0 <= j < r.deliver@.len() ==> (#[trigger] r.deliver@[j]).slug@
            != slug) implies #[trigger] value_of(after.reminded, slug) == value_of(
        before.reminded,
        slug,
    ) by {
        lemma_clocks_follow_what_is_sent(before.reminded, r.deliver@, slug);
    }
}

/// The histories on disk are all taken over, each without what is past the cutoff at its front.
pub proof fn lemma_files_are_all_loaded(files: Seq<(String, Vec<Heartbeat>)>, cutoff: u64)
    requires
        forall|i: int, j: int|
            0 <= i < j < files.len() ==> (#[trigger] files[i]).0@ != (#[trigger] files[j]).0@,
    ensures
        forall|slug: Seq<char>| #[trigger]
            loaded(files, cutoff).contains_key(slug) <==> exists|i: int|
                0 <= i < files.len() && (#[trigger] files[i]).0@ == slug,
        forall|i: int|
            0 <= i < files.len() ==> loaded(files, cutoff)[(#[trigger] files[i]).0@] == pruned(
                files[i].1@,
                cutoff,
            ),
    decreases files.len(),
{
    if files.len() > 0 {
        let front = files.drop_last();
        assert forall|i: int, j: int| 0 <= i < j < front.len() implies (#[trigger] front[i]).0@ != (
        #[trigger] front[j]).0@ by {
            assert(front[i] == files[i] && front[j] == files[j]);
        }
        lemma_files_are_all_loaded(front, cutoff);
        assert forall|slug: Seq<char>| #[trigger]
            loaded(files, cutoff).contains_key(slug) <==> exists|i: int|
                0 <= i < files.len() && (#[trigger] files[i]).0@ == slug by {
            let before = loaded(front, cutoff);
            assert(before.contains_key(slug) || !before.contains_key(slug));
            if exists|i: int| 0 <= i < front.len() && (#[trigger] front[i]).0@ == slug {
                let i = choose|i: int| 0 <= i < front.len() && (#[trigger] front[i]).0@ == slug;
                assert(files[i].0@ == slug);
            }
            if exists|i: int| 0 <= i < files.len() && (#[trigger] files[i]).0@ == slug {
                let i = choose|i: int| 0 <= i < files.len() && (#[trigger] files[i]).0@ == slug;
                if i < front.len() {
                    assert(front[i].0@ == slug);
                }
            }
            assert(files[files.len() - 1].0@ == files.last().0@);
        }
        assert forall|i: int| 0 <= i < files.len() implies loaded(
            files,
            cutoff,
        )[(#[trigger] files[i]).0@] == pruned(files[i].1@, cutoff) by {
            if i < front.len() {
                assert(front[i] == files[i]);
                assert(files[i].0@ != files[files.len() - 1].0@);
            }
        }
    }
}

/// A summary shows the app as it is set up and as its latest check left it; its numbers cover
/// the last day and the last thirty days, and its strip the last hundred checks.
pub proof fn lemma_summaries_show_the_latest(
    s: MonitorSummary,
    app: RegisteredApp,
    beats: Seq<Heartbeat>,
    cert: Option<u64>,
    now: u64,
)
    requires
        summarizes(s, app, beats, cert, now),
        now >= 30 * 86_400,
        beats.len() <= u64::MAX,
    ensures
        s.slug == app.slug && s.name == app.name && s.health_url == app.health_url,
        s.has_logs <==> app.logs_url is Some,
        s.paused == app.paused && s.paused_at == app.paused_at && s.paused_until
            == app.paused_until,
        s.status is None <==> beats.len() == 0,
        beats.len() > 0 ==> s.status == Some(beats[beats.len() - 1].status) && s.latency_ms
            == beats[beats.len() - 1].latency_ms,
        s.cert_expires_at == cert,
        s.avg_latency_24h_ms == mean_latency(
            beats.filter(|h: Heartbeat| h.at + 86_400 >= now),
        ),
        s.uptime_24h == share_of(beats.filter(|h: Heartbeat| h.at + 86_400 >= now)),
        s.uptime_30d == share_of(beats.filter(|h: Heartbeat| h.at + 30 * 86_400 >= now)),
        s.recent@.len() == if beats.len() < 100 {
            beats.len()
        } else {
            100
        },
        forall|i: int|
            0 <= i < s.recent@.len() ==> #[trigger] s.recent@[i] == beats[beats.len()
                - s.recent@.len() + i],
{
    lemma_since_keeps_what_is_not_older(beats, ago(now, 86_400));
    lemma_since_keeps_what_is_not_older(beats, ago(now, 2_592_000));
    let day = ago(now, 86_400);
    let month = ago(now, 2_592_000);
    assert(beats.filter(|h: Heartbeat| h.at >= day) == beats.filter(
        |h: Heartbeat| h.at + 86_400 >= now,
    )) by {
        lemma_filters_agree(
            beats,
            |h: Heartbeat| h.at >= day,
            |h: Heartbeat| h.at + 86_400 >= now,
        );
    }
    assert(beats.filter(|h: Heartbeat| h.at >= month) == beats.filter(
        |h: Heartbeat| h.at + 30 * 86_400 >= now,
    )) by {
        lemma_filters_agree(
            beats,
            |h: Heartbeat| h.at >= month,
            |h: Heartbeat| h.at + 30 * 86_400 >= now,
        );
    }
}

proof fn lemma_filters_agree(
    b: Seq<Heartbeat>,
    p: spec_fn(Heartbeat) -> bool,
    q: spec_fn(Heartbeat) -> bool,
)
    requires
        forall|h: Heartbeat| #[trigger] p(h) == q(h),
    ensures
        b.filter(p) == b.filter(q),
    decreases b.len(),
{
    reveal(Seq::filter);
    if b.len() > 0 {
        lemma_filters_agree(b.drop_last(), p, q);
    }
}

/// The overview's events are those of its apps: each event of an app is among them, under the
/// app's name, and no other.
pub proof fn lemma_every_apps_events_are_shown(
    apps: Seq<RegisteredApp>,
    m: Map<Seq<char>, Seq<Heartbeat>>,
    event: AppEvent,
)
    ensures
        all_events(apps, m).contains(event) <==> exists|i: int|
            0 <= i < apps.len() && app_events(
                #[trigger] apps[i],
                beats_of(m, apps[i].slug@),
            ).contains(event),
        forall|app: RegisteredApp, beats: Seq<Heartbeat>| #[trigger]
            app_events(app, beats).contains(event) ==> event.slug == app.slug && event.name
                == app.name,
    decreases apps.len(),
{
    if apps.len() > 0 {
        let front = apps.drop_last();
        lemma_every_apps_events_are_shown(front, m, event);
        let before = all_events(front, m);
        let fresh = app_events(apps.last(), beats_of(m, apps.last().slug@));
        let all = before + fresh;
        if before.contains(event) {
            let k = choose|k: int| 0 <= k < before.len() && before[k] == event;
            assert(all[k] == event);
            let i = choose|i: int|
                0 <= i < front.len() && app_events(
                    #[trigger] front[i],
                    beats_of(m, front[i].slug@),
                ).contains(event);
            assert(apps[i] == front[i]);
        }
        if fresh.contains(event) {
            let k = choose|k: int| 0 <= k < fresh.len() && fresh[k] == event;
            assert(all[before.len() + k] == event);
            assert(apps[apps.len() - 1] == apps.last());
        }
        if all.contains(event) {
            let k = choose|k: int| 0 <= k < all.len() && all[k] == event;
            if k < before.len() {
                assert(before[k] == event);
            } else {
                assert(fresh[k - before.len()] == event);
            }
        }
        if exists|i: int|
            0 <= i < apps.len() && app_events(
                #[trigger] apps[i],
                beats_of(m, apps[i].slug@),
            ).contains(event) {
            let i = choose|i: int|
                0 <= i < apps.len() && app_events(
                    #[trigger] apps[i],
                    beats_of(m, apps[i].slug@),
                ).contains(event);
            if i < front.len() {
                assert(front[i] == apps[i]);
            }
        }
    }
    assert forall|app: RegisteredApp, beats: Seq<Heartbeat>| #[trigger]
        app_events(app, beats).contains(event) implies event.slug == app.slug && event.name
        == app.name by {
        let all = app_events(app, beats);
        let k = choose|k: int| 0 <= k < all.len() && all[k] == event;
    }
}

/// An app's events are its status changes, the newest first and no more than thirty.
pub proof fn lemma_app_events_are_the_newest(app: RegisteredApp, beats: Seq<Heartbeat>)
    ensures
        app_events(app, beats).len() == if flips(beats).len() < 30 {
            flips(beats).len()
        } else {
            30
        },
        forall|k: int|
            0 <= k < app_events(app, beats).len() ==> (#[trigger] app_events(app, beats)[k]).beat
                == flips(beats)[flips(beats).len() - 1 - k],
{
}

/// How much the monitor shows: a hundred recent checks, thirty changes, fifty incidents and six
/// hundred points, over months of thirty days.
pub proof fn lemma_how_much_is_shown()
    ensures
        DAY_SECS == 24 * 3600,
        MONTH_SECS == 30 * 24 * 3600,
        RECENT_BEATS == 100,
        MAX_EVENTS == 30,
        MAX_INCIDENTS == 50,
        MAX_DETAIL_POINTS == 600,
{
}

} // verus!
