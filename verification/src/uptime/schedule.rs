//! When each app is checked: every app on its own interval (the global one unless it sets its
//! own), a dead man's switch ping once per global interval, and a compaction once an hour.

use vstd::prelude::*;

use crate::registry::monitored;
use crate::registry::RegisteredApp;
use crate::table::Table;
use crate::text::same;
use crate::uptime::probe::own_secs;
use crate::uptime::probe::CheckPolicy;

verus! {

/// Seconds between two looks for apps that are due: the finest per-app interval granularity.
pub const SCHEDULER_TICK: u64 = 5;

/// Milliseconds between two compactions.
pub const COMPACT_EVERY: u64 = 3_600_000;

/// Seconds between two looks, for a global interval: never longer than the interval itself.
pub fn tick_secs(interval: u64) -> (r: u64)
    ensures
        r == if interval < SCHEDULER_TICK {
            interval
        } else {
            SCHEDULER_TICK
        },
{
    if interval < SCHEDULER_TICK {
        interval
    } else {
        SCHEDULER_TICK
    }
}

/// When the monitor does what it does. Times are milliseconds since the monitor started.
#[derive(Debug)]
pub struct Scheduler {
    next_due: Table<u128>,
    last_ping: Option<u64>,
    last_compact: u64,
}

/// What a scheduler remembers.
#[verifier::ext_equal]
pub struct ScheduleView {
    pub next_due: Map<Seq<char>, u128>,
    pub last_ping: Option<u64>,
    pub last_compact: u64,
}

impl View for Scheduler {
    type V = ScheduleView;

    closed spec fn view(&self) -> ScheduleView {
        ScheduleView {
            next_due: self.next_due@,
            last_ping: self.last_ping,
            last_compact: self.last_compact,
        }
    }
}

/// Whether an app's next check is due.
pub open spec fn due_at(next: Map<Seq<char>, u128>, slug: Seq<char>, now: u64) -> bool {
    !next.contains_key(slug) || next[slug] <= now
}

/// The apps that are due, as indices.
pub open spec fn due_of(apps: Seq<RegisteredApp>, next: Map<Seq<char>, u128>, now: u64) -> Seq<int>
    decreases apps.len(),
{
    if apps.len() == 0 {
        Seq::empty()
    } else {
        let before = due_of(apps.drop_last(), next, now);
        if monitored(apps.last()@) && due_at(next, apps.last().slug@, now) {
            before.push(apps.len() - 1)
        } else {
            before
        }
    }
}

/// Whether one of the apps has a slug.
pub open spec fn registered(apps: Seq<RegisteredApp>, slug: Seq<char>) -> bool {
    exists|i: int| 0 <= i < apps.len() && (#[trigger] apps[i]).slug@ == slug
}

/// The schedule without the apps that are gone.
pub open spec fn still_registered(
    apps: Seq<RegisteredApp>,
    next: Map<Seq<char>, u128>,
) -> Map<Seq<char>, u128> {
    Map::new(
        |slug: Seq<char>| next.contains_key(slug) && registered(apps, slug),
        |slug: Seq<char>| next[slug],
    )
}

/// When an app that is checked at `now` is due again.
pub open spec fn next_check(app: RegisteredApp, policy: CheckPolicy, now: u64) -> u128 {
    (now + own_secs(app.interval_secs, policy.interval) * 1000) as u128
}

/// The schedule once the apps at `due` are checked.
pub open spec fn rescheduled(
    apps: Seq<RegisteredApp>,
    due: Seq<int>,
    next: Map<Seq<char>, u128>,
    policy: CheckPolicy,
    now: u64,
) -> Map<Seq<char>, u128>
    decreases due.len(),
{
    if due.len() == 0 {
        next
    } else {
        let app = apps[due.last()];
        rescheduled(apps, due.drop_last(), next, policy, now).insert(
            app.slug@,
            next_check(app, policy, now),
        )
    }
}

pub open spec fn indices(v: Seq<usize>) -> Seq<int> {
    v.map_values(|i: usize| i as int)
}

impl Scheduler {
    /// Every name stands once.
    pub closed spec fn wf(&self) -> bool {
        self.next_due.wf()
    }

    /// A scheduler that starts at time 0: every app is due, and so is a ping.
    pub fn new() -> (r: Self)
        ensures
            r.wf(),
            r@ == (ScheduleView { next_due: Map::empty(), last_ping: None, last_compact: 0 }),
    {
        Scheduler { next_due: Table::new(), last_ping: None, last_compact: 0 }
    }

    fn is_registered(apps: &Vec<RegisteredApp>, slug: &str) -> (r: bool)
        ensures
            r == registered(apps@, slug@),
    {
        let mut i: usize = 0;
        while i < apps.len()
            invariant
                i <= apps@.len(),
                forall|j: int| 0 <= j < i ==> (#[trigger] apps@[j]).slug@ != slug@,
            decreases apps@.len() - i,
        {
            if same(apps[i].slug.as_str(), slug) {
                return true;
            }
            i += 1;
        }
        false
    }

    /// Forgets the apps that are gone.
    fn forget_unregistered(&mut self, apps: &Vec<RegisteredApp>)
        requires
            old(self).wf(),
        ensures
            final(self).wf(),
            final(self)@ == (ScheduleView {
                next_due: still_registered(apps@, old(self)@.next_due),
                ..old(self)@
            }),
    {
        let ghost start = self.next_due@;
        let mut rest: Table<u128> = Table::new();
        std::mem::swap(&mut rest, &mut self.next_due);
        let mut kept: Table<u128> = Table::new();
        loop
            invariant
                rest.wf(),
                kept.wf(),
                forall|k: Seq<char>| #[trigger]
                    rest@.contains_key(k) ==> start.contains_key(k) && rest@[k] == start[k],
                forall|k: Seq<char>| #[trigger]
                    kept@.contains_key(k) == (start.contains_key(k) && registered(apps@, k)
                        && !rest@.contains_key(k)),
                forall|k: Seq<char>| #[trigger] kept@.contains_key(k) ==> kept@[k] == start[k],
            ensures
                kept.wf(),
                rest@ == Map::<Seq<char>, u128>::empty(),
                forall|k: Seq<char>| #[trigger]
                    kept@.contains_key(k) == (start.contains_key(k) && registered(apps@, k)
                        && !rest@.contains_key(k)),
                forall|k: Seq<char>| #[trigger] kept@.contains_key(k) ==> kept@[k] == start[k],
            decreases rest.names().len(),
        {
            match rest.pop() {
                None => {
                    break ;
                },
                Some((name, at)) => {
                    if Scheduler::is_registered(apps, name.as_str()) {
                        kept.insert(name.as_str(), at);
                    }
                },
            }
        }
        self.next_due = kept;
        proof {
            assert(self@.next_due =~= still_registered(apps@, start));
        }
    }

    /// The apps to check now, as indices into `apps`; each is then due again after its
    /// interval.
    pub fn due(&mut self, apps: &Vec<RegisteredApp>, policy: &CheckPolicy, now: u64) -> (r: Vec<
        usize,
    >)
        requires
            old(self).wf(),
        ensures
            final(self).wf(),
            indices(r@) == due_of(apps@, still_registered(apps@, old(self)@.next_due), now),
            forall|k: int| 0 <= k < r@.len() ==> #[trigger] r@[k] < apps@.len(),
            final(self)@ == (ScheduleView {
                next_due: rescheduled(
                    apps@,
                    indices(r@),
                    still_registered(apps@, old(self)@.next_due),
                    *policy,
                    now,
                ),
                ..old(self)@
            }),
    {
        self.forget_unregistered(apps);
        let ghost start = self@;
        let mut due: Vec<usize> = Vec::new();
        let mut i: usize = 0;
        proof {
            assert(apps@.take(0) =~= Seq::<RegisteredApp>::empty());
            assert(indices(due@) =~= Seq::<int>::empty());
        }
        while i < apps.len()
            invariant
                self.wf(),
                self@ == start,
                i <= apps@.len(),
                indices(due@) == due_of(apps@.take(i as int), start.next_due, now),
                forall|k: int| 0 <= k < due@.len() ==> #[trigger] due@[k] < i,
            decreases apps@.len() - i,
        {
            proof {
                assert(apps@.take(i as int + 1).drop_last() =~= apps@.take(i as int));
                assert(apps@.take(i as int + 1).last() == apps@[i as int]);
            }
            if apps[i].is_monitored() {
                let ready = match self.next_due.get(apps[i].slug.as_str()) {
                    Some(at) => *at <= now as u128,
                    None => true,
                };
                if ready {
                    let ghost before = due@;
                    due.push(i);
                    proof {
                        assert(indices(due@) =~= indices(before).push(i as int));
                    }
                }
            }
            i += 1;
        }
        proof {
            assert(apps@.take(apps@.len() as int) =~= apps@);
        }
        let mut k: usize = 0;
        let ghost all = indices(due@);
        proof {
            assert(all.take(0) =~= Seq::<int>::empty());
        }
        while k < due.len()
            invariant
                self.wf(),
                k <= due@.len(),
                all == indices(due@),
                forall|j: int| 0 <= j < due@.len() ==> #[trigger] due@[j] < apps@.len(),
                self@ == (ScheduleView {
                    next_due: rescheduled(apps@, all.take(k as int), start.next_due, *policy, now),
                    ..start
                }),
            decreases due@.len() - k,
        {
            proof {
                assert(all.take(k as int + 1).drop_last() =~= all.take(k as int));
                assert(all.take(k as int + 1).last() == due@[k as int]);
            }
            let app = &apps[due[k]];
            let at: u128 = now as u128 + policy.interval_for(app) as u128 * 1000;
            self.next_due.insert(app.slug.as_str(), at);
            k += 1;
        }
        proof {
            assert(all.take(all.len() as int) =~= all);
        }
        due
    }

    /// Whether it is time to ping the dead man's switch: once per global interval.
    pub fn ping_due(&mut self, interval: u64, now: u64) -> (r: bool)
        requires
            old(self).wf(),
        ensures
            final(self).wf(),
            r == match old(self)@.last_ping {
                None => true,
                Some(at) => now - at >= interval * 1000,
            },
            final(self)@ == (ScheduleView {
                last_ping: if r {
                    Some(now)
                } else {
                    old(self)@.last_ping
                },
                ..old(self)@
            }),
    {
        let ready = match self.last_ping {
            None => true,
            Some(at) => now as u128 >= at as u128 + interval as u128 * 1000,
        };
        if ready {
            self.last_ping = Some(now);
        }
        ready
    }

    /// Whether it is time to compact: once an hour.
    pub fn compact_due(&self, now: u64) -> (r: bool)
        ensures
            r == (now - self@.last_compact >= COMPACT_EVERY),
    {
        now as u128 >= self.last_compact as u128 + COMPACT_EVERY as u128
    }

    /// Remembers that a compaction ended.
    pub fn compacted(&mut self, now: u64)
        requires
            old(self).wf(),
        ensures
            final(self).wf(),
            final(self)@ == (ScheduleView { last_compact: now, ..old(self)@ }),
    {
        self.last_compact = now;
    }
}

// ---------------------------------------------------------------------------------------
// What holds of every schedule
// ---------------------------------------------------------------------------------------

/// Every app that is due is monitored and due at its time, and no due app is left out.
pub proof fn lemma_due_apps_are_exactly_the_ready_ones(
    apps: Seq<RegisteredApp>,
    next: Map<Seq<char>, u128>,
    now: u64,
    i: int,
)
    requires
        0 <= i < apps.len(),
    ensures
        due_of(apps, next, now).contains(i) == (monitored(apps[i]@) && due_at(
            next,
            apps[i].slug@,
            now,
        )),
        forall|k: int|
            0 <= k < due_of(apps, next, now).len() ==> 0 <= #[trigger] due_of(apps, next, now)[k]
                < apps.len(),
    decreases apps.len(),
{
    let last = apps.len() - 1;
    lemma_due_bounds(apps, next, now);
    lemma_due_bounds(apps.drop_last(), next, now);
    let before = due_of(apps.drop_last(), next, now);
    if i < last {
        lemma_due_apps_are_exactly_the_ready_ones(apps.drop_last(), next, now, i);
        assert(apps.drop_last()[i] == apps[i]);
        let all = due_of(apps, next, now);
        if before.contains(i) {
            let k = choose|k: int| 0 <= k < before.len() && before[k] == i;
            assert(all[k] == i);
        }
        if all.contains(i) {
            let k = choose|k: int| 0 <= k < all.len() && all[k] == i;
            assert(before[k] == i);
        }
    } else if monitored(apps[i]@) && due_at(next, apps[i].slug@, now) {
        assert(due_of(apps, next, now).last() == i);
    }
}

proof fn lemma_due_bounds(apps: Seq<RegisteredApp>, next: Map<Seq<char>, u128>, now: u64)
    ensures
        forall|k: int|
            0 <= k < due_of(apps, next, now).len() ==> 0 <= #[trigger] due_of(apps, next, now)[k]
                < apps.len(),
    decreases apps.len(),
{
    if apps.len() > 0 {
        lemma_due_bounds(apps.drop_last(), next, now);
        let before = due_of(apps.drop_last(), next, now);
        let all = due_of(apps, next, now);
        assert forall|k: int| 0 <= k < all.len() implies 0 <= #[trigger] all[k] < apps.len() by {
            if k < before.len() {
                assert(all[k] == before[k]);
            }
        }
    }
}

/// An app that was checked at `now` is due again once its interval has passed, and not before.
pub proof fn lemma_checked_apps_wait_their_interval(
    apps: Seq<RegisteredApp>,
    due: Seq<int>,
    next: Map<Seq<char>, u128>,
    policy: CheckPolicy,
    now: u64,
    k: int,
    later: u64,
)
    requires
        0 <= k < due.len(),
        forall|j: int|
            k < j < due.len() ==> apps[#[trigger] due[j]].slug@ != apps[due[k]].slug@,
    ensures
        due_at(rescheduled(apps, due, next, policy, now), apps[due[k]].slug@, later) == (later
            >= now + own_secs(apps[due[k]].interval_secs, policy.interval) * 1000),
    decreases due.len(),
{
    if k < due.len() - 1 {
        assert forall|j: int| k < j < due.drop_last().len() implies apps[
        #[trigger] due.drop_last()[j]].slug@ != apps[due.drop_last()[k]].slug@ by {
            assert(due.drop_last()[j] == due[j]);
        }
        lemma_checked_apps_wait_their_interval(
            apps,
            due.drop_last(),
            next,
            policy,
            now,
            k,
            later,
        );
        assert(apps[due[due.len() - 1]].slug@ != apps[due[k]].slug@);
    }
}

/// The apps that are checked now are the watched ones whose time has come, or which have none
/// yet, each once and in their order.
pub proof fn lemma_checked_apps_are_watched_and_ready(
    apps: Seq<RegisteredApp>,
    next: Map<Seq<char>, u128>,
    now: u64,
)
    ensures
        forall|i: int|
            0 <= i < apps.len() ==> (#[trigger] due_of(apps, next, now).contains(i) <==> !apps[i].paused
                && apps[i].health_url is Some && (next.contains_key(apps[i].slug@)
                ==> next[apps[i].slug@] <= now)),
        forall|k: int, l: int|
            0 <= k < l < due_of(apps, next, now).len() ==> #[trigger] due_of(apps, next, now)[k]
                < #[trigger] due_of(apps, next, now)[l],
    decreases apps.len(),
{
    assert forall|i: int| 0 <= i < apps.len() implies (#[trigger] due_of(
        apps,
        next,
        now,
    ).contains(i) <==> !apps[i].paused && apps[i].health_url is Some && (next.contains_key(
        apps[i].slug@,
    ) ==> next[apps[i].slug@] <= now)) by {
        lemma_due_apps_are_exactly_the_ready_ones(apps, next, now, i);
    }
    if apps.len() > 0 {
        lemma_checked_apps_are_watched_and_ready(apps.drop_last(), next, now);
        lemma_due_bounds(apps.drop_last(), next, now);
        let before = due_of(apps.drop_last(), next, now);
        let all = due_of(apps, next, now);
        assert forall|k: int, l: int| 0 <= k < l < all.len() implies #[trigger] all[k]
            < #[trigger] all[l] by {
            assert(all[k] == before[k]);
            if l < before.len() {
                assert(all[l] == before[l]);
            }
        }
    }
}

/// An app that was checked waits for its own interval, or the global one where it has none; the
/// others keep their time, and an app that is gone has none.
pub proof fn lemma_schedules_follow_the_intervals(
    apps: Seq<RegisteredApp>,
    due: Seq<int>,
    next: Map<Seq<char>, u128>,
    policy: CheckPolicy,
    now: u64,
)
    requires
        forall|j: int, k: int|
            0 <= j < k < due.len() ==> apps[#[trigger] due[j]].slug@ != apps[#[trigger] due[k]].slug@,
    ensures
        forall|k: int|
            0 <= k < due.len() ==> {
                let app = apps[#[trigger] due[k]];
                let after = rescheduled(apps, due, next, policy, now);
                &&& after.contains_key(app.slug@)
                &&& app.interval_secs is Some ==> after[app.slug@] == now + app.interval_secs->0
                    * 1000
                &&& app.interval_secs is None ==> after[app.slug@] == now + policy.interval * 1000
            },
        forall|slug: Seq<char>|
            (forall|k: int| 0 <= k < due.len() ==> apps[#[trigger] due[k]].slug@ != slug) ==> {
                &&& #[trigger] rescheduled(apps, due, next, policy, now).contains_key(slug)
                    <==> next.contains_key(slug)
                &&& next.contains_key(slug) ==> rescheduled(apps, due, next, policy, now)[slug]
                    == next[slug]
            },
        forall|slug: Seq<char>| #[trigger]
            still_registered(apps, next).contains_key(slug) <==> next.contains_key(slug)
                && exists|i: int| 0 <= i < apps.len() && (#[trigger] apps[i]).slug@ == slug,
        forall|slug: Seq<char>| #[trigger]
            still_registered(apps, next).contains_key(slug) ==> still_registered(apps, next)[slug]
                == next[slug],
    decreases due.len(),
{
    if due.len() > 0 {
        let front = due.drop_last();
        assert forall|j: int, k: int| 0 <= j < k < front.len() implies apps[
        #[trigger] front[j]].slug@ != apps[#[trigger] front[k]].slug@ by {
            assert(front[j] == due[j] && front[k] == due[k]);
        }
        lemma_schedules_follow_the_intervals(apps, front, next, policy, now);
        let before = rescheduled(apps, front, next, policy, now);
        let after = rescheduled(apps, due, next, policy, now);
        let last = apps[due.last()];
        assert forall|k: int| 0 <= k < due.len() implies {
            let app = apps[#[trigger] due[k]];
            &&& after.contains_key(app.slug@)
            &&& app.interval_secs is Some ==> after[app.slug@] == now + app.interval_secs->0 * 1000
            &&& app.interval_secs is None ==> after[app.slug@] == now + policy.interval * 1000
        } by {
            if k < front.len() {
                assert(front[k] == due[k]);
                assert(apps[due[k]].slug@ != apps[due[due.len() - 1]].slug@);
            }
        }
        assert forall|slug: Seq<char>|
            (forall|k: int| 0 <= k < due.len() ==> apps[#[trigger] due[k]].slug@ != slug) implies {
            &&& #[trigger] after.contains_key(slug) <==> next.contains_key(slug)
            &&& next.contains_key(slug) ==> after[slug] == next[slug]
        } by {
            assert forall|k: int| 0 <= k < front.len() implies apps[#[trigger] front[k]].slug@
                != slug by {
                assert(front[k] == due[k]);
            }
            assert(apps[due[due.len() - 1]].slug@ != slug);
            assert(before.contains_key(slug) <==> next.contains_key(slug));
        }
    }
}

/// The scheduler looks every five seconds and compacts every hour.
pub proof fn lemma_scheduler_times()
    ensures
        SCHEDULER_TICK == 5,
        COMPACT_EVERY == 60 * 60 * 1000,
{
}

} // verus!
