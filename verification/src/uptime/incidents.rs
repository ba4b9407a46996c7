//! Incidents: runs of consecutive down checks, derived from the heartbeat history (so they
//! cover the retention window and survive restarts without a store of their own).

use vstd::prelude::*;

use crate::uptime::history::ago;
use crate::uptime::history::at_most;
use crate::uptime::history::chronological;
use crate::uptime::Heartbeat;
use crate::uptime::Status;

verus! {

/// One outage: from the first down check to the first check that wasn't down.
#[derive(Debug, PartialEq, Eq)]
pub struct Incident {
    pub started_at: u64,
    /// `None` while it's still going on.
    pub ended_at: Option<u64>,
    /// Until `ended_at`, or until `now` for an ongoing one.
    pub duration_secs: u64,
    /// The first failed check's message: usually the actual cause.
    pub cause: String,
    pub failed_checks: u32,
}

/// Incident statistics for one window.
#[derive(Debug)]
pub struct IncidentReport {
    /// Newest first.
    pub incidents: Vec<Incident>,
    /// Mean time to recovery over the ended incidents.
    pub mttr_secs: Option<u64>,
    pub total_down_secs: u64,
}

/// The incident that a down check begins.
pub open spec fn opened(beat: Heartbeat) -> Incident {
    Incident {
        started_at: beat.at,
        ended_at: None,
        duration_secs: 0,
        cause: beat.message,
        failed_checks: 1,
    }
}

/// The outages of a history: those that ended, in order, and the one it ends with.
pub open spec fn outages(b: Seq<Heartbeat>) -> (Seq<Incident>, Option<Incident>)
    decreases b.len(),
{
    if b.len() == 0 {
        (Seq::empty(), None)
    } else {
        let (ended, open) = outages(b.drop_last());
        let beat = b.last();
        match open {
            Some(incident) => if beat.status == Status::Down {
                (
                    ended,
                    Some(
                        Incident {
                            failed_checks: (incident.failed_checks + 1) as u32,
                            ..incident
                        },
                    ),
                )
            } else {
                (
                    ended.push(
                        Incident {
                            ended_at: Some(beat.at),
                            duration_secs: ago(beat.at, incident.started_at),
                            ..incident
                        },
                    ),
                    None,
                )
            },
            None => if beat.status == Status::Down {
                (ended, Some(opened(beat)))
            } else {
                (ended, None)
            },
        }
    }
}

/// Every incident of a history, oldest first; an ongoing one has lasted until `now`.
pub open spec fn incidents(b: Seq<Heartbeat>, now: u64) -> Seq<Incident> {
    let (ended, open) = outages(b);
    match open {
        Some(incident) => ended.push(
            Incident { duration_secs: ago(now, incident.started_at), ..incident },
        ),
        None => ended,
    }
}

/// Whether an incident was still going on at or after `cutoff`.
pub open spec fn in_window(incident: Incident, cutoff: u64) -> bool {
    incident.ended_at is None || incident.ended_at->0 >= cutoff
}

/// The incidents that were still going on at or after `cutoff`.
pub open spec fn windowed(all: Seq<Incident>, cutoff: u64) -> Seq<Incident>
    decreases all.len(),
{
    if all.len() == 0 {
        Seq::empty()
    } else {
        let before = windowed(all.drop_last(), cutoff);
        if in_window(all.last(), cutoff) {
            before.push(all.last())
        } else {
            before
        }
    }
}

/// How long some incidents lasted together.
pub open spec fn total_secs(all: Seq<Incident>) -> nat
    decreases all.len(),
{
    if all.len() == 0 {
        0
    } else {
        total_secs(all.drop_last()) + all.last().duration_secs as nat
    }
}

/// The incidents that ended.
pub open spec fn recovered(all: Seq<Incident>) -> Seq<Incident>
    decreases all.len(),
{
    if all.len() == 0 {
        Seq::empty()
    } else {
        let before = recovered(all.drop_last());
        if all.last().ended_at is Some {
            before.push(all.last())
        } else {
            before
        }
    }
}

/// Mean time to recovery, rounded down; none without an incident that ended.
pub open spec fn mttr(all: Seq<Incident>) -> Option<u64> {
    let ended = recovered(all);
    if ended.len() == 0 {
        None
    } else {
        Some((total_secs(ended) / ended.len()) as u64)
    }
}

/// Whether the counters of a report over `b` hold its numbers.
pub open spec fn report_fits(b: Seq<Heartbeat>, cutoff: u64, now: u64) -> bool {
    &&& b.len() <= u32::MAX
    &&& total_secs(windowed(incidents(b, now), cutoff)) <= u64::MAX
}

/// Whether a report over `b` says what it should: the newest `limit` of the incidents that were
/// still going on at or after `cutoff`, and the statistics of all of them.
pub open spec fn reports(
    r: IncidentReport,
    b: Seq<Heartbeat>,
    cutoff: u64,
    now: u64,
    limit: nat,
) -> bool {
    let all = windowed(incidents(b, now), cutoff);
    &&& r.incidents@ == at_most(all.reverse(), limit)
    &&& r.mttr_secs == mttr(all)
    &&& r.total_down_secs == total_secs(all)
}

proof fn lemma_failed_checks_bound(b: Seq<Heartbeat>)
    ensures
        outages(b).1 is Some && b.len() <= u32::MAX ==> 1 <= outages(b).1->0.failed_checks
            <= b.len() && outages(b).1->0.ended_at is None,
        outages(b).0.len() <= b.len(),
        outages(b).1 is Some ==> outages(b).0.len() < b.len(),
    decreases b.len(),
{
    if b.len() > 0 {
        lemma_failed_checks_bound(b.drop_last());
    }
}

proof fn lemma_windowed_len(all: Seq<Incident>, cutoff: u64)
    ensures
        windowed(all, cutoff).len() <= all.len(),
        total_secs(windowed(all, cutoff)) <= total_secs(all),
    decreases all.len(),
{
    if all.len() > 0 {
        lemma_windowed_len(all.drop_last(), cutoff);
        let before = windowed(all.drop_last(), cutoff);
        assert(before.push(all.last()).drop_last() =~= before);
    }
}

/// The incidents of `beats`, oldest first.
fn incidents_of(beats: &[Heartbeat], now: u64) -> (r: Vec<Incident>)
    requires
        beats@.len() <= u32::MAX,
    ensures
        r@ == incidents(beats@, now),
{
    let mut ended: Vec<Incident> = Vec::new();
    let mut open: Option<Incident> = None;
    let mut i: usize = 0;
    proof {
        assert(beats@.take(0) =~= Seq::<Heartbeat>::empty());
    }
    while i < beats.len()
        invariant
            i <= beats@.len() <= u32::MAX,
            (ended@, open) == outages(beats@.take(i as int)),
        decreases beats@.len() - i,
    {
        let beat = &beats[i];
        let ghost prefix = beats@.take(i as int);
        proof {
            assert(beats@.take(i as int + 1).drop_last() =~= prefix);
            assert(beats@.take(i as int + 1).last() == beats@[i as int]);
            lemma_failed_checks_bound(prefix);
        }
        let down = beat.status == Status::Down;
        open = match open {
            Some(incident) => if down {
                Some(Incident { failed_checks: incident.failed_checks + 1, ..incident })
            } else {
                ended.push(
                    Incident {
                        ended_at: Some(beat.at),
                        duration_secs: beat.at.saturating_sub(incident.started_at),
                        ..incident
                    },
                );
                None
            },
            None => if down {
                Some(
                    Incident {
                        started_at: beat.at,
                        ended_at: None,
                        duration_secs: 0,
                        cause: beat.message.clone(),
                        failed_checks: 1,
                    },
                )
            } else {
                None
            },
        };
        i += 1;
    }
    proof {
        assert(beats@.take(beats@.len() as int) =~= beats@);
    }
    if let Some(incident) = open {
        ended.push(
            Incident { duration_secs: now.saturating_sub(incident.started_at), ..incident },
        );
    }
    ended
}

/// What is left of `all` in the window that begins at `cutoff`, newest first.
fn windowed_of(all: Vec<Incident>, cutoff: u64) -> (r: Vec<Incident>)
    ensures
        r@ == windowed(all@, cutoff).reverse(),
{
    let mut rest = all;
    let ghost full = rest@;
    let ghost want = windowed(full, cutoff);
    let mut out: Vec<Incident> = Vec::new();
    proof {
        assert(full.take(full.len() as int) =~= full);
        assert(out@.reverse() =~= Seq::<Incident>::empty());
        assert(windowed(rest@, cutoff) + out@.reverse() =~= want);
    }
    while rest.len() > 0
        invariant
            windowed(rest@, cutoff) + out@.reverse() == want,
        decreases rest@.len(),
    {
        let ghost before = rest@;
        let ghost newer = out@;
        if let Some(incident) = rest.pop() {
            proof {
                assert(rest@ =~= before.drop_last());
            }
            let keep = match incident.ended_at {
                None => true,
                Some(end) => end >= cutoff,
            };
            if keep {
                out.push(incident);
                proof {
                    assert(out@.reverse() =~= seq![before.last()] + newer.reverse());
                    assert(windowed(before, cutoff) + newer.reverse() =~= windowed(rest@, cutoff)
                        + out@.reverse());
                }
            }
        }
    }
    proof {
        assert(windowed(rest@, cutoff) =~= Seq::<Incident>::empty());
        assert(out@.reverse() =~= want);
        assert(out@ =~= want.reverse());
    }
    out
}

/// The sums over some incidents, newest first: all their seconds, those of the ended ones, and
/// how many ended.
fn sums_of(all: &Vec<Incident>) -> (r: (u128, u128, u64))
    ensures
        r.0 == total_secs(all@.reverse()),
        r.1 == total_secs(recovered(all@.reverse())),
        r.2 == recovered(all@.reverse()).len(),
        r.1 <= r.0,
{
    let ghost full = all@.reverse();
    let mut total: u128 = 0;
    let mut ended: u128 = 0;
    let mut n: u64 = 0;
    let len = all.len();
    let mut i: usize = 0;
    proof {
        assert(full.take(0) =~= Seq::<Incident>::empty());
    }
    while i < len
        invariant
            i <= len,
            len == all@.len(),
            len == all.len(),
            full == all@.reverse(),
            total == total_secs(full.take(i as int)),
            ended == total_secs(recovered(full.take(i as int))),
            n == recovered(full.take(i as int)).len(),
            n <= i,
            total <= i * u64::MAX,
            ended <= total,
        decreases len - i,
    {
        let incident = &all[len - 1 - i];
        proof {
            let prefix = full.take(i as int);
            let longer = full.take(i as int + 1);
            assert(longer.drop_last() =~= prefix);
            assert(longer.last() == full[i as int]);
            assert(*incident == full[i as int]);
            let before = recovered(prefix);
            assert(before.push(*incident).drop_last() =~= before);
            assert(i * u64::MAX + u64::MAX == (i + 1) * u64::MAX) by (nonlinear_arith);
            assert((i + 1) * u64::MAX <= u64::MAX * u64::MAX) by (nonlinear_arith)
                requires
                    i + 1 <= u64::MAX,
            ;
        }
        total += incident.duration_secs as u128;
        if incident.ended_at.is_some() {
            ended += incident.duration_secs as u128;
            n += 1;
        }
        i += 1;
    }
    proof {
        assert(full.take(len as int) =~= full);
    }
    (total, ended, n)
}

impl Default for IncidentReport {
    fn default() -> (r: Self)
        ensures
            r.incidents@ == Seq::<Incident>::empty(),
            r.mttr_secs is None,
            r.total_down_secs == 0,
    {
        IncidentReport { incidents: Vec::new(), mttr_secs: None, total_down_secs: 0 }
    }
}

impl IncidentReport {
    /// Whether the counters of a report over `beats` hold its numbers.
    pub fn fits(beats: &[Heartbeat], cutoff: u64, now: u64) -> (r: bool)
        ensures
            r == report_fits(beats@, cutoff, now),
    {
        if beats.len() > u32::MAX as usize {
            return false;
        }
        let all = incidents_of(beats, now);
        let kept = windowed_of(all, cutoff);
        let sums = sums_of(&kept);
        proof {
            let want = windowed(incidents(beats@, now), cutoff);
            assert(kept@.reverse() =~= want);
        }
        sums.0 <= u64::MAX as u128
    }

    /// Incidents among `beats` (oldest first) that were still going on at or after `cutoff`;
    /// the newest `limit` are kept, the statistics cover all of them.
    pub fn build(beats: &[Heartbeat], cutoff: u64, now: u64, limit: usize) -> (r: Self)
        requires
            report_fits(beats@, cutoff, now),
        ensures
            reports(r, beats@, cutoff, now, limit as nat),
    {
        let all = incidents_of(beats, now);
        let mut kept = windowed_of(all, cutoff);
        let ghost want = windowed(incidents(beats@, now), cutoff);
        proof {
            assert(kept@.reverse() =~= want);
        }
        let sums = sums_of(&kept);
        let mttr_secs: Option<u64> = if sums.2 > 0 {
            proof {
                let s = sums.1 as nat;
                let n = sums.2 as nat;
                assert(s / n <= s) by (nonlinear_arith)
                    requires
                        n > 0,
                ;
            }
            Some((sums.1 / sums.2 as u128) as u64)
        } else {
            None
        };
        if kept.len() > limit {
            kept.truncate(limit);
            proof {
                assert(kept@ =~= want.reverse().take(limit as int));
            }
        }
        IncidentReport { incidents: kept, mttr_secs, total_down_secs: sums.0 as u64 }
    }
}

// ---------------------------------------------------------------------------------------
// What holds of every report
// ---------------------------------------------------------------------------------------

/// How many checks of a history are down.
pub open spec fn count_down(b: Seq<Heartbeat>) -> nat
    decreases b.len(),
{
    if b.len() == 0 {
        0
    } else {
        count_down(b.drop_last()) + if b.last().status == Status::Down {
            1nat
        } else {
            0nat
        }
    }
}

/// The failed checks of some incidents together.
pub open spec fn failed_sum(all: Seq<Incident>) -> nat
    decreases all.len(),
{
    if all.len() == 0 {
        0
    } else {
        failed_sum(all.drop_last()) + all.last().failed_checks as nat
    }
}

proof fn lemma_outages_count(b: Seq<Heartbeat>)
    requires
        b.len() <= u32::MAX,
    ensures
        failed_sum(outages(b).0) + (match outages(b).1 {
            Some(incident) => incident.failed_checks as nat,
            None => 0nat,
        }) == count_down(b),
    decreases b.len(),
{
    if b.len() > 0 {
        lemma_outages_count(b.drop_last());
        lemma_failed_checks_bound(b.drop_last());
        let (ended, open) = outages(b.drop_last());
        if let Some(incident) = open {
            let closed = Incident {
                ended_at: Some(b.last().at),
                duration_secs: ago(b.last().at, incident.started_at),
                ..incident
            };
            assert(ended.push(closed).drop_last() =~= ended);
        }
    }
}

/// Every down check belongs to exactly one incident.
pub proof fn lemma_incidents_cover_the_down_checks(b: Seq<Heartbeat>, now: u64)
    requires
        b.len() <= u32::MAX,
    ensures
        failed_sum(incidents(b, now)) == count_down(b),
{
    lemma_outages_count(b);
    let (ended, open) = outages(b);
    if let Some(incident) = open {
        let last = Incident { duration_secs: ago(now, incident.started_at), ..incident };
        assert(ended.push(last).drop_last() =~= ended);
    }
}

/// Of the incidents only the last can be ongoing, and it is exactly while the last check is
/// down.
pub proof fn lemma_only_the_last_incident_is_open(b: Seq<Heartbeat>, now: u64)
    ensures
        forall|i: int|
            0 <= i < outages(b).0.len() ==> (#[trigger] outages(b).0[i]).ended_at is Some,
        outages(b).1 is Some ==> outages(b).1->0.ended_at is None,
        outages(b).1 is Some <==> b.len() > 0 && b.last().status == Status::Down,
    decreases b.len(),
{
    if b.len() > 0 {
        lemma_only_the_last_incident_is_open(b.drop_last(), now);
    }
}

/// No incident that ended before the window is reported, and no other is left out.
pub proof fn lemma_window_leaves_out_what_ended_before(all: Seq<Incident>, cutoff: u64)
    ensures
        forall|i: int|
            0 <= i < windowed(all, cutoff).len() ==> in_window(
                #[trigger] windowed(all, cutoff)[i],
                cutoff,
            ) && all.contains(windowed(all, cutoff)[i]),
        forall|i: int|
            0 <= i < all.len() && in_window(#[trigger] all[i], cutoff) ==> windowed(
                all,
                cutoff,
            ).contains(all[i]),
    decreases all.len(),
{
    if all.len() > 0 {
        let front = all.drop_last();
        lemma_window_leaves_out_what_ended_before(front, cutoff);
        let before = windowed(front, cutoff);
        let w = windowed(all, cutoff);
        assert forall|i: int| 0 <= i < w.len() implies in_window(#[trigger] w[i], cutoff)
            && all.contains(w[i]) by {
            if i < before.len() {
                assert(w[i] == before[i]);
                let j = choose|j: int| 0 <= j < front.len() && front[j] == before[i];
                assert(all[j] == w[i]);
            } else {
                assert(all[all.len() - 1] == w[i]);
            }
        }
        assert forall|i: int| 0 <= i < all.len() && in_window(
            #[trigger] all[i],
            cutoff,
        ) implies w.contains(all[i]) by {
            if i < front.len() {
                assert(front[i] == all[i]);
                let j = choose|j: int| 0 <= j < before.len() && before[j] == all[i];
                assert(w[j] == all[i]);
            } else {
                assert(w[w.len() - 1] == all[i]);
            }
        }
    }
}

proof fn lemma_outage_time(b: Seq<Heartbeat>)
    requires
        chronological(b),
        b.len() > 0,
    ensures
        total_secs(outages(b).0) + (match outages(b).1 {
            Some(incident) => b.last().at - incident.started_at,
            None => 0int,
        }) <= b.last().at - b[0].at,
        outages(b).1 is Some ==> b[0].at <= outages(b).1->0.started_at <= b.last().at,
    decreases b.len(),
{
    let front = b.drop_last();
    if front.len() > 0 {
        assert forall|i: int, j: int| 0 <= i <= j < front.len() implies (#[trigger] front[i]).at
            <= (#[trigger] front[j]).at by {
            assert(front[i] == b[i] && front[j] == b[j]);
        }
        lemma_outage_time(front);
        assert(front.last() == b[b.len() - 2]);
        assert(b[b.len() - 2].at <= b[b.len() - 1].at);
        assert(front[0] == b[0]);
        let (ended, open) = outages(front);
        if let Some(incident) = open {
            let closed = Incident {
                ended_at: Some(b.last().at),
                duration_secs: ago(b.last().at, incident.started_at),
                ..incident
            };
            assert(ended.push(closed).drop_last() =~= ended);
        }
    } else {
        assert(outages(front) == (Seq::<Incident>::empty(), None::<Incident>));
    }
}

/// The incidents of a chronological history never overlap: together they last no longer than
/// the time from its first check to now.
pub proof fn lemma_downtime_fits_in_the_elapsed_time(b: Seq<Heartbeat>, cutoff: u64, now: u64)
    requires
        chronological(b),
        b.len() > 0,
        b.last().at <= now,
    ensures
        total_secs(windowed(incidents(b, now), cutoff)) <= now - b[0].at,
{
    lemma_outage_time(b);
    let (ended, open) = outages(b);
    if let Some(incident) = open {
        let last = Incident { duration_secs: ago(now, incident.started_at), ..incident };
        assert(ended.push(last).drop_last() =~= ended);
    }
    assert(b[0].at <= b[b.len() - 1].at);
    lemma_windowed_len(incidents(b, now), cutoff);
}

/// The limit only shortens the list: of two reports over the same history the shorter one lists
/// the newest incidents of the longer one, and the statistics are the same.
pub proof fn lemma_limits_only_shorten_the_list(
    short: IncidentReport,
    long: IncidentReport,
    b: Seq<Heartbeat>,
    cutoff: u64,
    now: u64,
    few: nat,
    many: nat,
)
    requires
        few <= many,
        reports(short, b, cutoff, now, few),
        reports(long, b, cutoff, now, many),
    ensures
        short.mttr_secs == long.mttr_secs,
        short.total_down_secs == long.total_down_secs,
        short.incidents@ == at_most(long.incidents@, few),
{
    assert(short.incidents@ =~= at_most(long.incidents@, few));
}

/// Whether an incident is the run of down checks from the `i`-th to the `j`-th: the check before
/// it and the one after it are not down. It began at the first of them and gives its message as
/// the cause; it ended at the check after the last, or goes on until `now`.
pub open spec fn run_of(b: Seq<Heartbeat>, now: u64, incident: Incident, i: int, j: int) -> bool {
    &&& 0 <= i <= j < b.len()
    &&& forall|m: int| i <= m <= j ==> (#[trigger] b[m]).status == Status::Down
    &&& i > 0 ==> b[i - 1].status != Status::Down
    &&& incident.started_at == b[i].at
    &&& incident.cause == b[i].message
    &&& incident.failed_checks == j - i + 1
    &&& if j + 1 < b.len() {
        &&& b[j + 1].status != Status::Down
        &&& incident.ended_at == Some(b[j + 1].at)
        &&& b[j + 1].at >= b[i].at ==> incident.duration_secs == b[j + 1].at - b[i].at
        &&& b[j + 1].at < b[i].at ==> incident.duration_secs == 0
    } else {
        &&& incident.ended_at is None
        &&& now >= b[i].at ==> incident.duration_secs == now - b[i].at
        &&& now < b[i].at ==> incident.duration_secs == 0
    }
}

spec fn in_run(runs: Seq<(int, int)>, m: int) -> bool {
    exists|k: int| 0 <= k < runs.len() && (#[trigger] runs[k]).0 <= m <= runs[k].1
}

proof fn lemma_run_step(b: Seq<Heartbeat>, now: u64, incident: Incident, i: int, j: int)
    requires
        b.len() > 0,
        b.len() <= u32::MAX,
        run_of(b.drop_last(), now, incident, i, j),
    ensures
        j + 1 < b.len() - 1 ==> run_of(b, now, incident, i, j),
        j + 1 == b.len() - 1 && b.last().status == Status::Down ==> run_of(
            b,
            now,
            Incident { failed_checks: (incident.failed_checks + 1) as u32, ..incident },
            i,
            j + 1,
        ),
        j + 1 == b.len() - 1 && b.last().status != Status::Down ==> run_of(
            b,
            now,
            Incident {
                ended_at: Some(b.last().at),
                duration_secs: ago(b.last().at, incident.started_at),
                ..incident
            },
            i,
            j,
        ),
{
    let front = b.drop_last();
    assert forall|m: int| i <= m <= j implies (#[trigger] b[m]).status == Status::Down by {
        assert(front[m].status == Status::Down);
    }
    assert(b[i] == front[i]);
    if i > 0 {
        assert(b[i - 1] == front[i - 1]);
    }
    if j + 1 < front.len() {
        assert(b[j + 1] == front[j + 1]);
    }
}

/// `run_of`, for a run given as a pair.
#[verifier::opaque]
spec fn run_at(b: Seq<Heartbeat>, now: u64, incident: Incident, run: (int, int)) -> bool {
    run_of(b, now, incident, run.0, run.1)
}

proof fn lemma_run_goes_on(b: Seq<Heartbeat>, now: u64, incident: Incident, run: (int, int))
    requires
        b.len() > 0,
        b.len() <= u32::MAX,
        run_at(b.drop_last(), now, incident, run),
    ensures
        run.1 + 1 < b.len() - 1 ==> run_at(b, now, incident, run),
        run.1 + 1 == b.len() - 1 && b.last().status == Status::Down ==> run_at(
            b,
            now,
            Incident { failed_checks: (incident.failed_checks + 1) as u32, ..incident },
            (run.0, run.1 + 1),
        ),
        run.1 + 1 == b.len() - 1 && b.last().status != Status::Down ==> run_at(
            b,
            now,
            Incident {
                ended_at: Some(b.last().at),
                duration_secs: ago(b.last().at, incident.started_at),
                ..incident
            },
            run,
        ),
        0 <= run.0 <= run.1 < b.len() - 1,
{
    reveal(run_at);
    lemma_run_step(b, now, incident, run.0, run.1);
}

proof fn lemma_run_begins(b: Seq<Heartbeat>, now: u64, incident: Incident)
    requires
        b.len() > 0,
        b.last().status == Status::Down,
        b.len() > 1 ==> b.drop_last().last().status != Status::Down,
        incident.started_at == b.last().at,
        incident.cause == b.last().message,
        incident.failed_checks == 1,
        incident.ended_at is None,
        incident.duration_secs == ago(now, b.last().at),
    ensures
        run_at(b, now, incident, (b.len() - 1, b.len() - 1)),
{
    reveal(run_at);
}

proof fn lemma_runs_at(b: Seq<Heartbeat>, now: u64) -> (runs: Seq<(int, int)>)
    requires
        b.len() <= u32::MAX,
    ensures
        runs.len() == incidents(b, now).len(),
        forall|k: int|
            0 <= k < runs.len() ==> run_at(b, now, incidents(b, now)[k], #[trigger] runs[k]),
        forall|k: int, l: int|
            0 <= k < l < runs.len() ==> (#[trigger] runs[k]).1 + 1 < (#[trigger] runs[l]).0,
        forall|m: int|
            0 <= m < b.len() && (#[trigger] b[m]).status == Status::Down ==> in_run(runs, m),
        outages(b).1 is Some <==> b.len() > 0 && b.last().status == Status::Down,
        outages(b).1 is Some ==> runs.len() > 0 && runs.last().1 == b.len() - 1,
        forall|k: int|
            0 <= k < outages(b).0.len() ==> (#[trigger] runs[k]).1 + 1 < b.len(),
    decreases b.len(),
{
    if b.len() == 0 {
        Seq::empty()
    } else {
        let front = b.drop_last();
        let n = front.len() as int;
        let before = lemma_runs_at(front, now);
        let (ended, open) = outages(front);
        let down = b.last().status == Status::Down;
        let runs = if down {
            if open is Some {
                before.drop_last().push((before.last().0, n))
            } else {
                before.push((n, n))
            }
        } else {
            before
        };
        let all = incidents(b, now);
        let old = incidents(front, now);
        assert forall|k: int| 0 <= k < runs.len() implies run_at(
            b,
            now,
            all[k],
            #[trigger] runs[k],
        ) by {
            if k < before.len() {
                lemma_run_goes_on(b, now, old[k], before[k]);
                if k < ended.len() {
                    assert(all[k] == old[k]);
                }
            } else {
                lemma_run_begins(b, now, all[k]);
            }
        }
        assert forall|m: int| 0 <= m < b.len() && (#[trigger] b[m]).status
            == Status::Down implies in_run(runs, m) by {
            if m < n {
                assert(front[m] == b[m]);
                let k = choose|k: int|
                    0 <= k < before.len() && (#[trigger] before[k]).0 <= m <= before[k].1;
                assert(runs[k].0 <= m <= runs[k].1);
            } else {
                let k = runs.len() - 1;
                assert(runs[k].0 <= m <= runs[k].1);
            }
        }
        assert forall|k: int, l: int| 0 <= k < l < runs.len() implies (#[trigger] runs[k]).1 + 1
            < (#[trigger] runs[l]).0 by {
            if l < before.len() {
                assert(before[k].1 + 1 < before[l].0);
            }
        }
        runs
    }
}

proof fn lemma_runs(b: Seq<Heartbeat>, now: u64) -> (runs: Seq<(int, int)>)
    requires
        b.len() <= u32::MAX,
    ensures
        runs.len() == incidents(b, now).len(),
        forall|k: int|
            0 <= k < runs.len() ==> run_of(
                b,
                now,
                incidents(b, now)[k],
                (#[trigger] runs[k]).0,
                runs[k].1,
            ),
        forall|k: int, l: int|
            0 <= k < l < runs.len() ==> (#[trigger] runs[k]).1 + 1 < (#[trigger] runs[l]).0,
        forall|m: int|
            0 <= m < b.len() && (#[trigger] b[m]).status == Status::Down ==> in_run(runs, m),
{
    let runs = lemma_runs_at(b, now);
    assert forall|k: int| 0 <= k < runs.len() implies run_of(
        b,
        now,
        incidents(b, now)[k],
        (#[trigger] runs[k]).0,
        runs[k].1,
    ) by {
        reveal(run_at);
        assert(run_at(b, now, incidents(b, now)[k], runs[k]));
    }
    runs
}

/// The incidents of a history are its runs of down checks, oldest first: each run is one
/// incident, and every down check is in one of them.
pub proof fn lemma_incidents_are_the_down_runs(b: Seq<Heartbeat>, now: u64) -> (runs: Seq<
    (int, int),
>)
    requires
        b.len() <= u32::MAX,
    ensures
        runs.len() == incidents(b, now).len(),
        forall|k: int|
            0 <= k < runs.len() ==> run_of(
                b,
                now,
                incidents(b, now)[k],
                (#[trigger] runs[k]).0,
                runs[k].1,
            ),
        forall|k: int, l: int|
            0 <= k < l < runs.len() ==> (#[trigger] runs[k]).1 + 1 < (#[trigger] runs[l]).0,
        forall|m: int|
            0 <= m < b.len() && (#[trigger] b[m]).status == Status::Down ==> exists|k: int|
                0 <= k < runs.len() && (#[trigger] runs[k]).0 <= m <= runs[k].1,
{
    let runs = lemma_runs(b, now);
    assert forall|m: int| 0 <= m < b.len() && (#[trigger] b[m]).status
        == Status::Down implies exists|k: int|
        0 <= k < runs.len() && (#[trigger] runs[k]).0 <= m <= runs[k].1 by {
        assert(in_run(runs, m));
    }
    runs
}

/// An incident is in the window exactly if it goes on or ended at or after the cutoff, whenever
/// it began; those in the window keep their order.
pub proof fn lemma_windows_hold_what_reaches_into_them(all: Seq<Incident>, cutoff: u64)
    ensures
        windowed(all, cutoff) == all.filter(
            |i: Incident| i.ended_at is None || i.ended_at->0 >= cutoff,
        ),
        forall|k: int|
            0 <= k < all.len() ==> (windowed(all, cutoff).contains(#[trigger] all[k]) <==> (
            all[k].ended_at is None || all[k].ended_at->0 >= cutoff)),
    decreases all.len(),
{
    reveal(Seq::filter);
    let reaches = |i: Incident| i.ended_at is None || i.ended_at->0 >= cutoff;
    if all.len() > 0 {
        lemma_windows_hold_what_reaches_into_them(all.drop_last(), cutoff);
    }
    assert(windowed(all, cutoff) == all.filter(reaches));
    assert forall|k: int| 0 <= k < all.len() implies (windowed(all, cutoff).contains(
        #[trigger] all[k],
    ) <==> (all[k].ended_at is None || all[k].ended_at->0 >= cutoff)) by {
        if reaches(all[k]) {
            all.lemma_filter_contains(reaches, k);
        }
        if all.filter(reaches).contains(all[k]) {
            let j = choose|j: int|
                0 <= j < all.filter(reaches).len() && all.filter(reaches)[j] == all[k];
            all.lemma_filter_pred(reaches, j);
        }
    }
}

/// A report leaves no outage of its window out: for a down check at or after the cutoff there is
/// an incident in the window whose time covers that check.
pub proof fn lemma_down_checks_of_the_window_are_reported(
    b: Seq<Heartbeat>,
    cutoff: u64,
    now: u64,
    m: int,
)
    requires
        b.len() <= u32::MAX,
        chronological(b),
        0 <= m < b.len(),
        b[m].status == Status::Down,
        b[m].at >= cutoff,
    ensures
        exists|k: int|
            0 <= k < windowed(incidents(b, now), cutoff).len() && (#[trigger] windowed(
                incidents(b, now),
                cutoff,
            )[k]).started_at <= b[m].at && (windowed(incidents(b, now), cutoff)[k].ended_at is None
                || b[m].at <= windowed(incidents(b, now), cutoff)[k].ended_at->0),
{
    let all = incidents(b, now);
    let runs = lemma_incidents_are_the_down_runs(b, now);
    let k = choose|k: int| 0 <= k < runs.len() && (#[trigger] runs[k]).0 <= m <= runs[k].1;
    assert(run_of(b, now, all[k], runs[k].0, runs[k].1));
    assert(b[runs[k].0].at <= b[m].at);
    if runs[k].1 + 1 < b.len() {
        assert(b[m].at <= b[runs[k].1 + 1].at);
    }
    lemma_windows_hold_what_reaches_into_them(all, cutoff);
    let w = windowed(all, cutoff);
    assert(w.contains(all[k]));
    let l = choose|l: int| 0 <= l < w.len() && w[l] == all[k];
    assert(w[l].started_at <= b[m].at);
}

/// The seconds of some incidents, added up.
pub proof fn lemma_total_is_the_sum(all: Seq<Incident>)
    ensures
        total_secs(all) == all.fold_left(0int, |sum: int, i: Incident| sum + i.duration_secs),
    decreases all.len(),
{
    if all.len() > 0 {
        lemma_total_is_the_sum(all.drop_last());
    }
}

proof fn lemma_recovered(all: Seq<Incident>)
    ensures
        recovered(all) == all.filter(|i: Incident| i.ended_at is Some),
    decreases all.len(),
{
    reveal(Seq::filter);
    if all.len() > 0 {
        lemma_recovered(all.drop_last());
    }
}

/// The mean time to recovery is the mean over the incidents that ended, rounded down: that many
/// seconds each fit into their time, and one second more each doesn't. There is one exactly
/// where an incident ended.
pub proof fn lemma_mttr_is_the_mean(all: Seq<Incident>)
    requires
        total_secs(all) <= u64::MAX,
    ensures
        ({
            let ended = all.filter(|i: Incident| i.ended_at is Some);
            let sum = ended.fold_left(0int, |sum: int, i: Incident| sum + i.duration_secs);
            &&& mttr(all) is None <==> ended.len() == 0
            &&& mttr(all) is Some ==> mttr(all)->0 * ended.len() <= sum < (mttr(all)->0 + 1)
                * ended.len()
        }),
{
    lemma_recovered(all);
    let ended = recovered(all);
    lemma_total_is_the_sum(ended);
    lemma_recovered_fits(all);
    if ended.len() > 0 {
        let s = total_secs(ended) as int;
        let n = ended.len() as int;
        assert((s / n) * n <= s < (s / n + 1) * n && s / n <= s) by (nonlinear_arith)
            requires
                n > 0,
                s >= 0,
        ;
    }
}

proof fn lemma_recovered_fits(all: Seq<Incident>)
    ensures
        total_secs(recovered(all)) <= total_secs(all),
    decreases all.len(),
{
    if all.len() > 0 {
        lemma_recovered_fits(all.drop_last());
        let before = recovered(all.drop_last());
        assert(before.push(all.last()).drop_last() =~= before);
    }
}

/// A report lists the incidents of its window newest first, as many as its limit allows.
pub proof fn lemma_reports_list_the_newest(
    r: IncidentReport,
    b: Seq<Heartbeat>,
    cutoff: u64,
    now: u64,
    limit: nat,
)
    requires
        reports(r, b, cutoff, now, limit),
    ensures
        ({
            let all = incidents(b, now).filter(
                |i: Incident| i.ended_at is None || i.ended_at->0 >= cutoff,
            );
            &&& r.incidents@.len() == if all.len() < limit {
                all.len()
            } else {
                limit
            }
            &&& forall|k: int|
                0 <= k < r.incidents@.len() ==> #[trigger] r.incidents@[k] == all[all.len() - 1 - k]
            &&& r.mttr_secs == mttr(all)
            &&& r.total_down_secs == all.fold_left(
                0int,
                |sum: int, i: Incident| sum + i.duration_secs,
            )
        }),
{
    lemma_windows_hold_what_reaches_into_them(incidents(b, now), cutoff);
    lemma_total_is_the_sum(windowed(incidents(b, now), cutoff));
}

} // verus!
