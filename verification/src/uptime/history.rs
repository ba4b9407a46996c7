//! One app's heartbeats, oldest first, and everything that is read off them.

use std::collections::VecDeque;

use vstd::prelude::*;

use crate::uptime::available;
use crate::uptime::rank;
use crate::uptime::Heartbeat;
use crate::uptime::Status;
use crate::uptime::DAY_SECS;

verus! {

/// How many status changes the event tables show.
pub const MAX_EVENTS: usize = 30;

/// The heartbeats at or after `cutoff`.
pub open spec fn since(b: Seq<Heartbeat>, cutoff: u64) -> Seq<Heartbeat>
    decreases b.len(),
{
    if b.len() == 0 {
        Seq::empty()
    } else {
        let before = since(b.drop_last(), cutoff);
        if b.last().at >= cutoff {
            before.push(b.last())
        } else {
            before
        }
    }
}

/// What is left of a history when its front is dropped up to the first heartbeat at or after
/// `cutoff`.
pub open spec fn pruned(b: Seq<Heartbeat>, cutoff: u64) -> Seq<Heartbeat>
    decreases b.len(),
{
    if b.len() > 0 && b[0].at < cutoff {
        pruned(b.skip(1), cutoff)
    } else {
        b
    }
}

/// `now` less `secs`, never below zero.
pub open spec fn ago(now: u64, secs: u64) -> u64 {
    if now < secs {
        0
    } else {
        (now - secs) as u64
    }
}

/// When the run of down checks at the end of a history began.
pub open spec fn streak_start(b: Seq<Heartbeat>) -> Option<u64>
    decreases b.len(),
{
    if b.len() == 0 || b.last().status != Status::Down {
        None
    } else {
        match streak_start(b.drop_last()) {
            Some(at) => Some(at),
            None => Some(b.last().at),
        }
    }
}

/// The heartbeats whose status differs from the one before; the first one counts.
pub open spec fn flips(b: Seq<Heartbeat>) -> Seq<Heartbeat>
    decreases b.len(),
{
    if b.len() == 0 {
        Seq::empty()
    } else {
        let before = flips(b.drop_last());
        if b.len() == 1 || b[b.len() - 2].status != b.last().status {
            before.push(b.last())
        } else {
            before
        }
    }
}

/// The first `n` items of a sequence, or all of them.
pub open spec fn at_most<A>(s: Seq<A>, n: nat) -> Seq<A> {
    if s.len() <= n {
        s
    } else {
        s.take(n as int)
    }
}

/// How many heartbeats are available.
pub open spec fn count_available(b: Seq<Heartbeat>) -> nat
    decreases b.len(),
{
    if b.len() == 0 {
        0
    } else {
        count_available(b.drop_last()) + if available(b.last().status) {
            1nat
        } else {
            0nat
        }
    }
}

/// Whether a heartbeat's latency counts: it was answered, and available.
pub open spec fn timed(beat: Heartbeat) -> bool {
    available(beat.status) && beat.latency_ms is Some
}

pub open spec fn latency_sum(b: Seq<Heartbeat>) -> nat
    decreases b.len(),
{
    if b.len() == 0 {
        0
    } else {
        latency_sum(b.drop_last()) + if timed(b.last()) {
            b.last().latency_ms->0 as nat
        } else {
            0nat
        }
    }
}

pub open spec fn latency_count(b: Seq<Heartbeat>) -> nat
    decreases b.len(),
{
    if b.len() == 0 {
        0
    } else {
        latency_count(b.drop_last()) + if timed(b.last()) {
            1nat
        } else {
            0nat
        }
    }
}

/// The mean latency of the available heartbeats that have one, rounded down.
pub open spec fn mean_latency(b: Seq<Heartbeat>) -> Option<u32> {
    if latency_count(b) == 0 {
        None
    } else {
        Some((latency_sum(b) / latency_count(b)) as u32)
    }
}

pub proof fn lemma_latency_bound(b: Seq<Heartbeat>)
    ensures
        latency_count(b) <= b.len(),
        latency_sum(b) <= latency_count(b) * u32::MAX,
    decreases b.len(),
{
    if b.len() > 0 {
        lemma_latency_bound(b.drop_last());
        assert((latency_count(b.drop_last()) + 1) * u32::MAX == latency_count(b.drop_last())
            * u32::MAX + u32::MAX) by (nonlinear_arith);
    }
}

/// The mean never exceeds the largest latency a heartbeat can hold.
pub proof fn lemma_mean_fits(b: Seq<Heartbeat>)
    requires
        latency_count(b) > 0,
    ensures
        latency_sum(b) / latency_count(b) <= u32::MAX,
{
    lemma_latency_bound(b);
    let s = latency_sum(b);
    let n = latency_count(b);
    assert(s / n <= u32::MAX) by (nonlinear_arith)
        requires
            n > 0,
            s <= n * u32::MAX,
    ;
}

/// Available and measured checks of some stretch of a history; at least one was measured.
#[derive(Debug, Clone, Copy, PartialEq, Eq, Structural)]
pub struct Share {
    pub up: u64,
    pub total: u64,
}

/// The share of available heartbeats, none without heartbeats.
pub open spec fn share_of(b: Seq<Heartbeat>) -> Option<Share> {
    if b.len() == 0 {
        None
    } else {
        Some(Share { up: count_available(b) as u64, total: b.len() as u64 })
    }
}

pub proof fn lemma_available_bound(b: Seq<Heartbeat>)
    ensures
        count_available(b) <= b.len(),
    decreases b.len(),
{
    if b.len() > 0 {
        lemma_available_bound(b.drop_last());
    }
}

/// One app's heartbeat history, oldest first.
#[derive(Debug)]
pub struct History {
    beats: VecDeque<Heartbeat>,
}

impl View for History {
    type V = Seq<Heartbeat>;

    closed spec fn view(&self) -> Seq<Heartbeat> {
        self.beats@
    }
}

impl Default for History {
    fn default() -> (r: Self)
        ensures
            r@ == Seq::<Heartbeat>::empty(),
    {
        History { beats: VecDeque::new() }
    }
}

impl History {
    /// A history of `beats`, oldest first.
    pub fn new(beats: Vec<Heartbeat>) -> (r: Self)
        ensures
            r@ == beats@,
    {
        let mut rest = beats;
        let mut out: VecDeque<Heartbeat> = VecDeque::new();
        let ghost all = rest@;
        while rest.len() > 0
            invariant
                rest@.len() <= all.len(),
                rest@ == all.take(rest@.len() as int),
                out@ == all.skip(rest@.len() as int),
            decreases rest@.len(),
        {
            let ghost n = rest@.len() as int;
            if let Some(beat) = rest.pop() {
                out.push_front(beat);
                proof {
                    assert(rest@ =~= all.take(n - 1));
                    assert(out@ =~= all.skip(n - 1));
                }
            }
        }
        proof {
            assert(all.skip(0) =~= all);
        }
        History { beats: out }
    }

    pub fn len(&self) -> (r: usize)
        ensures
            r == self@.len(),
    {
        self.beats.len()
    }

    /// The heartbeat at `i`, counted from the oldest.
    pub fn get(&self, i: usize) -> (r: &Heartbeat)
        requires
            i < self@.len(),
        ensures
            *r == self@[i as int],
    {
        &self.beats[i]
    }

    /// The latest heartbeat.
    pub fn last(&self) -> (r: Option<&Heartbeat>)
        ensures
            match r {
                Some(beat) => self@.len() > 0 && *beat == self@.last(),
                None => self@.len() == 0,
            },
    {
        let n = self.beats.len();
        if n == 0 {
            None
        } else {
            Some(&self.beats[n - 1])
        }
    }

    /// Appends `beat` and drops what is older than `retention` seconds at `now`.
    pub fn push(&mut self, beat: Heartbeat, now: u64, retention: u64)
        ensures
            final(self)@ == pruned(old(self)@.push(beat), ago(now, retention)),
    {
        self.beats.push_back(beat);
        self.prune(now, retention);
    }

    /// Drops from the front what is older than `retention` seconds at `now`.
    pub fn prune(&mut self, now: u64, retention: u64)
        ensures
            final(self)@ == pruned(old(self)@, ago(now, retention)),
    {
        let cutoff = now.saturating_sub(retention);
        let ghost all = self.beats@;
        while self.beats.len() > 0 && self.beats[0].at < cutoff
            invariant
                cutoff == ago(now, retention),
                pruned(self.beats@, cutoff) == pruned(all, cutoff),
            decreases self.beats@.len(),
        {
            proof {
                assert(self.beats@.skip(1) =~= self.beats@.subrange(
                    1,
                    self.beats@.len() as int,
                ));
            }
            let dropped = self.beats.pop_front();
        }
    }

    /// When the current run of down checks started; `None` if the last check wasn't down.
    pub fn down_streak_start(&self) -> (r: Option<u64>)
        ensures
            r == streak_start(self@),
    {
        let n = self.beats.len();
        let mut found: Option<u64> = None;
        let mut i: usize = 0;
        proof {
            assert(self@.take(0) =~= Seq::<Heartbeat>::empty());
        }
        while i < n
            invariant
                i <= n,
                n == self@.len(),
                self@ == self.beats@,
                found == streak_start(self@.take(i as int)),
            decreases n - i,
        {
            proof {
                assert(self@.take(i as int + 1).drop_last() =~= self@.take(i as int));
                assert(self@.take(i as int + 1).last() == self@[i as int]);
            }
            let beat = &self.beats[i];
            if beat.status == Status::Down {
                if found.is_none() {
                    found = Some(beat.at);
                }
            } else {
                found = None;
            }
            i += 1;
        }
        proof {
            assert(self@.take(n as int) =~= self@);
        }
        found
    }

    /// The heartbeats at or after `cutoff`.
    pub fn since(&self, cutoff: u64) -> (r: Vec<Heartbeat>)
        ensures
            r@ == since(self@, cutoff),
    {
        let n = self.beats.len();
        let mut out: Vec<Heartbeat> = Vec::new();
        let mut i: usize = 0;
        proof {
            assert(self@.take(0) =~= Seq::<Heartbeat>::empty());
        }
        while i < n
            invariant
                i <= n,
                n == self@.len(),
                self@ == self.beats@,
                out@ == since(self@.take(i as int), cutoff),
            decreases n - i,
        {
            proof {
                assert(self@.take(i as int + 1).drop_last() =~= self@.take(i as int));
                assert(self@.take(i as int + 1).last() == self@[i as int]);
            }
            if self.beats[i].at >= cutoff {
                out.push(self.beats[i].clone());
            }
            i += 1;
        }
        proof {
            assert(self@.take(n as int) =~= self@);
        }
        out
    }

    /// Every heartbeat.
    pub fn all(&self) -> (r: Vec<Heartbeat>)
        ensures
            r@ == self@,
    {
        proof {
            lemma_since_all(self@, 0);
        }
        self.since(0)
    }

    /// Share of available (up or degraded) heartbeats since `cutoff`. `None` with no data.
    pub fn uptime(&self, cutoff: u64) -> (r: Option<Share>)
        ensures
            r == share_of(since(self@, cutoff)),
            r is Some ==> r->0.up == count_available(since(self@, cutoff)) && r->0.total == since(
                self@,
                cutoff,
            ).len(),
    {
        let beats = self.since(cutoff);
        let mut up: u64 = 0;
        let mut total: u64 = 0;
        let mut i: usize = 0;
        proof {
            assert(beats@.take(0) =~= Seq::<Heartbeat>::empty());
        }
        while i < beats.len()
            invariant
                i <= beats@.len(),
                total == i,
                up == count_available(beats@.take(i as int)),
                up <= total,
            decreases beats@.len() - i,
        {
            proof {
                assert(beats@.take(i as int + 1).drop_last() =~= beats@.take(i as int));
                assert(beats@.take(i as int + 1).last() == beats@[i as int]);
            }
            if beats[i].status.is_available() {
                up += 1;
            }
            total += 1;
            i += 1;
        }
        proof {
            assert(beats@.take(beats@.len() as int) =~= beats@);
        }
        if total > 0 {
            Some(Share { up, total })
        } else {
            None
        }
    }

    /// Mean latency since `cutoff` of the heartbeats that were available and answered.
    pub fn avg_latency_ms(&self, cutoff: u64) -> (r: Option<u32>)
        ensures
            r == mean_latency(since(self@, cutoff)),
    {
        let beats = self.since(cutoff);
        mean_of(&beats)
    }

    /// Heartbeats where the status flipped (the first one counts), newest first.
    pub fn events(&self) -> (r: Vec<Heartbeat>)
        ensures
            r@ == at_most(flips(self@).reverse(), MAX_EVENTS as nat),
    {
        let n = self.beats.len();
        let ghost all = flips(self@);
        let mut found: Vec<Heartbeat> = Vec::new();
        let mut i: usize = 0;
        proof {
            assert(self@.take(0) =~= Seq::<Heartbeat>::empty());
        }
        while i < n
            invariant
                i <= n,
                n == self@.len(),
                self@ == self.beats@,
                found@ == flips(self@.take(i as int)),
            decreases n - i,
        {
            proof {
                assert(self@.take(i as int + 1).drop_last() =~= self@.take(i as int));
                assert(self@.take(i as int + 1).last() == self@[i as int]);
            }
            if i == 0 || self.beats[i - 1].status != self.beats[i].status {
                found.push(self.beats[i].clone());
            }
            i += 1;
        }
        proof {
            assert(self@.take(n as int) =~= self@);
        }
        newest_first(found, MAX_EVENTS)
    }

    /// The last `n` heartbeats.
    pub fn recent(&self, n: usize) -> (r: Vec<Heartbeat>)
        ensures
            r@ == if self@.len() <= n {
                self@
            } else {
                self@.skip(self@.len() - n)
            },
    {
        let len = self.beats.len();
        let start: usize = if len <= n {
            0
        } else {
            len - n
        };
        let mut out: Vec<Heartbeat> = Vec::new();
        let mut i: usize = start;
        while i < len
            invariant
                start <= i <= len,
                len == self@.len(),
                self@ == self.beats@,
                out@ == self@.subrange(start as int, i as int),
            decreases len - i,
        {
            out.push(self.beats[i].clone());
            i += 1;
            proof {
                assert(self@.subrange(start as int, i as int) =~= self@.subrange(
                    start as int,
                    i as int - 1,
                ).push(self@[i as int - 1]));
            }
        }
        proof {
            assert(self@.subrange(start as int, len as int) =~= self@.skip(start as int));
            assert(self@.skip(0) =~= self@);
        }
        out
    }
}

/// Mean latency of the heartbeats that were available and answered.
pub fn mean_of(beats: &Vec<Heartbeat>) -> (r: Option<u32>)
    ensures
        r == mean_latency(beats@),
{
    let mut sum: u128 = 0;
    let mut n: u128 = 0;
    let mut i: usize = 0;
    proof {
        assert(beats@.take(0) =~= Seq::<Heartbeat>::empty());
    }
    while i < beats.len()
        invariant
            i <= beats.len(),
            n <= i,
            sum == latency_sum(beats@.take(i as int)),
            n == latency_count(beats@.take(i as int)),
            sum <= i * u32::MAX,
        decreases beats@.len() - i,
    {
        proof {
            assert(beats@.take(i as int + 1).drop_last() =~= beats@.take(i as int));
            assert(beats@.take(i as int + 1).last() == beats@[i as int]);
            assert(i * u32::MAX + u32::MAX == (i + 1) * u32::MAX) by (nonlinear_arith);
            assert((i + 1) * u32::MAX <= u64::MAX * u32::MAX) by (nonlinear_arith)
                requires
                    i + 1 <= u64::MAX,
            ;
        }
        if beats[i].status.is_available() {
            if let Some(ms) = beats[i].latency_ms {
                sum += ms as u128;
                n += 1;
            }
        }
        i += 1;
    }
    proof {
        assert(beats@.take(beats@.len() as int) =~= beats@);
    }
    if n > 0 {
        proof {
            lemma_mean_fits(beats@);
        }
        Some((sum / n) as u32)
    } else {
        None
    }
}

/// `items` reversed, and no more than `limit` of them.
pub fn newest_first(items: Vec<Heartbeat>, limit: usize) -> (r: Vec<Heartbeat>)
    ensures
        r@ == at_most(items@.reverse(), limit as nat),
{
    let mut rest = items;
    let ghost all = rest@;
    let mut out: Vec<Heartbeat> = Vec::new();
    while rest.len() > 0 && out.len() < limit
        invariant
            out@.len() <= limit,
            out@.len() + rest@.len() == all.len(),
            rest@ == all.take(rest@.len() as int),
            out@ == all.reverse().take(out@.len() as int),
        decreases rest@.len(),
    {
        let ghost n = out@.len() as int;
        if let Some(beat) = rest.pop() {
            out.push(beat);
            proof {
                assert(rest@ =~= all.take(rest@.len() as int));
                assert(out@ =~= all.reverse().take(n + 1));
            }
        }
    }
    proof {
        if out@.len() == all.len() {
            assert(all.reverse().take(all.len() as int) =~= all.reverse());
        }
    }
    out
}

/// The heartbeats of one UTC day.
pub open spec fn on_day(b: Seq<Heartbeat>, day: nat) -> Seq<Heartbeat>
    decreases b.len(),
{
    if b.len() == 0 {
        Seq::empty()
    } else {
        let before = on_day(b.drop_last(), day);
        if b.last().at as nat / DAY_SECS as nat == day {
            before.push(b.last())
        } else {
            before
        }
    }
}

/// One day of an app's history, for the public status page.
#[derive(Debug, Clone, Copy, PartialEq, Eq, Structural)]
pub struct DayUptime {
    /// Unix seconds at 00:00 UTC.
    pub start: u64,
    /// Available checks that day.
    pub up: u64,
    /// All checks that day; 0 = no data.
    pub total: u64,
}

/// The first of the `days` UTC days that end today; no earlier than the epoch, and today
/// itself where `days` is 0.
pub open spec fn first_day(now: u64, days: u64) -> nat {
    let today = now as nat / DAY_SECS as nat;
    if days <= 1 {
        today
    } else if today < days - 1 {
        0
    } else {
        (today - (days - 1)) as nat
    }
}

/// The entry of one day.
pub open spec fn day_of(b: Seq<Heartbeat>, day: nat) -> DayUptime {
    DayUptime {
        start: (day * DAY_SECS as nat) as u64,
        up: count_available(on_day(b, day)) as u64,
        total: on_day(b, day).len() as u64,
    }
}

pub proof fn lemma_on_day_bound(b: Seq<Heartbeat>, day: nat)
    ensures
        on_day(b, day).len() <= b.len(),
    decreases b.len(),
{
    if b.len() > 0 {
        lemma_on_day_bound(b.drop_last(), day);
    }
}

impl History {
    /// One entry per UTC day for the last `days` days (oldest first, today last): the checks
    /// of that day and how many were available. There are none where the days do not fit in
    /// memory.
    pub fn daily(&self, now: u64, days: u64) -> (r: Vec<DayUptime>)
        ensures
            ({
                let first = first_day(now, days);
                let today = now as nat / DAY_SECS as nat;
                r@ == if today - first + 1 <= usize::MAX {
                    Seq::new((today - first + 1) as nat, |i: int| day_of(self@, (first + i) as nat))
                } else {
                    Seq::empty()
                }
            }),
    {
        let today: u64 = now / DAY_SECS;
        let back: u64 = days.saturating_sub(1);
        let first: u64 = today.saturating_sub(back);
        let span: u64 = today - first + 1;
        let n: usize = if span <= usize::MAX as u64 {
            span as usize
        } else {
            0
        };
        let mut counts: Vec<DayUptime> = Vec::new();
        let mut k: usize = 0;
        proof {
            assert(self@.take(0) =~= Seq::<Heartbeat>::empty());
        }
        while k < n
            invariant
                k <= n,
                n <= span,
                span == today - first + 1,
                first <= today,
                today == now / DAY_SECS,
                counts@.len() == k,
                forall|j: int|
                    0 <= j < k ==> #[trigger] counts@[j] == day_of(
                        self@.take(0),
                        (first + j) as nat,
                    ),
                self@.take(0) == Seq::<Heartbeat>::empty(),
            decreases n - k,
        {
            let day: u64 = first + k as u64;
            counts.push(DayUptime { start: day * DAY_SECS, up: 0, total: 0 });
            k += 1;
        }
        let len = self.beats.len();
        let mut i: usize = 0;
        while i < len
            invariant
                i <= len,
                len == self@.len(),
                self@ == self.beats@,
                n <= span,
                counts@.len() == n,
                forall|j: int|
                    0 <= j < n ==> #[trigger] counts@[j] == day_of(
                        self@.take(i as int),
                        (first + j) as nat,
                    ),
            decreases len - i,
        {
            let beat = &self.beats[i];
            let day: u64 = beat.at / DAY_SECS;
            let ghost prefix = self@.take(i as int);
            let ghost longer = self@.take(i as int + 1);
            let ghost before = counts@;
            proof {
                assert(longer.drop_last() =~= prefix);
                assert(longer.last() == self@[i as int]);
                assert(day as nat == self@[i as int].at as nat / DAY_SECS as nat);
            }
            if day >= first && day - first < n as u64 {
                let k: usize = (day - first) as usize;
                let entry = counts[k];
                proof {
                    lemma_on_day_bound(prefix, day as nat);
                    lemma_available_bound(on_day(prefix, day as nat));
                    assert(on_day(longer, day as nat).drop_last() =~= on_day(prefix, day as nat));
                }
                let up: u64 = if beat.status.is_available() {
                    entry.up + 1
                } else {
                    entry.up
                };
                counts.set(k, DayUptime { start: entry.start, up, total: entry.total + 1 });
            }
            i += 1;
            proof {
                assert forall|j: int| 0 <= j < n implies #[trigger] counts@[j] == day_of(
                    longer,
                    (first + j) as nat,
                ) by {
                    assert(before[j] == day_of(prefix, (first + j) as nat));
                    if first + j != day {
                        assert(on_day(longer, (first + j) as nat) == on_day(
                            prefix,
                            (first + j) as nat,
                        ));
                    }
                }
            }
        }
        proof {
            assert(self@.take(len as int) =~= self@);
            let want = Seq::new(
                (today - first + 1) as nat,
                |i: int| day_of(self@, (first + i) as nat),
            );
            if span <= usize::MAX {
                assert(counts@ =~= want);
            } else {
                assert(counts@ =~= Seq::<DayUptime>::empty());
            }
        }
        counts
    }
}

// ---------------------------------------------------------------------------------------
// Downsampling
// ---------------------------------------------------------------------------------------

/// Seconds that one of `max_points` buckets covers, so that together they cover the window.
pub open spec fn bucket_secs(cutoff: u64, now: u64, max_points: nat) -> nat {
    let span: nat = if now <= cutoff {
        1
    } else {
        (now - cutoff) as nat
    };
    if span % max_points == 0 {
        span / max_points
    } else {
        span / max_points + 1
    }
}

/// The bucket of a heartbeat; what lies past the last bucket belongs to it.
pub open spec fn bucket_index(at: u64, cutoff: u64, secs: nat, max_points: nat) -> nat {
    let i = (at - cutoff) as nat / secs;
    if i < max_points {
        i
    } else {
        (max_points - 1) as nat
    }
}

/// Neighbours in the same bucket, together.
pub open spec fn groups(w: Seq<Heartbeat>, cutoff: u64, secs: nat, max_points: nat) -> Seq<
    Seq<Heartbeat>,
>
    decreases w.len(),
{
    if w.len() == 0 {
        Seq::empty()
    } else {
        let before = groups(w.drop_last(), cutoff, secs, max_points);
        if w.len() > 1 && bucket_index(w[w.len() - 2].at, cutoff, secs, max_points)
            == bucket_index(w.last().at, cutoff, secs, max_points) {
            before.drop_last().push(before.last().push(w.last()))
        } else {
            before.push(seq![w.last()])
        }
    }
}

/// The first of the most severe heartbeats.
pub open spec fn worst(g: Seq<Heartbeat>) -> Heartbeat
    recommends
        g.len() > 0,
    decreases g.len(),
{
    if g.len() <= 1 {
        g[0]
    } else {
        let w = worst(g.drop_last());
        if rank(g.last().status) > rank(w.status) {
            g.last()
        } else {
            w
        }
    }
}

/// The point that stands for one bucket: in its middle, with its worst status (and that
/// heartbeat's message) and the mean latency of its available heartbeats.
pub open spec fn point(g: Seq<Heartbeat>, cutoff: u64, secs: nat, max_points: nat) -> Heartbeat {
    Heartbeat {
        at: (cutoff + bucket_index(g.last().at, cutoff, secs, max_points) * secs + secs / 2) as u64,
        status: worst(g).status,
        latency_ms: mean_latency(g),
        message: worst(g).message,
    }
}

/// The heartbeats since `cutoff`, or one point per bucket where they are more than
/// `max_points`.
pub open spec fn points(b: Seq<Heartbeat>, cutoff: u64, now: u64, max_points: nat) -> Seq<
    Heartbeat,
> {
    let w = since(b, cutoff);
    if w.len() <= max_points {
        w
    } else {
        let secs = bucket_secs(cutoff, now, max_points);
        groups(w, cutoff, secs, max_points).map_values(
            |g: Seq<Heartbeat>| point(g, cutoff, secs, max_points),
        )
    }
}

/// Whether no bucket's middle lies beyond the last second that a heartbeat can name.
pub open spec fn middles_fit(b: Seq<Heartbeat>, cutoff: u64, now: u64, max_points: nat) -> bool {
    forall|i: int|
        0 <= i < b.len() ==> (#[trigger] b[i]).at + bucket_secs(cutoff, now, max_points) / 2
            <= u64::MAX
}

pub proof fn lemma_since(b: Seq<Heartbeat>, cutoff: u64)
    ensures
        since(b, cutoff).len() <= b.len(),
        forall|i: int|
            0 <= i < since(b, cutoff).len() ==> (#[trigger] since(b, cutoff)[i]).at >= cutoff
                && b.contains(since(b, cutoff)[i]),
    decreases b.len(),
{
    if b.len() > 0 {
        lemma_since(b.drop_last(), cutoff);
        let before = since(b.drop_last(), cutoff);
        assert forall|i: int| 0 <= i < since(b, cutoff).len() implies (#[trigger] since(
            b,
            cutoff,
        )[i]).at >= cutoff && b.contains(since(b, cutoff)[i]) by {
            if i < before.len() {
                assert(since(b, cutoff)[i] == before[i]);
                let j = choose|j: int|
                    0 <= j < b.drop_last().len() && b.drop_last()[j] == before[i];
                assert(b[j] == before[i]);
            } else {
                assert(b[b.len() - 1] == since(b, cutoff)[i]);
            }
        }
    }
}

proof fn lemma_bucket_secs(cutoff: u64, now: u64, max_points: nat)
    requires
        max_points > 0,
    ensures
        1 <= bucket_secs(cutoff, now, max_points) <= u64::MAX,
{
    let span: nat = if now <= cutoff {
        1
    } else {
        (now - cutoff) as nat
    };
    assert(span % max_points == 0 ==> span / max_points >= 1) by (nonlinear_arith)
        requires
            span >= 1,
            max_points > 0,
    ;
    assert(span / max_points <= span) by (nonlinear_arith)
        requires
            span >= 1,
            max_points > 0,
    ;
    assert(span % max_points != 0 ==> span / max_points + 1 <= span) by (nonlinear_arith)
        requires
            span >= 1,
            max_points > 0,
    ;
}

/// A bucket begins no later than any of its heartbeats.
proof fn lemma_bucket_start(at: u64, cutoff: u64, secs: nat, max_points: nat)
    requires
        at >= cutoff,
        secs >= 1,
        max_points > 0,
    ensures
        cutoff + bucket_index(at, cutoff, secs, max_points) * secs <= at,
        bucket_index(at, cutoff, secs, max_points) < max_points,
{
    let d = (at - cutoff) as nat;
    let i = d / secs;
    assert(i * secs <= d) by (nonlinear_arith)
        requires
            secs >= 1,
            i == d / secs,
    ;
    let k = bucket_index(at, cutoff, secs, max_points);
    assert(k * secs <= i * secs) by (nonlinear_arith)
        requires
            k <= i,
    ;
}

/// The point of a bucket.
fn point_of(group: &Vec<Heartbeat>, cutoff: u64, secs: u64, max_points: usize) -> (r: Heartbeat)
    requires
        group@.len() > 0,
        secs >= 1,
        max_points > 0,
        group@.last().at >= cutoff,
        group@.last().at + secs / 2 <= u64::MAX,
    ensures
        r == point(group@, cutoff, secs as nat, max_points as nat),
{
    let mut best: usize = 0;
    let mut i: usize = 1;
    proof {
        assert(group@.take(1).last() == group@[0]);
    }
    while i < group.len()
        invariant
            1 <= i <= group@.len(),
            best < i,
            group@[best as int] == worst(group@.take(i as int)),
        decreases group@.len() - i,
    {
        proof {
            assert(group@.take(i as int + 1).drop_last() =~= group@.take(i as int));
            assert(group@.take(i as int + 1).last() == group@[i as int]);
        }
        if group[i].status.severity() > group[best].status.severity() {
            best = i;
        }
        i += 1;
    }
    proof {
        assert(group@.take(group@.len() as int) =~= group@);
    }
    let last = &group[group.len() - 1];
    let index: u64 = clamped((last.at - cutoff) / secs, max_points);
    proof {
        lemma_bucket_start(last.at, cutoff, secs as nat, max_points as nat);
    }
    let start: u64 = cutoff + index * secs;
    Heartbeat {
        at: start + secs / 2,
        status: group[best].status,
        latency_ms: mean_of(group),
        message: group[best].message.clone(),
    }
}

/// `i`, or the last of `max_points` buckets where there are not as many.
fn clamped(i: u64, max_points: usize) -> (r: u64)
    requires
        max_points > 0,
    ensures
        r == if (i as nat) < max_points {
            i as int
        } else {
            max_points - 1
        },
{
    let last: u64 = (max_points - 1) as u64;
    if i <= last {
        i
    } else {
        last
    }
}

fn bucket_width(cutoff: u64, now: u64, max_points: usize) -> (r: u64)
    requires
        max_points > 0,
    ensures
        r == bucket_secs(cutoff, now, max_points as nat),
{
    let span: u64 = if now <= cutoff {
        1
    } else {
        now - cutoff
    };
    let buckets: u64 = max_points as u64;
    proof {
        lemma_bucket_secs(cutoff, now, max_points as nat);
    }
    if span % buckets == 0 {
        span / buckets
    } else {
        span / buckets + 1
    }
}

impl History {
    /// Whether no bucket's middle lies beyond the last second that a heartbeat can name.
    pub fn has_room(&self, cutoff: u64, now: u64, max_points: usize) -> (r: bool)
        requires
            max_points > 0,
        ensures
            r == middles_fit(self@, cutoff, now, max_points as nat),
    {
        let secs = bucket_width(cutoff, now, max_points);
        let n = self.beats.len();
        let mut i: usize = 0;
        while i < n
            invariant
                i <= n,
                n == self@.len(),
                self@ == self.beats@,
                secs == bucket_secs(cutoff, now, max_points as nat),
                forall|j: int| 0 <= j < i ==> (#[trigger] self@[j]).at + secs / 2 <= u64::MAX,
            decreases n - i,
        {
            if self.beats[i].at > u64::MAX - secs / 2 {
                proof {
                    assert(self@[i as int].at + secs / 2 > u64::MAX);
                }
                return false;
            }
            i += 1;
        }
        true
    }

    /// Beats since `cutoff`, aggregated into at most `max_points` time buckets when there are
    /// more: each bucket reports its worst status (with that beat's message) and the average
    /// latency of its available beats, so an outage never averages away.
    pub fn downsampled(&self, cutoff: u64, now: u64, max_points: usize) -> (r: Vec<Heartbeat>)
        requires
            max_points > 0,
            middles_fit(self@, cutoff, now, max_points as nat),
        ensures
            r@ == points(self@, cutoff, now, max_points as nat),
    {
        let beats = self.since(cutoff);
        if beats.len() <= max_points {
            return beats;
        }
        let secs = bucket_width(cutoff, now, max_points);
        proof {
            lemma_bucket_secs(cutoff, now, max_points as nat);
            lemma_since(self@, cutoff);
        }
        let ghost w = beats@;
        let ghost all = groups(w, cutoff, secs as nat, max_points as nat);
        let ghost to_point = |g: Seq<Heartbeat>| point(g, cutoff, secs as nat, max_points as nat);
        let mut out: Vec<Heartbeat> = Vec::new();
        let mut group: Vec<Heartbeat> = Vec::new();
        let ghost mut done: Seq<Seq<Heartbeat>> = Seq::empty();
        let mut i: usize = 0;
        proof {
            assert(w.take(0) =~= Seq::<Heartbeat>::empty());
            assert(out@ =~= done.map_values(to_point));
        }
        while i < beats.len()
            invariant
                i <= beats@.len(),
                w == beats@,
                secs >= 1,
                max_points > 0,
                secs == bucket_secs(cutoff, now, max_points as nat),
                to_point == (|g: Seq<Heartbeat>|
                    point(g, cutoff, secs as nat, max_points as nat)),
                forall|j: int|
                    0 <= j < w.len() ==> (#[trigger] w[j]).at >= cutoff && w[j].at + secs / 2
                        <= u64::MAX,
                out@ == done.map_values(to_point),
                groups(w.take(i as int), cutoff, secs as nat, max_points as nat) == if i == 0 {
                    done
                } else {
                    done.push(group@)
                },
                i == 0 ==> group@.len() == 0 && done.len() == 0,
                i > 0 ==> group@.len() > 0 && group@.last() == w[i as int - 1],
            decreases beats@.len() - i,
        {
            let ghost prefix = w.take(i as int);
            let ghost longer = w.take(i as int + 1);
            proof {
                assert(longer.drop_last() =~= prefix);
                assert(longer.last() == w[i as int]);
                if i > 0 {
                    assert(longer[longer.len() - 2] == w[i as int - 1]);
                    assert(done.push(group@).drop_last() =~= done);
                }
            }
            let here: u64 = clamped((beats[i].at - cutoff) / secs, max_points);
            let joins: bool = i > 0 && clamped((beats[i - 1].at - cutoff) / secs, max_points)
                == here;
            if !joins && i > 0 {
                let p = point_of(&group, cutoff, secs, max_points);
                out.push(p);
                proof {
                    let before = done;
                    done = done.push(group@);
                    assert(done.map_values(to_point) =~= before.map_values(to_point).push(p));
                }
                group = Vec::new();
            }
            group.push(beats[i].clone());
            proof {
                if !joins {
                    assert(group@ =~= seq![w[i as int]]);
                }
            }
            i += 1;
        }
        proof {
            assert(w.take(w.len() as int) =~= w);
        }
        let p = point_of(&group, cutoff, secs, max_points);
        out.push(p);
        proof {
            assert(done.push(group@).map_values(to_point) =~= done.map_values(to_point).push(p));
            assert(out@ =~= all.map_values(to_point));
        }
        out
    }
}

// ---------------------------------------------------------------------------------------
// What holds of every history
// ---------------------------------------------------------------------------------------

/// Whether no heartbeat is older than one before it.
pub open spec fn chronological(b: Seq<Heartbeat>) -> bool {
    forall|i: int, j: int| 0 <= i <= j < b.len() ==> (#[trigger] b[i]).at <= (#[trigger] b[j]).at
}

proof fn lemma_since_all(b: Seq<Heartbeat>, cutoff: u64)
    requires
        forall|i: int| 0 <= i < b.len() ==> (#[trigger] b[i]).at >= cutoff,
    ensures
        since(b, cutoff) == b,
    decreases b.len(),
{
    if b.len() > 0 {
        lemma_since_all(b.drop_last(), cutoff);
        assert(b[b.len() - 1].at >= cutoff);
        assert(b.drop_last().push(b.last()) =~= b);
    } else {
        assert(b =~= Seq::<Heartbeat>::empty());
    }
}

proof fn lemma_since_skips_old_front(b: Seq<Heartbeat>, cutoff: u64)
    requires
        b.len() > 0,
        b[0].at < cutoff,
    ensures
        since(b, cutoff) == since(b.skip(1), cutoff),
    decreases b.len(),
{
    if b.len() == 1 {
        assert(b.drop_last() =~= Seq::<Heartbeat>::empty());
        assert(b.skip(1) =~= Seq::<Heartbeat>::empty());
    } else {
        lemma_since_skips_old_front(b.drop_last(), cutoff);
        assert(b.drop_last().skip(1) =~= b.skip(1).drop_last());
        assert(b.skip(1).last() == b.last());
    }
}

/// Pruning a chronological history keeps the heartbeats within retention and no others.
pub proof fn lemma_prune_keeps_exactly_the_retained(b: Seq<Heartbeat>, cutoff: u64)
    requires
        chronological(b),
    ensures
        pruned(b, cutoff) == since(b, cutoff),
    decreases b.len(),
{
    if b.len() > 0 && b[0].at < cutoff {
        lemma_since_skips_old_front(b, cutoff);
        assert forall|i: int, j: int| 0 <= i <= j < b.skip(1).len() implies (#[trigger] b.skip(
            1,
        )[i]).at <= (#[trigger] b.skip(1)[j]).at by {
            assert(b.skip(1)[i] == b[i + 1]);
            assert(b.skip(1)[j] == b[j + 1]);
        }
        lemma_prune_keeps_exactly_the_retained(b.skip(1), cutoff);
    } else {
        assert forall|i: int| 0 <= i < b.len() implies (#[trigger] b[i]).at >= cutoff by {
            assert(b[0].at <= b[i].at);
        }
        lemma_since_all(b, cutoff);
    }
}

/// Pruning drops nothing that is within retention, in whatever order the heartbeats came.
pub proof fn lemma_prune_drops_only_the_old(b: Seq<Heartbeat>, cutoff: u64)
    ensures
        pruned(b, cutoff).len() <= b.len(),
        pruned(b, cutoff) == b.skip(b.len() - pruned(b, cutoff).len()),
        forall|i: int| 0 <= i < b.len() - pruned(b, cutoff).len() ==> (#[trigger] b[i]).at < cutoff,
        pruned(b, cutoff).len() > 0 ==> pruned(b, cutoff)[0].at >= cutoff,
    decreases b.len(),
{
    if b.len() > 0 && b[0].at < cutoff {
        lemma_prune_drops_only_the_old(b.skip(1), cutoff);
        let p = pruned(b, cutoff);
        assert(b.skip(1).skip(b.skip(1).len() - p.len()) =~= b.skip(b.len() - p.len()));
        assert forall|i: int| 0 <= i < b.len() - p.len() implies (#[trigger] b[i]).at < cutoff by {
            if i > 0 {
                assert(b.skip(1)[i - 1] == b[i]);
            }
        }
    } else {
        assert(b.skip(0) =~= b);
    }
}

/// Whether the checks of `b` from `k` on are all down and the one before is not.
pub open spec fn outage_from(b: Seq<Heartbeat>, k: int) -> bool {
    &&& 0 <= k < b.len()
    &&& k > 0 ==> b[k - 1].status != Status::Down
    &&& forall|j: int| k <= j < b.len() ==> (#[trigger] b[j]).status == Status::Down
}

/// The current outage began at the first of the down checks that the history ends with.
pub proof fn lemma_streak_is_the_last_run(b: Seq<Heartbeat>)
    ensures
        streak_start(b) is None <==> b.len() == 0 || b.last().status != Status::Down,
        streak_start(b) is Some ==> exists|k: int| #[trigger]
            outage_from(b, k) && b[k].at == streak_start(b)->0,
    decreases b.len(),
{
    if b.len() > 0 && b.last().status == Status::Down {
        let front = b.drop_last();
        lemma_streak_is_the_last_run(front);
        if streak_start(front) is Some {
            let k = choose|k: int| #[trigger]
                outage_from(front, k) && front[k].at == streak_start(front)->0;
            assert forall|j: int| k <= j < b.len() implies (#[trigger] b[j]).status
                == Status::Down by {
                if j < front.len() {
                    assert(front[j] == b[j]);
                }
            }
            assert(outage_from(b, k));
        } else {
            assert(outage_from(b, b.len() - 1));
        }
    }
}

/// Two events in a row never have the same status, and the last one has the status that the
/// history ends with.
pub proof fn lemma_events_alternate(b: Seq<Heartbeat>)
    ensures
        b.len() > 0 ==> flips(b).len() > 0 && flips(b)[0] == b[0] && flips(b).last().status
            == b.last().status,
        forall|i: int|
            0 < i < flips(b).len() ==> flips(b)[i - 1].status != (#[trigger] flips(b)[i]).status,
    decreases b.len(),
{
    if b.len() > 0 {
        let front = b.drop_last();
        lemma_events_alternate(front);
        if front.len() > 0 {
            assert(front.last() == b[b.len() - 2]);
            assert(front[0] == b[0]);
        }
    }
}

proof fn lemma_worst(g: Seq<Heartbeat>)
    requires
        g.len() > 0,
    ensures
        g.contains(worst(g)),
        forall|i: int| 0 <= i < g.len() ==> rank((#[trigger] g[i]).status) <= rank(worst(g).status),
    decreases g.len(),
{
    if g.len() > 1 {
        lemma_worst(g.drop_last());
        let front = g.drop_last();
        let w = worst(front);
        let k = choose|k: int| 0 <= k < front.len() && front[k] == w;
        assert(g[k] == w);
        assert(g[g.len() - 1] == g.last());
        assert forall|i: int| 0 <= i < g.len() implies rank((#[trigger] g[i]).status) <= rank(
            worst(g).status,
        ) by {
            if i < front.len() {
                assert(front[i] == g[i]);
            }
        }
    } else {
        assert(g[0] == worst(g));
    }
}

/// Whether a heartbeat is in one of the groups.
spec fn grouped(gs: Seq<Seq<Heartbeat>>, beat: Heartbeat) -> bool {
    exists|k: int| 0 <= k < gs.len() && (#[trigger] gs[k]).contains(beat)
}

/// No group is empty, and the last one ends with the last heartbeat.
proof fn lemma_groups_shape(w: Seq<Heartbeat>, cutoff: u64, secs: nat, max_points: nat)
    ensures
        groups(w, cutoff, secs, max_points).len() == 0 <==> w.len() == 0,
        w.len() > 0 ==> groups(w, cutoff, secs, max_points).last().len() > 0 && groups(
            w,
            cutoff,
            secs,
            max_points,
        ).last().last() == w.last(),
        forall|k: int|
            0 <= k < groups(w, cutoff, secs, max_points).len() ==> (#[trigger] groups(
                w,
                cutoff,
                secs,
                max_points,
            )[k]).len() > 0,
    decreases w.len(),
{
    if w.len() > 0 {
        lemma_groups_shape(w.drop_last(), cutoff, secs, max_points);
    }
}

/// The heartbeats of a group are heartbeats of the window.
proof fn lemma_groups_sound(
    w: Seq<Heartbeat>,
    cutoff: u64,
    secs: nat,
    max_points: nat,
    k: int,
    j: int,
)
    requires
        0 <= k < groups(w, cutoff, secs, max_points).len(),
        0 <= j < groups(w, cutoff, secs, max_points)[k].len(),
    ensures
        w.contains(groups(w, cutoff, secs, max_points)[k][j]),
    decreases w.len(),
{
    let front = w.drop_last();
    let before = groups(front, cutoff, secs, max_points);
    let gs = groups(w, cutoff, secs, max_points);
    lemma_groups_shape(front, cutoff, secs, max_points);
    if k < before.len() && j < before[k].len() {
        lemma_groups_sound(front, cutoff, secs, max_points, k, j);
        assert(gs[k][j] == before[k][j]);
        let m = choose|m: int| 0 <= m < front.len() && front[m] == before[k][j];
        assert(w[m] == gs[k][j]);
    } else {
        assert(gs[k][j] == w.last());
        assert(w[w.len() - 1] == gs[k][j]);
    }
}

/// Every heartbeat of the window is in a group.
proof fn lemma_groups_complete(
    w: Seq<Heartbeat>,
    cutoff: u64,
    secs: nat,
    max_points: nat,
    i: int,
)
    requires
        0 <= i < w.len(),
    ensures
        grouped(groups(w, cutoff, secs, max_points), w[i]),
    decreases w.len(),
{
    let front = w.drop_last();
    let before = groups(front, cutoff, secs, max_points);
    let gs = groups(w, cutoff, secs, max_points);
    lemma_groups_shape(front, cutoff, secs, max_points);
    lemma_groups_shape(w, cutoff, secs, max_points);
    if i < front.len() {
        lemma_groups_complete(front, cutoff, secs, max_points, i);
        let k = choose|k: int| 0 <= k < before.len() && (#[trigger] before[k]).contains(front[i]);
        let j = choose|j: int| 0 <= j < before[k].len() && before[k][j] == front[i];
        assert(gs[k][j] == w[i]);
        assert(gs[k].contains(w[i]));
    } else {
        let g = gs[gs.len() - 1];
        assert(g[g.len() - 1] == w[i]);
        assert(g.contains(w[i]));
    }
}

/// Whether one of the points is at least as severe as `status`.
pub open spec fn reported(ps: Seq<Heartbeat>, status: Status) -> bool {
    exists|k: int| 0 <= k < ps.len() && rank(status) <= rank((#[trigger] ps[k]).status)
}

/// Whether one of the heartbeats has the status and the message of `p`.
pub open spec fn witnessed(w: Seq<Heartbeat>, p: Heartbeat) -> bool {
    exists|i: int|
        0 <= i < w.len() && (#[trigger] w[i]).status == p.status && w[i].message == p.message
}

/// An outage never averages away: every heartbeat of the window has a point that is at least
/// as severe.
pub proof fn lemma_outages_survive_downsampling(
    b: Seq<Heartbeat>,
    cutoff: u64,
    now: u64,
    max_points: nat,
    i: int,
)
    requires
        max_points > 0,
        0 <= i < since(b, cutoff).len(),
    ensures
        reported(points(b, cutoff, now, max_points), since(b, cutoff)[i].status),
{
    let w = since(b, cutoff);
    let ps = points(b, cutoff, now, max_points);
    if w.len() <= max_points {
        assert(ps[i] == w[i]);
    } else {
        let secs = bucket_secs(cutoff, now, max_points);
        let gs = groups(w, cutoff, secs, max_points);
        lemma_groups_shape(w, cutoff, secs, max_points);
        lemma_groups_complete(w, cutoff, secs, max_points, i);
        let k = choose|k: int| 0 <= k < gs.len() && (#[trigger] gs[k]).contains(w[i]);
        let j = choose|j: int| 0 <= j < gs[k].len() && gs[k][j] == w[i];
        lemma_worst(gs[k]);
        assert(ps[k] == point(gs[k], cutoff, secs, max_points));
        assert(rank(gs[k][j].status) <= rank(worst(gs[k]).status));
    }
}

/// Downsampling invents nothing: every point has the status and the message of a heartbeat of
/// the window.
pub proof fn lemma_points_come_from_the_window(
    b: Seq<Heartbeat>,
    cutoff: u64,
    now: u64,
    max_points: nat,
    k: int,
)
    requires
        max_points > 0,
        0 <= k < points(b, cutoff, now, max_points).len(),
    ensures
        witnessed(since(b, cutoff), points(b, cutoff, now, max_points)[k]),
{
    let w = since(b, cutoff);
    let ps = points(b, cutoff, now, max_points);
    if w.len() <= max_points {
        assert(ps[k] == w[k]);
    } else {
        let secs = bucket_secs(cutoff, now, max_points);
        let gs = groups(w, cutoff, secs, max_points);
        lemma_groups_shape(w, cutoff, secs, max_points);
        assert(gs[k].len() > 0);
        lemma_worst(gs[k]);
        let j = choose|j: int| 0 <= j < gs[k].len() && gs[k][j] == worst(gs[k]);
        lemma_groups_sound(w, cutoff, secs, max_points, k, j);
        let i = choose|i: int| 0 <= i < w.len() && w[i] == gs[k][j];
        assert(ps[k] == point(gs[k], cutoff, secs, max_points));
        assert(w[i].status == ps[k].status);
    }
}

proof fn lemma_since_chronological(b: Seq<Heartbeat>, cutoff: u64)
    requires
        chronological(b),
    ensures
        chronological(since(b, cutoff)),
    decreases b.len(),
{
    if b.len() > 0 {
        let front = b.drop_last();
        assert forall|i: int, j: int| 0 <= i <= j < front.len() implies (#[trigger] front[i]).at
            <= (#[trigger] front[j]).at by {
            assert(front[i] == b[i] && front[j] == b[j]);
        }
        lemma_since_chronological(front, cutoff);
        lemma_since(front, cutoff);
        let s = since(b, cutoff);
        let before = since(front, cutoff);
        assert forall|i: int, j: int| 0 <= i <= j < s.len() implies (#[trigger] s[i]).at <= (
        #[trigger] s[j]).at by {
            if j < before.len() {
                assert(s[i] == before[i] && s[j] == before[j]);
            } else if i < before.len() {
                assert(s[i] == before[i]);
                let m = choose|m: int| 0 <= m < front.len() && front[m] == before[i];
                assert(b[m].at <= b[b.len() - 1].at);
            }
        }
    }
}

proof fn lemma_bucket_index_monotone(x: u64, y: u64, cutoff: u64, secs: nat, max_points: nat)
    requires
        cutoff <= x <= y,
        secs >= 1,
        max_points > 0,
    ensures
        bucket_index(x, cutoff, secs, max_points) <= bucket_index(y, cutoff, secs, max_points),
        bucket_index(y, cutoff, secs, max_points) < max_points,
{
    let p = (x - cutoff) as nat;
    let q = (y - cutoff) as nat;
    assert(p / secs <= q / secs) by (nonlinear_arith)
        requires
            p <= q,
            secs >= 1,
    ;
}

proof fn lemma_groups_count(w: Seq<Heartbeat>, cutoff: u64, secs: nat, max_points: nat)
    requires
        chronological(w),
        secs >= 1,
        max_points > 0,
        forall|i: int| 0 <= i < w.len() ==> (#[trigger] w[i]).at >= cutoff,
    ensures
        w.len() > 0 ==> groups(w, cutoff, secs, max_points).len() <= bucket_index(
            w.last().at,
            cutoff,
            secs,
            max_points,
        ) + 1,
        w.len() == 0 ==> groups(w, cutoff, secs, max_points).len() == 0,
    decreases w.len(),
{
    if w.len() > 0 {
        let front = w.drop_last();
        assert forall|i: int, j: int| 0 <= i <= j < front.len() implies (#[trigger] front[i]).at
            <= (#[trigger] front[j]).at by {
            assert(front[i] == w[i] && front[j] == w[j]);
        }
        assert forall|i: int| 0 <= i < front.len() implies (#[trigger] front[i]).at >= cutoff by {
            assert(front[i] == w[i]);
        }
        lemma_groups_count(front, cutoff, secs, max_points);
        lemma_groups_shape(front, cutoff, secs, max_points);
        if front.len() > 0 {
            assert(front.last() == w[w.len() - 2]);
            assert(w[w.len() - 2].at <= w[w.len() - 1].at);
            lemma_bucket_index_monotone(
                w[w.len() - 2].at,
                w.last().at,
                cutoff,
                secs,
                max_points,
            );
        }
    }
}

/// Downsampling a chronological history leaves at most `max_points` points.
pub proof fn lemma_downsampling_bounds_the_points(
    b: Seq<Heartbeat>,
    cutoff: u64,
    now: u64,
    max_points: nat,
)
    requires
        chronological(b),
        max_points > 0,
    ensures
        points(b, cutoff, now, max_points).len() <= max_points,
{
    let w = since(b, cutoff);
    if w.len() > max_points {
        let secs = bucket_secs(cutoff, now, max_points);
        lemma_since_chronological(b, cutoff);
        lemma_since(b, cutoff);
        lemma_bucket_secs(cutoff, now, max_points);
        lemma_groups_count(w, cutoff, secs, max_points);
        assert(w[w.len() - 1].at >= cutoff);
        lemma_bucket_start(w.last().at, cutoff, secs, max_points);
    }
}

/// The heartbeats since a moment are those at or after it, in their order.
pub proof fn lemma_since_keeps_what_is_not_older(b: Seq<Heartbeat>, cutoff: u64)
    ensures
        since(b, cutoff) == b.filter(|h: Heartbeat| h.at >= cutoff),
    decreases b.len(),
{
    reveal(Seq::filter);
    if b.len() > 0 {
        lemma_since_keeps_what_is_not_older(b.drop_last(), cutoff);
    } else {
        assert(b =~= Seq::<Heartbeat>::empty());
    }
}

/// A moment some seconds ago is that many seconds before, or the beginning of time.
pub proof fn lemma_ago_is_before(now: u64, secs: u64)
    ensures
        ago(now, secs) <= now,
        now >= secs ==> ago(now, secs) + secs == now,
        now < secs ==> ago(now, secs) == 0,
{
}

/// No more than `n` of some items are taken, from the front on, and all where there are no more.
pub proof fn lemma_at_most_takes_the_first<A>(s: Seq<A>, n: nat)
    ensures
        at_most(s, n).len() <= n,
        at_most(s, n).len() == n || at_most(s, n).len() == s.len(),
        forall|i: int| 0 <= i < at_most(s, n).len() ==> #[trigger] at_most(s, n)[i] == s[i],
{
}

/// Only checks that were not down count as available.
pub proof fn lemma_available_checks_are_not_down(b: Seq<Heartbeat>)
    ensures
        count_available(b) == b.filter(|h: Heartbeat| h.status != Status::Down).len(),
    decreases b.len(),
{
    reveal(Seq::filter);
    if b.len() > 0 {
        lemma_available_checks_are_not_down(b.drop_last());
    }
}

/// The share of a stretch counts each of its checks, and as available those that were not down.
pub proof fn lemma_shares_count_the_checks(b: Seq<Heartbeat>)
    requires
        b.len() <= u64::MAX,
    ensures
        share_of(b) is None <==> b.len() == 0,
        share_of(b) is Some ==> share_of(b)->0.total == b.len() && share_of(b)->0.up == b.filter(
            |h: Heartbeat| h.status != Status::Down,
        ).len(),
{
    lemma_available_checks_are_not_down(b);
    lemma_available_bound(b);
}

proof fn lemma_latency_sums(b: Seq<Heartbeat>)
    ensures
        latency_count(b) == b.filter(
            |h: Heartbeat| h.status != Status::Down && h.latency_ms is Some,
        ).len(),
        latency_sum(b) == b.filter(
            |h: Heartbeat| h.status != Status::Down && h.latency_ms is Some,
        ).fold_left(0int, |sum: int, h: Heartbeat| sum + h.latency_ms->0),
    decreases b.len(),
{
    reveal(Seq::filter);
    if b.len() > 0 {
        let counts = |h: Heartbeat| h.status != Status::Down && h.latency_ms is Some;
        lemma_latency_sums(b.drop_last());
        let before = b.drop_last().filter(counts);
        assert(before.push(b.last()).drop_last() =~= before);
    }
}

/// The mean latency is that of the answered checks that were not down, rounded down: that many
/// milliseconds each fit into their sum, and one more each doesn't. There is one exactly where
/// there is such a check.
pub proof fn lemma_mean_latency_is_the_mean(b: Seq<Heartbeat>)
    ensures
        ({
            let timed = b.filter(|h: Heartbeat| h.status != Status::Down && h.latency_ms is Some);
            let sum = timed.fold_left(0int, |sum: int, h: Heartbeat| sum + h.latency_ms->0);
            &&& mean_latency(b) is None <==> timed.len() == 0
            &&& mean_latency(b) is Some ==> mean_latency(b)->0 * timed.len() <= sum < (
            mean_latency(b)->0 + 1) * timed.len()
        }),
{
    lemma_latency_sums(b);
    if latency_count(b) > 0 {
        lemma_mean_fits(b);
        let s = latency_sum(b) as int;
        let n = latency_count(b) as int;
        assert((s / n) * n <= s < (s / n + 1) * n) by (nonlinear_arith)
            requires
                n > 0,
                s >= 0,
        ;
    }
}

proof fn lemma_push_contains(s: Seq<int>, x: int)
    ensures
        forall|i: int| s.push(x).contains(i) <==> s.contains(i) || i == x,
{
    let t = s.push(x);
    assert forall|i: int| t.contains(i) <==> s.contains(i) || i == x by {
        if s.contains(i) {
            let k = choose|k: int| 0 <= k < s.len() && s[k] == i;
            assert(t[k] == i);
        }
        if i == x {
            assert(t[s.len() as int] == i);
        }
        if t.contains(i) && i != x {
            let k = choose|k: int| 0 <= k < t.len() && t[k] == i;
            assert(s[k] == i);
        }
    }
}

/// The events of a history are its checks whose status differs from the one before, with the
/// first check, in their order: `at` tells where they stand.
pub proof fn lemma_events_are_the_flips(b: Seq<Heartbeat>) -> (at: Seq<int>)
    ensures
        at.len() == flips(b).len(),
        forall|k: int|
            0 <= k < at.len() ==> 0 <= #[trigger] at[k] < b.len() && flips(b)[k] == b[at[k]],
        forall|k: int, l: int| 0 <= k < l < at.len() ==> #[trigger] at[k] < #[trigger] at[l],
        forall|i: int| #[trigger]
            at.contains(i) <==> 0 <= i < b.len() && (i == 0 || b[i - 1].status != b[i].status),
    decreases b.len(),
{
    if b.len() == 0 {
        Seq::empty()
    } else {
        let front = b.drop_last();
        let n = front.len() as int;
        let before = lemma_events_are_the_flips(front);
        let flipped = n == 0 || b[n - 1].status != b[n].status;
        let at = if flipped {
            before.push(n)
        } else {
            before
        };
        lemma_push_contains(before, n);
        assert forall|k: int| 0 <= k < at.len() implies 0 <= #[trigger] at[k] < b.len() && flips(
            b,
        )[k] == b[at[k]] by {
            if k < before.len() {
                assert(front[before[k]] == b[before[k]]);
            }
        }
        assert forall|i: int| #[trigger] at.contains(i) <==> 0 <= i < b.len() && (i == 0
            || b[i - 1].status != b[i].status) by {
            if 0 < i < n {
                assert(front[i] == b[i] && front[i - 1] == b[i - 1]);
            }
            assert(before.contains(i) ==> i < n);
            assert(before.push(n).contains(i) <==> before.contains(i) || i == n);
            assert(before.contains(i) <==> 0 <= i < n && (i == 0 || b[i - 1].status
                != b[i].status));
        }
        at
    }
}

/// A day holds the checks between its midnight and the next one.
pub proof fn lemma_days_hold_their_checks(b: Seq<Heartbeat>, day: nat)
    requires
        (day + 1) * 86_400 <= u64::MAX,
        b.len() <= u64::MAX,
    ensures
        day_of(b, day).start == day * 86_400,
        day_of(b, day).total == b.filter(
            |h: Heartbeat| day * 86_400 <= h.at && h.at < (day + 1) * 86_400,
        ).len(),
        day_of(b, day).up == b.filter(
            |h: Heartbeat|
                day * 86_400 <= h.at && h.at < (day + 1) * 86_400 && h.status != Status::Down,
        ).len(),
{
    lemma_day_counts(b, day);
    lemma_on_day_bound(b, day);
    lemma_available_bound(on_day(b, day));
}

proof fn lemma_day_counts(b: Seq<Heartbeat>, day: nat)
    ensures
        on_day(b, day).len() == b.filter(
            |h: Heartbeat| day * 86_400 <= h.at && h.at < (day + 1) * 86_400,
        ).len(),
        count_available(on_day(b, day)) == b.filter(
            |h: Heartbeat|
                day * 86_400 <= h.at && h.at < (day + 1) * 86_400 && h.status != Status::Down,
        ).len(),
    decreases b.len(),
{
    reveal(Seq::filter);
    if b.len() > 0 {
        lemma_day_counts(b.drop_last(), day);
        let at = b.last().at as int;
        let before = on_day(b.drop_last(), day);
        assert(before.push(b.last()).drop_last() =~= before);
        assert(at / 86_400 == day <==> day * 86_400 <= at && at < (day + 1) * 86_400)
            by (nonlinear_arith)
            requires
                at >= 0,
        ;
    }
}

/// The days that are shown end today and are as many as asked for, as far back as days go.
pub proof fn lemma_days_end_today(now: u64, days: u64)
    ensures
        first_day(now, days) <= now as nat / 86_400,
        days > 0 && first_day(now, days) > 0 ==> now as nat / 86_400 - first_day(now, days) + 1
            == days,
        first_day(now, days) == 0 ==> days <= 1 || now as nat / 86_400 + 1 <= days,
        days == 0 ==> first_day(now, days) == now as nat / 86_400,
        days == 1 ==> first_day(now, days) == now as nat / 86_400,
{
}

/// The buckets cover the window and are no wider than that takes.
pub proof fn lemma_buckets_cover_the_window(cutoff: u64, now: u64, max_points: nat)
    requires
        max_points > 0,
        now > cutoff,
    ensures
        bucket_secs(cutoff, now, max_points) * max_points >= now - cutoff,
        (bucket_secs(cutoff, now, max_points) - 1) * max_points < now - cutoff,
{
    let span = now - cutoff;
    let n = max_points as int;
    assert((span / n) * n + span % n == span && 0 <= span % n < n) by (nonlinear_arith)
        requires
            n > 0,
    ;
    let q = span / n;
    assert((q + 1) * n == q * n + n && (q - 1) * n == q * n - n) by (nonlinear_arith);
}

/// Where the next of some stretches begins.
pub open spec fn next_cut(cuts: Seq<int>, k: int, len: nat) -> int {
    if k + 1 < cuts.len() {
        cuts[k + 1]
    } else {
        len as int
    }
}

/// Whether the `k`-th group is the stretch of a window that begins at its cut: neighbours of one
/// bucket, and the one before them is of another.
spec fn stretch(
    w: Seq<Heartbeat>,
    cuts: Seq<int>,
    cutoff: u64,
    secs: nat,
    max_points: nat,
    k: int,
) -> bool {
    let end = next_cut(cuts, k, w.len());
    &&& 0 <= cuts[k] < end <= w.len()
    &&& groups(w, cutoff, secs, max_points)[k] == w.subrange(cuts[k], end)
    &&& forall|i: int|
        cuts[k] <= i < end ==> bucket_index((#[trigger] w[i]).at, cutoff, secs, max_points)
            == bucket_index(w[end - 1].at, cutoff, secs, max_points)
    &&& k > 0 ==> bucket_index(w[cuts[k] - 1].at, cutoff, secs, max_points) != bucket_index(
        w[cuts[k]].at,
        cutoff,
        secs,
        max_points,
    )
}

proof fn lemma_stretch_step(
    w: Seq<Heartbeat>,
    before: Seq<int>,
    cuts: Seq<int>,
    cutoff: u64,
    secs: nat,
    max_points: nat,
    k: int,
)
    requires
        w.len() > 0,
        0 <= k < cuts.len(),
        before.len() == groups(w.drop_last(), cutoff, secs, max_points).len(),
        w.len() > 1 <==> before.len() > 0,
        k < before.len() ==> stretch(w.drop_last(), before, cutoff, secs, max_points, k),
        0 < k < before.len() ==> before[k] > 0,
        cuts == if w.len() > 1 && bucket_index(w[w.len() - 2].at, cutoff, secs, max_points)
            == bucket_index(w.last().at, cutoff, secs, max_points) {
            before
        } else {
            before.push(w.len() - 1)
        },
    ensures
        stretch(w, cuts, cutoff, secs, max_points, k),
{
    let front = w.drop_last();
    let n = front.len() as int;
    let gs = groups(w, cutoff, secs, max_points);
    let old = groups(front, cutoff, secs, max_points);
    let end = next_cut(cuts, k, w.len());
    if k < before.len() {
        let e = next_cut(before, k, front.len());
        assert(old[k] == front.subrange(before[k], e));
        assert(front[e - 1] == w[e - 1]);
        assert forall|i: int| cuts[k] <= i < end implies bucket_index(
            (#[trigger] w[i]).at,
            cutoff,
            secs,
            max_points,
        ) == bucket_index(w[end - 1].at, cutoff, secs, max_points) by {
            if i < n {
                assert(front[i] == w[i]);
            }
        }
        if k > 0 {
            assert(front[before[k]] == w[cuts[k]] && front[before[k] - 1] == w[cuts[k] - 1]);
        }
    }
    assert(gs[k] =~= w.subrange(cuts[k], end));
}

proof fn lemma_cuts(w: Seq<Heartbeat>, cutoff: u64, secs: nat, max_points: nat) -> (cuts: Seq<int>)
    ensures
        cuts.len() == groups(w, cutoff, secs, max_points).len(),
        w.len() > 0 <==> cuts.len() > 0,
        w.len() > 0 ==> cuts[0] == 0,
        forall|k: int| 0 <= k < cuts.len() ==> #[trigger] cuts[k] < w.len(),
        forall|k: int, l: int| 0 <= k < l < cuts.len() ==> #[trigger] cuts[k] < #[trigger] cuts[l],
        forall|k: int|
            0 <= k < cuts.len() ==> #[trigger] stretch(w, cuts, cutoff, secs, max_points, k),
    decreases w.len(),
{
    if w.len() == 0 {
        Seq::empty()
    } else {
        let front = w.drop_last();
        let n = front.len() as int;
        let before = lemma_cuts(front, cutoff, secs, max_points);
        let joins = n > 0 && bucket_index(w[n - 1].at, cutoff, secs, max_points) == bucket_index(
            w[n].at,
            cutoff,
            secs,
            max_points,
        );
        let cuts = if joins {
            before
        } else {
            before.push(n)
        };
        lemma_groups_shape(front, cutoff, secs, max_points);
        assert forall|k: int| 0 <= k < cuts.len() implies #[trigger] stretch(
            w,
            cuts,
            cutoff,
            secs,
            max_points,
            k,
        ) by {
            assert(0 < k < before.len() ==> before[0] < before[k]);
            lemma_stretch_step(w, before, cuts, cutoff, secs, max_points, k);
        }
        cuts
    }
}

/// Whether a point stands for the heartbeats of a window from the `i`-th to before the `j`-th: it
/// has the status and the message of the first of the most severe, and their mean latency.
pub open spec fn stands_for(p: Heartbeat, w: Seq<Heartbeat>, i: int, j: int) -> bool {
    &&& p.latency_ms == mean_latency(w.subrange(i, j))
    &&& exists|m: int|
        i <= m < j && (#[trigger] w[m]).status == p.status && w[m].message == p.message && (
        forall|l: int| i <= l < j ==> rank((#[trigger] w[l]).status) <= rank(p.status)) && (
        forall|l: int| i <= l < m ==> rank((#[trigger] w[l]).status) < rank(p.status))
}

proof fn lemma_worst_is_the_first(g: Seq<Heartbeat>) -> (m: int)
    requires
        g.len() > 0,
    ensures
        0 <= m < g.len(),
        g[m] == worst(g),
        forall|l: int| 0 <= l < g.len() ==> rank((#[trigger] g[l]).status) <= rank(g[m].status),
        forall|l: int| 0 <= l < m ==> rank((#[trigger] g[l]).status) < rank(g[m].status),
    decreases g.len(),
{
    if g.len() == 1 {
        0
    } else {
        let front = g.drop_last();
        let m = lemma_worst_is_the_first(front);
        assert(forall|l: int| 0 <= l < front.len() ==> front[l] == #[trigger] g[l]);
        assert(g.last() == g[g.len() - 1]);
        if rank(g.last().status) > rank(front[m].status) {
            g.len() - 1
        } else {
            m
        }
    }
}

/// A chart's points, where the window holds more heartbeats than points are wanted: each stands
/// for a stretch of neighbours, the stretches make up the window, and `cuts` tells where they
/// begin. A point lies in the middle of the bucket that its heartbeats lie in, which is `secs`
/// wide; heartbeats past the last bucket belong to it. In a chronological history the points
/// follow one another in time.
pub proof fn lemma_points_stand_in_their_buckets(
    b: Seq<Heartbeat>,
    cutoff: u64,
    now: u64,
    max_points: nat,
) -> (cuts: Seq<int>)
    requires
        max_points > 0,
        middles_fit(b, cutoff, now, max_points),
        since(b, cutoff).len() > max_points,
    ensures
        ({
            let w = b.filter(|h: Heartbeat| h.at >= cutoff);
            let secs = bucket_secs(cutoff, now, max_points) as int;
            let ps = points(b, cutoff, now, max_points);
            &&& ps.len() == cuts.len()
            &&& cuts[0] == 0
            &&& forall|k: int|
                0 <= k < cuts.len() ==> 0 <= (#[trigger] cuts[k]) < next_cut(cuts, k, w.len())
                    <= w.len() && stands_for(ps[k], w, cuts[k], next_cut(cuts, k, w.len()))
            &&& forall|k: int, i: int|
                #![trigger ps[k], w[i]]
                0 <= k < cuts.len() && cuts[k] <= i < next_cut(cuts, k, w.len()) ==> {
                    if w[i].at - cutoff < max_points * secs {
                        &&& ps[k].at == cutoff + ((w[i].at - cutoff) / secs) * secs + secs / 2
                        &&& -secs < ps[k].at - w[i].at < secs
                    } else {
                        ps[k].at == cutoff + (max_points - 1) * secs + secs / 2
                    }
                }
            &&& chronological(b) ==> forall|k: int, l: int|
                0 <= k < l < ps.len() ==> (#[trigger] ps[k]).at < (#[trigger] ps[l]).at
        }),
{
    lemma_since_keeps_what_is_not_older(b, cutoff);
    lemma_since(b, cutoff);
    lemma_bucket_secs(cutoff, now, max_points);
    let w = since(b, cutoff);
    let secs = bucket_secs(cutoff, now, max_points);
    let gs = groups(w, cutoff, secs, max_points);
    let ps = points(b, cutoff, now, max_points);
    let cuts = lemma_cuts(w, cutoff, secs, max_points);
    assert forall|k: int| 0 <= k < cuts.len() implies 0 <= (#[trigger] cuts[k]) < next_cut(
        cuts,
        k,
        w.len(),
    ) <= w.len() && stands_for(ps[k], w, cuts[k], next_cut(cuts, k, w.len())) by {
        assert(stretch(w, cuts, cutoff, secs, max_points, k));
        lemma_point_stands(b, cutoff, now, max_points, cuts, k);
    }
    assert forall|k: int, i: int|
        #![trigger ps[k], w[i]]
        0 <= k < cuts.len() && cuts[k] <= i < next_cut(cuts, k, w.len()) implies {
        if w[i].at - cutoff < max_points * secs {
            &&& ps[k].at == cutoff + ((w[i].at - cutoff) / secs as int) * secs + secs as int / 2
            &&& -secs < ps[k].at - w[i].at < secs
        } else {
            ps[k].at == cutoff + (max_points - 1) * secs + secs as int / 2
        }
    } by {
        assert(stretch(w, cuts, cutoff, secs, max_points, k));
        lemma_point_time(b, cutoff, now, max_points, cuts, k, i);
    }
    if chronological(b) {
        lemma_since_chronological(b, cutoff);
        assert forall|k: int, l: int| 0 <= k < l < ps.len() implies (#[trigger] ps[k]).at < (
        #[trigger] ps[l]).at by {
            assert(stretch(w, cuts, cutoff, secs, max_points, k));
            assert(stretch(w, cuts, cutoff, secs, max_points, l));
            assert(cuts[k] < cuts[l]);
            lemma_points_advance(b, cutoff, now, max_points, cuts, k, l);
        }
    }
    cuts
}

proof fn lemma_point_stands(
    b: Seq<Heartbeat>,
    cutoff: u64,
    now: u64,
    max_points: nat,
    cuts: Seq<int>,
    k: int,
)
    requires
        since(b, cutoff).len() > max_points,
        ({
            let w = since(b, cutoff);
            let secs = bucket_secs(cutoff, now, max_points);
            &&& 0 <= k < cuts.len() == groups(w, cutoff, secs, max_points).len()
            &&& stretch(w, cuts, cutoff, secs, max_points, k)
        }),
    ensures
        stands_for(
            points(b, cutoff, now, max_points)[k],
            since(b, cutoff),
            cuts[k],
            next_cut(cuts, k, since(b, cutoff).len()),
        ),
{
    let w = since(b, cutoff);
    let secs = bucket_secs(cutoff, now, max_points);
    let g = groups(w, cutoff, secs, max_points)[k];
    let p = points(b, cutoff, now, max_points)[k];
    let e = next_cut(cuts, k, w.len());
    assert(p == point(g, cutoff, secs, max_points));
    let m = lemma_worst_is_the_first(g);
    let at = cuts[k] + m;
    assert(w[at] == g[m]);
    assert forall|l: int| cuts[k] <= l < e implies rank((#[trigger] w[l]).status) <= rank(
        p.status,
    ) by {
        assert(g[l - cuts[k]] == w[l]);
    }
    assert forall|l: int| cuts[k] <= l < at implies rank((#[trigger] w[l]).status) < rank(
        p.status,
    ) by {
        assert(g[l - cuts[k]] == w[l]);
    }
}

proof fn lemma_point_time(
    b: Seq<Heartbeat>,
    cutoff: u64,
    now: u64,
    max_points: nat,
    cuts: Seq<int>,
    k: int,
    i: int,
)
    requires
        max_points > 0,
        middles_fit(b, cutoff, now, max_points),
        since(b, cutoff).len() > max_points,
        ({
            let w = since(b, cutoff);
            let secs = bucket_secs(cutoff, now, max_points);
            &&& 0 <= k < cuts.len() == groups(w, cutoff, secs, max_points).len()
            &&& cuts[k] <= i < next_cut(cuts, k, w.len())
            &&& stretch(w, cuts, cutoff, secs, max_points, k)
        }),
    ensures
        ({
            let w = since(b, cutoff);
            let secs = bucket_secs(cutoff, now, max_points) as int;
            let p = points(b, cutoff, now, max_points)[k];
            &&& p.at == cutoff + bucket_index(w[i].at, cutoff, secs as nat, max_points) * secs
                + secs / 2
            &&& if w[i].at - cutoff < max_points * secs {
                &&& p.at == cutoff + ((w[i].at - cutoff) / secs) * secs + secs / 2
                &&& -secs < p.at - w[i].at < secs
            } else {
                p.at == cutoff + (max_points - 1) * secs + secs / 2
            }
        }),
{
    lemma_since(b, cutoff);
    lemma_bucket_secs(cutoff, now, max_points);
    let w = since(b, cutoff);
    let secs = bucket_secs(cutoff, now, max_points);
    let g = groups(w, cutoff, secs, max_points)[k];
    let e = next_cut(cuts, k, w.len());
    assert(g.last() == w[e - 1]);
    let p = points(b, cutoff, now, max_points)[k];
    assert(p == point(g, cutoff, secs, max_points));
    lemma_bucket_start(w[e - 1].at, cutoff, secs, max_points);
    assert(b.contains(w[e - 1]));
    let x = choose|x: int| 0 <= x < b.len() && b[x] == w[e - 1];
    assert(b[x].at + secs / 2 <= u64::MAX);
    let d = w[i].at - cutoff;
    let s = secs as int;
    let n = max_points as int;
    assert((d / s) * s <= d < (d / s) * s + s) by (nonlinear_arith)
        requires
            s >= 1,
    ;
    let q = d / s;
    assert(q < n <==> d < n * s) by (nonlinear_arith)
        requires
            q * s <= d < q * s + s,
            s >= 1,
    ;
}

proof fn lemma_points_advance(
    b: Seq<Heartbeat>,
    cutoff: u64,
    now: u64,
    max_points: nat,
    cuts: Seq<int>,
    k: int,
    l: int,
)
    requires
        max_points > 0,
        middles_fit(b, cutoff, now, max_points),
        since(b, cutoff).len() > max_points,
        chronological(since(b, cutoff)),
        ({
            let w = since(b, cutoff);
            let secs = bucket_secs(cutoff, now, max_points);
            &&& cuts.len() == groups(w, cutoff, secs, max_points).len()
            &&& 0 <= k < l < cuts.len()
            &&& cuts[k] < cuts[l]
            &&& stretch(w, cuts, cutoff, secs, max_points, k)
            &&& stretch(w, cuts, cutoff, secs, max_points, l)
        }),
    ensures
        points(b, cutoff, now, max_points)[k].at < points(b, cutoff, now, max_points)[l].at,
{
    lemma_since(b, cutoff);
    lemma_bucket_secs(cutoff, now, max_points);
    let w = since(b, cutoff);
    let secs = bucket_secs(cutoff, now, max_points);
    let i = cuts[k];
    let j = cuts[l];
    lemma_point_time(b, cutoff, now, max_points, cuts, k, i);
    lemma_point_time(b, cutoff, now, max_points, cuts, l, j);
    assert(w[i].at <= w[j - 1].at <= w[j].at);
    lemma_bucket_index_monotone(w[i].at, w[j - 1].at, cutoff, secs, max_points);
    lemma_bucket_index_monotone(w[j - 1].at, w[j].at, cutoff, secs, max_points);
    let x = bucket_index(w[i].at, cutoff, secs, max_points) as int;
    let y = bucket_index(w[j].at, cutoff, secs, max_points) as int;
    let s = secs as int;
    assert(x * s < y * s) by (nonlinear_arith)
        requires
            x < y,
            s >= 1,
    ;
}

/// A window with no more heartbeats than points are wanted is drawn as it is.
pub proof fn lemma_short_windows_are_drawn_as_they_are(
    b: Seq<Heartbeat>,
    cutoff: u64,
    now: u64,
    max_points: nat,
)
    requires
        b.filter(|h: Heartbeat| h.at >= cutoff).len() <= max_points,
    ensures
        points(b, cutoff, now, max_points) == b.filter(|h: Heartbeat| h.at >= cutoff),
{
    lemma_since_keeps_what_is_not_older(b, cutoff);
}

} // verus!
