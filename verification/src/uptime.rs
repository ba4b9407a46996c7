//! Uptime monitoring: every registered app's health URL is checked on an interval, each check
//! leaves one heartbeat, and the heartbeats make up the app's history.

pub mod gate;
pub mod history;
pub mod incidents;
pub mod monitor;
pub mod monitor_laws;
pub mod probe;
pub mod rounds;
pub mod schedule;

use vstd::prelude::*;

verus! {

pub const DAY_SECS: u64 = 86_400;

/// Traffic-light state of one check: green, yellow, red.
#[derive(Debug, Clone, Copy, PartialEq, Eq, Structural)]
pub enum Status {
    Up,
    /// Answered as expected, but slower than the threshold.
    Degraded,
    Down,
}

/// The traffic light of one check.
pub open spec fn light(success: bool, latency_ms: u32, degraded_after_ms: u32) -> Status {
    if !success {
        Status::Down
    } else if latency_ms > degraded_after_ms {
        Status::Degraded
    } else {
        Status::Up
    }
}

/// How bad a status is: down is worse than degraded, degraded than up.
pub open spec fn rank(status: Status) -> int {
    match status {
        Status::Up => 0,
        Status::Degraded => 1,
        Status::Down => 2,
    }
}

/// Whether the app was serving requests: slow still counts toward uptime.
pub open spec fn available(status: Status) -> bool {
    status != Status::Down
}

impl Status {
    #[must_use]
    pub fn classify(success: bool, latency_ms: u32, degraded_after_ms: u32) -> (r: Self)
        ensures
            r == light(success, latency_ms, degraded_after_ms),
    {
        match (success, latency_ms > degraded_after_ms) {
            (false, _) => Status::Down,
            (true, true) => Status::Degraded,
            (true, false) => Status::Up,
        }
    }

    /// Ordering for "worst of": down > degraded > up.
    #[must_use]
    pub fn severity(self) -> (r: u8)
        ensures
            r == rank(self),
    {
        match self {
            Status::Up => 0,
            Status::Degraded => 1,
            Status::Down => 2,
        }
    }

    /// Whether the app was serving requests.
    #[must_use]
    pub fn is_available(self) -> (r: bool)
        ensures
            r == available(self),
    {
        match self {
            Status::Up | Status::Degraded => true,
            Status::Down => false,
        }
    }
}

#[derive(Debug)]
pub struct Heartbeat {
    /// Unix seconds.
    pub at: u64,
    pub status: Status,
    /// `None` when the request never got a response (DNS, connect, timeout).
    pub latency_ms: Option<u32>,
    pub message: String,
}

impl Clone for Heartbeat {
    fn clone(&self) -> (r: Self)
        ensures
            r == *self,
    {
        Heartbeat {
            at: self.at,
            status: self.status,
            latency_ms: self.latency_ms,
            message: self.message.clone(),
        }
    }
}

impl Heartbeat {
    /// A failed check at `at`.
    pub fn down(message: String, latency_ms: Option<u32>, at: u64) -> (r: Self)
        ensures
            r.at == at,
            r.status == Status::Down,
            r.latency_ms == latency_ms,
            r.message == message,
    {
        Heartbeat { at, status: Status::Down, latency_ms, message }
    }
}

/// A check is down exactly when it failed; one that succeeded is up exactly when it took no
/// longer than the threshold. Slower is never better.
pub proof fn lemma_lights_follow_the_answer(success: bool, latency_ms: u32, threshold: u32)
    ensures
        light(success, latency_ms, threshold) == Status::Down <==> !success,
        light(success, latency_ms, threshold) == Status::Up <==> success && latency_ms <= threshold,
        forall|slower: u32|
            slower >= latency_ms ==> rank(#[trigger] light(success, slower, threshold)) >= rank(
                light(success, latency_ms, threshold),
            ),
{
}

/// Down is worse than degraded and degraded worse than up, and only a down app is not serving.
pub proof fn lemma_down_is_worst(status: Status)
    ensures
        rank(Status::Up) < rank(Status::Degraded) < rank(Status::Down),
        0 <= rank(status) <= 2,
        available(status) <==> status != Status::Down,
{
}

} // verus!
