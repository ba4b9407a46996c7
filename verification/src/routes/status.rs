//! An app's public status page: its state, 30 days of daily uptime and the notices that name
//! it. Only for apps that were published; anything else is the same 404, so the page can't be
//! used to discover apps.

use vstd::prelude::*;

use crate::registry::slug_index;
use crate::registry::AppRegistry;
use crate::registry::AppView;
use crate::registry::RegisteredApp;
use crate::routes::embed::standing;
use crate::routes::embed::State;
use crate::uptime::history::DayUptime;
use crate::uptime::Status;

verus! {

/// Days of history drawn per app.
pub const HISTORY_DAYS: u64 = 30;

/// How a day's bar reads at a glance.
#[derive(Debug, Clone, Copy, PartialEq, Eq, Structural)]
pub enum Level {
    Up,
    Degraded,
    Down,
    /// No checks that day.
    Unmeasured,
}

/// The level of a day: up from 99.95 % on, degraded from 99 % on.
pub open spec fn level_of(up: nat, total: nat) -> Level {
    if total == 0 {
        Level::Unmeasured
    } else if up * 10_000 >= total * 9_995 {
        Level::Up
    } else if up * 100 >= total * 99 {
        Level::Degraded
    } else {
        Level::Down
    }
}

pub open spec fn level_key(level: Level) -> Seq<char> {
    match level {
        Level::Up => "up"@,
        Level::Degraded => "degraded"@,
        Level::Down => "down"@,
        Level::Unmeasured => "none"@,
    }
}

impl Level {
    /// The level of a day: up from 99.95 % on, degraded from 99 % on.
    pub fn of(day: DayUptime) -> (r: Self)
        ensures
            r == level_of(day.up as nat, day.total as nat),
    {
        if day.total == 0 {
            Level::Unmeasured
        } else if day.up as u128 * 10_000 >= day.total as u128 * 9_995 {
            Level::Up
        } else if day.up as u128 * 100 >= day.total as u128 * 99 {
            Level::Degraded
        } else {
            Level::Down
        }
    }

    /// What the page's styles call the level.
    pub fn key(self) -> (r: &'static str)
        ensures
            r@ == level_key(self),
    {
        match self {
            Level::Up => "up",
            Level::Degraded => "degraded",
            Level::Down => "down",
            Level::Unmeasured => "none",
        }
    }
}

/// The page's headline.
#[derive(Debug, Clone, Copy, PartialEq, Eq, Structural)]
pub enum Verdict {
    State(State),
    /// An open notice says more than the checks.
    Incident,
}

/// The headline: the app's state, unless an open notice says more. A notice while the checks
/// are green still means someone is dealing with something.
pub open spec fn headline(state: State, open_notices: bool) -> Verdict {
    if state == State::Down || !open_notices {
        Verdict::State(state)
    } else {
        Verdict::Incident
    }
}

/// The headline: the app's state, unless an open notice says more.
pub fn verdict(state: State, open_notices: bool) -> (r: Verdict)
    ensures
        r == headline(state, open_notices),
{
    match (state, open_notices) {
        (State::Down, _) | (_, false) => Verdict::State(state),
        (_, true) => Verdict::Incident,
    }
}

impl Verdict {
    /// What the template calls the headline.
    pub fn key(self) -> (r: &'static str)
        ensures
            r@ == match self {
                Verdict::State(state) => crate::routes::embed::state_key(state),
                Verdict::Incident => "incident"@,
            },
    {
        match self {
            Verdict::State(state) => state.key(),
            Verdict::Incident => "incident",
        }
    }
}

/// Whether a slug has a public page: that of the app at `i`.
pub open spec fn has_page(apps: Seq<AppView>, slug: Seq<char>, i: int) -> bool {
    slug_index(apps, slug) == Some(i) && apps[i].public
}

/// The app whose public page a slug names. One that isn't published answers as one that doesn't
/// exist.
pub fn published<'a>(registry: &'a AppRegistry, slug: &str) -> (r: Option<&'a RegisteredApp>)
    ensures
        match r {
            Some(app) => exists|i: int| #[trigger]
                has_page(registry@, slug@, i) && registry@[i] == app@,
            None => forall|i: int| !#[trigger] has_page(registry@, slug@, i),
        },
{
    match registry.find(slug) {
        Some(app) => if app.public {
            proof {
                let i = slug_index(registry@, slug@)->0;
                assert(has_page(registry@, slug@, i));
            }
            Some(app)
        } else {
            None
        },
        None => None,
    }
}

// ---------------------------------------------------------------------------------------
// What holds of every page
// ---------------------------------------------------------------------------------------

/// An outage is never hidden behind a notice.
pub proof fn lemma_outages_stay_in_the_headline(open_notices: bool)
    ensures
        headline(State::Down, open_notices) == Verdict::State(State::Down),
{
}

/// A day without a failed check is up, and a day without an available one is down.
pub proof fn lemma_extreme_days(total: nat)
    requires
        total > 0,
    ensures
        level_of(total, total) == Level::Up,
        level_of(0, total) == Level::Down,
{
}

/// The headline is the app's state where no notice is open or the app is down; any other app
/// with an open notice has an incident. So a down app's public headline is down, whatever the
/// notices.
pub proof fn lemma_headlines_follow_the_state(
    paused: bool,
    status: Option<Status>,
    state: State,
    open_notices: bool,
)
    ensures
        headline(state, open_notices) == Verdict::Incident <==> open_notices && state
            != State::Down,
        headline(state, open_notices) != Verdict::Incident ==> headline(state, open_notices)
            == Verdict::State(state),
        headline(standing(paused, status), open_notices) == Verdict::State(State::Down) <==> !paused
            && status == Some(Status::Down),
{
}

/// A day's level follows its share: up from 9995 of 10000 checks on, down below 99 of 100,
/// unmeasured only without checks; one more available check never makes it worse.
pub proof fn lemma_levels_follow_the_share(up: nat, total: nat)
    requires
        up <= total,
    ensures
        level_of(up, total) == Level::Unmeasured <==> total == 0,
        total > 0 ==> (level_of(up, total) == Level::Up <==> (total - up) * 2000 <= total),
        total > 0 ==> (level_of(up, total) == Level::Down <==> (total - up) * 100 > total),
{
}

/// Different levels have different names.
pub proof fn lemma_levels_read_differently(a: Level, b: Level)
    ensures
        level_key(a) == level_key(b) ==> a == b,
{
    reveal_strlit("up");
    reveal_strlit("degraded");
    reveal_strlit("down");
    reveal_strlit("none");
    if a != b {
        let k = level_key(a);
        let l = level_key(b);
        assert(k.len() != l.len() || k[0] != l[0]);
    }
}

/// A public page is an app's own and only a published app has one.
pub proof fn lemma_pages_are_published_apps(apps: Seq<AppView>, slug: Seq<char>, i: int)
    requires
        has_page(apps, slug, i),
        slug_index(apps, slug) is Some ==> 0 <= slug_index(apps, slug)->0 < apps.len(),
    ensures
        apps[i].public,
        0 <= i < apps.len(),
{
}

} // verus!
