//! Synthetic logs for the demo. The demo apps' logs URLs point at `*.heartbeat.invalid`, which
//! can't resolve; the logs proxy asks this module first and serves generated lines in the real
//! endpoint's shape instead.
//!
//! Lines are a pure function of the app and the clock: each 4-second slot holds one event whose
//! content is seeded by the app and the slot. A refresh shows the same older lines plus the new
//! ones, the way a real `tail` would, so the viewer's live mode looks live.

use vstd::prelude::*;
use vstd::utf8::encode_utf8;
use vstd::wrapping::u64_specs;

use crate::calendar::date_at;
use crate::calendar::rfc3339;
use crate::calendar::stamp;
use crate::text::chars_of;
use crate::text::contains;
use crate::text::decimal;
use crate::text::decimal_text;
use crate::text::ends_with;
use crate::text::has_suffix;
use crate::text::has_text;
use crate::text::lemma_views_push;
use crate::text::parse_unsigned;
use crate::text::pieces;
use crate::text::replace;
use crate::text::replaced;
use crate::text::same;
use crate::text::split;
use crate::text::starts_with;
use crate::text::text_between;
use crate::text::unsigned;
use crate::text::views;
use crate::text::without_prefix;
use crate::weburl::opt_view;
use crate::weburl::Url;
use crate::weburl::UrlView;

verus! {

/// Host suffix of the demo apps' logs URLs.
pub const DEMO_HOST_SUFFIX: &'static str = ".heartbeat.invalid";

pub const SLOT_SECS: u64 = 4;

/// Milliseconds of a slot.
pub const SLOT_MILLIS: u64 = 4_000;

pub const MAX_LINES: u64 = 2000;

/// A panic lands on stderr about once every this many slots (~10 min) on unstable apps.
pub const PANIC_EVERY_SLOTS: u64 = 150;

// ---------------------------------------------------------------------------------------
// How an app behaves
// ---------------------------------------------------------------------------------------

/// How an app behaves, from the demo slug: steady apps log mostly INFO, broken ones errors.
#[derive(Debug, Clone, Copy, PartialEq, Eq, Structural)]
pub enum Profile {
    Steady,
    Flaky,
    Down,
    Slow,
    /// Down until 20 minutes ago, steady since.
    Recovered,
}

/// The profile that a slug names.
pub open spec fn profile_of(slug: Seq<char>) -> Profile {
    if contains(slug, "caida"@) {
        Profile::Down
    } else if contains(slug, "intermitente"@) {
        Profile::Flaky
    } else if contains(slug, "degradada"@) {
        Profile::Slow
    } else if contains(slug, "recuperada"@) {
        Profile::Recovered
    } else {
        Profile::Steady
    }
}

/// The profile in effect `ago` slots back.
pub open spec fn in_effect(profile: Profile, ago: nat) -> Profile {
    if profile == Profile::Recovered {
        if ago * SLOT_SECS > 1200 {
            Profile::Down
        } else {
            Profile::Steady
        }
    } else {
        profile
    }
}

/// Relative weight of each kind of event.
pub open spec fn weights_of(profile: Profile) -> Seq<u64> {
    match profile {
        Profile::Steady | Profile::Recovered => seq![30, 30, 20, 6, 10, 2, 2, 0, 0],
        Profile::Flaky => seq![25, 25, 15, 4, 8, 6, 8, 6, 3],
        Profile::Down => seq![4, 10, 4, 1, 4, 4, 14, 30, 12],
        Profile::Slow => seq![25, 20, 15, 3, 6, 25, 4, 1, 1],
    }
}

pub open spec fn sum(s: Seq<u64>) -> nat
    decreases s.len(),
{
    if s.len() == 0 {
        0
    } else {
        sum(s.drop_last()) + s.last() as nat
    }
}

/// The sum of a profile's weights.
pub open spec fn total_weight(profile: Profile) -> u64 {
    sum(weights_of(profile)) as u64
}

/// Whether an app panics now and then.
pub open spec fn unstable(profile: Profile) -> bool {
    profile == Profile::Flaky || profile == Profile::Down
}

proof fn lemma_sum_prefix(s: Seq<u64>, i: int)
    requires
        0 <= i <= s.len(),
    ensures
        sum(s.take(i)) <= sum(s),
    decreases s.len(),
{
    if i < s.len() {
        lemma_sum_prefix(s.drop_last(), i);
        assert(s.drop_last().take(i) =~= s.take(i));
    } else {
        assert(s.take(i) =~= s);
    }
}

/// The weights of each profile add up to what a roll is drawn below.
proof fn lemma_weights_add_up(profile: Profile)
    ensures
        1 <= sum(weights_of(profile)) <= 100,
{
    reveal_with_fuel(sum, 10);
    let w = weights_of(profile);
    assert(w.drop_last().drop_last().drop_last().drop_last().drop_last().drop_last().drop_last()
        .drop_last().drop_last() =~= Seq::<u64>::empty());
}

impl Profile {
    pub fn for_slug(slug: &str) -> (r: Self)
        ensures
            r == profile_of(slug@),
    {
        if has_text(slug, "caida") {
            Profile::Down
        } else if has_text(slug, "intermitente") {
            Profile::Flaky
        } else if has_text(slug, "degradada") {
            Profile::Slow
        } else if has_text(slug, "recuperada") {
            Profile::Recovered
        } else {
            Profile::Steady
        }
    }

    /// The profile in effect `ago` slots back.
    pub fn at(self, ago: u64) -> (r: Self)
        ensures
            r == in_effect(self, ago as nat),
    {
        if self == Profile::Recovered {
            if ago as u128 * SLOT_SECS as u128 > 1200 {
                Profile::Down
            } else {
                Profile::Steady
            }
        } else {
            self
        }
    }

    /// Relative weight of each kind of event.
    pub fn weights(self) -> (r: Vec<u64>)
        ensures
            r@ == weights_of(self),
    {
        match self {
            Profile::Steady | Profile::Recovered => vec![30, 30, 20, 6, 10, 2, 2, 0, 0],
            Profile::Flaky => vec![25, 25, 15, 4, 8, 6, 8, 6, 3],
            Profile::Down => vec![4, 10, 4, 1, 4, 4, 14, 30, 12],
            Profile::Slow => vec![25, 20, 15, 3, 6, 25, 4, 1, 1],
        }
    }

    fn total(weights: &Vec<u64>) -> (r: u64)
        requires
            sum(weights@) <= 1000,
        ensures
            r == sum(weights@),
    {
        let mut total: u64 = 0;
        let mut i: usize = 0;
        proof {
            assert(weights@.take(0) =~= Seq::<u64>::empty());
        }
        while i < weights.len()
            invariant
                i <= weights@.len(),
                sum(weights@) <= 1000,
                total == sum(weights@.take(i as int)),
            decreases weights@.len() - i,
        {
            proof {
                assert(weights@.take(i as int + 1).drop_last() =~= weights@.take(i as int));
                lemma_sum_prefix(weights@, i as int + 1);
            }
            total += weights[i];
            i += 1;
        }
        proof {
            assert(weights@.take(weights@.len() as int) =~= weights@);
        }
        total
    }

    pub fn panics(self) -> (r: bool)
        ensures
            r == unstable(self),
    {
        match self {
            Profile::Flaky | Profile::Down => true,
            _ => false,
        }
    }
}

// ---------------------------------------------------------------------------------------
// Numbers that look random
// ---------------------------------------------------------------------------------------

/// splitmix64: tiny, deterministic, good enough to vary demo lines.
pub struct Rng {
    pub state: u64,
}

pub open spec fn next_state(state: u64) -> u64 {
    u64_specs::wrapping_add(state, 0x9E37_79B9_7F4A_7C15)
}

/// The number that a state gives.
pub open spec fn mixed(state: u64) -> u64 {
    let a = u64_specs::wrapping_mul(state ^ (state >> 30), 0xBF58_476D_1CE4_E5B9);
    let b = u64_specs::wrapping_mul(a ^ (a >> 27), 0x94D0_49BB_1331_11EB);
    b ^ (b >> 31)
}

/// The state after `k` draws.
pub open spec fn state_after(seed: u64, k: nat) -> u64
    decreases k,
{
    if k == 0 {
        seed
    } else {
        next_state(state_after(seed, (k - 1) as nat))
    }
}

/// The `k`-th draw below `n`, counted from one.
pub open spec fn draw(seed: u64, k: nat, n: u64) -> u64 {
    (mixed(state_after(seed, k)) % n) as u64
}

impl Rng {
    pub fn new(seed: u64) -> (r: Self)
        ensures
            r.state == seed,
    {
        Rng { state: seed }
    }

    pub fn next(&mut self) -> (r: u64)
        ensures
            final(self).state == next_state(old(self).state),
            r == mixed(final(self).state),
    {
        self.state = self.state.wrapping_add(0x9E37_79B9_7F4A_7C15);
        let z = self.state;
        let a = (z ^ (z >> 30)).wrapping_mul(0xBF58_476D_1CE4_E5B9);
        let b = (a ^ (a >> 27)).wrapping_mul(0x94D0_49BB_1331_11EB);
        b ^ (b >> 31)
    }

    /// A number below `n`; zero where there is none.
    pub fn below(&mut self, n: u64) -> (r: u64)
        ensures
            final(self).state == next_state(old(self).state),
            r == if n == 0 {
                0
            } else {
                mixed(final(self).state) % n
            },
            n > 0 ==> r < n,
    {
        let drawn = self.next();
        if n == 0 {
            0
        } else {
            drawn % n
        }
    }
}

/// FNV-1a over bytes.
pub open spec fn fnv(bytes: Seq<u8>) -> u64
    decreases bytes.len(),
{
    if bytes.len() == 0 {
        0xcbf2_9ce4_8422_2325
    } else {
        u64_specs::wrapping_mul(fnv(bytes.drop_last()) ^ bytes.last() as u64, 0x0100_0000_01b3)
    }
}

/// A number for a text.
pub fn fnv1a(text: &str) -> (r: u64)
    ensures
        r == fnv(encode_utf8(text@)),
{
    let bytes = text.as_bytes();
    let mut hash: u64 = 0xcbf2_9ce4_8422_2325;
    let mut i: usize = 0;
    proof {
        assert(bytes@.take(0) =~= Seq::<u8>::empty());
    }
    while i < bytes.len()
        invariant
            i <= bytes@.len(),
            hash == fnv(bytes@.take(i as int)),
        decreases bytes@.len() - i,
    {
        proof {
            assert(bytes@.take(i as int + 1).drop_last() =~= bytes@.take(i as int));
            assert(bytes@.take(i as int + 1).last() == bytes@[i as int]);
        }
        hash = (hash ^ bytes[i] as u64).wrapping_mul(0x0100_0000_01b3);
        i += 1;
    }
    proof {
        assert(bytes@.take(bytes@.len() as int) =~= bytes@);
    }
    hash
}

// ---------------------------------------------------------------------------------------
// What is drawn from
// ---------------------------------------------------------------------------------------

pub open spec fn paths() -> Seq<Seq<char>> {
    seq![
        "/api/invoices"@,
        "/api/customers/:id"@,
        "/api/payments"@,
        "/health"@,
        "/api/webhooks/stripe"@,
        "/api/reports/monthly"@,
    ]
}

pub open spec fn methods() -> Seq<Seq<char>> {
    seq!["GET"@, "GET"@, "POST"@, "PUT"@]
}

pub open spec fn statements() -> Seq<Seq<char>> {
    seq![
        "SELECT * FROM invoices WHERE customer_id = $1"@,
        "UPDATE payments SET status = $1 WHERE id = $2"@,
        "INSERT INTO events (kind, payload) VALUES ($1, $2)"@,
        "SELECT count(*) FROM sessions WHERE expires_at > now()"@,
    ]
}

pub open spec fn errors() -> Seq<Seq<char>> {
    seq![
        "upstream connect error: connection refused (db-primary:5432)"@,
        "pool timed out while waiting for an open connection"@,
        "deadline has elapsed"@,
    ]
}

/// Demo · Backend is a bigger service: its app-local events spread over many modules, so the
/// viewer's module filter has more than it shows collapsed.
pub open spec fn backend_modules() -> Seq<Seq<char>> {
    seq![
        "http"@,
        "http::middleware"@,
        "auth"@,
        "auth::sessions"@,
        "billing"@,
        "billing::invoices"@,
        "cache"@,
        "db"@,
        "jobs"@,
        "jobs::scheduler"@,
        "mailer"@,
        "queue"@,
        "search"@,
        "webhooks"@,
    ]
}

fn path_at(i: u64) -> (r: &'static str)
    requires
        i < 6,
    ensures
        r@ == paths()[i as int],
{
    match i {
        0 => "/api/invoices",
        1 => "/api/customers/:id",
        2 => "/api/payments",
        3 => "/health",
        4 => "/api/webhooks/stripe",
        _ => "/api/reports/monthly",
    }
}

fn method_at(i: u64) -> (r: &'static str)
    requires
        i < 4,
    ensures
        r@ == methods()[i as int],
{
    match i {
        0 => "GET",
        1 => "GET",
        2 => "POST",
        _ => "PUT",
    }
}

fn statement_at(i: u64) -> (r: &'static str)
    requires
        i < 4,
    ensures
        r@ == statements()[i as int],
{
    match i {
        0 => "SELECT * FROM invoices WHERE customer_id = $1",
        1 => "UPDATE payments SET status = $1 WHERE id = $2",
        2 => "INSERT INTO events (kind, payload) VALUES ($1, $2)",
        _ => "SELECT count(*) FROM sessions WHERE expires_at > now()",
    }
}

fn error_at(i: u64) -> (r: &'static str)
    requires
        i < 3,
    ensures
        r@ == errors()[i as int],
{
    match i {
        0 => "upstream connect error: connection refused (db-primary:5432)",
        1 => "pool timed out while waiting for an open connection",
        _ => "deadline has elapsed",
    }
}

fn module_at(i: u64) -> (r: &'static str)
    requires
        i < 14,
    ensures
        r@ == backend_modules()[i as int],
{
    match i {
        0 => "http",
        1 => "http::middleware",
        2 => "auth",
        3 => "auth::sessions",
        4 => "billing",
        5 => "billing::invoices",
        6 => "cache",
        7 => "db",
        8 => "jobs",
        9 => "jobs::scheduler",
        10 => "mailer",
        11 => "queue",
        12 => "search",
        _ => "webhooks",
    }
}

/// One kind of event.
#[derive(Debug, Clone, Copy)]
pub struct Event {
    pub level: &'static str,
    pub target: &'static str,
    pub message: &'static str,
}

/// The level, the target and the message of each kind of event.
pub open spec fn events() -> Seq<(Seq<char>, Seq<char>, Seq<char>)> {
    seq![
        ("INFO"@, "http"@, "request completed"@),
        ("DEBUG"@, "sqlx::query"@, "summary"@),
        ("INFO"@, "http"@, "started processing request"@),
        ("TRACE"@, "tower_http::trace"@, "on_request"@),
        ("INFO"@, "jobs"@, "batch finished"@),
        ("WARN"@, "db"@, "slow query"@),
        ("WARN"@, "http"@, "retrying upstream call"@),
        ("ERROR"@, "http"@, "request failed"@),
        ("ERROR"@, "jobs"@, "job failed"@),
    ]
}

fn event_at(i: usize) -> (r: Event)
    requires
        i < 9,
    ensures
        (r.level@, r.target@, r.message@) == events()[i as int],
{
    match i {
        0 => Event { level: "INFO", target: "http", message: "request completed" },
        1 => Event { level: "DEBUG", target: "sqlx::query", message: "summary" },
        2 => Event { level: "INFO", target: "http", message: "started processing request" },
        3 => Event { level: "TRACE", target: "tower_http::trace", message: "on_request" },
        4 => Event { level: "INFO", target: "jobs", message: "batch finished" },
        5 => Event { level: "WARN", target: "db", message: "slow query" },
        6 => Event { level: "WARN", target: "http", message: "retrying upstream call" },
        7 => Event { level: "ERROR", target: "http", message: "request failed" },
        _ => Event { level: "ERROR", target: "jobs", message: "job failed" },
    }
}

/// The kind of event that a roll falls on, by the weights from index `from` on; the first kind
/// where it falls past them all.
pub open spec fn rolled(weights: Seq<u64>, roll: u64, from: nat) -> nat
    decreases weights.len() - from,
{
    if from >= weights.len() {
        0
    } else if roll < weights[from as int] {
        from
    } else {
        rolled(weights, (roll - weights[from as int]) as u64, from + 1)
    }
}

fn kind_rolled(weights: &Vec<u64>, roll: u64) -> (r: usize)
    requires
        weights@.len() == 9,
    ensures
        r == rolled(weights@, roll, 0),
        r < 9,
{
    let mut left: u64 = roll;
    let mut i: usize = 0;
    while i < weights.len()
        invariant
            i <= weights@.len(),
            weights@.len() == 9,
            rolled(weights@, left, i as nat) == rolled(weights@, roll, 0),
        decreases weights@.len() - i,
    {
        if left < weights[i] {
            return i;
        }
        left -= weights[i];
        i += 1;
    }
    0
}

// ---------------------------------------------------------------------------------------
// Lines
// ---------------------------------------------------------------------------------------

/// The value of a field.
#[derive(Debug)]
pub enum FieldValue {
    Text(String),
    Number(u64),
}

pub enum FieldView {
    Text(Seq<char>),
    Number(u64),
}

impl View for FieldValue {
    type V = FieldView;

    open spec fn view(&self) -> FieldView {
        match self {
            FieldValue::Text(text) => FieldView::Text(text@),
            FieldValue::Number(n) => FieldView::Number(*n),
        }
    }
}

pub open spec fn field_views(v: Seq<(String, FieldValue)>) -> Seq<(Seq<char>, FieldView)> {
    v.map_values(|p: (String, FieldValue)| (p.0@, p.1@))
}

/// The JSON text of an object that holds texts by name and, under one more name, an object of
/// fields.
pub uninterp spec fn object_json(
    texts: Seq<(Seq<char>, Seq<char>)>,
    name: Seq<char>,
    fields: Seq<(Seq<char>, FieldView)>,
) -> Seq<char>;

/// Calls `serde_json::Map::insert` for each entry and `to_string` of the object: named, with
/// nothing said of how JSON is written.
#[verifier::external_body]
fn object_text(
    texts: &Vec<(String, String)>,
    name: &str,
    fields: &Vec<(String, FieldValue)>,
) -> (r: String)
    ensures
        r@ == object_json(crate::i18n::entry_views(texts@), name@, field_views(fields@)),
{
    let mut inner = serde_json::Map::new();
    for (key, value) in fields {
        let json = match value {
            FieldValue::Text(text) => serde_json::Value::from(text.as_str()),
            FieldValue::Number(n) => serde_json::Value::from(*n),
        };
        inner.insert(key.clone(), json);
    }
    let mut object = serde_json::Map::new();
    for (key, text) in texts {
        object.insert(key.clone(), serde_json::Value::from(text.as_str()));
    }
    object.insert(name.to_string(), serde_json::Value::from(inner));
    serde_json::Value::from(object).to_string()
}

/// How long an event says that something took.
pub open spec fn latency_of(seed: u64, profile: Profile) -> u64 {
    if profile == Profile::Slow {
        (800 + draw(seed, 1, 2400)) as u64
    } else {
        (12 + draw(seed, 1, 380)) as u64
    }
}

/// The fields of an event of the kind `kind`, drawn from `seed` on.
pub open spec fn event_fields(kind: nat, seed: u64, profile: Profile) -> Seq<(Seq<char>, FieldView)> {
    let message = ("message"@, FieldView::Text(events()[kind as int].2));
    let latency = latency_of(seed, profile);
    if kind == 0 {
        seq![
            message,
            ("method"@, FieldView::Text(methods()[draw(seed, 2, 4) as int])),
            ("path"@, FieldView::Text(paths()[draw(seed, 3, 6) as int])),
            ("status"@, FieldView::Number(200)),
            ("latency_ms"@, FieldView::Number(latency)),
        ]
    } else if kind == 1 {
        seq![
            message,
            ("db.statement"@, FieldView::Text(statements()[draw(seed, 2, 4) as int])),
            ("rows_affected"@, FieldView::Number(draw(seed, 3, 40))),
            ("elapsed_ms"@, FieldView::Number((latency / 4) as u64)),
        ]
    } else if kind == 2 || kind == 3 {
        seq![
            message,
            ("method"@, FieldView::Text(methods()[draw(seed, 2, 4) as int])),
            ("path"@, FieldView::Text(paths()[draw(seed, 3, 6) as int])),
        ]
    } else if kind == 4 {
        seq![
            message,
            ("job"@, FieldView::Text("invoices"@)),
            ("processed"@, FieldView::Number((50 + draw(seed, 2, 400)) as u64)),
        ]
    } else if kind == 5 {
        seq![
            message,
            ("db.statement"@, FieldView::Text(statements()[draw(seed, 2, 4) as int])),
            ("elapsed_ms"@, FieldView::Number((1200 + draw(seed, 3, 3000)) as u64)),
        ]
    } else if kind == 6 {
        seq![
            message,
            ("attempt"@, FieldView::Number((1 + draw(seed, 2, 3)) as u64)),
            ("upstream"@, FieldView::Text("payments-api"@)),
        ]
    } else {
        seq![
            message,
            ("error"@, FieldView::Text(errors()[draw(seed, 2, 3) as int])),
            ("path"@, FieldView::Text(paths()[draw(seed, 3, 6) as int])),
            ("status"@, FieldView::Number(503)),
        ]
    }
}

/// How many numbers the fields of an event of the kind `kind` draw.
pub open spec fn draws_of(kind: nat) -> nat {
    if kind == 4 || kind == 6 {
        2
    } else {
        3
    }
}

fn text_field(name: &str, value: &str) -> (r: (String, FieldValue))
    ensures
        r.0@ == name@,
        r.1@ == FieldView::Text(value@),
{
    (name.to_owned(), FieldValue::Text(value.to_owned()))
}

fn number_field(name: &str, value: u64) -> (r: (String, FieldValue))
    ensures
        r.0@ == name@,
        r.1@ == FieldView::Number(value),
{
    (name.to_owned(), FieldValue::Number(value))
}

/// The fields of an event of the kind `kind`.
pub fn fields(kind: usize, rng: &mut Rng, profile: Profile) -> (r: Vec<(String, FieldValue)>)
    requires
        kind < 9,
    ensures
        field_views(r@) == event_fields(kind as nat, old(rng).state, profile),
        final(rng).state == state_after(old(rng).state, draws_of(kind as nat)),
{
    let ghost seed = rng.state;
    proof {
        reveal_with_fuel(state_after, 5);
    }
    let event = event_at(kind);
    let latency: u64 = if profile == Profile::Slow {
        800 + rng.below(2400)
    } else {
        12 + rng.below(380)
    };
    let message = text_field("message", event.message);
    let out = if kind == 0 {
        let method = text_field("method", method_at(rng.below(4)));
        let path = text_field("path", path_at(rng.below(6)));
        vec![
            message,
            method,
            path,
            number_field("status", 200),
            number_field("latency_ms", latency),
        ]
    } else if kind == 1 {
        let statement = text_field("db.statement", statement_at(rng.below(4)));
        let rows = number_field("rows_affected", rng.below(40));
        vec![message, statement, rows, number_field("elapsed_ms", latency / 4)]
    } else if kind == 2 || kind == 3 {
        let method = text_field("method", method_at(rng.below(4)));
        let path = text_field("path", path_at(rng.below(6)));
        vec![message, method, path]
    } else if kind == 4 {
        let job = text_field("job", "invoices");
        vec![message, job, number_field("processed", 50 + rng.below(400))]
    } else if kind == 5 {
        let statement = text_field("db.statement", statement_at(rng.below(4)));
        vec![message, statement, number_field("elapsed_ms", 1200 + rng.below(3000))]
    } else if kind == 6 {
        let attempt = number_field("attempt", 1 + rng.below(3));
        vec![message, attempt, text_field("upstream", "payments-api")]
    } else {
        let error = text_field("error", error_at(rng.below(3)));
        let path = text_field("path", path_at(rng.below(6)));
        vec![message, error, path, number_field("status", 503)]
    };
    proof {
        assert(field_views(out@) =~= event_fields(kind as nat, seed, profile));
    }
    out
}

/// A slug without the prefixes `demo-` that it begins with.
pub open spec fn undemoed(slug: Seq<char>) -> Seq<char>
    decreases slug.len(),
{
    if starts_with(slug, seq!['d', 'e', 'm', 'o', '-']) {
        undemoed(slug.skip(5))
    } else {
        slug
    }
}

/// The app's "crate name" for targets: `demo-backend` -> `backend`.
pub open spec fn crate_of(slug: Seq<char>) -> Seq<char> {
    replace(undemoed(slug), seq!['-'], seq!['_'])
}

pub fn crate_name(slug: &str) -> (r: String)
    ensures
        r@ == crate_of(slug@),
{
    let mut rest = slug.to_owned();
    proof {
        reveal_strlit("demo-");
        assert("demo-"@ =~= seq!['d', 'e', 'm', 'o', '-']);
    }
    loop
        invariant
            "demo-"@ == seq!['d', 'e', 'm', 'o', '-'],
            undemoed(rest@) == undemoed(slug@),
        ensures
            rest@ == undemoed(slug@),
        decreases rest@.len(),
    {
        match without_prefix(rest.as_str(), "demo-") {
            Some(shorter) => {
                rest = shorter;
            },
            None => {
                break ;
            },
        }
    }
    proof {
        reveal_strlit("-");
        reveal_strlit("_");
        assert("-"@ =~= seq!['-']);
        assert("_"@ =~= seq!['_']);
    }
    replaced(rest.as_str(), "-", "_")
}

/// The seed of an app's slot.
pub open spec fn seed_of(slug: Seq<char>, slot: u64) -> u64 {
    fnv(encode_utf8(slug)) ^ u64_specs::wrapping_mul(slot, 0x2545_F491_4F6C_DD1D)
}

/// The kind of the event in an app's slot.
pub open spec fn kind_of(slug: Seq<char>, profile: Profile, slot: u64) -> nat {
    rolled(weights_of(profile), draw(seed_of(slug, slot), 1, total_weight(profile)), 0)
}

/// Whether an event's target is spread over the backend's modules.
pub open spec fn spread(slug: Seq<char>, kind: nat) -> bool {
    !contains(events()[kind as int].1, "::"@) && slug == "demo-backend"@
}

/// The target of the event in an app's slot.
pub open spec fn target_of(slug: Seq<char>, kind: nat, seed: u64) -> Seq<char> {
    let target = events()[kind as int].1;
    if contains(target, "::"@) {
        target
    } else if slug == "demo-backend"@ {
        crate_of(slug) + "::"@ + backend_modules()[draw(seed, 2, 14) as int]
    } else {
        crate_of(slug) + "::"@ + target
    }
}

/// The moment of the event in an app's slot.
pub open spec fn millis_of(slot: u64, seed: u64, k: nat) -> u64 {
    (slot * SLOT_MILLIS + draw(seed, k, SLOT_MILLIS)) as u64
}

/// The line of an app's slot, when `profile` is in effect.
pub open spec fn line_of(slug: Seq<char>, profile: Profile, slot: u64) -> Seq<char> {
    let seed = seed_of(slug, slot);
    let kind = kind_of(slug, profile, slot);
    let k: nat = if spread(slug, kind) {
        3
    } else {
        2
    };
    let millis = millis_of(slot, seed, k);
    object_json(
        seq![
            ("timestamp"@, stamp(date_at(millis), millis)),
            ("level"@, events()[kind as int].0),
            ("target"@, target_of(slug, kind, seed)),
        ],
        "fields"@,
        event_fields(kind, state_after(seed, k), profile),
    )
}

/// The line of an app's slot, `ago` slots back.
#[verifier::rlimit(60)]
#[verifier::spinoff_prover]
pub fn stdout_line(slug: &str, profile: Profile, slot: u64, ago: u64) -> (r: String)
    requires
        slot * SLOT_MILLIS + SLOT_MILLIS <= u64::MAX,
    ensures
        r@ == line_of(slug@, in_effect(profile, ago as nat), slot),
{
    let ghost seed = seed_of(slug@, slot);
    proof {
        reveal_with_fuel(state_after, 4);
    }
    let mut rng = Rng::new(fnv1a(slug) ^ slot.wrapping_mul(0x2545_F491_4F6C_DD1D));
    let now = profile.at(ago);
    let weights = now.weights();
    proof {
        lemma_weights_add_up(now);
    }
    let roll = rng.below(Profile::total(&weights));
    let kind = kind_rolled(&weights, roll);
    let event = event_at(kind);
    let mut target: String;
    if has_text(event.target, "::") {
        target = event.target.to_owned();
    } else if same(slug, "demo-backend") {
        target = crate_name(slug);
        target.append("::");
        target.append(module_at(rng.below(14)));
    } else {
        target = crate_name(slug);
        target.append("::");
        target.append(event.target);
    }
    let millis: u64 = slot * SLOT_MILLIS + rng.below(SLOT_MILLIS);
    let values = fields(kind, &mut rng, now);
    let texts = vec![
        ("timestamp".to_owned(), rfc3339(millis)),
        ("level".to_owned(), event.level.to_owned()),
        ("target".to_owned(), target),
    ];
    proof {
        assert(crate::i18n::entry_views(texts@) =~= seq![
            ("timestamp"@, stamp(date_at(millis), millis)),
            ("level"@, events()[kind as int].0),
            ("target"@, target_of(slug@, kind as nat, seed)),
        ]);
    }
    object_text(&texts, "fields", &values)
}

/// Whether an app panics in a slot, when `profile` is in effect.
pub open spec fn panics_in(slug: Seq<char>, profile: Profile, slot: u64) -> bool {
    unstable(profile) && u64_specs::wrapping_add(slot, fnv(encode_utf8(slug))) % PANIC_EVERY_SLOTS
        == 0
}

/// What a panic in a slot writes.
pub open spec fn panic_lines(slug: Seq<char>, slot: u64) -> Seq<Seq<char>> {
    seq![
        "thread 'tokio-runtime-worker' panicked at src/jobs/"@ + crate_of(slug) + ".rs:"@ + decimal(
            (40 + slot % 90) as nat,
        ) + ":14:"@,
        "called `Result::unwrap()` on an `Err` value: PoolTimedOut"@,
        "note: run with `RUST_BACKTRACE=1` environment variable to display a backtrace"@,
    ]
}

/// What an app wrote to stderr in `n` slots from `first` on, seen from the slot `now`.
pub open spec fn stderr_of(slug: Seq<char>, profile: Profile, now: u64, first: u64, n: nat) -> Seq<
    Seq<char>,
>
    decreases n,
{
    if n == 0 {
        Seq::empty()
    } else {
        let before = stderr_of(slug, profile, now, first, (n - 1) as nat);
        let slot = (first + n - 1) as u64;
        if panics_in(slug, in_effect(profile, (now - slot) as nat), slot) {
            before + panic_lines(slug, slot)
        } else {
            before
        }
    }
}

/// The first of the `window` slots before `now`.
pub open spec fn first_slot(now: u64, window: u64) -> u64 {
    crate::uptime::history::ago(now, window)
}

/// What an app wrote to stderr in the `window` slots before `now_slot`, and in it.
pub fn stderr_lines(slug: &str, profile: Profile, now_slot: u64, window: u64) -> (r: Vec<String>)
    ensures
        views(r@) == stderr_of(
            slug@,
            profile,
            now_slot,
            first_slot(now_slot, window),
            (now_slot - first_slot(now_slot, window) + 1) as nat,
        ),
{
    let first = now_slot.saturating_sub(window);
    let hash = fnv1a(slug);
    let name = crate_name(slug);
    let mut lines: Vec<String> = Vec::new();
    let mut slot: u64 = first;
    proof {
        assert(views(lines@) =~= Seq::<Seq<char>>::empty());
    }
    loop
        invariant
            first <= slot <= now_slot,
            first == first_slot(now_slot, window),
            hash == fnv(encode_utf8(slug@)),
            name@ == crate_of(slug@),
            views(lines@) == stderr_of(slug@, profile, now_slot, first, (slot - first) as nat),
        decreases now_slot - slot,
    {
        if profile.at(now_slot - slot).panics() && slot.wrapping_add(hash) % PANIC_EVERY_SLOTS
            == 0 {
            let mut place = "thread 'tokio-runtime-worker' panicked at src/jobs/".to_owned();
            place.append(name.as_str());
            place.append(".rs:");
            let line = decimal_text(40 + slot % 90);
            place.append(line.as_str());
            place.append(":14:");
            let ghost before = lines@;
            lines.push(place);
            lines.push("called `Result::unwrap()` on an `Err` value: PoolTimedOut".to_owned());
            lines.push(
                "note: run with `RUST_BACKTRACE=1` environment variable to display a backtrace".to_owned(),
            );
            proof {
                assert(views(lines@) =~= views(before) + panic_lines(slug@, slot));
            }
        }
        if slot == now_slot {
            return lines;
        }
        slot += 1;
    }
}

/// Generated logs, in the endpoint contract's shape: the lines of each stream.
#[derive(Debug)]
pub struct DemoLogs {
    pub out: Vec<String>,
    pub error: Vec<String>,
}

/// The app that a demo logs URL names; `None` for any other URL.
pub open spec fn demo_app(url: UrlView) -> Option<Seq<char>> {
    match url.host {
        Some(host) => if ends_with(host, DEMO_HOST_SUFFIX@) && url.path.len() > 0 && url.path[0]
            == '/' {
            Some(split(url.path.skip(1), '/')[0])
        } else {
            None
        },
        None => None,
    }
}

/// How many lines are wanted: five hundred unless a number says otherwise, and never none or
/// more than two thousand.
pub open spec fn wanted_lines(lines: Option<Seq<char>>) -> u64 {
    let asked: nat = match lines {
        Some(text) => match unsigned(text, usize::MAX as nat) {
            Some(n) => n,
            None => 500,
        },
        None => 500,
    };
    if asked < 1 {
        1
    } else if asked > MAX_LINES {
        MAX_LINES
    } else {
        asked as u64
    }
}

/// The last `n` lines of an app at a slot, oldest first.
pub open spec fn stdout_of(slug: Seq<char>, profile: Profile, now: u64, n: u64) -> Seq<Seq<char>> {
    Seq::new(
        n as nat,
        |i: int|
            line_of(slug, in_effect(profile, (n - 1 - i) as nat), (now - (n - 1 - i)) as u64),
    )
}

/// The first `n` of some lines.
pub open spec fn first_lines(lines: Seq<Seq<char>>, n: u64) -> Seq<Seq<char>> {
    crate::uptime::history::at_most(lines, n as nat)
}

fn wanted_of(lines: Option<&str>) -> (r: u64)
    ensures
        r == wanted_lines(crate::uptime::probe::body_view(lines)),
        1 <= r <= MAX_LINES,
{
    let asked: u64 = match lines {
        Some(text) => match parse_unsigned(text, usize::MAX as u64) {
            Some(n) => n,
            None => 500,
        },
        None => 500,
    };
    if asked < 1 {
        1
    } else if asked > MAX_LINES {
        MAX_LINES
    } else {
        asked
    }
}

fn stdout_lines(slug: &str, profile: Profile, now_slot: u64, n: u64) -> (r: Vec<String>)
    requires
        1 <= n <= MAX_LINES,
        n <= now_slot + 1,
        now_slot * SLOT_MILLIS + SLOT_MILLIS <= u64::MAX,
    ensures
        views(r@) == stdout_of(slug@, profile, now_slot, n),
{
    let mut out: Vec<String> = Vec::new();
    let mut left: u64 = n;
    let ghost all = stdout_of(slug@, profile, now_slot, n);
    proof {
        assert(views(out@) =~= all.take(0));
    }
    while left > 0
        invariant
            left <= n <= MAX_LINES,
            n <= now_slot + 1,
            now_slot * SLOT_MILLIS + SLOT_MILLIS <= u64::MAX,
            all == stdout_of(slug@, profile, now_slot, n),
            all.len() == n,
            views(out@) == all.take(n - left),
        decreases left,
    {
        let ago: u64 = left - 1;
        let line = stdout_line(slug, profile, now_slot - ago, ago);
        proof {
            let i = n - left;
            assert(all[i] == line@);
            assert(all.take(i + 1) =~= all.take(i).push(line@));
            lemma_views_push(out@, line);
        }
        out.push(line);
        left -= 1;
    }
    proof {
        assert(all.take(n as int) =~= all);
    }
    out
}

fn demo_app_of(url: &Url) -> (r: Option<String>)
    ensures
        opt_view(r) == demo_app(url@),
{
    let host = match &url.host {
        None => {
            return None;
        },
        Some(host) => host,
    };
    let path = chars_of(url.path.as_str());
    if !has_suffix(host.as_str(), DEMO_HOST_SUFFIX) || path.len() == 0 || path[0] != '/' {
        return None;
    }
    let rest = text_between(&path, 1, path.len());
    proof {
        assert(rest@ =~= url@.path.skip(1));
    }
    let mut parts = pieces(rest.as_str(), '/');
    proof {
        assert(views(parts@)[0] == parts@[0]@);
    }
    Some(parts.remove(0))
}

/// Generated logs for a demo logs URL (`https://logs.heartbeat.invalid/<slug>/logs`), in the
/// endpoint contract's shape; `None` for any other URL.
pub fn logs(url: &Url, stream: Option<&str>, lines: Option<&str>, now: u64) -> (r: Option<DemoLogs>)
    requires
        wanted_lines(crate::uptime::probe::body_view(lines)) <= now / SLOT_SECS + 1,
        now * 1000 + SLOT_MILLIS <= u64::MAX,
    ensures
        match demo_app(url@) {
            None => r is None,
            Some(slug) => {
                let profile = profile_of(slug);
                let n = wanted_lines(crate::uptime::probe::body_view(lines));
                let slot = (now / SLOT_SECS) as u64;
                let first = first_slot(slot, n);
                let wanted = crate::uptime::probe::body_view(stream);
                &&& r is Some
                &&& views(r->0.out@) == if wanted == Some("error"@) {
                    Seq::empty()
                } else {
                    stdout_of(slug, profile, slot, n)
                }
                &&& views(r->0.error@) == if wanted == Some("out"@) {
                    Seq::empty()
                } else {
                    first_lines(
                        stderr_of(slug, profile, slot, first, (slot - first + 1) as nat),
                        n,
                    )
                }
            },
        },
{
    let slug = match demo_app_of(url) {
        None => {
            return None;
        },
        Some(slug) => slug,
    };
    let profile = Profile::for_slug(slug.as_str());
    let wanted = wanted_of(lines);
    let now_slot: u64 = now / SLOT_SECS;
    let show_out = match stream {
        Some(name) => !same(name, "error"),
        None => true,
    };
    let show_err = match stream {
        Some(name) => !same(name, "out"),
        None => true,
    };
    let none: Vec<String> = Vec::new();
    proof {
        assert(views(none@) =~= Seq::<Seq<char>>::empty());
    }
    let out = if show_out {
        stdout_lines(slug.as_str(), profile, now_slot, wanted)
    } else {
        Vec::new()
    };
    let error = if show_err {
        let mut all = stderr_lines(slug.as_str(), profile, now_slot, wanted);
        let ghost before = all@;
        if all.len() as u64 > wanted {
            all.truncate(wanted as usize);
            proof {
                assert(views(before.take(wanted as int)) =~= views(before).take(wanted as int));
            }
        }
        all
    } else {
        Vec::new()
    };
    proof {
        if !show_out {
            assert(views(out@) =~= Seq::<Seq<char>>::empty());
        }
        if !show_err {
            assert(views(error@) =~= Seq::<Seq<char>>::empty());
        }
    }
    Some(DemoLogs { out, error })
}

// ---------------------------------------------------------------------------------------
// What holds of every log
// ---------------------------------------------------------------------------------------

/// A refresh shows the same older lines plus the new ones: one slot later, every line but the
/// oldest is still there, one place up. The one line that changes is that of an app which
/// recovered, in the slot that has just moved into its outage twenty minutes ago.
pub proof fn lemma_refreshing_keeps_the_older_lines(
    slug: Seq<char>,
    profile: Profile,
    now: u64,
    n: u64,
    i: int,
)
    requires
        0 <= i < n - 1,
        n <= now + 1,
        now < u64::MAX,
        profile == Profile::Recovered ==> (n - 1 - i) * SLOT_SECS <= 1200 || (n - 2 - i) * SLOT_SECS
            > 1200,
    ensures
        stdout_of(slug, profile, (now + 1) as u64, n)[i] == stdout_of(slug, profile, now, n)[i + 1],
{
}

/// Only the demo's own hosts get generated logs.
pub proof fn lemma_other_hosts_get_no_generated_logs(url: UrlView)
    requires
        url.host is Some ==> !ends_with(url.host->0, DEMO_HOST_SUFFIX@),
    ensures
        demo_app(url) is None,
{
}

} // verus!
