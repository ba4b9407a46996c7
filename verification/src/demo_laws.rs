//! What holds of the generated logs: what apps log, when, and how often.

use vstd::prelude::*;
use vstd::utf8::encode_utf8;
use vstd::wrapping::u64_specs;

use crate::calendar::date_at;
use crate::calendar::stamp;
use crate::demo::backend_modules;
use crate::demo::crate_of;
use crate::demo::demo_app;
use crate::demo::draw;
use crate::demo::draws_of;
use crate::demo::errors;
use crate::demo::event_fields;
use crate::demo::events;
use crate::demo::fnv;
use crate::demo::in_effect;
use crate::demo::latency_of;
use crate::demo::line_of;
use crate::demo::methods;
use crate::demo::millis_of;
use crate::demo::mixed;
use crate::demo::next_state;
use crate::demo::object_json;
use crate::demo::panic_lines;
use crate::demo::panics_in;
use crate::demo::paths;
use crate::demo::profile_of;
use crate::demo::rolled;
use crate::demo::spread;
use crate::demo::state_after;
use crate::demo::statements;
use crate::demo::stderr_of;
use crate::demo::stdout_of;
use crate::demo::sum;
use crate::demo::target_of;
use crate::demo::undemoed;
use crate::demo::unstable;
use crate::demo::wanted_lines;
use crate::demo::weights_of;
use crate::demo::DEMO_HOST_SUFFIX;
use crate::demo::FieldView;
use crate::demo::MAX_LINES;
use crate::demo::PANIC_EVERY_SLOTS;
use crate::demo::Profile;
use crate::demo::SLOT_MILLIS;
use crate::demo::SLOT_SECS;
use crate::text::contains;
use crate::text::decimal;
use crate::text::ends_with;
use crate::text::replace;
use crate::text::split;
use crate::text::starts_with;
use crate::text::unsigned;
use crate::weburl::UrlView;

verus! {

/// A slug's words say how its app behaves, the worst first: a fall counts before anything else.
pub proof fn lemma_slugs_say_how_an_app_behaves(slug: Seq<char>)
    ensures
        profile_of(slug) == Profile::Down <==> contains(slug, "caida"@),
        profile_of(slug) == Profile::Flaky <==> contains(slug, "intermitente"@) && !contains(
            slug,
            "caida"@,
        ),
        profile_of(slug) == Profile::Slow <==> contains(slug, "degradada"@) && !contains(
            slug,
            "caida"@,
        ) && !contains(slug, "intermitente"@),
        profile_of(slug) == Profile::Recovered <==> contains(slug, "recuperada"@) && !contains(
            slug,
            "caida"@,
        ) && !contains(slug, "intermitente"@) && !contains(slug, "degradada"@),
{
}

/// A recovered app was down until twenty minutes ago, and has been steady since; any other
/// behaves as it always did.
pub proof fn lemma_recovered_apps_were_down(profile: Profile, ago: nat)
    ensures
        ago * 4 > 20 * 60 ==> in_effect(Profile::Recovered, ago) == Profile::Down,
        ago * 4 <= 20 * 60 ==> in_effect(Profile::Recovered, ago) == Profile::Steady,
        profile != Profile::Recovered ==> in_effect(profile, ago) == profile,
{
}

/// Nine kinds of events have weights; a steady app never logs an error, an app that is down
/// mostly does, and a slow one warns of slow queries as often as it serves requests.
pub proof fn lemma_apps_log_what_they_live_through(profile: Profile)
    ensures
        weights_of(profile).len() == 9,
        weights_of(Profile::Steady)[7] == 0 && weights_of(Profile::Steady)[8] == 0,
        weights_of(Profile::Recovered) == weights_of(Profile::Steady),
        weights_of(Profile::Down)[7] + weights_of(Profile::Down)[8] > weights_of(Profile::Down)[0]
            + weights_of(Profile::Down)[1] + weights_of(Profile::Down)[2],
        weights_of(Profile::Slow)[5] == weights_of(Profile::Slow)[0],
        weights_of(Profile::Steady) == seq![30u64, 30, 20, 6, 10, 2, 2, 0, 0],
        weights_of(Profile::Flaky) == seq![25u64, 25, 15, 4, 8, 6, 8, 6, 3],
        weights_of(Profile::Down) == seq![4u64, 10, 4, 1, 4, 4, 14, 30, 12],
        weights_of(Profile::Slow) == seq![25u64, 20, 15, 3, 6, 25, 4, 1, 1],
        unstable(profile) <==> profile == Profile::Flaky || profile == Profile::Down,
{
}

/// Sums are of all their parts.
pub proof fn lemma_sums_add_up(s: Seq<u64>)
    ensures
        sum(s) == s.fold_left(0int, |total: int, x: u64| total + x),
    decreases s.len(),
{
    if s.len() > 0 {
        lemma_sums_add_up(s.drop_last());
    }
}

/// A roll falls on the kind whose stretch of the weights it lies in, and on the first kind where
/// it lies past them all.
pub proof fn lemma_rolls_fall_by_weight(weights: Seq<u64>, roll: u64, k: int)
    requires
        0 <= k < weights.len(),
    ensures
        sum(weights.take(k)) <= roll < sum(weights.take(k + 1)) ==> rolled(weights, roll, 0) == k,
        roll >= sum(weights) ==> rolled(weights, roll, 0) == 0,
{
    if sum(weights.take(k)) <= roll < sum(weights.take(k + 1)) {
        lemma_roll_from(weights, roll, 0, k);
        assert(weights.take(0) =~= Seq::<u64>::empty());
    }
    if roll >= sum(weights) {
        lemma_roll_past(weights, roll, 0);
        assert(weights.take(0) =~= Seq::<u64>::empty());
    }
}

proof fn lemma_take_sum(weights: Seq<u64>, i: int)
    requires
        0 <= i < weights.len(),
    ensures
        sum(weights.take(i + 1)) == sum(weights.take(i)) + weights[i],
{
    assert(weights.take(i + 1).drop_last() =~= weights.take(i));
    assert(weights.take(i + 1).last() == weights[i]);
}

proof fn lemma_sums_grow(weights: Seq<u64>, i: int, j: int)
    requires
        0 <= i <= j <= weights.len(),
    ensures
        sum(weights.take(i)) <= sum(weights.take(j)),
    decreases j - i,
{
    if i < j {
        lemma_take_sum(weights, j - 1);
        lemma_sums_grow(weights, i, j - 1);
    }
}

proof fn lemma_roll_from(weights: Seq<u64>, roll: u64, from: nat, k: int)
    requires
        from <= k < weights.len(),
        sum(weights.take(k)) - sum(weights.take(from as int)) <= roll,
        roll < sum(weights.take(k + 1)) - sum(weights.take(from as int)),
    ensures
        rolled(weights, roll, from) == k,
    decreases k - from,
{
    lemma_take_sum(weights, from as int);
    if from < k {
        lemma_sums_grow(weights, from as int + 1, k);
        let rest = (roll - weights[from as int]) as u64;
        lemma_roll_from(weights, rest, from + 1, k);
    }
}

proof fn lemma_roll_past(weights: Seq<u64>, roll: u64, from: nat)
    requires
        from <= weights.len(),
        roll >= sum(weights) - sum(weights.take(from as int)),
    ensures
        rolled(weights, roll, from) == 0,
    decreases weights.len() - from,
{
    if from < weights.len() {
        lemma_take_sum(weights, from as int);
        lemma_sums_grow(weights, from as int + 1, weights.len() as int);
        assert(weights.take(weights.len() as int) =~= weights);
        lemma_roll_past(weights, (roll - weights[from as int]) as u64, from + 1);
    }
}

/// A draw is below its bound, and every draw steps the state by the same odd number.
pub proof fn lemma_draws_are_below_their_bound(seed: u64, k: nat, n: u64)
    requires
        n > 0,
    ensures
        draw(seed, k, n) < n,
        state_after(seed, 0) == seed,
        state_after(seed, k) == (seed + k * 0x9E37_79B9_7F4A_7C15) % 0x1_0000_0000_0000_0000,
    decreases k,
{
    if k > 0 {
        let before = (k - 1) as nat;
        lemma_draws_are_below_their_bound(seed, before, n);
        let step: int = 0x9E37_79B9_7F4A_7C15;
        let big: int = 0x1_0000_0000_0000_0000;
        let x: int = seed + before * step;
        assert(seed + k * step == x + step) by (nonlinear_arith)
            requires
                x == seed + before * step,
                k == before + 1,
        ;
        assert((x % big + step) % big == (x + step) % big) by {
            vstd::arithmetic::div_mod::lemma_add_mod_noop(x, step, big);
            vstd::arithmetic::div_mod::lemma_small_mod(step as nat, big as nat);
        }
        let s = state_after(seed, before);
        assert(next_state(s) == (s + step) % big);
    }
}

/// A byte is folded into a hash, and the hash of nothing is where it starts.
pub proof fn lemma_hashes_fold_bytes(bytes: Seq<u8>, byte: u8)
    ensures
        fnv(Seq::empty()) == 0xcbf2_9ce4_8422_2325,
        fnv(bytes.push(byte)) == ((fnv(bytes) ^ byte as u64) * 0x0100_0000_01b3)
            % 0x1_0000_0000_0000_0000,
{
    assert(bytes.push(byte).drop_last() =~= bytes);
    let x = fnv(bytes) ^ byte as u64;
    assert(u64_specs::wrapping_mul(x, 0x0100_0000_01b3) == (x * 0x0100_0000_01b3)
        % 0x1_0000_0000_0000_0000);
}

/// What an event says took long took from 12 to 391 milliseconds, on a slow app from 800 to
/// 3199.
pub proof fn lemma_latencies_are_in_range(seed: u64, profile: Profile)
    ensures
        profile == Profile::Slow ==> 800 <= latency_of(seed, profile) < 3200,
        profile != Profile::Slow ==> 12 <= latency_of(seed, profile) < 392,
        profile == Profile::Slow ==> latency_of(seed, profile) == 800 + draw(seed, 1, 2400),
        profile != Profile::Slow ==> latency_of(seed, profile) == 12 + draw(seed, 1, 380),
{
}

/// Every event tells its message first; requests that went well tell 200 and how long they took,
/// and failed ones tell 503 and an error.
pub proof fn lemma_events_tell_what_happened(kind: nat, seed: u64, profile: Profile)
    requires
        kind < 9,
    ensures
        ({
            let fields = event_fields(kind, seed, profile);
            &&& fields[0] == ("message"@, FieldView::Text(events()[kind as int].2))
            &&& kind == 0 ==> fields.contains(("status"@, FieldView::Number(200))) && fields.contains(
                ("latency_ms"@, FieldView::Number(latency_of(seed, profile))),
            )
            &&& kind == 1 ==> fields.contains(
                ("elapsed_ms"@, FieldView::Number((latency_of(seed, profile) / 4) as u64)),
            ) && fields.contains(("rows_affected"@, FieldView::Number(draw(seed, 3, 40))))
            &&& kind == 4 ==> fields.contains(("job"@, FieldView::Text("invoices"@)))
                && fields.contains(("processed"@, FieldView::Number((50 + draw(seed, 2, 400)) as u64)))
            &&& kind == 5 ==> fields.contains(
                ("elapsed_ms"@, FieldView::Number((1200 + draw(seed, 3, 3000)) as u64)),
            )
            &&& kind == 6 ==> fields.contains(("upstream"@, FieldView::Text("payments-api"@)))
                && fields.contains(("attempt"@, FieldView::Number((1 + draw(seed, 2, 3)) as u64)))
            &&& kind >= 7 ==> fields.contains(("status"@, FieldView::Number(503)))
                && fields.contains(("error"@, FieldView::Text(errors()[draw(seed, 2, 3) as int])))
            &&& kind == 0 || kind == 2 || kind == 3 ==> fields.contains(
                ("method"@, FieldView::Text(methods()[draw(seed, 2, 4) as int])),
            )
            &&& kind == 0 || kind == 2 || kind == 3 || kind >= 7 ==> fields.contains(
                ("path"@, FieldView::Text(paths()[draw(seed, 3, 6) as int])),
            )
            &&& kind == 1 || kind == 5 ==> fields.contains(
                ("db.statement"@, FieldView::Text(statements()[draw(seed, 2, 4) as int])),
            )
            &&& draws_of(kind) == 3 <==> kind != 4 && kind != 6
            &&& draws_of(kind) == 2 <==> kind == 4 || kind == 6
        }),
{
    let fields = event_fields(kind, seed, profile);
    assert(fields.contains(fields[0]));
    assert(fields.contains(fields[1]));
    assert(fields.contains(fields[2]));
    if kind == 0 {
        assert(fields.contains(fields[3]));
        assert(fields.contains(fields[4]));
    }
    if kind == 1 || kind >= 7 {
        assert(fields.contains(fields[3]));
    }
}

/// The levels of the nine kinds, from requests to failures.
pub proof fn lemma_events_have_levels()
    ensures
        events().len() == 9,
        events()[0].0 == "INFO"@ && events()[2].0 == "INFO"@ && events()[4].0 == "INFO"@,
        events()[1].0 == "DEBUG"@,
        events()[3].0 == "TRACE"@,
        events()[5].0 == "WARN"@ && events()[6].0 == "WARN"@,
        events()[7].0 == "ERROR"@ && events()[8].0 == "ERROR"@,
        events()[0].2 == "request completed"@,
        events()[5].2 == "slow query"@,
        events()[6].2 == "retrying upstream call"@,
        events()[7].2 == "request failed"@,
        events()[8].2 == "job failed"@,
        methods().len() == 4 && paths().len() == 6 && statements().len() == 4 && errors().len()
            == 3 && backend_modules().len() == 14,
{
}

/// An app's name in its targets is its slug without `demo-`, with underscores for hyphens.
pub proof fn lemma_targets_name_the_app(slug: Seq<char>)
    ensures
        undemoed("demo-"@ + slug) == undemoed(slug),
        !starts_with(slug, "demo-"@) ==> undemoed(slug) == slug,
        crate_of(slug).len() == undemoed(slug).len(),
        forall|i: int|
            0 <= i < crate_of(slug).len() ==> #[trigger] crate_of(slug)[i] == if undemoed(slug)[i]
                == '-' {
                '_'
            } else {
                undemoed(slug)[i]
            },
{
    reveal_strlit("demo-");
    assert("demo-"@ =~= seq!['d', 'e', 'm', 'o', '-']);
    let s = "demo-"@ + slug;
    assert(s.subrange(0, 5) =~= "demo-"@);
    assert(s.skip(5) =~= slug);
    lemma_one_for_one(undemoed(slug), '-', '_');
}

proof fn lemma_one_for_one(s: Seq<char>, from: char, to: char)
    ensures
        replace(s, seq![from], seq![to]) == Seq::new(
            s.len(),
            |i: int|
                if s[i] == from {
                    to
                } else {
                    s[i]
                },
        ),
    decreases s.len(),
{
    let all = Seq::new(
        s.len(),
        |i: int|
            if s[i] == from {
                to
            } else {
                s[i]
            },
    );
    if s.len() > 0 {
        let rest = s.skip(1);
        lemma_one_for_one(rest, from, to);
        assert(s.subrange(0, 1) =~= seq![s[0]]);
        assert(seq![s[0]][0] == s[0]);
        assert(seq![from][0] == from);
        let more = Seq::new(
            rest.len(),
            |i: int|
                if rest[i] == from {
                    to
                } else {
                    rest[i]
                },
        );
        assert(all =~= seq![all[0]] + more);
    } else {
        assert(all =~= s);
    }
}

/// An event's target is that of its kind where that has a path, and else one of the app's own;
/// the backend's are spread over its modules.
pub proof fn lemma_targets_are_the_apps_own(slug: Seq<char>, kind: nat, seed: u64)
    requires
        kind < 9,
    ensures
        ({
            let target = events()[kind as int].1;
            &&& contains(target, "::"@) ==> target_of(slug, kind, seed) == target && !spread(
                slug,
                kind,
            )
            &&& !contains(target, "::"@) && slug != "demo-backend"@ ==> target_of(slug, kind, seed)
                == crate_of(slug) + "::"@ + target && !spread(slug, kind)
            &&& !contains(target, "::"@) && slug == "demo-backend"@ ==> spread(slug, kind)
                && target_of(slug, kind, seed) == crate_of(slug) + "::"@
                + backend_modules()[draw(seed, 2, 14) as int]
        }),
{
}

/// Only unstable apps panic, and they do in one slot of every 150.
pub proof fn lemma_panics_come_regularly(slug: Seq<char>, profile: Profile, slot: u64, other: u64)
    requires
        slot <= other < slot + 150,
        other + fnv(encode_utf8(slug)) < 0x1_0000_0000_0000_0000,
    ensures
        panics_in(slug, profile, slot) ==> profile == Profile::Flaky || profile == Profile::Down,
        panics_in(slug, profile, slot) && panics_in(slug, profile, other) ==> slot == other,
        panics_in(slug, Profile::Down, slot) <==> panics_in(slug, Profile::Flaky, slot),
        (profile == Profile::Flaky || profile == Profile::Down) && (slot + fnv(encode_utf8(slug)))
            % 150 == 0 ==> panics_in(slug, profile, slot),
{
    let h = fnv(encode_utf8(slug));
    assert(u64_specs::wrapping_add(slot, h) == slot + h);
    assert(u64_specs::wrapping_add(other, h) == other + h);
}

/// A panic writes three lines, the first of which names the app's own file.
pub proof fn lemma_panics_name_the_file(slug: Seq<char>, slot: u64)
    ensures
        panic_lines(slug, slot).len() == 3,
        panic_lines(slug, slot)[0] == "thread 'tokio-runtime-worker' panicked at src/jobs/"@
            + crate_of(slug) + ".rs:"@ + decimal((40 + slot % 90) as nat) + ":14:"@,
        panic_lines(slug, slot)[1] == "called `Result::unwrap()` on an `Err` value: PoolTimedOut"@,
        panic_lines(slug, slot)[2]
            == "note: run with `RUST_BACKTRACE=1` environment variable to display a backtrace"@,
{
}

/// What stderr shows grows slot by slot, by three lines where the app panicked.
pub proof fn lemma_stderr_has_the_panics(
    slug: Seq<char>,
    profile: Profile,
    now: u64,
    first: u64,
    n: nat,
)
    requires
        first + n <= now,
    ensures
        stderr_of(slug, profile, now, first, 0).len() == 0,
        ({
            let slot = (first + n) as u64;
            let more = stderr_of(slug, profile, now, first, n + 1);
            let before = stderr_of(slug, profile, now, first, n);
            if panics_in(slug, in_effect(profile, (now - slot) as nat), slot) {
                more == before + panic_lines(slug, slot)
            } else {
                more == before
            }
        }),
{
}

/// Stdout shows one line for each slot, the newest last.
pub proof fn lemma_stdout_has_a_line_a_slot(
    slug: Seq<char>,
    profile: Profile,
    now: u64,
    n: u64,
    back: nat,
)
    requires
        back < n <= now + 1,
    ensures
        stdout_of(slug, profile, now, n).len() == n,
        stdout_of(slug, profile, now, n)[n - 1 - back] == line_of(
            slug,
            in_effect(profile, back),
            (now - back) as u64,
        ),
{
}

/// A demo URL's app is the first part of its path; a host elsewhere has none.
pub proof fn lemma_demo_urls_name_their_app(url: UrlView)
    ensures
        demo_app(url) is Some <==> url.host is Some && ends_with(
            url.host->0,
            ".heartbeat.invalid"@,
        ) && url.path.len() > 0 && url.path[0] == '/',
        demo_app(url) is Some ==> demo_app(url)->0 == split(url.path.skip(1), '/')[0],
{
}

/// As many lines as asked come, from one to two thousand, and five hundred where no number is
/// asked.
pub proof fn lemma_as_many_lines_as_asked(text: Seq<char>)
    ensures
        wanted_lines(None) == 500,
        unsigned(text, usize::MAX as nat) is None ==> wanted_lines(Some(text)) == 500,
        ({
            let n = unsigned(text, usize::MAX as nat);
            &&& n is Some && 1 <= n->0 <= 2000 ==> wanted_lines(Some(text)) == n->0
            &&& n == Some(0nat) ==> wanted_lines(Some(text)) == 1
            &&& n is Some && n->0 > 2000 ==> wanted_lines(Some(text)) == 2000
        }),
{
}

/// An event is dated within its slot of four seconds.
pub proof fn lemma_events_are_in_their_slot(slot: u64, seed: u64, k: nat)
    requires
        slot * 4000 + 4000 <= u64::MAX,
    ensures
        slot * 4000 <= millis_of(slot, seed, k) < slot * 4000 + 4000,
        millis_of(slot, seed, k) == slot * 4000 + draw(seed, k, 4000),
{
    assert(draw(seed, k, 4000) < 4000);
}

/// The times and limits of the generated logs.
pub proof fn lemma_demo_limits()
    ensures
        SLOT_SECS == 4,
        SLOT_MILLIS == SLOT_SECS * 1000,
        MAX_LINES == 2000,
        PANIC_EVERY_SLOTS == 150,
        DEMO_HOST_SUFFIX@ == ".heartbeat.invalid"@,
{
}

/// A state's number is the state folded into itself twice, by thirty and by 27 bits, multiplied
/// by an odd number each time, and folded once more by 31 bits.
pub proof fn lemma_states_are_mixed(state: u64, a: u64, b: u64)
    requires
        a == ((state ^ (state >> 30)) * 0xBF58_476D_1CE4_E5B9) % 0x1_0000_0000_0000_0000,
        b == ((a ^ (a >> 27)) * 0x94D0_49BB_1331_11EB) % 0x1_0000_0000_0000_0000,
    ensures
        mixed(state) == b ^ (b >> 31),
        forall|seed: u64, k: nat, n: u64|
            n > 0 && state_after(seed, k) == state ==> #[trigger] draw(seed, k, n) == (b ^ (b >> 31))
                % n,
{
    let x = state ^ (state >> 30);
    assert(u64_specs::wrapping_mul(x, 0xBF58_476D_1CE4_E5B9) == a);
    let y = a ^ (a >> 27);
    assert(u64_specs::wrapping_mul(y, 0x94D0_49BB_1331_11EB) == b);
}

/// A slot's line is drawn from the app's slug and the slot: its kind by the first draw and the
/// profile's weights, its time by the next, behind the one that picks the backend's module, and
/// its fields from there on.
pub proof fn lemma_lines_are_drawn(slug: Seq<char>, profile: Profile, slot: u64, kind: nat)
    requires
        ({
            let seed = fnv(encode_utf8(slug)) ^ u64_specs::wrapping_mul(
                slot,
                0x2545_F491_4F6C_DD1D,
            );
            kind == rolled(
                weights_of(profile),
                draw(seed, 1, sum(weights_of(profile)) as u64),
                0,
            )
        }),
    ensures
        ({
            let seed = fnv(encode_utf8(slug)) ^ u64_specs::wrapping_mul(
                slot,
                0x2545_F491_4F6C_DD1D,
            );
            let k: nat = if slug == "demo-backend"@ && !contains(events()[kind as int].1, "::"@) {
                3
            } else {
                2
            };
            let millis = (slot * 4000 + draw(seed, k, 4000)) as u64;
            line_of(slug, profile, slot) == object_json(
                seq![
                    ("timestamp"@, stamp(date_at(millis), millis)),
                    ("level"@, events()[kind as int].0),
                    ("target"@, target_of(slug, kind, seed)),
                ],
                "fields"@,
                event_fields(kind, state_after(seed, k), profile),
            )
        }),
{
}

} // verus!
