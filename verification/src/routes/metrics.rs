//! Every app's state in the Prometheus text format, for scraping into an existing monitoring
//! stack. Off unless a token is configured; scrapers authenticate with it as a Bearer token.

use vstd::prelude::*;

use crate::security::header_text;
use crate::security::Header;
use crate::text::chars_of;
use crate::text::decimal;
use crate::text::decimal_text;
use crate::text::starts_with;
use crate::text::without_prefix;
use crate::token::is_secret;
use crate::token::secret_matches;
use crate::uptime::monitor::MonitorSummary;
use crate::uptime::Status;
use crate::weburl::opt_view;

verus! {

/// A character as a label value writes it.
pub open spec fn label_char(c: char) -> Seq<char> {
    if c == '\\' {
        seq!['\\', '\\']
    } else if c == '"' {
        seq!['\\', '"']
    } else if c == '\n' {
        seq!['\\', 'n']
    } else {
        seq![c]
    }
}

/// A text as a label value writes it.
pub open spec fn labelled(s: Seq<char>) -> Seq<char>
    decreases s.len(),
{
    if s.len() == 0 {
        Seq::empty()
    } else {
        labelled(s.drop_last()) + label_char(s.last())
    }
}

/// `\`, `"` and newlines escaped, as label values require.
pub fn label(value: &str) -> (r: String)
    ensures
        r@ == labelled(value@),
{
    let v = chars_of(value);
    let mut out = String::new();
    let mut i: usize = 0;
    proof {
        assert(v@.take(0) =~= Seq::<char>::empty());
        reveal_strlit("");
        assert(out@ =~= Seq::<char>::empty());
    }
    while i < v.len()
        invariant
            i <= v@.len(),
            out@ == labelled(v@.take(i as int)),
        decreases v@.len() - i,
    {
        let ghost before = out@;
        proof {
            assert(v@.take(i as int + 1).drop_last() =~= v@.take(i as int));
        }
        let c = v[i];
        if c == '\\' || c == '"' {
            out.push('\\');
            out.push(c);
        } else if c == '\n' {
            out.push('\\');
            out.push('n');
        } else {
            out.push(c);
        }
        proof {
            assert(out@ =~= before + label_char(c));
        }
        i += 1;
    }
    proof {
        assert(v@.take(v@.len() as int) =~= v@);
    }
    out
}

/// The two lines that introduce a gauge.
pub open spec fn heading(name: Seq<char>, help: Seq<char>) -> Seq<char> {
    "# HELP "@ + name + " "@ + help + "\n# TYPE "@ + name + " gauge\n"@
}

/// One app's sample: its slug and name as labels, and the value.
pub open spec fn sample(
    name: Seq<char>,
    slug: Seq<char>,
    app: Seq<char>,
    value: Seq<char>,
) -> Seq<char> {
    name + "{app=\""@ + labelled(slug) + "\",name=\""@ + labelled(app) + "\"} "@ + value + "\n"@
}

/// The samples of the apps that have a value.
pub open spec fn samples(
    name: Seq<char>,
    monitors: Seq<MonitorSummary>,
    values: Seq<Option<Seq<char>>>,
) -> Seq<char>
    decreases monitors.len(),
{
    if monitors.len() == 0 {
        Seq::empty()
    } else {
        let before = samples(name, monitors.drop_last(), values);
        let m = monitors.last();
        match values[monitors.len() - 1] {
            Some(value) => before + sample(name, m.slug@, m.name@, value),
            None => before,
        }
    }
}

/// One gauge family.
pub open spec fn family(
    name: Seq<char>,
    help: Seq<char>,
    monitors: Seq<MonitorSummary>,
    values: Seq<Option<Seq<char>>>,
) -> Seq<char> {
    heading(name, help) + samples(name, monitors, values)
}

pub open spec fn value_views(values: Seq<Option<String>>) -> Seq<Option<Seq<char>>> {
    values.map_values(|value: Option<String>| opt_view(value))
}

/// One gauge family: HELP/TYPE lines, then one sample per app that has a value.
pub fn gauge(
    out: &mut String,
    name: &str,
    help: &str,
    monitors: &Vec<MonitorSummary>,
    values: &Vec<Option<String>>,
)
    requires
        values@.len() == monitors@.len(),
    ensures
        final(out)@ == old(out)@ + family(name@, help@, monitors@, value_views(values@)),
{
    let ghost start = out@;
    let ghost all = value_views(values@);
    out.append("# HELP ");
    out.append(name);
    out.append(" ");
    out.append(help);
    out.append("\n# TYPE ");
    out.append(name);
    out.append(" gauge\n");
    proof {
        assert(monitors@.take(0) =~= Seq::<MonitorSummary>::empty());
        assert(out@ =~= start + (heading(name@, help@) + samples(
            name@,
            monitors@.take(0),
            all,
        )));
    }
    let mut i: usize = 0;
    while i < monitors.len()
        invariant
            i <= monitors@.len(),
            values@.len() == monitors@.len(),
            all == value_views(values@),
            out@ == start + (heading(name@, help@) + samples(
                name@,
                monitors@.take(i as int),
                all,
            )),
        decreases monitors@.len() - i,
    {
        let ghost before = out@;
        proof {
            assert(monitors@.take(i as int + 1).drop_last() =~= monitors@.take(i as int));
            assert(all[i as int] == opt_view(values@[i as int]));
        }
        if let Some(value) = &values[i] {
            let slug = label(monitors[i].slug.as_str());
            let app = label(monitors[i].name.as_str());
            out.append(name);
            out.append("{app=\"");
            out.append(slug.as_str());
            out.append("\",name=\"");
            out.append(app.as_str());
            out.append("\"} ");
            out.append(value.as_str());
            out.append("\n");
            proof {
                let m = monitors@[i as int];
                assert(out@ =~= before + sample(name@, m.slug@, m.name@, value@));
                assert(out@ =~= start + (heading(name@, help@) + samples(
                    name@,
                    monitors@.take(i as int + 1),
                    all,
                )));
            }
        }
        i += 1;
    }
    proof {
        assert(monitors@.take(monitors@.len() as int) =~= monitors@);
    }
}

/// A truth value as a gauge shows it.
pub open spec fn zero_or_one(b: bool) -> Seq<char> {
    if b {
        "1"@
    } else {
        "0"@
    }
}

pub open spec fn up_value(m: MonitorSummary) -> Option<Seq<char>> {
    match m.status {
        Some(status) => Some(zero_or_one(status != Status::Down)),
        None => None,
    }
}

pub open spec fn degraded_value(m: MonitorSummary) -> Option<Seq<char>> {
    match m.status {
        Some(status) => Some(zero_or_one(status == Status::Degraded)),
        None => None,
    }
}

pub open spec fn paused_value(m: MonitorSummary) -> Option<Seq<char>> {
    Some(zero_or_one(m.paused))
}

pub open spec fn latency_value(m: MonitorSummary) -> Option<Seq<char>> {
    match m.latency_ms {
        Some(ms) => Some(decimal(ms as nat)),
        None => None,
    }
}

pub open spec fn cert_value(m: MonitorSummary) -> Option<Seq<char>> {
    match m.cert_expires_at {
        Some(at) => Some(decimal(at as nat)),
        None => None,
    }
}

fn flag_text(b: bool) -> (r: String)
    ensures
        r@ == zero_or_one(b),
{
    if b {
        "1".to_owned()
    } else {
        "0".to_owned()
    }
}

/// What is read off a summary.
#[derive(Debug, Clone, Copy, PartialEq, Eq, Structural)]
pub enum Reading {
    Up,
    Degraded,
    Paused,
    Latency,
    CertExpiry,
}

pub open spec fn reading(kind: Reading, m: MonitorSummary) -> Option<Seq<char>> {
    match kind {
        Reading::Up => up_value(m),
        Reading::Degraded => degraded_value(m),
        Reading::Paused => paused_value(m),
        Reading::Latency => latency_value(m),
        Reading::CertExpiry => cert_value(m),
    }
}

pub open spec fn readings(kind: Reading, monitors: Seq<MonitorSummary>) -> Seq<Option<Seq<char>>> {
    monitors.map_values(|m: MonitorSummary| reading(kind, m))
}

fn read(kind: Reading, m: &MonitorSummary) -> (r: Option<String>)
    ensures
        opt_view(r) == reading(kind, *m),
{
    match kind {
        Reading::Up => match m.status {
            Some(status) => Some(flag_text(status != Status::Down)),
            None => None,
        },
        Reading::Degraded => match m.status {
            Some(status) => Some(flag_text(status == Status::Degraded)),
            None => None,
        },
        Reading::Paused => Some(flag_text(m.paused)),
        Reading::Latency => match m.latency_ms {
            Some(ms) => Some(decimal_text(ms as u64)),
            None => None,
        },
        Reading::CertExpiry => match m.cert_expires_at {
            Some(at) => Some(decimal_text(at)),
            None => None,
        },
    }
}

fn read_all(kind: Reading, monitors: &Vec<MonitorSummary>) -> (r: Vec<Option<String>>)
    ensures
        r@.len() == monitors@.len(),
        value_views(r@) == readings(kind, monitors@),
{
    let mut out: Vec<Option<String>> = Vec::new();
    let mut i: usize = 0;
    while i < monitors.len()
        invariant
            i <= monitors@.len(),
            out@.len() == i,
            forall|j: int|
                0 <= j < i ==> opt_view(#[trigger] out@[j]) == reading(kind, monitors@[j]),
        decreases monitors@.len() - i,
    {
        out.push(read(kind, &monitors[i]));
        i += 1;
    }
    proof {
        assert(value_views(out@) =~= readings(kind, monitors@));
    }
    out
}

/// The whole exposition. The shares of available checks, from 0 to 1, come as texts.
pub open spec fn exposition(
    monitors: Seq<MonitorSummary>,
    day: Seq<Option<Seq<char>>>,
    month: Seq<Option<Seq<char>>>,
) -> Seq<char> {
    family(
        "heartbeat_up"@,
        "1 if the last check was up or degraded, 0 if down."@,
        monitors,
        readings(Reading::Up, monitors),
    ) + family(
        "heartbeat_degraded"@,
        "1 if the last check was degraded (slow, or a certificate about to expire)."@,
        monitors,
        readings(Reading::Degraded, monitors),
    ) + family(
        "heartbeat_paused"@,
        "1 while the app's checks are paused."@,
        monitors,
        readings(Reading::Paused, monitors),
    ) + family(
        "heartbeat_latency_milliseconds"@,
        "Response time of the last check."@,
        monitors,
        readings(Reading::Latency, monitors),
    ) + family(
        "heartbeat_uptime_24h_ratio"@,
        "Share of available checks over the last 24 hours (0-1)."@,
        monitors,
        day,
    ) + family(
        "heartbeat_uptime_30d_ratio"@,
        "Share of available checks over the last 30 days (0-1)."@,
        monitors,
        month,
    ) + family(
        "heartbeat_cert_expiry_timestamp_seconds"@,
        "When the health endpoint's TLS certificate expires (unix seconds)."@,
        monitors,
        readings(Reading::CertExpiry, monitors),
    )
}

/// Every app's state as text. `day` and `month` are each app's shares of available checks, from
/// 0 to 1, over the last 24 hours and 30 days, as texts.
#[must_use]
pub fn render(
    monitors: &Vec<MonitorSummary>,
    day: &Vec<Option<String>>,
    month: &Vec<Option<String>>,
) -> (r: String)
    requires
        day@.len() == monitors@.len(),
        month@.len() == monitors@.len(),
    ensures
        r@ == exposition(monitors@, value_views(day@), value_views(month@)),
{
    let mut out = String::new();
    proof {
        reveal_strlit("");
        assert(out@ =~= Seq::<char>::empty());
    }
    let up = read_all(Reading::Up, monitors);
    gauge(
        &mut out,
        "heartbeat_up",
        "1 if the last check was up or degraded, 0 if down.",
        monitors,
        &up,
    );
    let degraded = read_all(Reading::Degraded, monitors);
    gauge(
        &mut out,
        "heartbeat_degraded",
        "1 if the last check was degraded (slow, or a certificate about to expire).",
        monitors,
        &degraded,
    );
    let paused = read_all(Reading::Paused, monitors);
    gauge(
        &mut out,
        "heartbeat_paused",
        "1 while the app's checks are paused.",
        monitors,
        &paused,
    );
    let latency = read_all(Reading::Latency, monitors);
    gauge(
        &mut out,
        "heartbeat_latency_milliseconds",
        "Response time of the last check.",
        monitors,
        &latency,
    );
    gauge(
        &mut out,
        "heartbeat_uptime_24h_ratio",
        "Share of available checks over the last 24 hours (0-1).",
        monitors,
        day,
    );
    gauge(
        &mut out,
        "heartbeat_uptime_30d_ratio",
        "Share of available checks over the last 30 days (0-1).",
        monitors,
        month,
    );
    let certs = read_all(Reading::CertExpiry, monitors);
    gauge(
        &mut out,
        "heartbeat_cert_expiry_timestamp_seconds",
        "When the health endpoint's TLS certificate expires (unix seconds).",
        monitors,
        &certs,
    );
    proof {
        assert(out@ =~= exposition(monitors@, value_views(day@), value_views(month@)));
    }
    out
}

/// Whether a scraper gets the metrics.
#[derive(Debug, Clone, Copy, PartialEq, Eq, Structural)]
pub enum Scrape {
    /// No token is configured: the endpoint is off.
    Off,
    Unauthorized,
    Granted,
}

/// The token that an `Authorization` header presents; empty where it presents none.
pub open spec fn presented(authorization: Header) -> Seq<char> {
    match header_text(authorization) {
        Some(text) => if starts_with(text, "Bearer "@) {
            text.skip("Bearer "@.len() as int)
        } else {
            Seq::empty()
        },
        None => Seq::empty(),
    }
}

/// Whether a scraper gets the metrics.
pub fn admitted(expected: &Option<String>, authorization: &Header) -> (r: Scrape)
    ensures
        r == match expected {
            None => Scrape::Off,
            Some(token) => if is_secret(token@, presented(*authorization)) {
                Scrape::Granted
            } else {
                Scrape::Unauthorized
            },
        },
{
    let token = match expected {
        None => {
            return Scrape::Off;
        },
        Some(token) => token,
    };
    let given = match authorization {
        Header::Text(text) => match without_prefix(text.as_str(), "Bearer ") {
            Some(given) => given,
            None => String::new(),
        },
        _ => String::new(),
    };
    proof {
        reveal_strlit("");
        assert(given@ =~= presented(*authorization));
    }
    if secret_matches(token.as_str(), given.as_str()) {
        Scrape::Granted
    } else {
        Scrape::Unauthorized
    }
}

// ---------------------------------------------------------------------------------------
// What holds of every exposition
// ---------------------------------------------------------------------------------------

/// Whether a text has a quote that no backslash escapes, or a line break.
pub open spec fn breaks_out(s: Seq<char>) -> bool {
    exists|i: int|
        0 <= i < s.len() && (#[trigger] s[i] == '\n' || (s[i] == '"' && (i == 0 || s[i - 1]
            != '\\')))
}

/// A label value never ends its quotes or its line early.
pub proof fn lemma_labels_stay_in_their_quotes(s: Seq<char>)
    ensures
        !breaks_out(labelled(s)),
    decreases s.len(),
{
    if s.len() > 0 {
        let front = labelled(s.drop_last());
        let last = label_char(s.last());
        let all = labelled(s);
        lemma_labels_stay_in_their_quotes(s.drop_last());
        assert forall|i: int| 0 <= i < all.len() implies !(#[trigger] all[i] == '\n' || (all[i]
            == '"' && (i == 0 || all[i - 1] != '\\'))) by {
            if i < front.len() {
                assert(all[i] == front[i]);
                if i > 0 {
                    assert(all[i - 1] == front[i - 1]);
                }
                assert(!(front[i] == '\n' || (front[i] == '"' && (i == 0 || front[i - 1]
                    != '\\'))));
            } else {
                assert(all[i] == last[i - front.len()]);
                if i > front.len() {
                    assert(all[i - 1] == last[i - 1 - front.len()]);
                }
            }
        }
    }
}

/// An app without a value has no sample.
pub proof fn lemma_no_value_no_sample(
    name: Seq<char>,
    monitors: Seq<MonitorSummary>,
    values: Seq<Option<Seq<char>>>,
)
    requires
        values.len() == monitors.len(),
        forall|i: int| 0 <= i < values.len() ==> #[trigger] values[i] is None,
    ensures
        samples(name, monitors, values) == Seq::<char>::empty(),
{
    lemma_no_samples(name, monitors, values, monitors.len());
    assert(monitors.take(monitors.len() as int) =~= monitors);
}

proof fn lemma_no_samples(
    name: Seq<char>,
    monitors: Seq<MonitorSummary>,
    values: Seq<Option<Seq<char>>>,
    n: nat,
)
    requires
        n <= monitors.len(),
        values.len() == monitors.len(),
        forall|i: int| 0 <= i < values.len() ==> #[trigger] values[i] is None,
    ensures
        samples(name, monitors.take(n as int), values) == Seq::<char>::empty(),
    decreases n,
{
    if n > 0 {
        lemma_no_samples(name, monitors, values, (n - 1) as nat);
        assert(monitors.take(n as int).drop_last() =~= monitors.take(n as int - 1));
        assert(values[n as int - 1] is None);
    }
}

} // verus!
