//! Public, read-only status for the `<heartbeat-status>` embed, meant to be fetched
//! cross-origin from other sites, and the status badge. Authorized per app by its embed token,
//! not by the admin session. Serves only what the widgets draw: never the health URL or the
//! check messages, which can leak internal hosts and error details.

use vstd::prelude::*;
use vstd::utf8::encode_utf8;

use crate::demo::fnv;
use crate::demo::fnv1a;
use crate::i18n::I18n;
use crate::registry::slug_index;
use crate::registry::AppRegistry;
use crate::registry::RegisteredApp;
use crate::text::chars_of;
use crate::text::decimal;
use crate::text::ends_with;
use crate::text::first_chars;
use crate::text::hex;
use crate::text::hex_text;
use crate::text::lemma_hex_tells_apart;
use crate::text::is_uppercase;
use crate::text::take_chars;
use crate::text::unicode_upper;
use crate::text::without_suffix;
use crate::text::wide_decimal_text;
use crate::token::is_secret;
use crate::uptime::history::Share;
use crate::uptime::monitor::MonitorSummary;
use crate::uptime::Heartbeat;
use crate::uptime::Status;

verus! {

/// A heartbeat as the widgets draw it.
#[derive(Debug, Clone, Copy, PartialEq, Eq, Structural)]
pub struct EmbedBeat {
    pub at: u64,
    pub status: Status,
    pub latency_ms: Option<u32>,
}

/// A heartbeat without its message.
pub open spec fn without_message(beat: Heartbeat) -> EmbedBeat {
    EmbedBeat { at: beat.at, status: beat.status, latency_ms: beat.latency_ms }
}

impl EmbedBeat {
    /// A heartbeat without its message.
    pub fn of(beat: &Heartbeat) -> (r: Self)
        ensures
            r == without_message(*beat),
    {
        EmbedBeat { at: beat.at, status: beat.status, latency_ms: beat.latency_ms }
    }
}

/// The public projection of an app's status. Only what the widgets draw: never the health URL
/// or the check messages.
#[derive(Debug)]
pub struct EmbedStatus {
    pub name: String,
    pub paused: bool,
    pub status: Option<Status>,
    pub uptime_24h: Option<Share>,
    pub recent: Vec<EmbedBeat>,
}

/// What a public status says.
#[verifier::ext_equal]
pub struct EmbedView {
    pub name: Seq<char>,
    pub paused: bool,
    pub status: Option<Status>,
    pub uptime_24h: Option<Share>,
    pub recent: Seq<EmbedBeat>,
}

impl View for EmbedStatus {
    type V = EmbedView;

    open spec fn view(&self) -> EmbedView {
        EmbedView {
            name: self.name@,
            paused: self.paused,
            status: self.status,
            uptime_24h: self.uptime_24h,
            recent: self.recent@,
        }
    }
}

/// What of a summary is public.
pub open spec fn public_part(summary: MonitorSummary) -> EmbedView {
    EmbedView {
        name: summary.name@,
        paused: summary.paused,
        status: summary.status,
        uptime_24h: summary.uptime_24h,
        recent: summary.recent@.map_values(|beat: Heartbeat| without_message(beat)),
    }
}

impl EmbedStatus {
    /// What of a summary is public.
    pub fn of(summary: MonitorSummary) -> (r: Self)
        ensures
            r@ == public_part(summary),
    {
        let mut recent: Vec<EmbedBeat> = Vec::new();
        let ghost all = summary.recent@.map_values(|beat: Heartbeat| without_message(beat));
        let mut i: usize = 0;
        while i < summary.recent.len()
            invariant
                i <= summary.recent@.len(),
                all == summary.recent@.map_values(|beat: Heartbeat| without_message(beat)),
                recent@ == all.take(i as int),
            decreases summary.recent@.len() - i,
        {
            recent.push(EmbedBeat::of(&summary.recent[i]));
            i += 1;
            proof {
                assert(all.take(i as int) =~= all.take(i as int - 1).push(all[i as int - 1]));
            }
        }
        proof {
            assert(all.take(all.len() as int) =~= all);
        }
        EmbedStatus {
            name: summary.name,
            paused: summary.paused,
            status: summary.status,
            uptime_24h: summary.uptime_24h,
            recent,
        }
    }
}

/// What the embed endpoint is asked.
#[derive(Debug)]
pub struct EmbedQuery {
    pub token: String,
}

/// The app that a slug and a token open. An unknown slug and a wrong token answer the same, so
/// the endpoint can't be used to discover which apps exist.
pub fn opened<'a>(registry: &'a AppRegistry, slug: &str, token: &str) -> (r: Option<
    &'a RegisteredApp,
>)
    ensures
        match r {
            Some(app) => exists|i: int| #[trigger]
                opens(registry@, slug@, token@, i) && registry@[i] == app@,
            None => forall|i: int| !#[trigger] opens(registry@, slug@, token@, i),
        },
{
    match registry.find(slug) {
        Some(app) => if app.embed_token_matches(token) {
            proof {
                let i = slug_index(registry@, slug@)->0;
                assert(opens(registry@, slug@, token@, i));
            }
            Some(app)
        } else {
            None
        },
        None => None,
    }
}

/// Whether a slug and a token open the app at `i`.
pub open spec fn opens(
    apps: Seq<crate::registry::AppView>,
    slug: Seq<char>,
    token: Seq<char>,
    i: int,
) -> bool {
    slug_index(apps, slug) == Some(i) && is_secret(apps[i].embed_token, token)
}

// ---------------------------------------------------------------------------------------
// Badges
// ---------------------------------------------------------------------------------------

/// What the badge endpoint is asked.
#[derive(Debug)]
pub struct BadgeQuery {
    pub token: String,
    /// Left-hand text; defaults to the app's name.
    pub label: Option<String>,
}

/// Longest label of a badge.
pub const MAX_LABEL_CHARS: usize = 40;

/// Rough width of a character in 11px Verdana, the shields.io metric.
pub open spec fn char_width(c: char) -> nat {
    if c == 'i' || c == 'l' || c == 'j' || c == '.' || c == ',' || c == ':' || c == '|' || c == '!'
        || c == '\'' {
        4
    } else if c == 'm' || c == 'w' || c == 'M' || c == 'W' {
        10
    } else if unicode_upper(c) {
        8
    } else {
        7
    }
}

/// Rough width of a text in 11px Verdana.
pub open spec fn width(s: Seq<char>) -> nat
    decreases s.len(),
{
    if s.len() == 0 {
        0
    } else {
        width(s.drop_last()) + char_width(s.last())
    }
}

/// Rough width of `text` in 11px Verdana.
pub fn text_width(text: &str) -> (r: u128)
    ensures
        r == width(text@),
        r <= 10 * usize::MAX,
{
    let v = chars_of(text);
    let mut sum: u128 = 0;
    let mut i: usize = 0;
    proof {
        assert(v@.take(0) =~= Seq::<char>::empty());
    }
    while i < v.len()
        invariant
            i <= v@.len(),
            sum == width(v@.take(i as int)),
            sum <= 10 * i,
        decreases v@.len() - i,
    {
        proof {
            assert(v@.take(i as int + 1).drop_last() =~= v@.take(i as int));
        }
        let c = v[i];
        let w: u128 = if c == 'i' || c == 'l' || c == 'j' || c == '.' || c == ',' || c == ':' || c
            == '|' || c == '!' || c == '\'' {
            4
        } else if c == 'm' || c == 'w' || c == 'M' || c == 'W' {
            10
        } else if is_uppercase(c) {
            8
        } else {
            7
        };
        sum += w;
        i += 1;
    }
    proof {
        assert(v@.take(v@.len() as int) =~= v@);
    }
    sum
}

/// A character as XML writes it.
pub open spec fn xml_char(c: char) -> Seq<char> {
    if c == '&' {
        "&amp;"@
    } else if c == '<' {
        "&lt;"@
    } else if c == '>' {
        "&gt;"@
    } else if c == '"' {
        "&quot;"@
    } else {
        seq![c]
    }
}

/// A text as XML writes it.
pub open spec fn xml(s: Seq<char>) -> Seq<char>
    decreases s.len(),
{
    if s.len() == 0 {
        Seq::empty()
    } else {
        xml(s.drop_last()) + xml_char(s.last())
    }
}

/// `&`, `<`, `>` and `"` escaped.
pub fn xml_escape(text: &str) -> (r: String)
    ensures
        r@ == xml(text@),
{
    let v = chars_of(text);
    let mut out = String::new();
    let mut i: usize = 0;
    proof {
        assert(v@.take(0) =~= Seq::<char>::empty());
        reveal_strlit("");
        assert(out@ =~= Seq::<char>::empty());
    }
    while i < v.len()
        invariant
            i <= v@.len(),
            out@ == xml(v@.take(i as int)),
        decreases v@.len() - i,
    {
        proof {
            assert(v@.take(i as int + 1).drop_last() =~= v@.take(i as int));
        }
        let c = v[i];
        if c == '&' {
            out.append("&amp;");
        } else if c == '<' {
            out.append("&lt;");
        } else if c == '>' {
            out.append("&gt;");
        } else if c == '"' {
            out.append("&quot;");
        } else {
            out.push(c);
            proof {
                assert(xml(v@.take(i as int)).push(c) =~= xml(v@.take(i as int)) + seq![c]);
            }
        }
        i += 1;
    }
    proof {
        assert(v@.take(v@.len() as int) =~= v@);
    }
    out
}

/// The number that stands for a badge's content.
pub open spec fn badge_hash(label: Seq<char>, state: Seq<char>, color: Seq<char>) -> u64 {
    fnv(encode_utf8(label + seq!['|'] + state + seq!['|'] + color))
}

/// The prefix of a badge's own ids: it comes from the content, so several badges inlined in one
/// page don't share (and clip each other with) the first one's definitions.
pub open spec fn badge_id(label: Seq<char>, state: Seq<char>, color: Seq<char>) -> Seq<char> {
    "hb"@ + hex(badge_hash(label, state, color) as nat)
}

/// The badge's drawing: gradient and outline, two filled boxes, and their texts.
pub open spec fn badge_text(label: Seq<char>, state: Seq<char>, color: Seq<char>) -> Seq<char> {
    let short = first_chars(label, MAX_LABEL_CHARS as nat);
    let lw = width(short) + 12;
    let sw = width(state) + 12;
    let total = decimal(lw + sw);
    let id = badge_id(short, state, color);
    let l = xml(short);
    let s = xml(state);
    "<svg xmlns=\"http://www.w3.org/2000/svg\" width=\""@ + total
        + "\" height=\"20\" role=\"img\" aria-label=\""@ + l + ": "@ + s + "\"><title>"@ + l + ": "@
        + s + "</title><linearGradient id=\""@ + id
        + "s\" x2=\"0\" y2=\"100%\"><stop offset=\"0\" stop-color=\"#bbb\" stop-opacity=\".1\"/><stop offset=\"1\" stop-opacity=\".1\"/></linearGradient><clipPath id=\""@
        + id + "r\"><rect width=\""@ + total
        + "\" height=\"20\" rx=\"3\" fill=\"#fff\"/></clipPath><g clip-path=\"url(#"@ + id
        + "r)\"><rect width=\""@ + decimal(lw) + "\" height=\"20\" fill=\"#555\"/><rect x=\""@
        + decimal(lw) + "\" width=\""@ + decimal(sw) + "\" height=\"20\" fill=\""@ + color
        + "\"/><rect width=\""@ + total + "\" height=\"20\" fill=\"url(#"@ + id
        + "s)\"/></g><g fill=\"#fff\" text-anchor=\"middle\" font-family=\"Verdana,Geneva,DejaVu Sans,sans-serif\" font-size=\"11\"><text x=\""@
        + decimal((lw / 2) as nat) + "\" y=\"14\">"@ + l + "</text><text x=\""@ + decimal(
        (lw + sw / 2) as nat,
    ) + "\" y=\"14\">"@ + s + "</text></g></svg>"@
}

fn id_of(label: &str, state: &str, color: &str) -> (r: String)
    ensures
        r@ == badge_id(label@, state@, color@),
{
    let mut content = label.to_owned();
    content.push('|');
    content.append(state);
    content.push('|');
    content.append(color);
    proof {
        assert(content@ =~= label@ + seq!['|'] + state@ + seq!['|'] + color@);
    }
    let digits = hex_text(fnv1a(content.as_str()));
    let mut id = "hb".to_owned();
    id.append(digits.as_str());
    id
}

/// A shields.io-style badge: `label | state`, colored by state.
#[must_use]
pub fn badge_svg(label: &str, state: &str, color: &str) -> (r: String)
    ensures
        r@ == badge_text(label@, state@, color@),
{
    let short = take_chars(label, MAX_LABEL_CHARS);
    let lw: u128 = text_width(short.as_str()) + 12;
    let sw: u128 = text_width(state) + 12;
    let total = wide_decimal_text(lw + sw);
    let left = wide_decimal_text(lw);
    let right = wide_decimal_text(sw);
    let left_middle = wide_decimal_text(lw / 2);
    let right_middle = wide_decimal_text(lw + sw / 2);
    let id = id_of(short.as_str(), state, color);
    let l = xml_escape(short.as_str());
    let s = xml_escape(state);
    let mut out = "<svg xmlns=\"http://www.w3.org/2000/svg\" width=\"".to_owned();
    out.append(total.as_str());
    out.append("\" height=\"20\" role=\"img\" aria-label=\"");
    out.append(l.as_str());
    out.append(": ");
    out.append(s.as_str());
    out.append("\"><title>");
    out.append(l.as_str());
    out.append(": ");
    out.append(s.as_str());
    out.append("</title><linearGradient id=\"");
    out.append(id.as_str());
    out.append(
        "s\" x2=\"0\" y2=\"100%\"><stop offset=\"0\" stop-color=\"#bbb\" stop-opacity=\".1\"/><stop offset=\"1\" stop-opacity=\".1\"/></linearGradient><clipPath id=\"",
    );
    out.append(id.as_str());
    out.append("r\"><rect width=\"");
    out.append(total.as_str());
    out.append("\" height=\"20\" rx=\"3\" fill=\"#fff\"/></clipPath><g clip-path=\"url(#");
    out.append(id.as_str());
    out.append("r)\"><rect width=\"");
    out.append(left.as_str());
    out.append("\" height=\"20\" fill=\"#555\"/><rect x=\"");
    out.append(left.as_str());
    out.append("\" width=\"");
    out.append(right.as_str());
    out.append("\" height=\"20\" fill=\"");
    out.append(color);
    out.append("\"/><rect width=\"");
    out.append(total.as_str());
    out.append("\" height=\"20\" fill=\"url(#");
    out.append(id.as_str());
    out.append(
        "s)\"/></g><g fill=\"#fff\" text-anchor=\"middle\" font-family=\"Verdana,Geneva,DejaVu Sans,sans-serif\" font-size=\"11\"><text x=\"",
    );
    out.append(left_middle.as_str());
    out.append("\" y=\"14\">");
    out.append(l.as_str());
    out.append("</text><text x=\"");
    out.append(right_middle.as_str());
    out.append("\" y=\"14\">");
    out.append(s.as_str());
    out.append("</text></g></svg>");
    out
}

/// How an app stands, at a glance.
#[derive(Debug, Clone, Copy, PartialEq, Eq, Structural)]
pub enum State {
    Up,
    Degraded,
    Down,
    Paused,
    /// No checks yet, or no health URL.
    Unknown,
}

/// How an app stands: a pause counts before anything else.
pub open spec fn standing(paused: bool, status: Option<Status>) -> State {
    if paused {
        State::Paused
    } else {
        match status {
            Some(Status::Up) => State::Up,
            Some(Status::Degraded) => State::Degraded,
            Some(Status::Down) => State::Down,
            None => State::Unknown,
        }
    }
}

pub open spec fn state_key(state: State) -> Seq<char> {
    match state {
        State::Up => "up"@,
        State::Degraded => "degraded"@,
        State::Down => "down"@,
        State::Paused => "paused"@,
        State::Unknown => "unknown"@,
    }
}

pub open spec fn state_color(state: State) -> Seq<char> {
    match state {
        State::Up => "#3fb950"@,
        State::Degraded => "#d29922"@,
        State::Down => "#e5534b"@,
        State::Paused => "#6e737c"@,
        State::Unknown => "#6e737c"@,
    }
}

impl State {
    /// How an app stands: a pause counts before anything else.
    pub fn of(paused: bool, status: Option<Status>) -> (r: Self)
        ensures
            r == standing(paused, status),
    {
        match (paused, status) {
            (true, _) => State::Paused,
            (false, Some(Status::Up)) => State::Up,
            (false, Some(Status::Degraded)) => State::Degraded,
            (false, Some(Status::Down)) => State::Down,
            (false, None) => State::Unknown,
        }
    }

    /// What templates, catalogs and styles call the state.
    pub fn key(self) -> (r: &'static str)
        ensures
            r@ == state_key(self),
    {
        match self {
            State::Up => "up",
            State::Degraded => "degraded",
            State::Down => "down",
            State::Paused => "paused",
            State::Unknown => "unknown",
        }
    }

    pub fn color(self) -> (r: &'static str)
        ensures
            r@ == state_color(self),
    {
        match self {
            State::Up => "#3fb950",
            State::Degraded => "#d29922",
            State::Down => "#e5534b",
            State::Paused => "#6e737c",
            State::Unknown => "#6e737c",
        }
    }
}

/// The slug of a badge's path, which may end in `.svg`.
pub fn badge_slug(path: &str) -> (r: String)
    ensures
        r@ == if ends_with(path@, ".svg"@) {
            path@.take(path@.len() - ".svg"@.len())
        } else {
            path@
        },
{
    match without_suffix(path, ".svg") {
        Some(slug) => slug,
        None => path.to_owned(),
    }
}

/// An app's badge: its state as an image, for READMEs and wikis.
pub fn badge(summary: &MonitorSummary, label: Option<&str>, i18n: &I18n) -> (r: String)
    ensures
        ({
            let state = standing(summary.paused, summary.status);
            r@ == badge_text(
                match label {
                    Some(label) => label@,
                    None => summary.name@,
                },
                i18n.template("status.state_"@ + state_key(state)),
                state_color(state),
            )
        }),
{
    let state = State::of(summary.paused, summary.status);
    let mut key = "status.state_".to_owned();
    key.append(state.key());
    let text = i18n.line(key.as_str());
    let shown = match label {
        Some(label) => label,
        None => summary.name.as_str(),
    };
    badge_svg(shown, text.as_str(), state.color())
}

// ---------------------------------------------------------------------------------------
// What holds of everything that is public
// ---------------------------------------------------------------------------------------

/// The embed never gives away the health URL or a check's message: summaries that differ in
/// those alone look the same.
pub proof fn lemma_embeds_hide_urls_and_messages(a: MonitorSummary, b: MonitorSummary)
    requires
        a.name@ == b.name@,
        a.paused == b.paused,
        a.status == b.status,
        a.uptime_24h == b.uptime_24h,
        a.recent@.len() == b.recent@.len(),
        forall|i: int|
            0 <= i < a.recent@.len() ==> (#[trigger] a.recent@[i]).at == b.recent@[i].at
                && a.recent@[i].status == b.recent@[i].status && a.recent@[i].latency_ms
                == b.recent@[i].latency_ms,
    ensures
        public_part(a) == public_part(b),
{
    assert(public_part(a).recent =~= public_part(b).recent);
}

/// Escaped text opens and closes nothing: no angle bracket and no quote is left in it.
pub proof fn lemma_escaped_text_is_inert(s: Seq<char>)
    ensures
        forall|i: int|
            0 <= i < xml(s).len() ==> #[trigger] xml(s)[i] != '<' && xml(s)[i] != '>' && xml(s)[i]
                != '"',
    decreases s.len(),
{
    if s.len() > 0 {
        lemma_escaped_text_is_inert(s.drop_last());
        reveal_strlit("&amp;");
        reveal_strlit("&lt;");
        reveal_strlit("&gt;");
        reveal_strlit("&quot;");
        let front = xml(s.drop_last());
        let last = xml_char(s.last());
        assert forall|i: int| 0 <= i < xml(s).len() implies #[trigger] xml(s)[i] != '<' && xml(s)[i]
            != '>' && xml(s)[i] != '"' by {
            if i < front.len() {
                assert(xml(s)[i] == front[i]);
            } else {
                assert(xml(s)[i] == last[i - front.len()]);
            }
        }
    }
}

/// A wrong token and an unknown slug are told apart by nothing: neither opens an app.
pub proof fn lemma_wrong_tokens_open_nothing(
    apps: Seq<crate::registry::AppView>,
    slug: Seq<char>,
    token: Seq<char>,
    i: int,
)
    requires
        slug_index(apps, slug) == Some(i) ==> !is_secret(apps[i].embed_token, token),
    ensures
        !opens(apps, slug, token, i),
{
}

/// Badges on one page don't share ids: where their contents have different numbers, neither the
/// gradients nor the outlines have the same id, and no gradient has an outline's.
pub proof fn lemma_badges_dont_share_ids(
    a: (Seq<char>, Seq<char>, Seq<char>),
    b: (Seq<char>, Seq<char>, Seq<char>),
)
    ensures
        badge_id(a.0, a.1, a.2) + "s"@ != badge_id(b.0, b.1, b.2) + "r"@,
        badge_hash(a.0, a.1, a.2) != badge_hash(b.0, b.1, b.2) ==> {
            &&& badge_id(a.0, a.1, a.2) != badge_id(b.0, b.1, b.2)
            &&& badge_id(a.0, a.1, a.2) + "s"@ != badge_id(b.0, b.1, b.2) + "s"@
            &&& badge_id(a.0, a.1, a.2) + "r"@ != badge_id(b.0, b.1, b.2) + "r"@
        },
{
    reveal_strlit("hb");
    reveal_strlit("s");
    reveal_strlit("r");
    let m = badge_hash(a.0, a.1, a.2);
    let n = badge_hash(b.0, b.1, b.2);
    let x = badge_id(a.0, a.1, a.2);
    let y = badge_id(b.0, b.1, b.2);
    assert((x + "s"@).last() == 's' && (y + "r"@).last() == 'r');
    assert(x.skip(2) =~= hex(m as nat));
    assert(y.skip(2) =~= hex(n as nat));
    assert((x + "s"@).drop_last() =~= x && (y + "s"@).drop_last() =~= y);
    assert((x + "r"@).drop_last() =~= x && (y + "r"@).drop_last() =~= y);
    if x == y {
        lemma_hex_tells_apart(m as nat, n as nat);
    }
}

/// The state that is shown says what the last check said: of an app that isn't paused it is
/// down, degraded or up exactly when that check was, and unknown exactly when there was none; a
/// paused app is shown as paused, whatever its last check said.
pub proof fn lemma_shown_states_follow_the_last_check(status: Option<Status>)
    ensures
        standing(false, status) == State::Down <==> status == Some(Status::Down),
        standing(false, status) == State::Degraded <==> status == Some(Status::Degraded),
        standing(false, status) == State::Up <==> status == Some(Status::Up),
        standing(false, status) == State::Unknown <==> status is None,
        standing(true, status) == State::Paused,
        forall|other: Option<Status>| #[trigger] standing(false, other) == standing(false, status)
            ==> other == status,
{
}

/// Different states have different names, and up, degraded and down different colors.
pub proof fn lemma_states_read_differently(a: State, b: State)
    ensures
        state_key(a) == state_key(b) ==> a == b,
        state_color(a) == state_color(b) ==> a == b || (a == State::Paused || a == State::Unknown)
            && (b == State::Paused || b == State::Unknown),
{
    reveal_strlit("up");
    reveal_strlit("degraded");
    reveal_strlit("down");
    reveal_strlit("paused");
    reveal_strlit("unknown");
    reveal_strlit("#3fb950");
    reveal_strlit("#d29922");
    reveal_strlit("#e5534b");
    reveal_strlit("#6e737c");
    let k = state_key(a);
    let l = state_key(b);
    if a != b {
        assert(k.len() != l.len() || k[0] != l[0]);
        let c = state_color(a);
        let d = state_color(b);
        assert(c[1] != d[1] || (a == State::Paused || a == State::Unknown) && (b == State::Paused
            || b == State::Unknown));
    }
}

} // verus!
