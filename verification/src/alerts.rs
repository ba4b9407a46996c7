//! Status-change notifications. Each configured webhook gets a payload in the shape its service
//! expects: Slack incoming webhooks (`{"text"}`), Discord webhooks (`{"content"}`), or, for
//! anything else, a structured event.
//!
//! Global webhooks are operator-configured, so they're trusted. Per-app webhooks are
//! admin-entered: they must be https. Every app alerts its own webhooks *and* the global ones.
//!
//! Delivery is retried with backoff on network errors, 5xx and 429, and the last outcome of
//! each webhook is kept for the settings page.
//!
//! Mentions ping people when an app goes down (never on recovery), written once and rendered in
//! each service's own syntax.

pub mod alerter;
pub mod laws;

use vstd::prelude::*;

use crate::text::all_digits;
use crate::text::chars_of;
use crate::text::decimal;
use crate::text::decimal_text;
use crate::text::has_prefix;
use crate::text::is_digit;
use crate::text::is_upper;
use crate::text::is_white;
use crate::text::join;
use crate::text::joined;
use crate::text::lemma_trim_noop;
use crate::text::lemma_views_push;
use crate::text::pieces;
use crate::text::same;
use crate::text::split;
use crate::text::starts_with;
use crate::text::text_between;
use crate::text::trim;
use crate::text::trim_start_char;
use crate::text::trimmed;
use crate::text::views;
use crate::text::without_leading;
use crate::uptime::Heartbeat;
use crate::uptime::Status;
use crate::weburl::opt_view;
use crate::weburl::parse_url;
use crate::weburl::parsed_url;
use crate::weburl::Url;
use crate::weburl::UrlView;

verus! {

// ---------------------------------------------------------------------------------------
// Webhooks
// ---------------------------------------------------------------------------------------

#[derive(Debug, Clone, Copy, PartialEq, Eq, Structural)]
pub enum Flavor {
    Slack,
    Discord,
    Generic,
}

/// The service that a webhook's URL belongs to.
pub open spec fn flavor_of(url: UrlView) -> Flavor {
    if url.host == Some("hooks.slack.com"@) {
        Flavor::Slack
    } else if (url.host == Some("discord.com"@) || url.host == Some("discordapp.com"@))
        && starts_with(url.path, "/api/webhooks/"@) {
        Flavor::Discord
    } else {
        Flavor::Generic
    }
}

impl Flavor {
    /// The service that `url` belongs to.
    pub fn of(url: &Url) -> (r: Self)
        ensures
            r == flavor_of(url@),
    {
        match &url.host {
            Some(host) => {
                if same(host.as_str(), "hooks.slack.com") {
                    Flavor::Slack
                } else if (same(host.as_str(), "discord.com") || same(
                    host.as_str(),
                    "discordapp.com",
                )) && has_prefix(url.path.as_str(), "/api/webhooks/") {
                    Flavor::Discord
                } else {
                    Flavor::Generic
                }
            },
            None => Flavor::Generic,
        }
    }
}

/// Where a webhook comes from, which decides how far it's trusted.
#[derive(Debug, Clone, Copy, PartialEq, Eq, Structural)]
pub enum Origin {
    /// Set by whoever runs the server.
    Env,
    /// An app's own webhooks, entered from /apps.
    App,
}

#[derive(Debug)]
pub enum WebhookError {
    Invalid(String),
    NotHttps,
}

/// One destination for alerts.
#[derive(Debug)]
pub struct Webhook {
    pub url: Url,
    pub flavor: Flavor,
    pub origin: Origin,
}

/// What a webhook is.
pub struct WebhookView {
    pub url: UrlView,
    pub flavor: Flavor,
    pub origin: Origin,
}

impl View for Webhook {
    type V = WebhookView;

    open spec fn view(&self) -> WebhookView {
        WebhookView { url: self.url@, flavor: self.flavor, origin: self.origin }
    }
}

impl Clone for Webhook {
    fn clone(&self) -> (r: Self)
        ensures
            r == *self,
    {
        Webhook { url: self.url.clone(), flavor: self.flavor, origin: self.origin }
    }
}

/// The webhook at a URL.
pub open spec fn hook_at(url: UrlView, origin: Origin) -> WebhookView {
    WebhookView { url, flavor: flavor_of(url), origin }
}

/// The webhook that an app's entry names: a well-formed https URL.
pub open spec fn app_hook(raw: Seq<char>) -> Option<WebhookView> {
    match parsed_url(trim(raw)) {
        Ok(url) => if url.scheme == "https"@ {
            Some(hook_at(url, Origin::App))
        } else {
            None
        },
        Err(_) => None,
    }
}

/// The webhook that a global entry names: any well-formed URL.
pub open spec fn env_hook(raw: Seq<char>) -> Option<WebhookView> {
    match parsed_url(trim(raw)) {
        Ok(url) => Some(hook_at(url, Origin::Env)),
        Err(_) => None,
    }
}

/// Whether another attempt may succeed: no answer at all, a server error, or too many requests.
pub open spec fn transient(status: Option<u16>) -> bool {
    match status {
        None => true,
        Some(code) => 500 <= code <= 599 || code == 429,
    }
}

impl Webhook {
    pub fn new(url: Url, origin: Origin) -> (r: Self)
        ensures
            r.url == url,
            r@ == hook_at(url@, origin),
    {
        let flavor = Flavor::of(&url);
        Webhook { url, flavor, origin }
    }

    /// An app's webhook at a parsed URL: https only.
    pub fn for_app_url(url: Url) -> (r: Result<Self, WebhookError>)
        ensures
            match r {
                Ok(hook) => url@.scheme == "https"@ && hook@ == hook_at(url@, Origin::App),
                Err(WebhookError::NotHttps) => url@.scheme != "https"@,
                Err(WebhookError::Invalid(_)) => false,
            },
    {
        if !same(url.scheme.as_str(), "https") {
            return Err(WebhookError::NotHttps);
        }
        Ok(Webhook::new(url, Origin::App))
    }

    /// An app's webhook, as entered from /apps: https only.
    pub fn for_app(raw: &str) -> (r: Result<Self, WebhookError>)
        ensures
            match parsed_url(trim(raw@)) {
                Ok(url) => match r {
                    Ok(hook) => url.scheme == "https"@ && hook@ == hook_at(url, Origin::App),
                    Err(WebhookError::NotHttps) => url.scheme != "https"@,
                    Err(WebhookError::Invalid(_)) => false,
                },
                Err(error) => r matches Err(WebhookError::Invalid(e)) && e@ == error,
            },
            match r {
                Ok(hook) => app_hook(raw@) == Some(hook@),
                Err(_) => app_hook(raw@) is None,
            },
    {
        let clean = trimmed(raw);
        match parse_url(clean.as_str()) {
            Ok(url) => Webhook::for_app_url(url),
            Err(error) => Err(WebhookError::Invalid(error)),
        }
    }

    /// Transient failures worth another attempt; a 4xx other than 429 won't fix itself.
    /// `status` is what the server answered, if it answered.
    pub fn retryable(status: Option<u16>) -> (r: bool)
        ensures
            r == transient(status),
    {
        match status {
            None => true,
            Some(code) => (500 <= code && code <= 599) || code == 429,
        }
    }
}

// ---------------------------------------------------------------------------------------
// Mentions
// ---------------------------------------------------------------------------------------

/// Someone to ping when an app goes down, parsed from one entry:
///
/// | entry            | Slack                | Discord      |
/// |------------------|----------------------|--------------|
/// | `here`           | `<!here>`            | `@here`      |
/// | `channel`        | `<!channel>`         | `@everyone`  |
/// | `U0123ABCD`      | `<@U0123ABCD>` user  | --           |
/// | `S0123ABCD`      | `<!subteam^S0123ABCD>` user group | -- |
/// | `123456789012`   | --                   | `<@…>` user  |
/// | `&123456789012`  | --                   | `<@&…>` role |
///
/// An entry that doesn't apply to a service is left out of that service's message.
#[derive(Debug, PartialEq, Eq)]
pub enum Mention {
    Here,
    Channel,
    SlackUser(String),
    SlackGroup(String),
    DiscordUser(String),
    DiscordRole(String),
}

/// Whom an entry mentions.
pub enum MentionView {
    Here,
    Channel,
    SlackUser(Seq<char>),
    SlackGroup(Seq<char>),
    DiscordUser(Seq<char>),
    DiscordRole(Seq<char>),
}

impl View for Mention {
    type V = MentionView;

    open spec fn view(&self) -> MentionView {
        match self {
            Mention::Here => MentionView::Here,
            Mention::Channel => MentionView::Channel,
            Mention::SlackUser(id) => MentionView::SlackUser(id@),
            Mention::SlackGroup(id) => MentionView::SlackGroup(id@),
            Mention::DiscordUser(id) => MentionView::DiscordUser(id@),
            Mention::DiscordRole(id) => MentionView::DiscordRole(id@),
        }
    }
}

/// Whether `id` has the form of a Slack ID: at least three capitals and digits.
pub open spec fn slack_id(id: Seq<char>) -> bool {
    id.len() >= 3 && forall|i: int|
        0 <= i < id.len() ==> is_upper(#[trigger] id[i]) || is_digit(id[i])
}

/// Whether `id` has the form of a Discord ID: digits alone.
pub open spec fn snowflake(id: Seq<char>) -> bool {
    id.len() > 0 && all_digits(id)
}

/// Whom an entry mentions, if it can be told.
pub open spec fn mention_of(raw: Seq<char>) -> Option<MentionView> {
    let entry = trim_start_char(trim(raw), '@');
    if entry == "here"@ {
        Some(MentionView::Here)
    } else if entry == "channel"@ || entry == "everyone"@ {
        Some(MentionView::Channel)
    } else if slack_id(entry) && (entry[0] == 'U' || entry[0] == 'W') {
        Some(MentionView::SlackUser(entry))
    } else if slack_id(entry) && entry[0] == 'S' {
        Some(MentionView::SlackGroup(entry))
    } else if snowflake(entry) {
        Some(MentionView::DiscordUser(entry))
    } else if entry.len() > 0 && entry[0] == '&' && snowflake(entry.skip(1)) {
        Some(MentionView::DiscordRole(entry.skip(1)))
    } else {
        None
    }
}

/// How a service writes a mention; not at all where it has none such.
pub open spec fn written(m: MentionView, flavor: Flavor) -> Option<Seq<char>> {
    match (flavor, m) {
        (Flavor::Slack, MentionView::Here) => Some("<!here>"@),
        (Flavor::Slack, MentionView::Channel) => Some("<!channel>"@),
        (Flavor::Slack, MentionView::SlackUser(id)) => Some("<@"@ + id + ">"@),
        (Flavor::Slack, MentionView::SlackGroup(id)) => Some("<!subteam^"@ + id + ">"@),
        (Flavor::Discord, MentionView::Here) => Some("@here"@),
        (Flavor::Discord, MentionView::Channel) => Some("@everyone"@),
        (Flavor::Discord, MentionView::DiscordUser(id)) => Some("<@"@ + id + ">"@),
        (Flavor::Discord, MentionView::DiscordRole(id)) => Some("<@&"@ + id + ">"@),
        _ => None,
    }
}

/// The entry that names a mention.
pub open spec fn entry_of(m: MentionView) -> Seq<char> {
    match m {
        MentionView::Here => "here"@,
        MentionView::Channel => "channel"@,
        MentionView::SlackUser(id) => id,
        MentionView::SlackGroup(id) => id,
        MentionView::DiscordUser(id) => id,
        MentionView::DiscordRole(id) => seq!['&'] + id,
    }
}

fn is_slack_id(v: &Vec<char>) -> (r: bool)
    ensures
        r == slack_id(v@),
{
    if v.len() < 3 {
        return false;
    }
    let mut i: usize = 0;
    while i < v.len()
        invariant
            i <= v@.len(),
            forall|j: int| 0 <= j < i ==> is_upper(#[trigger] v@[j]) || is_digit(v@[j]),
        decreases v@.len() - i,
    {
        let c = v[i];
        if !(('A' <= c && c <= 'Z') || ('0' <= c && c <= '9')) {
            return false;
        }
        i += 1;
    }
    true
}

fn is_snowflake(v: &Vec<char>, from: usize) -> (r: bool)
    requires
        from <= v@.len(),
    ensures
        r == snowflake(v@.skip(from as int)),
{
    if from == v.len() {
        return false;
    }
    let mut i: usize = from;
    while i < v.len()
        invariant
            from <= i <= v@.len(),
            forall|j: int| from <= j < i ==> is_digit(#[trigger] v@[j]),
        decreases v@.len() - i,
    {
        let c = v[i];
        if !('0' <= c && c <= '9') {
            proof {
                assert(!is_digit(v@.skip(from as int)[i - from]));
            }
            return false;
        }
        i += 1;
    }
    proof {
        assert forall|j: int| 0 <= j < v@.skip(from as int).len() implies is_digit(
            #[trigger] v@.skip(from as int)[j],
        ) by {
            assert(is_digit(v@[j + from]));
        }
    }
    true
}

/// `open`, `id` and `close`, one after the other.
fn wrapped(open: &str, id: &str, close: &str) -> (r: String)
    ensures
        r@ == open@ + id@ + close@,
{
    let mut out = open.to_owned();
    out.append(id);
    out.append(close);
    out
}

impl Mention {
    /// Whom `raw` mentions; the entry itself, trimmed, where that can't be told.
    pub fn parse(raw: &str) -> (r: Result<Self, String>)
        ensures
            match r {
                Ok(m) => mention_of(raw@) == Some(m@),
                Err(entry) => mention_of(raw@) is None && entry@ == trim(raw@),
            },
    {
        let clean = trimmed(raw);
        let entry = without_leading(clean.as_str(), '@');
        if same(entry.as_str(), "here") {
            return Ok(Mention::Here);
        }
        if same(entry.as_str(), "channel") || same(entry.as_str(), "everyone") {
            return Ok(Mention::Channel);
        }
        let v = chars_of(entry.as_str());
        if is_slack_id(&v) && (v[0] == 'U' || v[0] == 'W') {
            return Ok(Mention::SlackUser(entry));
        }
        if is_slack_id(&v) && v[0] == 'S' {
            return Ok(Mention::SlackGroup(entry));
        }
        proof {
            assert(v@.skip(0) =~= v@);
        }
        if is_snowflake(&v, 0) {
            return Ok(Mention::DiscordUser(entry));
        }
        if v.len() > 0 && v[0] == '&' && is_snowflake(&v, 1) {
            proof {
                assert(v@.subrange(1, v@.len() as int) =~= v@.skip(1));
            }
            return Ok(Mention::DiscordRole(text_between(&v, 1, v.len())));
        }
        Err(clean)
    }

    pub fn render(&self, flavor: Flavor) -> (r: Option<String>)
        ensures
            opt_view(r) == written(self@, flavor),
    {
        match (flavor, self) {
            (Flavor::Slack, Mention::Here) => Some("<!here>".to_owned()),
            (Flavor::Slack, Mention::Channel) => Some("<!channel>".to_owned()),
            (Flavor::Slack, Mention::SlackUser(id)) => Some(wrapped("<@", id.as_str(), ">")),
            (Flavor::Slack, Mention::SlackGroup(id)) => Some(
                wrapped("<!subteam^", id.as_str(), ">"),
            ),
            (Flavor::Discord, Mention::Here) => Some("@here".to_owned()),
            (Flavor::Discord, Mention::Channel) => Some("@everyone".to_owned()),
            (Flavor::Discord, Mention::DiscordUser(id)) => Some(wrapped("<@", id.as_str(), ">")),
            (Flavor::Discord, Mention::DiscordRole(id)) => Some(wrapped("<@&", id.as_str(), ">")),
            _ => None,
        }
    }

    /// The entry as configured, for the structured event.
    pub fn raw(&self) -> (r: String)
        ensures
            r@ == entry_of(self@),
    {
        match self {
            Mention::Here => "here".to_owned(),
            Mention::Channel => "channel".to_owned(),
            Mention::SlackUser(id) => id.clone(),
            Mention::SlackGroup(id) => id.clone(),
            Mention::DiscordUser(id) => id.clone(),
            Mention::DiscordRole(id) => {
                let mut out = String::new();
                out.push('&');
                out.append(id.as_str());
                proof {
                    assert(out@ =~= seq!['&'] + id@);
                }
                out
            },
        }
    }

    fn same_as(&self, other: &Mention) -> (r: bool)
        ensures
            r == (self@ == other@),
    {
        match (self, other) {
            (Mention::Here, Mention::Here) => true,
            (Mention::Channel, Mention::Channel) => true,
            (Mention::SlackUser(a), Mention::SlackUser(b)) => same(a.as_str(), b.as_str()),
            (Mention::SlackGroup(a), Mention::SlackGroup(b)) => same(a.as_str(), b.as_str()),
            (Mention::DiscordUser(a), Mention::DiscordUser(b)) => same(a.as_str(), b.as_str()),
            (Mention::DiscordRole(a), Mention::DiscordRole(b)) => same(a.as_str(), b.as_str()),
            _ => false,
        }
    }
}

impl std::str::FromStr for Mention {
    type Err = String;

    fn from_str(raw: &str) -> (r: Result<Self, String>)
        ensures
            match r {
                Ok(m) => mention_of(raw@) == Some(m@),
                Err(entry) => mention_of(raw@) is None && entry@ == trim(raw@),
            },
    {
        Mention::parse(raw)
    }
}

impl Clone for Mention {
    fn clone(&self) -> (r: Self)
        ensures
            r == *self,
    {
        match self {
            Mention::Here => Mention::Here,
            Mention::Channel => Mention::Channel,
            Mention::SlackUser(id) => Mention::SlackUser(id.clone()),
            Mention::SlackGroup(id) => Mention::SlackGroup(id.clone()),
            Mention::DiscordUser(id) => Mention::DiscordUser(id.clone()),
            Mention::DiscordRole(id) => Mention::DiscordRole(id.clone()),
        }
    }
}

/// Whom a list of mentions names.
pub open spec fn mention_views(v: Seq<Mention>) -> Seq<MentionView> {
    v.map_values(|m: Mention| m@)
}

/// The mentions of those entries that can be told.
pub open spec fn told(entries: Seq<Seq<char>>) -> Seq<MentionView>
    decreases entries.len(),
{
    if entries.len() == 0 {
        Seq::empty()
    } else {
        let before = told(entries.drop_last());
        match mention_of(entries.last()) {
            Some(m) => before.push(m),
            None => before,
        }
    }
}

/// The entries that can't be told, trimmed.
pub open spec fn untold(entries: Seq<Seq<char>>) -> Seq<Seq<char>>
    decreases entries.len(),
{
    if entries.len() == 0 {
        Seq::empty()
    } else {
        let before = untold(entries.drop_last());
        if mention_of(entries.last()) is None {
            before.push(trim(entries.last()))
        } else {
            before
        }
    }
}

/// The mentions of some entries, and the entries that can't be told.
pub(crate) fn sorted_mentions(entries: &Vec<String>) -> (r: (Vec<Mention>, Vec<String>))
    ensures
        mention_views(r.0@) == told(views(entries@)),
        views(r.1@) == untold(views(entries@)),
{
    let mut mentions: Vec<Mention> = Vec::new();
    let mut rejected: Vec<String> = Vec::new();
    let ghost all = views(entries@);
    let mut i: usize = 0;
    proof {
        assert(all.take(0) =~= Seq::<Seq<char>>::empty());
        assert(mention_views(mentions@) =~= told(all.take(0)));
        assert(views(rejected@) =~= untold(all.take(0)));
    }
    while i < entries.len()
        invariant
            i <= entries@.len(),
            all == views(entries@),
            mention_views(mentions@) == told(all.take(i as int)),
            views(rejected@) == untold(all.take(i as int)),
        decreases entries@.len() - i,
    {
        proof {
            assert(all.take(i as int + 1).drop_last() =~= all.take(i as int));
            assert(all.take(i as int + 1).last() == entries@[i as int]@);
        }
        match Mention::parse(entries[i].as_str()) {
            Ok(m) => {
                let ghost before = mentions@;
                mentions.push(m);
                proof {
                    assert(mention_views(mentions@) =~= mention_views(before).push(m@));
                }
            },
            Err(entry) => {
                proof {
                    lemma_views_push(rejected@, entry);
                }
                rejected.push(entry);
            },
        }
        i += 1;
    }
    proof {
        assert(all.take(all.len() as int) =~= all);
    }
    (mentions, rejected)
}

/// `all` with those of `more` added, in order, that are not in it yet.
pub open spec fn added(all: Seq<MentionView>, more: Seq<MentionView>) -> Seq<MentionView>
    decreases more.len(),
{
    if more.len() == 0 {
        all
    } else {
        let before = added(all, more.drop_last());
        if before.contains(more.last()) {
            before
        } else {
            before.push(more.last())
        }
    }
}

/// Some mentions, each of them once, where it first stands.
pub open spec fn unrepeated(ms: Seq<MentionView>) -> Seq<MentionView> {
    added(Seq::empty(), ms)
}

pub(crate) fn mentioned(all: &Vec<Mention>, m: &Mention) -> (r: bool)
    ensures
        r == mention_views(all@).contains(m@),
{
    let mut i: usize = 0;
    while i < all.len()
        invariant
            i <= all@.len(),
            forall|j: int| 0 <= j < i ==> (#[trigger] all@[j])@ != m@,
        decreases all@.len() - i,
    {
        if all[i].same_as(m) {
            proof {
                assert(mention_views(all@)[i as int] == m@);
            }
            return true;
        }
        i += 1;
    }
    proof {
        assert forall|j: int| 0 <= j < mention_views(all@).len() implies mention_views(all@)[j]
            != m@ by {
            assert(mention_views(all@)[j] == all@[j]@);
        }
    }
    false
}

pub(crate) fn add_mentions(all: &mut Vec<Mention>, more: &Vec<Mention>)
    ensures
        mention_views(final(all)@) == added(mention_views(old(all)@), mention_views(more@)),
{
    let ghost start = mention_views(all@);
    let ghost names = mention_views(more@);
    let mut k: usize = 0;
    proof {
        assert(names.take(0) =~= Seq::<MentionView>::empty());
    }
    while k < more.len()
        invariant
            k <= more@.len(),
            names == mention_views(more@),
            mention_views(all@) == added(start, names.take(k as int)),
        decreases more@.len() - k,
    {
        proof {
            assert(names.take(k as int + 1).drop_last() =~= names.take(k as int));
            assert(names.take(k as int + 1).last() == more@[k as int]@);
        }
        if !mentioned(all, &more[k]) {
            let m = more[k].clone();
            let ghost before = all@;
            all.push(m);
            proof {
                assert(mention_views(all@) =~= mention_views(before).push(m@));
            }
        }
        k += 1;
    }
    proof {
        assert(names.take(names.len() as int) =~= names);
    }
}

/// How a service writes some mentions; those it can't write are left out.
pub open spec fn all_written(ms: Seq<MentionView>, flavor: Flavor) -> Seq<Seq<char>>
    decreases ms.len(),
{
    if ms.len() == 0 {
        Seq::empty()
    } else {
        let before = all_written(ms.drop_last(), flavor);
        match written(ms.last(), flavor) {
            Some(text) => before.push(text),
            None => before,
        }
    }
}

pub(crate) fn written_mentions(ms: &Vec<Mention>, flavor: Flavor) -> (r: Vec<String>)
    ensures
        views(r@) == all_written(mention_views(ms@), flavor),
{
    let ghost all = mention_views(ms@);
    let mut out: Vec<String> = Vec::new();
    let mut i: usize = 0;
    proof {
        assert(all.take(0) =~= Seq::<MentionView>::empty());
        assert(views(out@) =~= all_written(all.take(0), flavor));
    }
    while i < ms.len()
        invariant
            i <= ms@.len(),
            all == mention_views(ms@),
            views(out@) == all_written(all.take(i as int), flavor),
        decreases ms@.len() - i,
    {
        proof {
            assert(all.take(i as int + 1).drop_last() =~= all.take(i as int));
            assert(all.take(i as int + 1).last() == ms@[i as int]@);
        }
        if let Some(text) = ms[i].render(flavor) {
            proof {
                lemma_views_push(out@, text);
            }
            out.push(text);
        }
        i += 1;
    }
    proof {
        assert(all.take(all.len() as int) =~= all);
    }
    out
}

pub(crate) fn mention_entries(ms: &Vec<Mention>) -> (r: Vec<String>)
    ensures
        views(r@) == mention_views(ms@).map_values(|m: MentionView| entry_of(m)),
{
    let mut out: Vec<String> = Vec::new();
    let mut i: usize = 0;
    while i < ms.len()
        invariant
            i <= ms@.len(),
            out@.len() == i,
            forall|j: int| 0 <= j < i ==> (#[trigger] out@[j])@ == entry_of(ms@[j]@),
        decreases ms@.len() - i,
    {
        out.push(ms[i].raw());
        i += 1;
    }
    proof {
        assert(views(out@) =~= mention_views(ms@).map_values(|m: MentionView| entry_of(m)));
    }
    out
}

// ---------------------------------------------------------------------------------------
// Routes and changes
// ---------------------------------------------------------------------------------------

/// An app's own alert destinations, added to the global ones. Entries were validated when
/// saved; anything that no longer parses is skipped.
#[derive(Debug)]
pub struct AppRoute {
    pub webhooks: Vec<String>,
    pub mentions: Vec<String>,
}

impl Default for AppRoute {
    fn default() -> (r: Self)
        ensures
            r.webhooks@ == Seq::<String>::empty(),
            r.mentions@ == Seq::<String>::empty(),
    {
        AppRoute { webhooks: Vec::new(), mentions: Vec::new() }
    }
}

/// The webhooks of those entries that name one.
pub open spec fn app_hooks(entries: Seq<Seq<char>>) -> Seq<WebhookView>
    decreases entries.len(),
{
    if entries.len() == 0 {
        Seq::empty()
    } else {
        let before = app_hooks(entries.drop_last());
        match app_hook(entries.last()) {
            Some(hook) => before.push(hook),
            None => before,
        }
    }
}

/// The global webhooks of those entries that name one.
pub open spec fn env_hooks(entries: Seq<Seq<char>>) -> Seq<WebhookView>
    decreases entries.len(),
{
    if entries.len() == 0 {
        Seq::empty()
    } else {
        let before = env_hooks(entries.drop_last());
        match env_hook(entries.last()) {
            Some(hook) => before.push(hook),
            None => before,
        }
    }
}

pub open spec fn hook_views(v: Seq<Webhook>) -> Seq<WebhookView> {
    v.map_values(|h: Webhook| h@)
}

pub(crate) proof fn lemma_hook_views_push(v: Seq<Webhook>, h: Webhook)
    ensures
        hook_views(v.push(h)) == hook_views(v).push(h@),
{
    assert(hook_views(v.push(h)) =~= hook_views(v).push(h@));
}

impl AppRoute {
    pub fn webhooks(&self) -> (r: Vec<Webhook>)
        ensures
            hook_views(r@) == app_hooks(views(self.webhooks@)),
    {
        let ghost all = views(self.webhooks@);
        let mut out: Vec<Webhook> = Vec::new();
        let mut i: usize = 0;
        proof {
            assert(all.take(0) =~= Seq::<Seq<char>>::empty());
            assert(hook_views(out@) =~= app_hooks(all.take(0)));
        }
        while i < self.webhooks.len()
            invariant
                i <= self.webhooks@.len(),
                all == views(self.webhooks@),
                hook_views(out@) == app_hooks(all.take(i as int)),
            decreases self.webhooks@.len() - i,
        {
            proof {
                assert(all.take(i as int + 1).drop_last() =~= all.take(i as int));
                assert(all.take(i as int + 1).last() == self.webhooks@[i as int]@);
            }
            if let Ok(hook) = Webhook::for_app(self.webhooks[i].as_str()) {
                proof {
                    lemma_hook_views_push(out@, hook);
                }
                out.push(hook);
            }
            i += 1;
        }
        proof {
            assert(all.take(all.len() as int) =~= all);
        }
        out
    }

    pub fn mentions(&self) -> (r: Vec<Mention>)
        ensures
            mention_views(r@) == told(views(self.mentions@)),
    {
        sorted_mentions(&self.mentions).0
    }
}

/// One state change worth telling someone about. `from == to == Down` is a reminder that the
/// app is still down.
#[derive(Debug)]
pub struct StatusChange {
    pub slug: String,
    pub name: String,
    pub from: Status,
    pub to: Status,
    pub beat: Heartbeat,
    /// When the current (or just ended) outage started, for `{duration}`.
    pub down_since: Option<u64>,
    pub route: AppRoute,
}

/// Whether a change is a reminder that the app is still down.
pub open spec fn reminder(change: StatusChange) -> bool {
    change.from == Status::Down && change.to == Status::Down
}

impl StatusChange {
    #[must_use]
    pub fn is_reminder(&self) -> (r: bool)
        ensures
            r == reminder(*self),
    {
        self.from == Status::Down && self.to == Status::Down
    }
}

/// Many apps failing at once: most likely Heartbeat's own network, not the apps.
#[derive(Debug, Clone, Copy, PartialEq, Eq, Structural)]
pub enum MassOutage {
    Started { down: usize, total: usize },
    Ended { total: usize },
}

// ---------------------------------------------------------------------------------------
// Texts
// ---------------------------------------------------------------------------------------

/// `45 s`, `12 min`, `3 h 20 min`, `2 d 4 h`: how long an outage has lasted.
pub open spec fn duration_text(secs: nat) -> Seq<char> {
    let days = secs / 86_400;
    let hours = secs % 86_400 / 3600;
    let mins = secs % 3600 / 60;
    if days > 0 && hours > 0 {
        decimal(days) + " d "@ + decimal(hours) + " h"@
    } else if days > 0 {
        decimal(days) + " d"@
    } else if hours > 0 && mins > 0 {
        decimal(hours) + " h "@ + decimal(mins) + " min"@
    } else if hours > 0 {
        decimal(hours) + " h"@
    } else if mins > 0 {
        decimal(mins) + " min"@
    } else {
        decimal(secs) + " s"@
    }
}

/// `45 s`, `12 min`, `3 h 20 min`, `2 d 4 h`: how long an outage has lasted.
#[must_use]
pub fn format_duration(secs: u64) -> (r: String)
    ensures
        r@ == duration_text(secs as nat),
{
    let days = secs / 86_400;
    let hours = secs % 86_400 / 3600;
    let mins = secs % 3600 / 60;
    if days > 0 && hours > 0 {
        let mut out = decimal_text(days);
        out.append(" d ");
        out.append(decimal_text(hours).as_str());
        out.append(" h");
        out
    } else if days > 0 {
        let mut out = decimal_text(days);
        out.append(" d");
        out
    } else if hours > 0 && mins > 0 {
        let mut out = decimal_text(hours);
        out.append(" h ");
        out.append(decimal_text(mins).as_str());
        out.append(" min");
        out
    } else if hours > 0 {
        let mut out = decimal_text(hours);
        out.append(" h");
        out
    } else if mins > 0 {
        let mut out = decimal_text(mins);
        out.append(" min");
        out
    } else {
        let mut out = decimal_text(secs);
        out.append(" s");
        out
    }
}

/// The segments of a path that are not empty.
pub open spec fn nonempty(parts: Seq<Seq<char>>) -> Seq<Seq<char>>
    decreases parts.len(),
{
    if parts.len() == 0 {
        Seq::empty()
    } else {
        let before = nonempty(parts.drop_last());
        if parts.last().len() == 0 {
            before
        } else {
            before.push(parts.last())
        }
    }
}

/// A segment of a webhook's path as the settings page shows it: of the last one no more than
/// its end, of a long one no more than its beginning.
pub open spec fn masked_segment(segment: Seq<char>, last: bool) -> Seq<char> {
    if last && segment.len() > 4 {
        "…"@ + segment.skip(segment.len() - 4)
    } else if segment.len() > 8 {
        segment.take(4) + "…"@
    } else {
        segment
    }
}

/// The segments of a webhook's path as the settings page shows them.
pub open spec fn masked_segments(segments: Seq<Seq<char>>) -> Seq<Seq<char>> {
    Seq::new(
        segments.len(),
        |i: int| masked_segment(segments[i], i == segments.len() - 1),
    )
}

/// A webhook's URL: enough to tell webhooks apart, not enough to use one.
pub open spec fn masked_url(url: UrlView) -> Seq<char> {
    let port = match url.port {
        Some(p) => ":"@ + decimal(p as nat),
        None => ""@,
    };
    let host = match url.host {
        Some(h) => h,
        None => ""@,
    };
    url.scheme + "://"@ + host + port + "/"@ + join(
        masked_segments(nonempty(split(url.path, '/'))),
        "/"@,
    )
}

/// Whether the settings page shows two segments of a path alike: the last ones by their last
/// four characters, long ones by their first four, the others whole.
pub open spec fn shown_alike(a: Seq<char>, b: Seq<char>, last: bool) -> bool {
    if last && a.len() > 4 {
        b.len() > 4 && a.skip(a.len() - 4) == b.skip(b.len() - 4)
    } else if a.len() > 8 {
        !last && b.len() > 8 && a.take(4) == b.take(4)
    } else {
        a == b
    }
}

/// A mask tells nothing of what it leaves out: two webhooks of one server whose paths differ
/// only there have the same mask, so none of them can be worked out from it.
pub proof fn lemma_masks_hide_the_rest(u: UrlView, v: UrlView)
    requires
        u.scheme == v.scheme,
        u.host == v.host,
        u.port == v.port,
        nonempty(split(u.path, '/')).len() == nonempty(split(v.path, '/')).len(),
        forall|i: int|
            0 <= i < nonempty(split(u.path, '/')).len() ==> shown_alike(
                #[trigger] nonempty(split(u.path, '/'))[i],
                nonempty(split(v.path, '/'))[i],
                i == nonempty(split(u.path, '/')).len() - 1,
            ),
    ensures
        masked_url(u) == masked_url(v),
{
    let a = nonempty(split(u.path, '/'));
    let b = nonempty(split(v.path, '/'));
    assert forall|i: int| 0 <= i < a.len() implies masked_segments(a)[i] == masked_segments(
        b,
    )[i] by {
        assert(shown_alike(a[i], b[i], i == a.len() - 1));
    }
    assert(masked_segments(a) =~= masked_segments(b));
}

fn nonempty_parts(parts: &Vec<String>) -> (r: Vec<String>)
    ensures
        views(r@) == nonempty(views(parts@)),
{
    let ghost all = views(parts@);
    let mut out: Vec<String> = Vec::new();
    let mut i: usize = 0;
    proof {
        assert(all.take(0) =~= Seq::<Seq<char>>::empty());
        assert(views(out@) =~= nonempty(all.take(0)));
    }
    while i < parts.len()
        invariant
            i <= parts@.len(),
            all == views(parts@),
            views(out@) == nonempty(all.take(i as int)),
        decreases parts@.len() - i,
    {
        proof {
            assert(all.take(i as int + 1).drop_last() =~= all.take(i as int));
            assert(all.take(i as int + 1).last() == parts@[i as int]@);
        }
        if !parts[i].as_str().is_empty() {
            let part = parts[i].clone();
            proof {
                lemma_views_push(out@, part);
            }
            out.push(part);
        }
        i += 1;
    }
    proof {
        assert(all.take(all.len() as int) =~= all);
    }
    out
}

fn mask_segment(segment: &str, last: bool) -> (r: String)
    ensures
        r@ == masked_segment(segment@, last),
{
    let v = chars_of(segment);
    if last && v.len() > 4 {
        let mut out = "…".to_owned();
        let tail = text_between(&v, v.len() - 4, v.len());
        proof {
            assert(v@.subrange(v@.len() - 4, v@.len() as int) =~= v@.skip(v@.len() - 4));
        }
        out.append(tail.as_str());
        out
    } else if v.len() > 8 {
        let mut out = text_between(&v, 0, 4);
        proof {
            assert(v@.subrange(0, 4) =~= v@.take(4));
        }
        out.append("…");
        out
    } else {
        segment.to_owned()
    }
}

/// `https://example.com/services/T000…/B000…/…abcd`: enough to tell webhooks apart, not enough
/// to use one.
#[must_use]
pub fn mask(url: &Url) -> (r: String)
    ensures
        r@ == masked_url(url@),
{
    let parts = pieces(url.path.as_str(), '/');
    let segments = nonempty_parts(&parts);
    let mut masked: Vec<String> = Vec::new();
    let mut i: usize = 0;
    while i < segments.len()
        invariant
            i <= segments@.len(),
            masked@.len() == i,
            forall|j: int|
                0 <= j < i ==> (#[trigger] masked@[j])@ == masked_segment(
                    segments@[j]@,
                    j == segments@.len() - 1,
                ),
        decreases segments@.len() - i,
    {
        masked.push(mask_segment(segments[i].as_str(), i == segments.len() - 1));
        i += 1;
    }
    let mut out = url.scheme.clone();
    out.append("://");
    if let Some(host) = &url.host {
        out.append(host.as_str());
    } else {
        out.append("");
    }
    if let Some(port) = url.port {
        let mut part = ":".to_owned();
        part.append(decimal_text(port as u64).as_str());
        out.append(part.as_str());
    } else {
        out.append("");
    }
    out.append("/");
    out.append(joined(&masked, "/").as_str());
    proof {
        assert(views(masked@) =~= masked_segments(views(segments@)));
    }
    out
}

/// An entry that names itself: no white space at its ends, and no `@` before it.
/// An entry with nothing to trim is read as it stands.
pub proof fn lemma_plain_entry(e: Seq<char>)
    requires
        e.len() > 0,
        !is_white(e[0]),
        !is_white(e.last()),
        e[0] != '@',
    ensures
        trim_start_char(trim(e), '@') == e,
{
    lemma_trim_noop(e);
}

/// A mention's entry names that mention: what is shown as configured can be entered again.
pub proof fn lemma_mentions_round_trip(raw: Seq<char>)
    requires
        mention_of(raw) is Some,
    ensures
        mention_of(entry_of(mention_of(raw)->0)) == mention_of(raw),
{
    reveal_strlit("here");
    reveal_strlit("channel");
    reveal_strlit("everyone");
    let entry = trim_start_char(trim(raw), '@');
    let m = mention_of(raw)->0;
    let e = entry_of(m);
    match m {
        MentionView::Here => {
            lemma_plain_entry(e);
        },
        MentionView::Channel => {
            lemma_plain_entry(e);
            assert("channel"@.len() != "here"@.len());
        },
        MentionView::SlackUser(id) => {
            assert(is_upper(id[id.len() - 1]) || is_digit(id[id.len() - 1]));
            lemma_plain_entry(e);
        },
        MentionView::SlackGroup(id) => {
            assert(is_upper(id[id.len() - 1]) || is_digit(id[id.len() - 1]));
            lemma_plain_entry(e);
        },
        MentionView::DiscordUser(id) => {
            assert(is_digit(id[0]) && is_digit(id[id.len() - 1]));
            lemma_plain_entry(e);
        },
        MentionView::DiscordRole(id) => {
            assert(is_digit(id[id.len() - 1]));
            assert(e[0] == '&' && e.last() == id.last());
            lemma_plain_entry(e);
            assert(e.skip(1) =~= id);
            assert(!slack_id(e)) by {
                if slack_id(e) {
                    assert(is_upper(e[0]) || is_digit(e[0]));
                }
            }
            assert(!snowflake(e)) by {
                if snowflake(e) {
                    assert(is_digit(e[0]));
                }
            }
        },
    }
}

} // verus!
