//! Who is told of a change, and in which words.

use vstd::prelude::*;

use crate::alert_templates::render;
use crate::alert_templates::rendered;
use crate::alert_templates::AlertTemplates;
use crate::alert_templates::TemplateKind;
use crate::alert_templates::TemplateStore;
use crate::alert_templates::TemplateVars;
use crate::alert_templates::VarsView;
use crate::alerts::add_mentions;
use crate::alerts::added;
use crate::alerts::all_written;
use crate::alerts::app_hooks;
use crate::alerts::duration_text;
use crate::alerts::entry_of;
use crate::alerts::env_hooks;
use crate::alerts::format_duration;
use crate::alerts::hook_views;
use crate::alerts::lemma_hook_views_push;
use crate::alerts::mask;
use crate::alerts::masked_url;
use crate::alerts::mention_entries;
use crate::alerts::mention_views;
use crate::alerts::reminder;
use crate::alerts::sorted_mentions;
use crate::alerts::told;
use crate::alerts::transient;
use crate::alerts::unrepeated;
use crate::alerts::untold;
use crate::alerts::written;
use crate::alerts::written_mentions;
use crate::alerts::AppRoute;
use crate::alerts::Flavor;
use crate::alerts::MassOutage;
use crate::alerts::Mention;
use crate::alerts::MentionView;
use crate::alerts::Origin;
use crate::alerts::StatusChange;
use crate::alerts::Webhook;
use crate::alerts::WebhookView;
use crate::i18n::I18n;
use crate::text::copied;
use crate::text::decimal;
use crate::text::decimal_text;
use crate::text::first_chars;
use crate::text::join;
use crate::text::joined;
use crate::text::same;
use crate::text::take_chars;
use crate::text::trim_end_char;
use crate::text::trimmed;
use crate::text::views;
use crate::text::without_trailing;
use crate::uptime::history::ago;
use crate::uptime::Heartbeat;
use crate::uptime::Status;
use crate::weburl::opt_view;
use crate::weburl::parse_url;

verus! {

/// Alert configuration, straight from the environment.
#[derive(Debug)]
pub struct AlertSettings {
    pub webhook_urls: Vec<String>,
    pub on_degraded: bool,
    /// For linking an alert to the app's dashboard page.
    pub public_url: Option<String>,
    /// Mention entries (see `Mention`).
    pub mentions: Vec<String>,
    /// Editable message templates; `None` = the language's defaults.
    pub templates: Option<TemplateStore>,
    /// Seconds between reminders while an app stays down; `None` = never.
    pub remind_after: Option<u64>,
}

impl Default for AlertSettings {
    fn default() -> (r: Self)
        ensures
            r.webhook_urls@.len() == 0,
            !r.on_degraded,
            r.public_url is None,
            r.mentions@.len() == 0,
            r.templates is None,
            r.remind_after is None,
    {
        AlertSettings {
            webhook_urls: Vec::new(),
            on_degraded: false,
            public_url: None,
            mentions: Vec::new(),
            templates: None,
            remind_after: None,
        }
    }
}

/// How serious a status is for alerting. With degraded alerts off, degraded counts as fine, so
/// up <-> degraded flapping stays quiet.
#[derive(Debug, Clone, Copy, PartialEq, Eq, Structural)]
pub enum Severity {
    Fine,
    Degraded,
    Down,
}

pub open spec fn severity_of(on_degraded: bool, status: Status) -> Severity {
    match status {
        Status::Down => Severity::Down,
        Status::Degraded => if on_degraded {
            Severity::Degraded
        } else {
            Severity::Fine
        },
        Status::Up => Severity::Fine,
    }
}

/// Whether going `from` -> `to` deserves an alert.
pub open spec fn worth(on_degraded: bool, from: Status, to: Status) -> bool {
    severity_of(on_degraded, from) != severity_of(on_degraded, to)
}

/// The kind of message that a change calls for.
pub open spec fn kind_of(on_degraded: bool, change: StatusChange) -> TemplateKind {
    match severity_of(on_degraded, change.to) {
        Severity::Down => if reminder(change) {
            TemplateKind::Reminder
        } else {
            TemplateKind::Down
        },
        Severity::Degraded => TemplateKind::Degraded,
        Severity::Fine => TemplateKind::Recovered,
    }
}

/// The last delivery attempt to one webhook (real alerts and tests alike).
#[derive(Debug, PartialEq, Eq)]
pub struct Delivery {
    pub at: u64,
    pub ok: bool,
    /// HTTP status or the network error; empty on success.
    pub detail: String,
}

impl Clone for Delivery {
    fn clone(&self) -> (r: Self)
        ensures
            r == *self,
    {
        Delivery { at: self.at, ok: self.ok, detail: self.detail.clone() }
    }
}

/// What a webhook is sent.
#[derive(Debug, PartialEq, Eq)]
pub enum Payload {
    /// `{"text"}`
    Slack { text: String },
    /// `{"content"}`
    Discord { content: String },
    /// A status change, in full.
    Event {
        event: String,
        slug: String,
        name: String,
        from: Status,
        to: Status,
        at: u64,
        latency_ms: Option<u32>,
        message: String,
        url: Option<String>,
        /// Seconds since the outage started, on reminders and recoveries.
        down_for_secs: Option<u64>,
        /// Mention entries, only on a change to down (and reminders).
        mentions: Vec<String>,
        /// The message rendered from the template, as Slack/Discord would show it.
        text: String,
    },
    MassOutageStarted {
        down: usize,
        total: usize,
        at: u64,
        mentions: Vec<String>,
        text: String,
    },
    MassOutageEnded { total: usize, at: u64, text: String },
    Ping { message: String },
}

/// Which sample the settings page sends: a plain connectivity check, or one of the real alert
/// messages.
#[derive(Debug, Clone, Copy, PartialEq, Eq, Structural)]
pub enum TestKind {
    Ping,
    Down,
    Reminder,
    Degraded,
    Recovered,
}

/// The sample of a kind of message.
pub open spec fn test_of(kind: TemplateKind) -> TestKind {
    match kind {
        TemplateKind::Down => TestKind::Down,
        TemplateKind::Reminder => TestKind::Reminder,
        TemplateKind::Degraded => TestKind::Degraded,
        TemplateKind::Recovered => TestKind::Recovered,
    }
}

impl TestKind {
    /// The sample of a kind of message.
    pub fn of(kind: TemplateKind) -> (r: Self)
        ensures
            r == test_of(kind),
    {
        match kind {
            TemplateKind::Down => TestKind::Down,
            TemplateKind::Reminder => TestKind::Reminder,
            TemplateKind::Degraded => TestKind::Degraded,
            TemplateKind::Recovered => TestKind::Recovered,
        }
    }
}

/// One webhook as the settings page shows it: never the full URL, which is a secret.
#[derive(Debug)]
pub struct WebhookInfo {
    pub index: usize,
    pub service: Flavor,
    pub masked: String,
    pub last: Option<Delivery>,
}

#[derive(Debug)]
pub struct MentionInfo {
    pub raw: String,
    pub slack: Option<String>,
    pub discord: Option<String>,
}

/// One editable template as the settings page shows it.
#[derive(Debug)]
pub struct TemplateInfo {
    pub kind: TemplateKind,
    pub template: String,
    pub default: String,
    pub custom: bool,
    /// Sample values (Slack-flavored mentions) for the live preview.
    pub sample: TemplateVars,
}

/// Everything the settings page shows about alerting.
#[derive(Debug)]
pub struct AlertOverview {
    pub webhooks: Vec<WebhookInfo>,
    pub mentions: Vec<MentionInfo>,
    pub rejected_mentions: Vec<String>,
    pub on_degraded: bool,
    pub remind_mins: Option<u64>,
    /// Slack-flavored preview of each alert kind, exactly as it would be sent.
    pub previews: Vec<AlertPreview>,
    pub templates: Vec<TemplateInfo>,
}

#[derive(Debug)]
pub struct AlertPreview {
    pub kind: TestKind,
    pub text: String,
}

/// Result of one test send ("pong").
#[derive(Debug)]
pub struct TestOutcome {
    pub index: usize,
    pub service: Flavor,
    pub ok: bool,
    pub status: Option<u16>,
    pub latency_ms: u32,
    pub detail: String,
}

/// How a webhook answered a test.
#[derive(Debug)]
pub enum TestReply {
    Answered { status: u16, body: String },
    Failed { error: String },
}

/// The delivery recorded for a webhook: the first entry under its URL.
pub open spec fn delivery_in(log: Seq<(String, Delivery)>, url: Seq<char>) -> Option<Delivery>
    decreases log.len(),
{
    if log.len() == 0 {
        None
    } else if log[0].0@ == url {
        Some(log[0].1)
    } else {
        delivery_in(log.skip(1), url)
    }
}

#[derive(Debug)]
pub struct Alerter {
    webhooks: Vec<Webhook>,
    on_degraded: bool,
    public_url: Option<String>,
    mentions: Vec<Mention>,
    /// Mention entries that didn't parse, shown on the settings page.
    rejected_mentions: Vec<String>,
    templates: TemplateStore,
    remind_after: Option<u64>,
    i18n: I18n,
    /// Last delivery per webhook URL.
    deliveries: Vec<(String, Delivery)>,
}

/// What an alerter has been configured with.
pub struct AlerterView {
    pub hooks: Seq<WebhookView>,
    pub on_degraded: bool,
    /// The public URL, without slashes at its end.
    pub base: Option<Seq<char>>,
    pub mentions: Seq<MentionView>,
    pub rejected: Seq<Seq<char>>,
    pub templates: TemplateStore,
    pub remind_after: Option<u64>,
    pub i18n: I18n,
    pub deliveries: Seq<(String, Delivery)>,
}

impl View for Alerter {
    type V = AlerterView;

    closed spec fn view(&self) -> AlerterView {
        AlerterView {
            hooks: hook_views(self.webhooks@),
            on_degraded: self.on_degraded,
            base: opt_view(self.public_url),
            mentions: mention_views(self.mentions@),
            rejected: views(self.rejected_mentions@),
            templates: self.templates,
            remind_after: self.remind_after,
            i18n: self.i18n,
            deliveries: self.deliveries@,
        }
    }
}

/// Where an alert links to: the app's page on the dashboard, or the dashboard itself.
pub open spec fn link(base: Option<Seq<char>>, slug: Seq<char>) -> Option<Seq<char>> {
    match base {
        Some(url) => Some(
            if slug.len() == 0 {
                url + "/"@
            } else {
                url + "/#"@ + slug
            },
        ),
        None => None,
    }
}

/// An optional text, empty where there is none.
pub open spec fn or_empty(s: Option<Seq<char>>) -> Seq<char> {
    match s {
        Some(text) => text,
        None => Seq::empty(),
    }
}

/// Whom a change pages: the global mentions and then the app's own, without duplicates, on a
/// change to down and on reminders; otherwise nobody.
pub open spec fn paged(global: Seq<MentionView>, change: StatusChange) -> Seq<MentionView> {
    if change.to == Status::Down {
        added(unrepeated(global), told(views(change.route.mentions@)))
    } else {
        Seq::empty()
    }
}

/// How long the outage has lasted that a reminder is about or that a recovery ends; an outage
/// that is only just announced has no length yet.
pub open spec fn down_for(change: StatusChange) -> Option<u64> {
    match change.down_since {
        Some(since) => if change.from == Status::Down {
            Some(ago(change.beat.at, since))
        } else {
            None
        },
        None => None,
    }
}

fn lasted(change: &StatusChange) -> (r: Option<u64>)
    ensures
        r == down_for(*change),
{
    match change.down_since {
        Some(since) => if change.from == Status::Down {
            Some(change.beat.at.saturating_sub(since))
        } else {
            None
        },
        None => None,
    }
}

/// The values that a change gives a template.
pub open spec fn change_vars(a: AlerterView, flavor: Flavor, change: StatusChange) -> VarsView {
    VarsView {
        app: change.name@,
        message: change.beat.message@,
        latency: match change.beat.latency_ms {
            Some(ms) => decimal(ms as nat) + " ms"@,
            None => Seq::empty(),
        },
        link: or_empty(link(a.base, change.slug@)),
        mentions: join(all_written(paged(a.mentions, change), flavor), " "@),
        duration: match down_for(change) {
            Some(secs) => duration_text(secs as nat),
            None => Seq::empty(),
        },
    }
}

/// The message of a change, as a service shows it.
pub open spec fn change_text(
    a: AlerterView,
    on_degraded: bool,
    flavor: Flavor,
    change: StatusChange,
) -> Seq<char> {
    rendered(
        a.templates.in_effect(kind_of(on_degraded, change)),
        change_vars(a, flavor, change),
    )
}

/// Whether `p` is what a service is sent about a change.
pub open spec fn change_payload(
    a: AlerterView,
    on_degraded: bool,
    flavor: Flavor,
    change: StatusChange,
    p: Payload,
) -> bool {
    let words = change_text(a, on_degraded, flavor, change);
    match flavor {
        Flavor::Slack => p matches Payload::Slack { text } && text@ == words,
        Flavor::Discord => p matches Payload::Discord { content } && content@ == words,
        Flavor::Generic => {
            &&& p matches Payload::Event {
                event,
                slug,
                name,
                from,
                to,
                at,
                latency_ms,
                message,
                url,
                down_for_secs,
                mentions,
                text,
            }
            &&& event@ == if reminder(change) {
                "still_down"@
            } else {
                "status_change"@
            }
            &&& slug@ == change.slug@
            &&& name@ == change.name@
            &&& from == change.from
            &&& to == change.to
            &&& at == change.beat.at
            &&& latency_ms == change.beat.latency_ms
            &&& message@ == change.beat.message@
            &&& opt_view(url) == link(a.base, change.slug@)
            &&& down_for_secs == down_for(change)
            &&& views(mentions@) == paged(a.mentions, change).map_values(
                |m: MentionView| entry_of(m),
            )
            &&& text@ == words
        },
    }
}

/// The hooks of `all`, and after them those of `more` whose URL is not among them yet.
pub open spec fn with_hooks(all: Seq<WebhookView>, more: Seq<WebhookView>) -> Seq<WebhookView>
    decreases more.len(),
{
    if more.len() == 0 {
        all
    } else {
        let before = with_hooks(all, more.drop_last());
        if has_url(before, more.last().url.text) {
            before
        } else {
            before.push(more.last())
        }
    }
}

/// Where a change of an app goes: to the global webhooks and then to the app's own, no URL
/// twice.
pub open spec fn reached(global: Seq<WebhookView>, route: AppRoute) -> Seq<WebhookView> {
    with_hooks(with_hooks(Seq::empty(), global), app_hooks(views(route.webhooks@)))
}

/// Whether one of the hooks is at this URL.
pub open spec fn has_url(hooks: Seq<WebhookView>, text: Seq<char>) -> bool {
    exists|i: int| 0 <= i < hooks.len() && (#[trigger] hooks[i]).url.text == text
}

/// The notice of a mass outage, as a service shows it.
pub open spec fn outage_text(a: AlerterView, flavor: Flavor, outage: MassOutage) -> Seq<char> {
    let page = or_empty(link(a.base, Seq::empty()));
    let words = match outage {
        MassOutage::Started { down, total } => a.i18n.message(
            "alert.mass_down"@,
            seq![
                ("mentions"@, join(all_written(a.mentions, flavor), " "@)),
                ("down"@, decimal(down as nat)),
                ("total"@, decimal(total as nat)),
                ("link"@, page),
            ],
        ),
        MassOutage::Ended { total } => a.i18n.message(
            "alert.mass_recovered"@,
            seq![("total"@, decimal(total as nat)), ("link"@, page)],
        ),
    };
    rendered(
        words,
        VarsView {
            app: Seq::empty(),
            message: Seq::empty(),
            latency: Seq::empty(),
            link: Seq::empty(),
            mentions: Seq::empty(),
            duration: Seq::empty(),
        },
    )
}

/// Whether `p` is what a service is sent about a mass outage at `now`.
pub open spec fn outage_payload(
    a: AlerterView,
    flavor: Flavor,
    outage: MassOutage,
    now: u64,
    p: Payload,
) -> bool {
    let words = outage_text(a, flavor, outage);
    match (flavor, outage) {
        (Flavor::Slack, _) => p matches Payload::Slack { text } && text@ == words,
        (Flavor::Discord, _) => p matches Payload::Discord { content } && content@ == words,
        (Flavor::Generic, MassOutage::Started { down, total }) => {
            &&& p matches Payload::MassOutageStarted { down: d, total: t, at, mentions, text }
            &&& d == down
            &&& t == total
            &&& at == now
            &&& views(mentions@) == a.mentions.map_values(|m: MentionView| entry_of(m))
            &&& text@ == words
        },
        (Flavor::Generic, MassOutage::Ended { total }) => {
            &&& p matches Payload::MassOutageEnded { total: t, at, text }
            &&& t == total
            &&& at == now
            &&& text@ == words
        },
    }
}

/// The connectivity check's message.
pub open spec fn ping_text(a: AlerterView) -> Seq<char> {
    let words = a.i18n.template("alert.ping"@);
    match a.base {
        Some(url) => words + "\n"@ + url + "/"@,
        None => words,
    }
}

/// Whether `p` is the connectivity check that a service is sent.
pub open spec fn ping_payload(a: AlerterView, flavor: Flavor, p: Payload) -> bool {
    match flavor {
        Flavor::Slack => p matches Payload::Slack { text } && text@ == ping_text(a),
        Flavor::Discord => p matches Payload::Discord { content } && content@ == ping_text(a),
        Flavor::Generic => p matches Payload::Ping { message } && message@ == ping_text(a),
    }
}

/// How far back the oldest sample outage began, in seconds.
pub const SAMPLE_OUTAGE_SECS: u64 = 1500;

/// Whether `c` is the sample change of a kind at `now`.
pub open spec fn is_sample(i18n: I18n, kind: TestKind, now: u64, c: StatusChange) -> bool {
    &&& c.slug@.len() == 0
    &&& c.name@ == i18n.template("alert.test_app"@)
    &&& c.beat.at == now
    &&& c.beat.status == c.to
    &&& match kind {
        TestKind::Ping => false,
        TestKind::Down => c.from == Status::Up && c.to == Status::Down && c.beat.latency_ms is None
            && c.beat.message@ == "HTTP 503 Service Unavailable"@ && c.down_since is None,
        TestKind::Reminder => c.from == Status::Down && c.to == Status::Down
            && c.beat.latency_ms is None && c.beat.message@ == "HTTP 503 Service Unavailable"@
            && c.down_since == Some((now - SAMPLE_OUTAGE_SECS) as u64),
        TestKind::Degraded => c.from == Status::Up && c.to == Status::Degraded
            && c.beat.latency_ms == Some(2100u32) && c.beat.message@ == "HTTP 200 OK"@
            && c.down_since is None,
        TestKind::Recovered => c.from == Status::Down && c.to == Status::Up && c.beat.latency_ms
            == Some(180u32) && c.beat.message@ == "HTTP 200 OK"@ && c.down_since == Some(
            (now - 420) as u64,
        ),
    }
}

fn text_or_empty(s: Option<String>) -> (r: String)
    ensures
        r@ == or_empty(opt_view(s)),
{
    match s {
        Some(text) => text,
        None => String::new(),
    }
}

/// The global webhooks that `entries` name.
fn env_webhooks(entries: &Vec<String>) -> (r: Vec<Webhook>)
    ensures
        hook_views(r@) == env_hooks(views(entries@)),
{
    let ghost all = views(entries@);
    let mut out: Vec<Webhook> = Vec::new();
    let mut i: usize = 0;
    proof {
        assert(all.take(0) =~= Seq::<Seq<char>>::empty());
        assert(hook_views(out@) =~= env_hooks(all.take(0)));
    }
    while i < entries.len()
        invariant
            i <= entries@.len(),
            all == views(entries@),
            hook_views(out@) == env_hooks(all.take(i as int)),
        decreases entries@.len() - i,
    {
        proof {
            assert(all.take(i as int + 1).drop_last() =~= all.take(i as int));
            assert(all.take(i as int + 1).last() == entries@[i as int]@);
        }
        let clean = trimmed(entries[i].as_str());
        if let Ok(url) = parse_url(clean.as_str()) {
            let hook = Webhook::new(url, Origin::Env);
            proof {
                lemma_hook_views_push(out@, hook);
            }
            out.push(hook);
        }
        i += 1;
    }
    proof {
        assert(all.take(all.len() as int) =~= all);
    }
    out
}

fn any_at(hooks: &Vec<Webhook>, text: &str) -> (r: bool)
    ensures
        r == has_url(hook_views(hooks@), text@),
{
    let mut i: usize = 0;
    while i < hooks.len()
        invariant
            i <= hooks@.len(),
            forall|j: int| 0 <= j < i ==> (#[trigger] hooks@[j]).url.text@ != text@,
        decreases hooks@.len() - i,
    {
        if same(hooks[i].url.text.as_str(), text) {
            proof {
                assert(hook_views(hooks@)[i as int].url.text == text@);
            }
            return true;
        }
        i += 1;
    }
    proof {
        assert forall|j: int| 0 <= j < hook_views(hooks@).len() implies (#[trigger] hook_views(
            hooks@,
        )[j]).url.text != text@ by {
            assert(hook_views(hooks@)[j] == hooks@[j]@);
        }
    }
    false
}

fn add_hooks(all: &mut Vec<Webhook>, more: &Vec<Webhook>)
    ensures
        hook_views(final(all)@) == with_hooks(hook_views(old(all)@), hook_views(more@)),
{
    let ghost start = hook_views(all@);
    let ghost hooks = hook_views(more@);
    let mut k: usize = 0;
    proof {
        assert(hooks.take(0) =~= Seq::<WebhookView>::empty());
    }
    while k < more.len()
        invariant
            k <= more@.len(),
            hooks == hook_views(more@),
            hook_views(all@) == with_hooks(start, hooks.take(k as int)),
        decreases more@.len() - k,
    {
        proof {
            assert(hooks.take(k as int + 1).drop_last() =~= hooks.take(k as int));
            assert(hooks.take(k as int + 1).last() == more@[k as int]@);
        }
        if !any_at(all, more[k].url.text.as_str()) {
            let hook = more[k].clone();
            proof {
                lemma_hook_views_push(all@, hook);
            }
            all.push(hook);
        }
        k += 1;
    }
    proof {
        assert(hooks.take(hooks.len() as int) =~= hooks);
    }
}

impl Alerter {
    /// Invalid webhook URLs and mention entries are skipped rather than failing startup. With
    /// no global webhook, only apps with their own webhooks alert.
    pub fn new(settings: AlertSettings, i18n: I18n) -> (r: Self)
        ensures
            r@.hooks == env_hooks(views(settings.webhook_urls@)),
            r@.on_degraded == settings.on_degraded,
            r@.base == match opt_view(settings.public_url) {
                Some(url) => Some(trim_end_char(url, '/')),
                None => None,
            },
            r@.mentions == told(views(settings.mentions@)),
            r@.rejected == untold(views(settings.mentions@)),
            settings.templates is Some ==> r@.templates == settings.templates->0,
            settings.templates is None ==> forall|kind: TemplateKind|
                #![trigger r@.templates.in_effect(kind)]
                r@.templates.customized(kind) is None && r@.templates.fallback(kind)
                    == i18n.template(crate::alert_templates::default_key(kind)),
            r@.remind_after == if settings.remind_after == Some(0u64) {
                None
            } else {
                settings.remind_after
            },
            r@.i18n == i18n,
            r@.deliveries == Seq::<(String, Delivery)>::empty(),
    {
        let webhooks = env_webhooks(&settings.webhook_urls);
        let sorted = sorted_mentions(&settings.mentions);
        let public_url = match settings.public_url {
            Some(url) => Some(without_trailing(url.as_str(), '/')),
            None => None,
        };
        let templates = match settings.templates {
            Some(store) => store,
            None => TemplateStore::in_memory(&i18n),
        };
        let remind_after = match settings.remind_after {
            Some(secs) => if secs == 0 {
                None
            } else {
                Some(secs)
            },
            None => None,
        };
        Alerter {
            webhooks,
            on_degraded: settings.on_degraded,
            public_url,
            mentions: sorted.0,
            rejected_mentions: sorted.1,
            templates,
            remind_after,
            i18n,
            deliveries: Vec::new(),
        }
    }

    /// Whether any global webhook is configured (apps may still have their own).
    #[must_use]
    pub fn has_global_webhooks(&self) -> (r: bool)
        ensures
            r == (self@.hooks.len() > 0),
    {
        self.webhooks.len() > 0
    }

    /// The global webhooks.
    pub fn global_webhooks(&self) -> (r: &Vec<Webhook>)
        ensures
            hook_views(r@) == self@.hooks,
    {
        &self.webhooks
    }

    /// The mentions of the entries that could be told.
    pub fn global_mentions(&self) -> (r: &Vec<Mention>)
        ensures
            mention_views(r@) == self@.mentions,
    {
        &self.mentions
    }

    /// Seconds between reminders.
    #[must_use]
    pub fn remind_after(&self) -> (r: Option<u64>)
        ensures
            r == self@.remind_after,
    {
        self.remind_after
    }

    fn severity(on_degraded: bool, status: Status) -> (r: Severity)
        ensures
            r == severity_of(on_degraded, status),
    {
        match status {
            Status::Down => Severity::Down,
            Status::Degraded => if on_degraded {
                Severity::Degraded
            } else {
                Severity::Fine
            },
            Status::Up => Severity::Fine,
        }
    }

    /// Whether going `from` -> `to` deserves an alert.
    #[must_use]
    pub fn worth_alerting(&self, from: Status, to: Status) -> (r: bool)
        ensures
            r == worth(self@.on_degraded, from, to),
    {
        Alerter::severity(self.on_degraded, from) != Alerter::severity(self.on_degraded, to)
    }

    fn kind(on_degraded: bool, change: &StatusChange) -> (r: TemplateKind)
        ensures
            r == kind_of(on_degraded, *change),
    {
        match Alerter::severity(on_degraded, change.to) {
            Severity::Down => if change.is_reminder() {
                TemplateKind::Reminder
            } else {
                TemplateKind::Down
            },
            Severity::Degraded => TemplateKind::Degraded,
            Severity::Fine => TemplateKind::Recovered,
        }
    }

    /// Global mentions plus the app's own, without duplicates; nobody unless the change is to
    /// down.
    pub fn mentions_for(&self, change: &StatusChange) -> (r: Vec<Mention>)
        ensures
            mention_views(r@) == paged(self@.mentions, *change),
    {
        let mut all: Vec<Mention> = Vec::new();
        if change.to != Status::Down {
            proof {
                assert(mention_views(all@) =~= Seq::<MentionView>::empty());
            }
            return all;
        }
        let own = change.route.mentions();
        proof {
            assert(mention_views(all@) =~= Seq::<MentionView>::empty());
        }
        add_mentions(&mut all, &self.mentions);
        add_mentions(&mut all, &own);
        all
    }

    /// The values that `change` gives a template.
    pub fn vars(&self, flavor: Flavor, change: &StatusChange) -> (r: TemplateVars)
        ensures
            r@ == change_vars(self@, flavor, *change),
    {
        let mentions = self.mentions_for(change);
        let texts = written_mentions(&mentions, flavor);
        let latency = match change.beat.latency_ms {
            Some(ms) => {
                let mut out = decimal_text(ms as u64);
                out.append(" ms");
                out
            },
            None => String::new(),
        };
        let duration = match lasted(change) {
            Some(secs) => format_duration(secs),
            None => String::new(),
        };
        TemplateVars {
            app: change.name.clone(),
            message: change.beat.message.clone(),
            latency,
            link: text_or_empty(self.dashboard_url(change.slug.as_str())),
            mentions: joined(&texts, " "),
            duration,
        }
    }

    /// The message of `change`, with degraded changes told apart or not.
    fn text_as(&self, on_degraded: bool, flavor: Flavor, change: &StatusChange) -> (r: String)
        ensures
            r@ == change_text(self@, on_degraded, flavor, *change),
    {
        let template = self.templates.effective(Alerter::kind(on_degraded, change));
        let vars = self.vars(flavor, change);
        render(template.as_str(), &vars)
    }

    /// The message of `change`, as a service shows it.
    pub fn text(&self, flavor: Flavor, change: &StatusChange) -> (r: String)
        ensures
            r@ == change_text(self@, self@.on_degraded, flavor, *change),
    {
        self.text_as(self.on_degraded, flavor, change)
    }

    /// The message templates in use.
    #[must_use]
    pub fn templates(&self) -> (r: &TemplateStore)
        ensures
            *r == self@.templates,
    {
        &self.templates
    }

    /// Replaces the custom templates (blank = default).
    pub fn save_templates(&mut self, templates: AlertTemplates)
        ensures
            forall|kind: TemplateKind| #[trigger]
                final(self)@.templates.customized(kind) == crate::alert_templates::clean(
                    crate::alert_templates::slot(templates, kind),
                ),
            forall|kind: TemplateKind| #[trigger]
                final(self)@.templates.fallback(kind) == old(self)@.templates.fallback(kind),
            final(self)@ == (AlerterView { templates: final(self)@.templates, ..old(self)@ }),
    {
        self.templates.save(templates);
    }

    fn dashboard_url(&self, slug: &str) -> (r: Option<String>)
        ensures
            opt_view(r) == link(self@.base, slug@),
    {
        match &self.public_url {
            Some(base) => {
                let mut out = base.clone();
                if slug.is_empty() {
                    out.append("/");
                } else {
                    out.append("/#");
                    out.append(slug);
                }
                Some(out)
            },
            None => None,
        }
    }

    fn payload_as(&self, on_degraded: bool, flavor: Flavor, change: &StatusChange) -> (r: Payload)
        ensures
            change_payload(self@, on_degraded, flavor, *change, r),
    {
        let text = self.text_as(on_degraded, flavor, change);
        match flavor {
            Flavor::Slack => Payload::Slack { text },
            Flavor::Discord => Payload::Discord { content: text },
            Flavor::Generic => {
                let event = if change.is_reminder() {
                    "still_down".to_owned()
                } else {
                    "status_change".to_owned()
                };
                let mentions = self.mentions_for(change);
                Payload::Event {
                    event,
                    slug: change.slug.clone(),
                    name: change.name.clone(),
                    from: change.from,
                    to: change.to,
                    at: change.beat.at,
                    latency_ms: change.beat.latency_ms,
                    message: change.beat.message.clone(),
                    url: self.dashboard_url(change.slug.as_str()),
                    down_for_secs: lasted(change),
                    mentions: mention_entries(&mentions),
                    text,
                }
            },
        }
    }

    /// What a service is sent about `change`.
    pub fn payload(&self, flavor: Flavor, change: &StatusChange) -> (r: Payload)
        ensures
            change_payload(self@, self@.on_degraded, flavor, *change, r),
    {
        self.payload_as(self.on_degraded, flavor, change)
    }

    /// Global webhooks plus the app's own, without duplicates.
    pub fn destinations(&self, route: &AppRoute) -> (r: Vec<Webhook>)
        ensures
            hook_views(r@) == reached(self@.hooks, *route),
    {
        let mut all: Vec<Webhook> = Vec::new();
        let own = route.webhooks();
        proof {
            assert(hook_views(all@) =~= Seq::<WebhookView>::empty());
        }
        add_hooks(&mut all, &self.webhooks);
        add_hooks(&mut all, &own);
        all
    }

    /// What goes out about `change`, and where to.
    pub fn outgoing(&self, change: &StatusChange) -> (r: Vec<(Webhook, Payload)>)
        ensures
            ({
                let hooks = reached(self@.hooks, change.route);
                &&& r@.len() == hooks.len()
                &&& forall|i: int|
                    0 <= i < hooks.len() ==> (#[trigger] r@[i]).0@ == hooks[i] && change_payload(
                        self@,
                        self@.on_degraded,
                        hooks[i].flavor,
                        *change,
                        r@[i].1,
                    )
            }),
    {
        let hooks = self.destinations(&change.route);
        let mut out: Vec<(Webhook, Payload)> = Vec::new();
        let mut i: usize = 0;
        while i < hooks.len()
            invariant
                i <= hooks@.len(),
                out@.len() == i,
                forall|j: int|
                    0 <= j < i ==> (#[trigger] out@[j]).0 == hooks@[j] && change_payload(
                        self@,
                        self@.on_degraded,
                        hooks@[j].flavor,
                        *change,
                        out@[j].1,
                    ),
            decreases hooks@.len() - i,
        {
            let payload = self.payload(hooks[i].flavor, change);
            out.push((hooks[i].clone(), payload));
            i += 1;
        }
        proof {
            assert forall|j: int| 0 <= j < hooks@.len() implies (#[trigger] out@[j]).0@
                == hook_views(hooks@)[j] by {
                assert(hook_views(hooks@)[j] == hooks@[j]@);
            }
        }
        out
    }

    /// What goes out about a mass outage, and where to: to the global webhooks only, since it's
    /// about Heartbeat, not about any one app.
    pub fn outgoing_mass(&self, outage: MassOutage, now: u64) -> (r: Vec<(Webhook, Payload)>)
        ensures
            r@.len() == self@.hooks.len(),
            forall|i: int|
                0 <= i < self@.hooks.len() ==> (#[trigger] r@[i]).0@ == self@.hooks[i]
                    && outage_payload(self@, self@.hooks[i].flavor, outage, now, r@[i].1),
    {
        let mut out: Vec<(Webhook, Payload)> = Vec::new();
        let mut i: usize = 0;
        while i < self.webhooks.len()
            invariant
                i <= self.webhooks@.len(),
                out@.len() == i,
                forall|j: int|
                    0 <= j < i ==> (#[trigger] out@[j]).0 == self.webhooks@[j] && outage_payload(
                        self@,
                        self.webhooks@[j].flavor,
                        outage,
                        now,
                        out@[j].1,
                    ),
            decreases self.webhooks@.len() - i,
        {
            let payload = self.mass_payload(self.webhooks[i].flavor, outage, now);
            out.push((self.webhooks[i].clone(), payload));
            i += 1;
        }
        proof {
            assert forall|j: int| 0 <= j < self@.hooks.len() implies (#[trigger] out@[j]).0@
                == self@.hooks[j] by {
                assert(hook_views(self.webhooks@)[j] == self.webhooks@[j]@);
            }
        }
        out
    }

    /// The notice of a mass outage, as a service shows it.
    pub fn mass_text(&self, flavor: Flavor, outage: MassOutage) -> (r: String)
        ensures
            r@ == outage_text(self@, flavor, outage),
    {
        proof {
            reveal_strlit("");
            assert(""@ =~= Seq::<char>::empty());
        }
        let page = text_or_empty(self.dashboard_url(""));
        let words = match outage {
            MassOutage::Started { down, total } => {
                let texts = written_mentions(&self.mentions, flavor);
                let mentions = joined(&texts, " ");
                let down_text = decimal_text(down as u64);
                let total_text = decimal_text(total as u64);
                self.i18n.line4(
                    "alert.mass_down",
                    ("mentions", mentions.as_str()),
                    ("down", down_text.as_str()),
                    ("total", total_text.as_str()),
                    ("link", page.as_str()),
                )
            },
            MassOutage::Ended { total } => {
                let total_text = decimal_text(total as u64);
                self.i18n.line2(
                    "alert.mass_recovered",
                    ("total", total_text.as_str()),
                    ("link", page.as_str()),
                )
            },
        };
        let nothing = TemplateVars::default();
        proof {
            assert(nothing.app@ =~= Seq::<char>::empty());
            assert(nothing.message@ =~= Seq::<char>::empty());
            assert(nothing.latency@ =~= Seq::<char>::empty());
            assert(nothing.link@ =~= Seq::<char>::empty());
            assert(nothing.mentions@ =~= Seq::<char>::empty());
            assert(nothing.duration@ =~= Seq::<char>::empty());
        }
        render(words.as_str(), &nothing)
    }

    /// What a service is sent about a mass outage.
    pub fn mass_payload(&self, flavor: Flavor, outage: MassOutage, now: u64) -> (r: Payload)
        ensures
            outage_payload(self@, flavor, outage, now, r),
    {
        let text = self.mass_text(flavor, outage);
        match flavor {
            Flavor::Slack => Payload::Slack { text },
            Flavor::Discord => Payload::Discord { content: text },
            Flavor::Generic => match outage {
                MassOutage::Started { down, total } => Payload::MassOutageStarted {
                    down,
                    total,
                    at: now,
                    mentions: mention_entries(&self.mentions),
                    text,
                },
                MassOutage::Ended { total } => Payload::MassOutageEnded { total, at: now, text },
            },
        }
    }

    /// A sample change for `kind`, marked as a test so nobody mistakes it for an outage. `None`
    /// for `Ping`, which isn't a status change.
    pub fn sample(&self, kind: TestKind, route: AppRoute, now: u64) -> (r: Option<StatusChange>)
        requires
            now >= SAMPLE_OUTAGE_SECS,
        ensures
            match r {
                Some(c) => is_sample(self@.i18n, kind, now, c) && c.route == route,
                None => kind == TestKind::Ping,
            },
    {
        let (from, to, latency_ms, message, down_since): (
            Status,
            Status,
            Option<u32>,
            &str,
            Option<u64>,
        ) = match kind {
            TestKind::Ping => {
                return None;
            },
            TestKind::Down => (
                Status::Up,
                Status::Down,
                None,
                "HTTP 503 Service Unavailable",
                None,
            ),
            TestKind::Reminder => (
                Status::Down,
                Status::Down,
                None,
                "HTTP 503 Service Unavailable",
                Some(now - SAMPLE_OUTAGE_SECS),
            ),
            TestKind::Degraded => (Status::Up, Status::Degraded, Some(2100), "HTTP 200 OK", None),
            TestKind::Recovered => (
                Status::Down,
                Status::Up,
                Some(180),
                "HTTP 200 OK",
                Some(now - 420),
            ),
        };
        Some(
            StatusChange {
                slug: String::new(),
                name: self.i18n.line("alert.test_app"),
                from,
                to,
                beat: Heartbeat { at: now, status: to, latency_ms, message: message.to_owned() },
                down_since,
                route,
            },
        )
    }

    fn ping_payload(&self, flavor: Flavor) -> (r: Payload)
        ensures
            ping_payload(self@, flavor, r),
    {
        let mut text = self.i18n.line("alert.ping");
        if let Some(url) = &self.public_url {
            text.append("\n");
            text.append(url.as_str());
            text.append("/");
        }
        match flavor {
            Flavor::Slack => Payload::Slack { text },
            Flavor::Discord => Payload::Discord { content: text },
            Flavor::Generic => Payload::Ping { message: text },
        }
    }

    /// What a test of `kind` sends to a webhook of this service: the connectivity check, or a
    /// sample with an app's own mentions. Degraded samples are sent even with degraded alerts
    /// off, so the message can be seen before turning them on.
    pub fn test_payload(&self, kind: TestKind, flavor: Flavor, route: AppRoute, now: u64) -> (r:
        Payload)
        requires
            now >= SAMPLE_OUTAGE_SECS,
        ensures
            kind == TestKind::Ping ==> ping_payload(self@, flavor, r),
            kind != TestKind::Ping ==> exists|c: StatusChange|
                is_sample(self@.i18n, kind, now, c) && c.route == route && #[trigger]
                change_payload(self@, true, flavor, c, r),
    {
        match self.sample(kind, route, now) {
            Some(change) => {
                let r = self.payload_as(true, flavor, &change);
                proof {
                    assert(change_payload(self@, true, flavor, change, r));
                }
                r
            },
            None => self.ping_payload(flavor),
        }
    }

    /// The indexes of the global webhooks that a test goes to: one of them, or all.
    pub fn test_targets(&self, target: Option<usize>) -> (r: Vec<usize>)
        ensures
            match target {
                Some(t) => r@ == if t < self@.hooks.len() {
                    seq![t]
                } else {
                    Seq::empty()
                },
                None => r@ == Seq::new(self@.hooks.len(), |i: int| i as usize),
            },
    {
        let mut out: Vec<usize> = Vec::new();
        match target {
            Some(t) => {
                if t < self.webhooks.len() {
                    out.push(t);
                    proof {
                        assert(out@ =~= seq![t]);
                    }
                }
            },
            None => {
                let mut i: usize = 0;
                while i < self.webhooks.len()
                    invariant
                        i <= self.webhooks@.len(),
                        out@ == Seq::new(i as nat, |i: int| i as usize),
                    decreases self.webhooks@.len() - i,
                {
                    out.push(i);
                    i += 1;
                    proof {
                        assert(out@ =~= Seq::new(i as nat, |i: int| i as usize));
                    }
                }
            },
        }
        out
    }

    /// Keeps `delivery` as the last one to the webhook at `url`.
    pub fn record(&mut self, url: &str, delivery: Delivery)
        ensures
            final(self)@ == (AlerterView { deliveries: final(self)@.deliveries, ..old(self)@ }),
            delivery_in(final(self)@.deliveries, url@) == Some(delivery),
            forall|other: Seq<char>|
                other != url@ ==> #[trigger] delivery_in(final(self)@.deliveries, other)
                    == delivery_in(old(self)@.deliveries, other),
    {
        let ghost log = self.deliveries@;
        let ghost start = self@;
        self.deliveries.insert(0, (url.to_owned(), delivery));
        proof {
            let now = self.deliveries@;
            assert(now.skip(1) =~= log);
        }
        let mut i: usize = 1;
        while i < self.deliveries.len()
            invariant
                1 <= i <= self.deliveries@.len(),
                self@ == (AlerterView { deliveries: self.deliveries@, ..start }),
                self.deliveries@[0].0@ == url@,
                self.deliveries@[0].1 == delivery,
                forall|other: Seq<char>|
                    other != url@ ==> #[trigger] delivery_in(self.deliveries@, other)
                        == delivery_in(log, other),
            decreases self.deliveries@.len() - i,
        {
            if same(self.deliveries[i].0.as_str(), url) {
                let ghost before = self.deliveries@;
                let gone = self.deliveries.remove(i);
                proof {
                    assert forall|other: Seq<char>| other != url@ implies #[trigger] delivery_in(
                        self.deliveries@,
                        other,
                    ) == delivery_in(log, other) by {
                        lemma_delivery_without(before, i as int, other);
                        assert(delivery_in(before, other) == delivery_in(log, other));
                    }
                }
            } else {
                i += 1;
            }
        }
    }

    /// The last delivery to the webhook at `url`.
    pub fn last_delivery(&self, url: &str) -> (r: Option<Delivery>)
        ensures
            r == delivery_in(self@.deliveries, url@),
    {
        let ghost all = self.deliveries@;
        let mut i: usize = 0;
        proof {
            assert(all.skip(0) =~= all);
        }
        while i < self.deliveries.len()
            invariant
                i <= self.deliveries@.len(),
                all == self.deliveries@,
                delivery_in(all, url@) == delivery_in(all.skip(i as int), url@),
            decreases self.deliveries@.len() - i,
        {
            proof {
                assert(all.skip(i as int)[0] == all[i as int]);
                assert(all.skip(i as int).skip(1) =~= all.skip(i as int + 1));
            }
            if same(self.deliveries[i].0.as_str(), url) {
                return Some(self.deliveries[i].1.clone());
            }
            i += 1;
        }
        None
    }
}

/// Dropping an entry of another URL changes nothing for this one.
proof fn lemma_delivery_without(log: Seq<(String, Delivery)>, k: int, url: Seq<char>)
    requires
        0 <= k < log.len(),
        log[k].0@ != url,
    ensures
        delivery_in(log.remove(k), url) == delivery_in(log, url),
    decreases log.len(),
{
    if k == 0 {
        assert(log.remove(0) =~= log.skip(1));
    } else {
        assert(log.remove(k)[0] == log[0]);
        assert(log.remove(k).skip(1) =~= log.skip(1).remove(k - 1));
        assert(log.skip(1)[k - 1] == log[k]);
        lemma_delivery_without(log.skip(1), k - 1, url);
    }
}

/// The values that the sample of a kind gives a template.
pub open spec fn sample_vars(a: AlerterView, kind: TestKind) -> VarsView {
    let pages = kind == TestKind::Down || kind == TestKind::Reminder;
    VarsView {
        app: a.i18n.template("alert.test_app"@),
        message: if pages {
            "HTTP 503 Service Unavailable"@
        } else {
            "HTTP 200 OK"@
        },
        latency: match kind {
            TestKind::Degraded => decimal(2100) + " ms"@,
            TestKind::Recovered => decimal(180) + " ms"@,
            _ => Seq::empty(),
        },
        link: or_empty(link(a.base, Seq::empty())),
        mentions: if pages {
            join(all_written(unrepeated(a.mentions), Flavor::Slack), " "@)
        } else {
            Seq::empty()
        },
        duration: match kind {
            TestKind::Reminder => duration_text(SAMPLE_OUTAGE_SECS as nat),
            TestKind::Recovered => duration_text(420),
            _ => Seq::empty(),
        },
    }
}

/// The sample message of a kind.
pub open spec fn sample_text(a: AlerterView, kind: TemplateKind) -> Seq<char> {
    rendered(a.templates.in_effect(kind), sample_vars(a, test_of(kind)))
}

proof fn lemma_sample_vars(a: AlerterView, kind: TestKind, now: u64, c: StatusChange)
    requires
        now >= SAMPLE_OUTAGE_SECS,
        is_sample(a.i18n, kind, now, c),
        c.route.mentions@ == Seq::<String>::empty(),
    ensures
        change_vars(a, Flavor::Slack, c) == sample_vars(a, kind),
{
    assert(views(c.route.mentions@) =~= Seq::<Seq<char>>::empty());
    assert(c.slug@ =~= Seq::<char>::empty());
    assert(told(Seq::<Seq<char>>::empty()) == Seq::<MentionView>::empty());
    assert(added(unrepeated(a.mentions), Seq::<MentionView>::empty()) == unrepeated(a.mentions));
    assert(all_written(Seq::<MentionView>::empty(), Flavor::Slack) == Seq::<Seq<char>>::empty());
    assert(join(Seq::<Seq<char>>::empty(), " "@) == Seq::<char>::empty());
}

/// Whether the settings page's entry of a webhook says what it should.
pub open spec fn hook_info(a: AlerterView, i: int, info: WebhookInfo) -> bool {
    &&& info.index == i
    &&& info.service == a.hooks[i].flavor
    &&& info.masked@ == masked_url(a.hooks[i].url)
    &&& info.last == delivery_in(a.deliveries, a.hooks[i].url.text)
}

/// Whether the settings page's entry of a mention says what it should.
pub open spec fn mention_info(m: MentionView, info: MentionInfo) -> bool {
    &&& info.raw@ == entry_of(m)
    &&& opt_view(info.slack) == written(m, Flavor::Slack)
    &&& opt_view(info.discord) == written(m, Flavor::Discord)
}

/// Whether the settings page's entry of a template says what it should.
pub open spec fn template_info(a: AlerterView, kind: TemplateKind, info: TemplateInfo) -> bool {
    &&& info.kind == kind
    &&& info.template@ == a.templates.in_effect(kind)
    &&& info.default@ == a.templates.fallback(kind)
    &&& info.custom == (a.templates.customized(kind) is Some)
    &&& info.sample@ == sample_vars(a, test_of(kind))
}

/// The kinds of messages, in the order in which the settings page shows them.
pub open spec fn kinds() -> Seq<TemplateKind> {
    seq![
        TemplateKind::Down,
        TemplateKind::Reminder,
        TemplateKind::Degraded,
        TemplateKind::Recovered,
    ]
}

fn kind_at(i: usize) -> (r: TemplateKind)
    requires
        i < 4,
    ensures
        r == kinds()[i as int],
{
    if i == 0 {
        TemplateKind::Down
    } else if i == 1 {
        TemplateKind::Reminder
    } else if i == 2 {
        TemplateKind::Degraded
    } else {
        TemplateKind::Recovered
    }
}

impl Alerter {
    fn template_entry(&self, kind: TemplateKind, now: u64) -> (r: Option<TemplateInfo>)
        requires
            now >= SAMPLE_OUTAGE_SECS,
        ensures
            r is Some && template_info(self@, kind, r->0),
    {
        match self.sample(TestKind::of(kind), AppRoute::default(), now) {
            Some(change) => {
                proof {
                    lemma_sample_vars(self@, test_of(kind), now, change);
                }
                Some(
                    TemplateInfo {
                        kind,
                        template: self.templates.effective(kind),
                        default: self.templates.default_for(kind),
                        custom: self.templates.is_custom(kind),
                        sample: self.vars(Flavor::Slack, &change),
                    },
                )
            },
            None => None,
        }
    }

    fn preview(&self, kind: TemplateKind, now: u64) -> (r: Option<AlertPreview>)
        requires
            now >= SAMPLE_OUTAGE_SECS,
        ensures
            r is Some && r->0.kind == test_of(kind) && r->0.text@ == sample_text(self@, kind),
    {
        match self.sample(TestKind::of(kind), AppRoute::default(), now) {
            Some(change) => {
                proof {
                    lemma_sample_vars(self@, test_of(kind), now, change);
                    assert(kind_of(true, change) == kind);
                }
                Some(
                    AlertPreview {
                        kind: TestKind::of(kind),
                        text: self.text_as(true, Flavor::Slack, &change),
                    },
                )
            },
            None => None,
        }
    }

    /// Everything the settings page shows about alerting.
    #[must_use]
    pub fn overview(&self, now: u64) -> (r: AlertOverview)
        requires
            now >= SAMPLE_OUTAGE_SECS,
        ensures
            r.webhooks@.len() == self@.hooks.len(),
            forall|i: int|
                0 <= i < self@.hooks.len() ==> hook_info(self@, i, #[trigger] r.webhooks@[i]),
            r.mentions@.len() == self@.mentions.len(),
            forall|i: int|
                0 <= i < self@.mentions.len() ==> mention_info(
                    self@.mentions[i],
                    #[trigger] r.mentions@[i],
                ),
            views(r.rejected_mentions@) == self@.rejected,
            r.on_degraded == self@.on_degraded,
            r.remind_mins == match self@.remind_after {
                Some(secs) => Some((secs / 60) as u64),
                None => None,
            },
            r.templates@.len() == 4,
            forall|i: int|
                0 <= i < 4 ==> template_info(self@, kinds()[i], #[trigger] r.templates@[i]),
            r.previews@.len() == 4,
            forall|i: int|
                0 <= i < 4 ==> (#[trigger] r.previews@[i]).kind == test_of(kinds()[i])
                    && r.previews@[i].text@ == sample_text(self@, kinds()[i]),
    {
        let mut webhooks: Vec<WebhookInfo> = Vec::new();
        let mut i: usize = 0;
        while i < self.webhooks.len()
            invariant
                i <= self.webhooks@.len(),
                webhooks@.len() == i,
                forall|j: int| 0 <= j < i ==> hook_info(self@, j, #[trigger] webhooks@[j]),
            decreases self.webhooks@.len() - i,
        {
            let hook = &self.webhooks[i];
            proof {
                assert(self@.hooks[i as int] == hook@);
            }
            webhooks.push(
                WebhookInfo {
                    index: i,
                    service: hook.flavor,
                    masked: mask(&hook.url),
                    last: self.last_delivery(hook.url.text.as_str()),
                },
            );
            i += 1;
        }
        let mut mentions: Vec<MentionInfo> = Vec::new();
        let mut k: usize = 0;
        while k < self.mentions.len()
            invariant
                k <= self.mentions@.len(),
                mentions@.len() == k,
                forall|j: int|
                    0 <= j < k ==> mention_info(self@.mentions[j], #[trigger] mentions@[j]),
            decreases self.mentions@.len() - k,
        {
            let m = &self.mentions[k];
            proof {
                assert(self@.mentions[k as int] == m@);
            }
            mentions.push(
                MentionInfo {
                    raw: m.raw(),
                    slack: m.render(Flavor::Slack),
                    discord: m.render(Flavor::Discord),
                },
            );
            k += 1;
        }
        let mut templates: Vec<TemplateInfo> = Vec::new();
        let mut previews: Vec<AlertPreview> = Vec::new();
        let mut n: usize = 0;
        while n < 4
            invariant
                n <= 4,
                now >= SAMPLE_OUTAGE_SECS,
                templates@.len() == n,
                forall|j: int|
                    0 <= j < n ==> template_info(self@, kinds()[j], #[trigger] templates@[j]),
                previews@.len() == n,
                forall|j: int|
                    0 <= j < n ==> (#[trigger] previews@[j]).kind == test_of(kinds()[j])
                        && previews@[j].text@ == sample_text(self@, kinds()[j]),
            decreases 4 - n,
        {
            let kind = kind_at(n);
            if let Some(info) = self.template_entry(kind, now) {
                templates.push(info);
            }
            if let Some(p) = self.preview(kind, now) {
                previews.push(p);
            }
            n += 1;
        }
        AlertOverview {
            webhooks,
            mentions,
            rejected_mentions: copied(&self.rejected_mentions),
            on_degraded: self.on_degraded,
            remind_mins: match self.remind_after {
                Some(secs) => Some(secs / 60),
                None => None,
            },
            previews,
            templates,
        }
    }
}

// ---------------------------------------------------------------------------------------
// Deliveries
// ---------------------------------------------------------------------------------------

/// Waits between delivery attempts, in seconds: a failed alert is tried up to four times over
/// 42 s.
pub open spec fn retry_delays() -> Seq<u64> {
    seq![2, 10, 30]
}

/// How one attempt to deliver went.
#[derive(Debug)]
pub enum Attempt {
    Delivered,
    /// The status that the server answered, if it answered, and what went wrong.
    Failed { status: Option<u16>, error: String },
}

/// What to do after an attempt.
#[derive(Debug)]
pub enum NextStep {
    /// Try again after this many seconds.
    Wait(u64),
    /// Done, one way or the other: this is what to record.
    Record(Delivery),
}

/// What follows the attempt number `attempt` (0 is the first one) at `now`: a transient failure
/// is tried again as long as there are waits left.
pub fn after_attempt(attempt: usize, outcome: Attempt, now: u64) -> (r: NextStep)
    ensures
        match outcome {
            Attempt::Delivered => r matches NextStep::Record(d) && d.at == now && d.ok
                && d.detail@.len() == 0,
            Attempt::Failed { status, error } => if transient(status) && attempt
                < retry_delays().len() {
                r == NextStep::Wait(retry_delays()[attempt as int])
            } else {
                r matches NextStep::Record(d) && d.at == now && !d.ok && d.detail == error
            },
        },
{
    match outcome {
        Attempt::Delivered => NextStep::Record(
            Delivery { at: now, ok: true, detail: String::new() },
        ),
        Attempt::Failed { status, error } => {
            if Webhook::retryable(status) && attempt < 3 {
                let delay: u64 = if attempt == 0 {
                    2
                } else if attempt == 1 {
                    10
                } else {
                    30
                };
                NextStep::Wait(delay)
            } else {
                NextStep::Record(Delivery { at: now, ok: false, detail: error })
            }
        },
    }
}

/// What a test reports of one webhook: a success where it answered 2xx, with the beginning of
/// what it answered.
pub fn test_outcome(index: usize, service: Flavor, reply: TestReply, latency_ms: u32) -> (r:
    TestOutcome)
    ensures
        r.index == index,
        r.service == service,
        r.latency_ms == latency_ms,
        match reply {
            TestReply::Answered { status, body } => r.ok == (200 <= status <= 299) && r.status
                == Some(status) && r.detail@ == first_chars(body@, 200),
            TestReply::Failed { error } => !r.ok && r.status is None && r.detail == error,
        },
{
    match reply {
        TestReply::Answered { status, body } => TestOutcome {
            index,
            service,
            ok: 200 <= status && status <= 299,
            status: Some(status),
            latency_ms,
            detail: take_chars(body.as_str(), 200),
        },
        TestReply::Failed { error } => TestOutcome {
            index,
            service,
            ok: false,
            status: None,
            latency_ms,
            detail: error,
        },
    }
}

/// What a test leaves on a webhook's record.
pub fn test_delivery(outcome: &TestOutcome, at: u64) -> (r: Delivery)
    ensures
        r.at == at,
        r.ok == outcome.ok,
        r.detail@ == if outcome.ok {
            Seq::empty()
        } else {
            outcome.detail@
        },
{
    Delivery {
        at,
        ok: outcome.ok,
        detail: if outcome.ok {
            String::new()
        } else {
            outcome.detail.clone()
        },
    }
}

// ---------------------------------------------------------------------------------------
// What holds of every alert
// ---------------------------------------------------------------------------------------

/// Nobody is told that nothing changed, and a change is worth an alert exactly if the change
/// back is.
pub proof fn lemma_alerts_are_symmetric(on_degraded: bool, from: Status, to: Status)
    ensures
        !worth(on_degraded, from, from),
        worth(on_degraded, from, to) == worth(on_degraded, to, from),
{
}

/// Going down and coming back are always worth an alert; up <-> degraded only with degraded
/// alerts on.
pub proof fn lemma_down_is_always_worth_an_alert(on_degraded: bool, other: Status)
    ensures
        other != Status::Down ==> worth(on_degraded, other, Status::Down) && worth(
            on_degraded,
            Status::Down,
            other,
        ),
        worth(on_degraded, Status::Up, Status::Degraded) == on_degraded,
{
}

/// A recovery pages nobody.
pub proof fn lemma_recovery_pages_nobody(global: Seq<MentionView>, change: StatusChange)
    ensures
        change.to != Status::Down ==> paged(global, change).len() == 0,
{
}

proof fn lemma_added(all: Seq<MentionView>, more: Seq<MentionView>)
    requires
        all.no_duplicates(),
    ensures
        added(all, more).no_duplicates(),
        added(all, more).len() >= all.len(),
        added(all, more).take(all.len() as int) == all,
        forall|m: MentionView| #[trigger]
            added(all, more).contains(m) <==> all.contains(m) || more.contains(m),
    decreases more.len(),
{
    if more.len() == 0 {
        assert(all.take(all.len() as int) =~= all);
    } else {
        let front = more.drop_last();
        let last = more.last();
        lemma_added(all, front);
        let before = added(all, front);
        let now = added(all, more);
        assert forall|m: MentionView| #[trigger] now.contains(m) <==> all.contains(m)
            || more.contains(m) by {
            if more.contains(m) {
                let i = choose|i: int| 0 <= i < more.len() && more[i] == m;
                if i < front.len() {
                    assert(front[i] == m);
                    assert(front.contains(m));
                }
            }
            if front.contains(m) {
                let i = choose|i: int| 0 <= i < front.len() && front[i] == m;
                assert(more[i] == m);
            }
            assert(more[more.len() - 1] == last);
            if before.contains(m) {
                let i = choose|i: int| 0 <= i < before.len() && before[i] == m;
                assert(now[i] == m);
            }
            if now.contains(m) && now != before {
                let i = choose|i: int| 0 <= i < now.len() && now[i] == m;
                if i < before.len() {
                    assert(before[i] == m);
                    assert(before.contains(m));
                }
            }
            if now != before {
                assert(now[now.len() - 1] == last);
            }
        }
        assert(now.take(all.len() as int) =~= before.take(all.len() as int));
    }
}

/// Mentions that nobody stands in twice are all kept.
proof fn lemma_unrepeated(ms: Seq<MentionView>)
    requires
        ms.no_duplicates(),
    ensures
        unrepeated(ms) == ms,
    decreases ms.len(),
{
    if ms.len() > 0 {
        let front = ms.drop_last();
        assert(front.no_duplicates());
        lemma_unrepeated(front);
        assert(!front.contains(ms.last())) by {
            if front.contains(ms.last()) {
                let i = choose|i: int| 0 <= i < front.len() && front[i] == ms.last();
                assert(ms[i] == ms[ms.len() - 1]);
            }
        }
        assert(front.push(ms.last()) =~= ms);
    }
}

/// A page names the global mentions first and nobody twice; everyone that the settings or the
/// app name is in it. Settings that name nobody twice are taken over as they are.
pub proof fn lemma_pages_name_everyone_once(global: Seq<MentionView>, change: StatusChange)
    requires
        change.to == Status::Down,
    ensures
        paged(global, change).no_duplicates(),
        paged(global, change).take(unrepeated(global).len() as int) == unrepeated(global),
        global.no_duplicates() ==> unrepeated(global) == global,
        forall|m: MentionView| #[trigger]
            paged(global, change).contains(m) <==> global.contains(m) || told(
                views(change.route.mentions@),
            ).contains(m),
{
    let nobody = Seq::<MentionView>::empty();
    assert(nobody.no_duplicates());
    lemma_added(nobody, global);
    lemma_added(unrepeated(global), told(views(change.route.mentions@)));
    if global.no_duplicates() {
        lemma_unrepeated(global);
    }
    assert forall|m: MentionView| #[trigger]
        paged(global, change).contains(m) implies global.contains(m) || told(
        views(change.route.mentions@),
    ).contains(m) by {
        assert(!nobody.contains(m));
    }
}

/// Reminders and recoveries tell how long the app has been down, from the start of the outage
/// to the check; no other message does.
pub proof fn lemma_reminders_and_recoveries_tell_a_duration(
    a: AlerterView,
    flavor: Flavor,
    change: StatusChange,
    since: u64,
)
    requires
        change.down_since == Some(since),
    ensures
        change_vars(a, flavor, change).duration == if change.from == Status::Down {
            duration_text(ago(change.beat.at, since) as nat)
        } else {
            Seq::empty()
        },
{
}

/// Whether no two of these hooks are at one URL.
pub open spec fn apart(hooks: Seq<WebhookView>) -> bool {
    forall|i: int, j: int|
        0 <= i < j < hooks.len() ==> (#[trigger] hooks[i]).url.text != (#[trigger] hooks[j]).url.text
}

proof fn lemma_with_hooks(all: Seq<WebhookView>, more: Seq<WebhookView>)
    requires
        apart(all),
    ensures
        apart(with_hooks(all, more)),
        with_hooks(all, more).len() >= all.len(),
        with_hooks(all, more).take(all.len() as int) == all,
        forall|text: Seq<char>| #[trigger]
            has_url(with_hooks(all, more), text) <==> has_url(all, text) || has_url(more, text),
    decreases more.len(),
{
    if more.len() == 0 {
        assert(all.take(all.len() as int) =~= all);
    } else {
        let front = more.drop_last();
        lemma_with_hooks(all, front);
        let before = with_hooks(all, front);
        let now = with_hooks(all, more);
        let last = more.last().url.text;
        assert(now.take(all.len() as int) =~= before.take(all.len() as int));
        assert forall|i: int, j: int| 0 <= i < j < now.len() implies (#[trigger] now[i]).url.text
            != (#[trigger] now[j]).url.text by {
            assert(now[i] == before[i]);
            if j < before.len() {
                assert(now[j] == before[j]);
            }
        }
        assert forall|text: Seq<char>| #[trigger] has_url(now, text) <==> has_url(all, text)
            || has_url(more, text) by {
            assert(has_url(before, text) <==> has_url(all, text) || has_url(front, text));
            if has_url(before, text) {
                let i = choose|i: int|
                    0 <= i < before.len() && (#[trigger] before[i]).url.text == text;
                assert(now[i].url.text == text);
            }
            if has_url(front, text) {
                let i = choose|i: int|
                    0 <= i < front.len() && (#[trigger] front[i]).url.text == text;
                assert(more[i].url.text == text);
            }
            if text == last {
                assert(more[more.len() - 1].url.text == text);
                if now != before {
                    assert(now[now.len() - 1].url.text == text);
                }
            }
            if has_url(now, text) && text != last {
                let i = choose|i: int| 0 <= i < now.len() && (#[trigger] now[i]).url.text == text;
                assert(before[i].url.text == text);
            }
            if has_url(more, text) && text != last {
                let i = choose|i: int| 0 <= i < more.len() && (#[trigger] more[i]).url.text == text;
                assert(front[i].url.text == text);
            }
        }
    }
}

/// No webhook gets a message twice, however often the settings and the app name it; each one
/// that they name gets it.
pub proof fn lemma_destinations_are_distinct(global: Seq<WebhookView>, route: AppRoute)
    ensures
        apart(reached(global, route)),
        forall|text: Seq<char>| #[trigger]
            has_url(reached(global, route), text) <==> has_url(global, text) || has_url(
                app_hooks(views(route.webhooks@)),
                text,
            ),
{
    let none = Seq::<WebhookView>::empty();
    lemma_with_hooks(none, global);
    lemma_with_hooks(with_hooks(none, global), app_hooks(views(route.webhooks@)));
    assert forall|text: Seq<char>| !#[trigger] has_url(none, text) by {}
}

} // verus!
