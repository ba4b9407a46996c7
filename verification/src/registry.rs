//! The list of registered apps (name, their logs endpoint and a health check URL for uptime
//! monitoring) and what an admin may set of them.

use vstd::prelude::*;

use crate::alerts::app_hook;
use crate::alerts::mention_of;
use crate::alerts::AppRoute;
use crate::alerts::Mention;
use crate::alerts::Webhook;
use crate::i18n::I18n;
use crate::i18n::Localize;
use crate::text::ascii_lower;
use crate::text::chars_of;
use crate::text::copied;
use crate::text::decimal;
use crate::text::decimal_text;
use crate::text::has_prefix;
use crate::text::is_alnum;
use crate::text::is_listed;
use crate::text::lemma_views_push;
use crate::text::listed;
use crate::text::same;
use crate::text::starts_with;
use crate::text::text_between;
use crate::text::to_lower;
use crate::text::trim;
use crate::text::trim_end_char;
use crate::text::trimmed;
use crate::text::unicode_lower;
use crate::text::views;
use crate::text::without_trailing;
use crate::token::is_hex;
use crate::token::is_secret;
use crate::token::random_hex;
use crate::token::secret_matches;
use crate::weburl::opt_view;

verus! {

/// Per-app check interval bounds, in seconds.
pub const MIN_INTERVAL_SECS: u32 = 10;

pub const MAX_INTERVAL_SECS: u32 = 86_400;

/// Longest per-app check timeout, in seconds.
pub const MAX_TIMEOUT_SECS: u32 = 60;

/// Most custom headers, and most alert webhooks, per app.
pub const MAX_HEADERS: usize = 10;

pub const MAX_WEBHOOKS: usize = 5;

/// Random bytes of an embed token.
pub const EMBED_TOKEN_BYTES: usize = 24;

/// Every way a registry operation can fail.
#[derive(Debug)]
pub enum RegistryError {
    EmptyName,
    NameWithoutAlphanumerics,
    /// Which URL it is.
    InvalidUrl(String),
    IntervalOutOfRange,
    TimeoutOutOfRange,
    InvalidStatus(u16),
    InvalidHeader(String),
    InvalidWebhook(String),
    InvalidMention(String),
    /// Of what there are too many.
    TooMany(String),
    SlugTaken,
    NotFound(String),
    /// No token could be generated.
    Token(String),
}

/// What went wrong with a registry operation.
pub enum Problem {
    EmptyName,
    NameWithoutAlphanumerics,
    InvalidUrl(Seq<char>),
    IntervalOutOfRange,
    TimeoutOutOfRange,
    InvalidStatus(u16),
    InvalidHeader(Seq<char>),
    InvalidWebhook(Seq<char>),
    InvalidMention(Seq<char>),
    TooMany(Seq<char>),
    SlugTaken,
    NotFound(Seq<char>),
    Token(Seq<char>),
}

impl View for RegistryError {
    type V = Problem;

    open spec fn view(&self) -> Problem {
        match self {
            RegistryError::EmptyName => Problem::EmptyName,
            RegistryError::NameWithoutAlphanumerics => Problem::NameWithoutAlphanumerics,
            RegistryError::InvalidUrl(label) => Problem::InvalidUrl(label@),
            RegistryError::IntervalOutOfRange => Problem::IntervalOutOfRange,
            RegistryError::TimeoutOutOfRange => Problem::TimeoutOutOfRange,
            RegistryError::InvalidStatus(code) => Problem::InvalidStatus(*code),
            RegistryError::InvalidHeader(line) => Problem::InvalidHeader(line@),
            RegistryError::InvalidWebhook(url) => Problem::InvalidWebhook(url@),
            RegistryError::InvalidMention(entry) => Problem::InvalidMention(entry@),
            RegistryError::TooMany(field) => Problem::TooMany(field@),
            RegistryError::SlugTaken => Problem::SlugTaken,
            RegistryError::NotFound(slug) => Problem::NotFound(slug@),
            RegistryError::Token(error) => Problem::Token(error@),
        }
    }
}

impl Localize for RegistryError {
    open spec fn localized(&self, i18n: &I18n) -> Seq<char> {
        match self@ {
            Problem::EmptyName => i18n.template("err.empty_name"@),
            Problem::NameWithoutAlphanumerics => i18n.template("err.name_no_alnum"@),
            Problem::InvalidUrl(label) => i18n.message("err.invalid_url"@, seq![("label"@, label)]),
            Problem::IntervalOutOfRange => i18n.message(
                "err.interval"@,
                seq![
                    ("min"@, decimal(MIN_INTERVAL_SECS as nat)),
                    ("max"@, decimal(MAX_INTERVAL_SECS as nat)),
                ],
            ),
            Problem::TimeoutOutOfRange => i18n.message(
                "err.timeout"@,
                seq![("max"@, decimal(MAX_TIMEOUT_SECS as nat))],
            ),
            Problem::InvalidStatus(code) => i18n.message(
                "err.status"@,
                seq![("code"@, decimal(code as nat))],
            ),
            Problem::InvalidHeader(line) => i18n.message("err.header"@, seq![("header"@, line)]),
            Problem::InvalidWebhook(url) => i18n.message("err.webhook"@, seq![("url"@, url)]),
            Problem::InvalidMention(entry) => i18n.message("err.mention"@, seq![("entry"@, entry)]),
            Problem::TooMany(field) => i18n.message("err.too_many"@, seq![("field"@, field)]),
            Problem::SlugTaken => i18n.template("err.slug_taken"@),
            Problem::NotFound(slug) => i18n.message("err.not_found"@, seq![("slug"@, slug)]),
            Problem::Token(error) => i18n.message(
                "err.internal"@,
                seq![("error"@, "could not generate a token: "@ + error)],
            ),
        }
    }

    fn localize(&self, i18n: &I18n) -> (r: String) {
        match self {
            RegistryError::EmptyName => i18n.line("err.empty_name"),
            RegistryError::NameWithoutAlphanumerics => i18n.line("err.name_no_alnum"),
            RegistryError::InvalidUrl(label) => i18n.line1(
                "err.invalid_url",
                "label",
                label.as_str(),
            ),
            RegistryError::IntervalOutOfRange => {
                let min = decimal_text(MIN_INTERVAL_SECS as u64);
                let max = decimal_text(MAX_INTERVAL_SECS as u64);
                i18n.line2("err.interval", ("min", min.as_str()), ("max", max.as_str()))
            },
            RegistryError::TimeoutOutOfRange => {
                let max = decimal_text(MAX_TIMEOUT_SECS as u64);
                i18n.line1("err.timeout", "max", max.as_str())
            },
            RegistryError::InvalidStatus(code) => {
                let text = decimal_text(*code as u64);
                i18n.line1("err.status", "code", text.as_str())
            },
            RegistryError::InvalidHeader(line) => i18n.line1(
                "err.header",
                "header",
                line.as_str(),
            ),
            RegistryError::InvalidWebhook(url) => i18n.line1("err.webhook", "url", url.as_str()),
            RegistryError::InvalidMention(entry) => i18n.line1(
                "err.mention",
                "entry",
                entry.as_str(),
            ),
            RegistryError::TooMany(field) => i18n.line1("err.too_many", "field", field.as_str()),
            RegistryError::SlugTaken => i18n.line("err.slug_taken"),
            RegistryError::NotFound(slug) => i18n.line1("err.not_found", "slug", slug.as_str()),
            RegistryError::Token(error) => {
                let mut text = "could not generate a token: ".to_owned();
                text.append(error.as_str());
                i18n.line1("err.internal", "error", text.as_str())
            },
        }
    }
}

// ---------------------------------------------------------------------------------------
// Headers
// ---------------------------------------------------------------------------------------

/// One extra request header sent with an app's health check (e.g. an auth token).
#[derive(Debug, PartialEq, Eq)]
pub struct CheckHeader {
    pub name: String,
    pub value: String,
}

impl Clone for CheckHeader {
    fn clone(&self) -> (r: Self)
        ensures
            r == *self,
    {
        CheckHeader { name: self.name.clone(), value: self.value.clone() }
    }
}

/// A character of an HTTP token.
pub open spec fn token_char(c: char) -> bool {
    is_alnum(c) || c == '!' || c == '#' || c == '$' || c == '%' || c == '&' || c == '\'' || c
        == '*' || c == '+' || c == '-' || c == '.' || c == '^' || c == '_' || c == '`' || c == '|'
        || c == '~'
}

/// Whether a text is an HTTP header's name.
pub open spec fn header_name(s: Seq<char>) -> bool {
    1 <= s.len() <= 65_535 && forall|i: int| 0 <= i < s.len() ==> token_char(#[trigger] s[i])
}

/// Whether a text can be an HTTP header's value: no control characters but tabs.
pub open spec fn header_value(s: Seq<char>) -> bool {
    forall|i: int|
        0 <= i < s.len() ==> ((#[trigger] s[i]) as u32 >= 32 && s[i] as u32 != 127) || s[i]
            == '\t'
}

/// `reqwest::header::HeaderName::from_bytes`: the name in lower case if it is a token of 1 to
/// 65535 characters, nothing otherwise.
#[verifier::external_body]
fn parse_header_name(name: &str) -> (r: Option<String>)
    ensures
        match r {
            Some(lower) => header_name(name@) && lower@ == ascii_lower(name@),
            None => !header_name(name@),
        },
{
    match reqwest::header::HeaderName::from_bytes(name.as_bytes()) {
        Ok(parsed) => Some(parsed.as_str().to_string()),
        Err(_) => None,
    }
}

/// `reqwest::header::HeaderValue::from_str`: accepted if no character is a control character
/// other than a tab.
#[verifier::external_body]
fn is_header_value(value: &str) -> (r: bool)
    ensures
        r == header_value(value@),
{
    reqwest::header::HeaderValue::from_str(value).is_ok()
}

/// Headers that would change what the request *is* rather than annotate it.
pub open spec fn reserved(lower: Seq<char>) -> bool {
    lower == "host"@ || lower == "content-length"@ || lower == "transfer-encoding"@ || lower
        == "connection"@ || lower == "upgrade"@
}

/// Whether a header may be sent with a check.
pub open spec fn header_ok(name: Seq<char>, value: Seq<char>) -> bool {
    header_name(name) && header_value(value) && !reserved(ascii_lower(name))
}

/// Where the first `c` of `s` stands.
pub open spec fn first_index(s: Seq<char>, c: char) -> Option<int>
    decreases s.len(),
{
    if s.len() == 0 {
        None
    } else if s[0] == c {
        Some(0)
    } else {
        match first_index(s.skip(1), c) {
            Some(i) => Some(i + 1),
            None => None,
        }
    }
}

proof fn lemma_first_index(s: Seq<char>, c: char, i: int)
    requires
        0 <= i <= s.len(),
        forall|j: int| 0 <= j < i ==> s[j] != c,
        i < s.len() ==> s[i] == c,
    ensures
        first_index(s, c) == if i < s.len() {
            Some(i)
        } else {
            None
        },
    decreases i,
{
    if i > 0 {
        assert(s[0] != c);
        lemma_first_index(s.skip(1), c, i - 1);
    }
}

impl CheckHeader {
    /// Parses one `Name: value` line.
    pub fn parse_line(line: &str) -> (r: Result<Self, RegistryError>)
        ensures
            ({
                let colon = first_index(line@, ':');
                match r {
                    Ok(header) => {
                        &&& colon is Some
                        &&& header.name@ == trim(line@.take(colon->0))
                        &&& header.value@ == trim(line@.skip(colon->0 + 1))
                        &&& header_ok(header.name@, header.value@)
                    },
                    Err(error) => {
                        &&& error@ == Problem::InvalidHeader(trim(line@))
                        &&& colon is None || !header_ok(
                            trim(line@.take(colon->0)),
                            trim(line@.skip(colon->0 + 1)),
                        )
                    },
                }
            }),
    {
        let v = chars_of(line);
        let mut i: usize = 0;
        while i < v.len() && v[i] != ':'
            invariant
                i <= v@.len(),
                forall|j: int| 0 <= j < i ==> v@[j] != ':',
            decreases v@.len() - i,
        {
            i += 1;
        }
        proof {
            lemma_first_index(v@, ':', i as int);
        }
        if i == v.len() {
            return Err(RegistryError::InvalidHeader(trimmed(line)));
        }
        proof {
            assert(v@.subrange(0, i as int) =~= line@.take(i as int));
            assert(v@.subrange(i + 1, v@.len() as int) =~= line@.skip(i + 1));
        }
        let name = text_between(&v, 0, i);
        let value = text_between(&v, i + 1, v.len());
        let header = CheckHeader {
            name: trimmed(name.as_str()),
            value: trimmed(value.as_str()),
        };
        if header.validate() {
            Ok(header)
        } else {
            Err(RegistryError::InvalidHeader(trimmed(line)))
        }
    }

    /// Whether this header may be sent with a check.
    pub fn validate(&self) -> (r: bool)
        ensures
            r == header_ok(self.name@, self.value@),
    {
        match parse_header_name(self.name.as_str()) {
            Some(lower) => is_header_value(self.value.as_str()) && !(same(lower.as_str(), "host")
                || same(lower.as_str(), "content-length") || same(
                lower.as_str(),
                "transfer-encoding",
            ) || same(lower.as_str(), "connection") || same(lower.as_str(), "upgrade")),
            None => false,
        }
    }
}

/// The names and values of some headers.
pub open spec fn header_views(v: Seq<CheckHeader>) -> Seq<(Seq<char>, Seq<char>)> {
    v.map_values(|h: CheckHeader| (h.name@, h.value@))
}

pub(crate) fn copied_headers(v: &Vec<CheckHeader>) -> (r: Vec<CheckHeader>)
    ensures
        r@ == v@,
{
    let mut out: Vec<CheckHeader> = Vec::new();
    let mut i: usize = 0;
    while i < v.len()
        invariant
            i <= v@.len(),
            out@ == v@.take(i as int),
        decreases v@.len() - i,
    {
        out.push(v[i].clone());
        i += 1;
        proof {
            assert(v@.take(i as int) =~= v@.take(i as int - 1).push(v@[i as int - 1]));
        }
    }
    proof {
        assert(v@.take(v@.len() as int) =~= v@);
    }
    out
}

/// Some headers, with their names and values trimmed.
pub open spec fn trimmed_pairs(v: Seq<(Seq<char>, Seq<char>)>) -> Seq<(Seq<char>, Seq<char>)> {
    v.map_values(|h: (Seq<char>, Seq<char>)| (trim(h.0), trim(h.1)))
}

fn trimmed_headers(v: &Vec<CheckHeader>) -> (r: Vec<CheckHeader>)
    ensures
        header_views(r@) == trimmed_pairs(header_views(v@)),
{
    let mut out: Vec<CheckHeader> = Vec::new();
    let mut i: usize = 0;
    while i < v.len()
        invariant
            i <= v@.len(),
            out@.len() == i,
            forall|j: int|
                0 <= j < i ==> (#[trigger] out@[j]).name@ == trim(v@[j].name@) && out@[j].value@
                    == trim(v@[j].value@),
        decreases v@.len() - i,
    {
        out.push(
            CheckHeader {
                name: trimmed(v[i].name.as_str()),
                value: trimmed(v[i].value.as_str()),
            },
        );
        i += 1;
    }
    proof {
        assert(header_views(out@) =~= trimmed_pairs(header_views(v@)));
    }
    out
}

// ---------------------------------------------------------------------------------------
// Apps
// ---------------------------------------------------------------------------------------

#[derive(Debug)]
pub struct RegisteredApp {
    /// URL-safe identifier derived from `name` at registration time: what routes address it by.
    pub slug: String,
    pub name: String,
    /// Logs endpoint; `None` = a monitor-only app (e.g. a frontend).
    pub logs_url: Option<String>,
    /// Endpoint an uptime check can hit; every new registration has one.
    pub health_url: Option<String>,
    /// Secret that authorizes the public, read-only status embed. Never empty in a registry.
    pub embed_token: String,
    /// Paused apps aren't probed, so maintenance time doesn't count against their uptime.
    pub paused: bool,
    /// Has a public status page.
    pub public: bool,
    /// Per-app "degraded" threshold; `None` = the global one.
    pub degraded_after_ms: Option<u32>,
    /// Text the health response body must contain to count as up.
    pub expect_body: Option<String>,
    /// For single-page apps: also check that every JS/CSS bundle the health page references
    /// actually loads as JS/CSS.
    pub check_assets: bool,
    /// Unix seconds when the current pause started.
    pub paused_at: Option<u64>,
    /// Scheduled maintenance: the pause ends by itself at this unix time. `None` while paused =
    /// until resumed by hand.
    pub paused_until: Option<u64>,
    /// Seconds between checks; `None` = the global interval.
    pub interval_secs: Option<u32>,
    /// Seconds before a check gives up; `None` = the global timeout.
    pub timeout_secs: Option<u32>,
    /// Status codes that count as up; empty = any 2xx.
    pub expect_status: Vec<u16>,
    /// Extra headers sent with the health check.
    pub headers: Vec<CheckHeader>,
    /// This app's own alert webhooks, notified besides the global ones.
    pub alert_webhooks: Vec<String>,
    /// This app's own mentions, added to the global ones.
    pub alert_mentions: Vec<String>,
}

/// What a registered app is.
#[verifier::ext_equal]
pub struct AppView {
    pub slug: Seq<char>,
    pub embed_token: Seq<char>,
    pub paused: bool,
    pub public: bool,
    pub paused_at: Option<u64>,
    pub paused_until: Option<u64>,
    pub health_url: Option<Seq<char>>,
    pub settings: OptionsView,
}

/// What an admin has set of an app, besides its health URL.
#[verifier::ext_equal]
pub struct OptionsView {
    pub name: Seq<char>,
    pub logs_url: Option<Seq<char>>,
    pub degraded_after_ms: Option<u32>,
    pub expect_body: Option<Seq<char>>,
    pub check_assets: bool,
    pub interval_secs: Option<u32>,
    pub timeout_secs: Option<u32>,
    pub expect_status: Seq<u16>,
    pub headers: Seq<(Seq<char>, Seq<char>)>,
    pub alert_webhooks: Seq<Seq<char>>,
    pub alert_mentions: Seq<Seq<char>>,
}

impl View for RegisteredApp {
    type V = AppView;

    open spec fn view(&self) -> AppView {
        AppView {
            slug: self.slug@,
            embed_token: self.embed_token@,
            paused: self.paused,
            public: self.public,
            paused_at: self.paused_at,
            paused_until: self.paused_until,
            health_url: opt_view(self.health_url),
            settings: OptionsView {
                name: self.name@,
                logs_url: opt_view(self.logs_url),
                degraded_after_ms: self.degraded_after_ms,
                expect_body: opt_view(self.expect_body),
                check_assets: self.check_assets,
                interval_secs: self.interval_secs,
                timeout_secs: self.timeout_secs,
                expect_status: self.expect_status@,
                headers: header_views(self.headers@),
                alert_webhooks: views(self.alert_webhooks@),
                alert_mentions: views(self.alert_mentions@),
            },
        }
    }
}

/// What an admin sets when registering or editing an app. The slug and embed token are not part
/// of it: they're assigned once and survive every edit.
#[derive(Debug)]
pub struct AppSettings {
    pub name: String,
    /// Blank = monitor-only app.
    pub logs_url: String,
    pub health_url: String,
    pub degraded_after_ms: Option<u32>,
    pub expect_body: Option<String>,
    pub check_assets: bool,
    pub interval_secs: Option<u32>,
    pub timeout_secs: Option<u32>,
    pub expect_status: Vec<u16>,
    pub headers: Vec<CheckHeader>,
    pub alert_webhooks: Vec<String>,
    pub alert_mentions: Vec<String>,
}

impl Default for AppSettings {
    fn default() -> (r: Self)
        ensures
            r.name@.len() == 0,
            r.logs_url@.len() == 0,
            r.health_url@.len() == 0,
            r.degraded_after_ms is None,
            r.expect_body is None,
            !r.check_assets,
            r.interval_secs is None,
            r.timeout_secs is None,
            r.expect_status@.len() == 0,
            r.headers@.len() == 0,
            r.alert_webhooks@.len() == 0,
            r.alert_mentions@.len() == 0,
    {
        AppSettings {
            name: String::new(),
            logs_url: String::new(),
            health_url: String::new(),
            degraded_after_ms: None,
            expect_body: None,
            check_assets: false,
            interval_secs: None,
            timeout_secs: None,
            expect_status: Vec::new(),
            headers: Vec::new(),
            alert_webhooks: Vec::new(),
            alert_mentions: Vec::new(),
        }
    }
}

/// `AppSettings` after `normalized`: trimmed, validated, blanks turned into `None`.
#[derive(Debug)]
pub struct ValidSettings {
    pub name: String,
    pub logs_url: Option<String>,
    pub health_url: String,
    pub degraded_after_ms: Option<u32>,
    pub expect_body: Option<String>,
    pub check_assets: bool,
    pub interval_secs: Option<u32>,
    pub timeout_secs: Option<u32>,
    pub expect_status: Vec<u16>,
    pub headers: Vec<CheckHeader>,
    pub alert_webhooks: Vec<String>,
    pub alert_mentions: Vec<String>,
}

impl View for ValidSettings {
    type V = (Seq<char>, OptionsView);

    /// The health URL, and the rest.
    open spec fn view(&self) -> (Seq<char>, OptionsView) {
        (
            self.health_url@,
            OptionsView {
                name: self.name@,
                logs_url: opt_view(self.logs_url),
                degraded_after_ms: self.degraded_after_ms,
                expect_body: opt_view(self.expect_body),
                check_assets: self.check_assets,
                interval_secs: self.interval_secs,
                timeout_secs: self.timeout_secs,
                expect_status: self.expect_status@,
                headers: header_views(self.headers@),
                alert_webhooks: views(self.alert_webhooks@),
                alert_mentions: views(self.alert_mentions@),
            },
        )
    }
}

/// Some text, unless it is blank.
pub open spec fn unless_blank(s: Seq<char>) -> Option<Seq<char>> {
    if trim(s).len() == 0 {
        None
    } else {
        Some(trim(s))
    }
}

/// A number, unless it is zero.
pub open spec fn unless_zero(n: Option<u32>) -> Option<u32> {
    if n == Some(0u32) {
        None
    } else {
        n
    }
}

/// Entries trimmed, without blanks or duplicates, order kept.
pub open spec fn unique_entries(entries: Seq<Seq<char>>) -> Seq<Seq<char>>
    decreases entries.len(),
{
    if entries.len() == 0 {
        Seq::empty()
    } else {
        let before = unique_entries(entries.drop_last());
        let entry = trim(entries.last());
        if entry.len() == 0 || before.contains(entry) {
            before
        } else {
            before.push(entry)
        }
    }
}

/// `x` put in its place in an ascending list, unless it is there.
pub open spec fn inserted(s: Seq<u16>, x: u16) -> Seq<u16>
    decreases s.len(),
{
    if s.len() == 0 {
        seq![x]
    } else if s.last() < x {
        s.push(x)
    } else if s.last() == x {
        s
    } else {
        inserted(s.drop_last(), x).push(s.last())
    }
}

/// The values of a list in ascending order, each once.
pub open spec fn ascending_set(s: Seq<u16>) -> Seq<u16>
    decreases s.len(),
{
    if s.len() == 0 {
        Seq::empty()
    } else {
        inserted(ascending_set(s.drop_last()), s.last())
    }
}

/// The first of some values that is no HTTP status code.
pub open spec fn bad_status(s: Seq<u16>) -> Option<u16>
    decreases s.len(),
{
    if s.len() == 0 {
        None
    } else if !(100 <= s[0] <= 599) {
        Some(s[0])
    } else {
        bad_status(s.skip(1))
    }
}

/// The name of the first of some headers that may not be sent.
pub open spec fn bad_header(s: Seq<(Seq<char>, Seq<char>)>) -> Option<Seq<char>>
    decreases s.len(),
{
    if s.len() == 0 {
        None
    } else if !header_ok(s[0].0, s[0].1) {
        Some(s[0].0)
    } else {
        bad_header(s.skip(1))
    }
}

/// The first of some entries that names no webhook of an app.
pub open spec fn bad_webhook(s: Seq<Seq<char>>) -> Option<Seq<char>>
    decreases s.len(),
{
    if s.len() == 0 {
        None
    } else if app_hook(s[0]) is None {
        Some(s[0])
    } else {
        bad_webhook(s.skip(1))
    }
}

/// The first of some entries that mentions nobody.
pub open spec fn bad_mention(s: Seq<Seq<char>>) -> Option<Seq<char>>
    decreases s.len(),
{
    if s.len() == 0 {
        None
    } else if mention_of(s[0]) is None {
        Some(s[0])
    } else {
        bad_mention(s.skip(1))
    }
}

/// Whether a URL begins like one of the web.
pub open spec fn web_url(s: Seq<char>) -> bool {
    starts_with(s, "http://"@) || starts_with(s, "https://"@)
}

/// What is wrong with some settings: the first problem, field by field.
pub open spec fn settings_problem(s: AppSettings) -> Option<Problem> {
    let hooks = unique_entries(views(s.alert_webhooks@));
    let mentions = unique_entries(views(s.alert_mentions@));
    let headers = trimmed_pairs(header_views(s.headers@));
    if trim(s.name@).len() == 0 {
        Some(Problem::EmptyName)
    } else if trim(s.logs_url@).len() > 0 && !web_url(trim(s.logs_url@)) {
        Some(Problem::InvalidUrl("logs"@))
    } else if !web_url(trim(s.health_url@)) && !starts_with(trim(s.health_url@), "tcp://"@) {
        Some(Problem::InvalidUrl("health"@))
    } else if unless_zero(s.interval_secs) is Some && !(MIN_INTERVAL_SECS <= s.interval_secs->0
        <= MAX_INTERVAL_SECS) {
        Some(Problem::IntervalOutOfRange)
    } else if s.timeout_secs is Some && s.timeout_secs->0 > MAX_TIMEOUT_SECS {
        Some(Problem::TimeoutOutOfRange)
    } else if bad_status(s.expect_status@) is Some {
        Some(Problem::InvalidStatus(bad_status(s.expect_status@)->0))
    } else if headers.len() > MAX_HEADERS {
        Some(Problem::TooMany("headers"@))
    } else if bad_header(headers) is Some {
        Some(Problem::InvalidHeader(bad_header(headers)->0))
    } else if hooks.len() > MAX_WEBHOOKS {
        Some(Problem::TooMany("webhooks"@))
    } else if bad_webhook(hooks) is Some {
        Some(Problem::InvalidWebhook(bad_webhook(hooks)->0))
    } else if bad_mention(mentions) is Some {
        Some(Problem::InvalidMention(bad_mention(mentions)->0))
    } else {
        None
    }
}

/// What some settings say once blanks and duplicates are gone: the health URL, and the rest.
pub open spec fn tidied(s: AppSettings) -> (Seq<char>, OptionsView) {
    (
        trim(s.health_url@),
        OptionsView {
            name: trim(s.name@),
            logs_url: unless_blank(s.logs_url@),
            degraded_after_ms: unless_zero(s.degraded_after_ms),
            expect_body: match opt_view(s.expect_body) {
                Some(text) => unless_blank(text),
                None => None,
            },
            check_assets: s.check_assets,
            interval_secs: unless_zero(s.interval_secs),
            timeout_secs: unless_zero(s.timeout_secs),
            expect_status: ascending_set(s.expect_status@),
            headers: trimmed_pairs(header_views(s.headers@)),
            alert_webhooks: unique_entries(views(s.alert_webhooks@)),
            alert_mentions: unique_entries(views(s.alert_mentions@)),
        },
    )
}

fn nonzero(n: Option<u32>) -> (r: Option<u32>)
    ensures
        r == unless_zero(n),
{
    match n {
        Some(x) => if x == 0 {
            None
        } else {
            Some(x)
        },
        None => None,
    }
}

fn nonblank(s: &str) -> (r: Option<String>)
    ensures
        opt_view(r) == unless_blank(s@),
{
    let t = trimmed(s);
    if t.as_str().is_empty() {
        None
    } else {
        Some(t)
    }
}

/// Trimmed, without blanks or duplicates, order kept.
pub fn trimmed_entries(entries: &Vec<String>) -> (r: Vec<String>)
    ensures
        views(r@) == unique_entries(views(entries@)),
{
    let ghost all = views(entries@);
    let mut out: Vec<String> = Vec::new();
    let mut i: usize = 0;
    proof {
        assert(all.take(0) =~= Seq::<Seq<char>>::empty());
        assert(views(out@) =~= unique_entries(all.take(0)));
    }
    while i < entries.len()
        invariant
            i <= entries@.len(),
            all == views(entries@),
            views(out@) == unique_entries(all.take(i as int)),
        decreases entries@.len() - i,
    {
        proof {
            assert(all.take(i as int + 1).drop_last() =~= all.take(i as int));
            assert(all.take(i as int + 1).last() == entries@[i as int]@);
        }
        let entry = trimmed(entries[i].as_str());
        proof {
            lemma_listed_views(out@, entry@);
        }
        if !entry.as_str().is_empty() && !is_listed(&out, entry.as_str()) {
            proof {
                lemma_views_push(out@, entry);
            }
            out.push(entry);
        }
        i += 1;
    }
    proof {
        assert(all.take(all.len() as int) =~= all);
    }
    out
}

proof fn lemma_listed_views(v: Seq<String>, s: Seq<char>)
    ensures
        listed(v, s) == views(v).contains(s),
{
    if listed(v, s) {
        let i = choose|i: int| 0 <= i < v.len() && (#[trigger] v[i])@ == s;
        assert(views(v)[i] == s);
    }
    if views(v).contains(s) {
        let i = choose|i: int| 0 <= i < views(v).len() && views(v)[i] == s;
        assert(v[i]@ == s);
    }
}

fn first_bad_status(s: &Vec<u16>) -> (r: Option<u16>)
    ensures
        r == bad_status(s@),
{
    let mut i: usize = 0;
    proof {
        assert(s@.skip(0) =~= s@);
    }
    while i < s.len()
        invariant
            i <= s@.len(),
            bad_status(s@) == bad_status(s@.skip(i as int)),
        decreases s@.len() - i,
    {
        proof {
            assert(s@.skip(i as int)[0] == s@[i as int]);
            assert(s@.skip(i as int).skip(1) =~= s@.skip(i as int + 1));
        }
        let code = s[i];
        if !(100 <= code && code <= 599) {
            return Some(code);
        }
        i += 1;
    }
    None
}

fn first_bad_header(s: &Vec<CheckHeader>) -> (r: Option<String>)
    ensures
        opt_view(r) == bad_header(header_views(s@)),
{
    let ghost all = header_views(s@);
    let mut i: usize = 0;
    proof {
        assert(all.skip(0) =~= all);
    }
    while i < s.len()
        invariant
            i <= s@.len(),
            all == header_views(s@),
            bad_header(all) == bad_header(all.skip(i as int)),
        decreases s@.len() - i,
    {
        proof {
            assert(all.skip(i as int)[0] == all[i as int]);
            assert(all.skip(i as int).skip(1) =~= all.skip(i as int + 1));
        }
        if !s[i].validate() {
            return Some(s[i].name.clone());
        }
        i += 1;
    }
    None
}

fn first_bad_webhook(s: &Vec<String>) -> (r: Option<String>)
    ensures
        opt_view(r) == bad_webhook(views(s@)),
{
    let ghost all = views(s@);
    let mut i: usize = 0;
    proof {
        assert(all.skip(0) =~= all);
    }
    while i < s.len()
        invariant
            i <= s@.len(),
            all == views(s@),
            bad_webhook(all) == bad_webhook(all.skip(i as int)),
        decreases s@.len() - i,
    {
        proof {
            assert(all.skip(i as int)[0] == all[i as int]);
            assert(all.skip(i as int).skip(1) =~= all.skip(i as int + 1));
        }
        if Webhook::for_app(s[i].as_str()).is_err() {
            return Some(s[i].clone());
        }
        i += 1;
    }
    None
}

fn first_bad_mention(s: &Vec<String>) -> (r: Option<String>)
    ensures
        opt_view(r) == bad_mention(views(s@)),
{
    let ghost all = views(s@);
    let mut i: usize = 0;
    proof {
        assert(all.skip(0) =~= all);
    }
    while i < s.len()
        invariant
            i <= s@.len(),
            all == views(s@),
            bad_mention(all) == bad_mention(all.skip(i as int)),
        decreases s@.len() - i,
    {
        proof {
            assert(all.skip(i as int)[0] == all[i as int]);
            assert(all.skip(i as int).skip(1) =~= all.skip(i as int + 1));
        }
        if Mention::parse(s[i].as_str()).is_err() {
            return Some(s[i].clone());
        }
        i += 1;
    }
    None
}

/// Puts `x` in its place in an ascending list, unless it is there.
fn insert_ascending(s: &mut Vec<u16>, x: u16)
    ensures
        final(s)@ == inserted(old(s)@, x),
{
    let mut k: usize = s.len();
    let ghost all = s@;
    proof {
        assert(all.take(all.len() as int) =~= all);
        assert(all.skip(all.len() as int) =~= Seq::<u16>::empty());
        assert(inserted(all, x) + Seq::<u16>::empty() =~= inserted(all, x));
    }
    while k > 0 && s[k - 1] > x
        invariant
            k <= all.len(),
            s@ == all,
            inserted(all.take(k as int), x) + all.skip(k as int) == inserted(all, x),
        decreases k,
    {
        proof {
            let front = all.take(k as int);
            assert(front.drop_last() =~= all.take(k as int - 1));
            assert(front.last() == all[k as int - 1]);
            assert(inserted(all.take(k as int - 1), x).push(all[k as int - 1]) + all.skip(k as int)
                =~= inserted(all.take(k as int - 1), x) + all.skip(k as int - 1));
        }
        k -= 1;
    }
    if k > 0 && s[k - 1] == x {
        proof {
            assert(all.take(k as int).last() == x);
            assert(all.take(k as int) + all.skip(k as int) =~= all);
        }
        return ;
    }
    s.insert(k, x);
    proof {
        if k > 0 {
            assert(all.take(k as int).last() == all[k as int - 1]);
            assert(inserted(all.take(k as int), x) == all.take(k as int).push(x));
        } else {
            assert(all.take(0) =~= Seq::<u16>::empty());
            assert(inserted(all.take(0), x) =~= all.take(0).push(x));
        }
        assert(s@ =~= all.take(k as int).push(x) + all.skip(k as int));
    }
}

fn ascending(s: &Vec<u16>) -> (r: Vec<u16>)
    ensures
        r@ == ascending_set(s@),
{
    let mut out: Vec<u16> = Vec::new();
    let mut i: usize = 0;
    proof {
        assert(s@.take(0) =~= Seq::<u16>::empty());
    }
    while i < s.len()
        invariant
            i <= s@.len(),
            out@ == ascending_set(s@.take(i as int)),
        decreases s@.len() - i,
    {
        proof {
            assert(s@.take(i as int + 1).drop_last() =~= s@.take(i as int));
            assert(s@.take(i as int + 1).last() == s@[i as int]);
        }
        insert_ascending(&mut out, s[i]);
        i += 1;
    }
    proof {
        assert(s@.take(s@.len() as int) =~= s@);
    }
    out
}

fn is_web_url(url: &str) -> (r: bool)
    ensures
        r == web_url(url@),
{
    has_prefix(url, "http://") || has_prefix(url, "https://")
}

impl AppSettings {
    /// Trims every field, turns blank optionals into `None`, and validates.
    pub fn normalized(self) -> (r: Result<ValidSettings, RegistryError>)
        ensures
            match r {
                Ok(valid) => settings_problem(self) is None && valid@ == tidied(self),
                Err(error) => settings_problem(self) == Some(error@),
            },
    {
        let name = trimmed(self.name.as_str());
        if name.as_str().is_empty() {
            return Err(RegistryError::EmptyName);
        }
        let logs_url = nonblank(self.logs_url.as_str());
        let health_url = trimmed(self.health_url.as_str());
        if let Some(url) = &logs_url {
            if !is_web_url(url.as_str()) {
                return Err(RegistryError::InvalidUrl("logs".to_owned()));
            }
        }
        if !is_web_url(health_url.as_str()) && !has_prefix(health_url.as_str(), "tcp://") {
            return Err(RegistryError::InvalidUrl("health".to_owned()));
        }
        let expect_body = match &self.expect_body {
            Some(text) => nonblank(text.as_str()),
            None => None,
        };
        let interval_secs = nonzero(self.interval_secs);
        if let Some(secs) = interval_secs {
            if !(MIN_INTERVAL_SECS <= secs && secs <= MAX_INTERVAL_SECS) {
                return Err(RegistryError::IntervalOutOfRange);
            }
        }
        let timeout_secs = nonzero(self.timeout_secs);
        if let Some(secs) = timeout_secs {
            if secs > MAX_TIMEOUT_SECS {
                return Err(RegistryError::TimeoutOutOfRange);
            }
        }
        if let Some(code) = first_bad_status(&self.expect_status) {
            return Err(RegistryError::InvalidStatus(code));
        }
        let headers = trimmed_headers(&self.headers);
        proof {
            assert(header_views(headers@).len() == headers@.len());
        }
        if headers.len() > MAX_HEADERS {
            return Err(RegistryError::TooMany("headers".to_owned()));
        }
        if let Some(bad) = first_bad_header(&headers) {
            return Err(RegistryError::InvalidHeader(bad));
        }
        let alert_webhooks = trimmed_entries(&self.alert_webhooks);
        if alert_webhooks.len() > MAX_WEBHOOKS {
            return Err(RegistryError::TooMany("webhooks".to_owned()));
        }
        if let Some(bad) = first_bad_webhook(&alert_webhooks) {
            return Err(RegistryError::InvalidWebhook(bad));
        }
        let alert_mentions = trimmed_entries(&self.alert_mentions);
        if let Some(bad) = first_bad_mention(&alert_mentions) {
            return Err(RegistryError::InvalidMention(bad));
        }
        Ok(
            ValidSettings {
                name,
                logs_url,
                health_url,
                degraded_after_ms: nonzero(self.degraded_after_ms),
                expect_body,
                check_assets: self.check_assets,
                interval_secs,
                timeout_secs,
                expect_status: ascending(&self.expect_status),
                headers,
                alert_webhooks,
                alert_mentions,
            },
        )
    }
}

// ---------------------------------------------------------------------------------------
// Slugs
// ---------------------------------------------------------------------------------------

/// Letters and digits kept, every run of anything else one hyphen, none at the beginning.
pub open spec fn hyphenated(s: Seq<char>) -> Seq<char>
    decreases s.len(),
{
    if s.len() == 0 {
        Seq::empty()
    } else {
        let before = hyphenated(s.drop_last());
        if is_alnum(s.last()) {
            before.push(s.last())
        } else if before.len() > 0 && before.last() != '-' {
            before.push('-')
        } else {
            before
        }
    }
}

/// The slug of a name.
pub open spec fn slug_of(name: Seq<char>) -> Seq<char> {
    trim_end_char(hyphenated(unicode_lower(name)), '-')
}

/// The slug of a name whose lower-case form is `lower`.
pub fn slugify_lower(lower: &str) -> (r: String)
    ensures
        r@ == trim_end_char(hyphenated(lower@), '-'),
{
    let v = chars_of(lower);
    let mut slug = String::new();
    let mut last_was_dash = true;  // swallow a leading dash
    let mut i: usize = 0;
    proof {
        assert(v@.take(0) =~= Seq::<char>::empty());
    }
    while i < v.len()
        invariant
            i <= v@.len(),
            slug@ == hyphenated(v@.take(i as int)),
            last_was_dash == (slug@.len() == 0 || slug@.last() == '-'),
        decreases v@.len() - i,
    {
        let ch = v[i];
        proof {
            assert(v@.take(i as int + 1).drop_last() =~= v@.take(i as int));
            assert(v@.take(i as int + 1).last() == ch);
        }
        if ('0' <= ch && ch <= '9') || ('A' <= ch && ch <= 'Z') || ('a' <= ch && ch <= 'z') {
            slug.push(ch);
            last_was_dash = false;
        } else if !last_was_dash {
            slug.push('-');
            last_was_dash = true;
        }
        i += 1;
    }
    proof {
        assert(v@.take(v@.len() as int) =~= v@);
    }
    without_trailing(slug.as_str(), '-')
}

/// Lowercase, spaces/anything-not-alphanumeric collapsed to a single hyphen, trimmed:
/// "Billing API (staging)" -> "billing-api-staging". What is a slug already stays as it is, so
/// the slug of a slug is that slug.
pub fn slugify(name: &str) -> (r: String)
    ensures
        r@ == slug_of(name@),
        slug_shape(r@),
        slug_shape(name@) ==> r@ == name@,
        r@.len() == 0 <==> no_alnum(unicode_lower(name@)),
{
    let lower = to_lower(name);
    proof {
        lemma_slug_shape(lower@);
        lemma_empty_slugs(lower@);
        if slug_shape(name@) {
            lemma_slugs_stay(name@);
            assert forall|i: int| 0 <= i < name@.len() implies #[trigger] name@[i] <= '\u{7f}'
                && !crate::text::is_upper(name@[i]) by {
                assert(crate::text::is_lower(name@[i]) || crate::text::is_digit(name@[i])
                    || name@[i] == '-');
            }
        }
    }
    slugify_lower(lower.as_str())
}

/// Whether a text is a slug or nothing: small letters, digits and single hyphens, none of them
/// at an end.
pub open spec fn slug_shape(s: Seq<char>) -> bool {
    &&& forall|i: int|
        0 <= i < s.len() ==> crate::text::is_lower(#[trigger] s[i]) || crate::text::is_digit(s[i])
            || s[i] == '-'
    &&& s.len() > 0 ==> s[0] != '-' && s.last() != '-'
    &&& forall|i: int| 0 < i < s.len() && #[trigger] s[i] == '-' ==> s[i - 1] != '-'
}

proof fn lemma_hyphenated_shape(s: Seq<char>)
    requires
        forall|i: int| 0 <= i < s.len() ==> !crate::text::is_upper(#[trigger] s[i]),
    ensures
        forall|i: int|
            0 <= i < hyphenated(s).len() ==> crate::text::is_lower(#[trigger] hyphenated(s)[i])
                || crate::text::is_digit(hyphenated(s)[i]) || hyphenated(s)[i] == '-',
        hyphenated(s).len() > 0 ==> hyphenated(s)[0] != '-',
        forall|i: int|
            0 < i < hyphenated(s).len() && #[trigger] hyphenated(s)[i] == '-' ==> hyphenated(s)[i
                - 1] != '-',
    decreases s.len(),
{
    if s.len() > 0 {
        let front = s.drop_last();
        assert forall|i: int| 0 <= i < front.len() implies !crate::text::is_upper(
            #[trigger] front[i],
        ) by {
            assert(front[i] == s[i]);
        }
        lemma_hyphenated_shape(front);
        assert(!crate::text::is_upper(s[s.len() - 1]));
    }
}

proof fn lemma_trim_dashes(s: Seq<char>)
    ensures
        trim_end_char(s, '-').len() <= s.len(),
        trim_end_char(s, '-') == s.take(trim_end_char(s, '-').len() as int),
        trim_end_char(s, '-').len() > 0 ==> trim_end_char(s, '-').last() != '-',
    decreases s.len(),
{
    if s.len() > 0 && s.last() == '-' {
        lemma_trim_dashes(s.drop_last());
        let t = trim_end_char(s, '-');
        assert(s.drop_last().take(t.len() as int) =~= s.take(t.len() as int));
    } else {
        assert(s.take(s.len() as int) =~= s);
    }
}

/// A slug consists of small letters, digits and single hyphens between them.
pub proof fn lemma_slug_shape(lower: Seq<char>)
    requires
        forall|i: int| 0 <= i < lower.len() ==> !crate::text::is_upper(#[trigger] lower[i]),
    ensures
        slug_shape(trim_end_char(hyphenated(lower), '-')),
{
    lemma_hyphenated_shape(lower);
    let h = hyphenated(lower);
    lemma_trim_dashes(h);
    let t = trim_end_char(h, '-');
    assert forall|i: int| 0 <= i < t.len() implies crate::text::is_lower(#[trigger] t[i])
        || crate::text::is_digit(t[i]) || t[i] == '-' by {
        assert(t[i] == h[i]);
    }
    assert forall|i: int| 0 < i < t.len() && #[trigger] t[i] == '-' implies t[i - 1] != '-' by {
        assert(t[i] == h[i] && t[i - 1] == h[i - 1]);
    }
}

/// Whether a text has neither an ASCII letter nor a digit.
pub open spec fn no_alnum(s: Seq<char>) -> bool {
    forall|i: int| 0 <= i < s.len() ==> !is_alnum(#[trigger] s[i])
}

proof fn lemma_hyphenated_start(s: Seq<char>)
    ensures
        hyphenated(s).len() == 0 <==> no_alnum(s),
        hyphenated(s).len() > 0 ==> hyphenated(s)[0] != '-',
    decreases s.len(),
{
    if s.len() > 0 {
        let front = s.drop_last();
        lemma_hyphenated_start(front);
        if no_alnum(s) {
            assert(!is_alnum(s[s.len() - 1]));
            assert forall|i: int| 0 <= i < front.len() implies !is_alnum(#[trigger] front[i]) by {
                assert(front[i] == s[i]);
            }
        } else {
            let i = choose|i: int| 0 <= i < s.len() && is_alnum(#[trigger] s[i]);
            if i < front.len() {
                assert(is_alnum(front[i]));
            }
        }
    }
}

proof fn lemma_trim_keeps_a_start(s: Seq<char>)
    requires
        s.len() > 0,
        s[0] != '-',
    ensures
        trim_end_char(s, '-').len() > 0,
    decreases s.len(),
{
    if s.last() == '-' {
        lemma_trim_keeps_a_start(s.drop_last());
    }
}

/// A slug is empty exactly where the lower-case name has neither an ASCII letter nor a digit.
pub proof fn lemma_empty_slugs(lower: Seq<char>)
    ensures
        trim_end_char(hyphenated(lower), '-').len() == 0 <==> no_alnum(lower),
{
    lemma_hyphenated_start(lower);
    if hyphenated(lower).len() > 0 {
        lemma_trim_keeps_a_start(hyphenated(lower));
    }
}

proof fn lemma_hyphenated_stays(s: Seq<char>)
    requires
        forall|i: int|
            0 <= i < s.len() ==> crate::text::is_lower(#[trigger] s[i]) || crate::text::is_digit(
                s[i],
            ) || s[i] == '-',
        s.len() > 0 ==> s[0] != '-',
        forall|i: int| 0 < i < s.len() && #[trigger] s[i] == '-' ==> s[i - 1] != '-',
    ensures
        hyphenated(s) == s,
    decreases s.len(),
{
    if s.len() > 0 {
        let front = s.drop_last();
        assert forall|i: int| 0 <= i < front.len() implies crate::text::is_lower(
            #[trigger] front[i],
        ) || crate::text::is_digit(front[i]) || front[i] == '-' by {
            assert(front[i] == s[i]);
        }
        assert forall|i: int| 0 < i < front.len() && #[trigger] front[i] == '-' implies front[i - 1]
            != '-' by {
            assert(front[i] == s[i] && front[i - 1] == s[i - 1]);
        }
        lemma_hyphenated_stays(front);
        let c = s[s.len() - 1];
        assert(crate::text::is_lower(c) || crate::text::is_digit(c) || c == '-');
        assert(front.push(c) =~= s);
    } else {
        assert(hyphenated(s) =~= s);
    }
}

/// A text in the shape of a slug is its own slug, once it is in lower case.
pub proof fn lemma_slugs_stay(s: Seq<char>)
    requires
        slug_shape(s),
    ensures
        trim_end_char(hyphenated(s), '-') == s,
{
    lemma_hyphenated_stays(s);
}

/// Making a slug twice changes nothing: the slug of what a lower-case name leads to is that.
pub proof fn lemma_slugs_of_slugs(lower: Seq<char>)
    requires
        forall|i: int| 0 <= i < lower.len() ==> !crate::text::is_upper(#[trigger] lower[i]),
    ensures
        ({
            let slug = trim_end_char(hyphenated(lower), '-');
            trim_end_char(hyphenated(slug), '-') == slug
        }),
{
    lemma_slug_shape(lower);
    lemma_slugs_stay(trim_end_char(hyphenated(lower), '-'));
}

// ---------------------------------------------------------------------------------------
// The registry
// ---------------------------------------------------------------------------------------

/// An app with new settings: its slug, token, pause and publication stay.
pub open spec fn applied(app: AppView, valid: (Seq<char>, OptionsView)) -> AppView {
    AppView { health_url: Some(valid.0), settings: valid.1, ..app }
}

/// A new app: not paused, not public.
pub open spec fn new_app(slug: Seq<char>, token: Seq<char>, valid: (Seq<char>, OptionsView)) ->
    AppView {
    AppView {
        slug,
        embed_token: token,
        paused: false,
        public: false,
        paused_at: None,
        paused_until: None,
        health_url: Some(valid.0),
        settings: valid.1,
    }
}

/// An app that is paused at `now`, until some time or until resumed. Pausing a paused app again
/// keeps when the pause began.
pub open spec fn paused_app(app: AppView, until: Option<u64>, now: u64) -> AppView {
    AppView {
        paused: true,
        paused_at: if app.paused && app.paused_at is Some {
            app.paused_at
        } else {
            Some(now)
        },
        paused_until: until,
        ..app
    }
}

/// An app whose checks run.
pub open spec fn resumed_app(app: AppView) -> AppView {
    AppView { paused: false, paused_at: None, paused_until: None, ..app }
}

/// Whether an app's scheduled pause is over at `now`.
pub open spec fn pause_over(app: AppView, now: u64) -> bool {
    app.paused && app.paused_until is Some && app.paused_until->0 <= now
}

/// Whether an app gets health checks at all.
pub open spec fn monitored(app: AppView) -> bool {
    !app.paused && app.health_url is Some
}

/// The index of the first app with a slug.
pub open spec fn slug_index(apps: Seq<AppView>, slug: Seq<char>) -> Option<int>
    decreases apps.len(),
{
    if apps.len() == 0 {
        None
    } else if apps[0].slug == slug {
        Some(0)
    } else {
        match slug_index(apps.skip(1), slug) {
            Some(i) => Some(i + 1),
            None => None,
        }
    }
}

/// Whether no two apps share a slug.
pub open spec fn slugs_distinct(apps: Seq<AppView>) -> bool {
    forall|i: int, j: int|
        0 <= i < j < apps.len() ==> (#[trigger] apps[i]).slug != (#[trigger] apps[j]).slug
}

/// The apps whose slug is another.
pub open spec fn without_slug(apps: Seq<AppView>, slug: Seq<char>) -> Seq<AppView>
    decreases apps.len(),
{
    if apps.len() == 0 {
        Seq::empty()
    } else {
        let before = without_slug(apps.drop_last(), slug);
        if apps.last().slug == slug {
            before
        } else {
            before.push(apps.last())
        }
    }
}

/// The apps at `now`, those resumed whose scheduled pause is over.
pub open spec fn all_resumed(apps: Seq<AppView>, now: u64) -> Seq<AppView> {
    apps.map_values(
        |app: AppView|
            if pause_over(app, now) {
                resumed_app(app)
            } else {
                app
            },
    )
}

/// The slugs of the apps whose scheduled pause is over at `now`.
pub open spec fn over_slugs(apps: Seq<AppView>, now: u64) -> Seq<Seq<char>>
    decreases apps.len(),
{
    if apps.len() == 0 {
        Seq::empty()
    } else {
        let before = over_slugs(apps.drop_last(), now);
        if pause_over(apps.last(), now) {
            before.push(apps.last().slug)
        } else {
            before
        }
    }
}

pub proof fn lemma_slug_index(apps: Seq<AppView>, slug: Seq<char>, i: int)
    requires
        0 <= i <= apps.len(),
        forall|j: int| 0 <= j < i ==> (#[trigger] apps[j]).slug != slug,
        i < apps.len() ==> apps[i].slug == slug,
    ensures
        slug_index(apps, slug) == if i < apps.len() {
            Some(i)
        } else {
            None
        },
    decreases i,
{
    if i > 0 {
        assert(apps[0].slug != slug);
        assert forall|j: int| 0 <= j < i - 1 implies (#[trigger] apps.skip(1)[j]).slug != slug by {
            assert(apps.skip(1)[j] == apps[j + 1]);
        }
        lemma_slug_index(apps.skip(1), slug, i - 1);
    }
}

pub proof fn lemma_slug_index_bounds(apps: Seq<AppView>, slug: Seq<char>)
    ensures
        match slug_index(apps, slug) {
            Some(i) => 0 <= i < apps.len() && apps[i].slug == slug,
            None => forall|j: int| 0 <= j < apps.len() ==> (#[trigger] apps[j]).slug != slug,
        },
    decreases apps.len(),
{
    if apps.len() > 0 && apps[0].slug != slug {
        lemma_slug_index_bounds(apps.skip(1), slug);
        if slug_index(apps.skip(1), slug) is None {
            assert forall|j: int| 0 <= j < apps.len() implies (#[trigger] apps[j]).slug != slug by {
                if j > 0 {
                    assert(apps.skip(1)[j - 1] == apps[j]);
                }
            }
        }
    }
}

impl RegisteredApp {
    /// Where this app's alerts go besides the global webhooks.
    #[must_use]
    pub fn alert_route(&self) -> (r: AppRoute)
        ensures
            r.webhooks@ == self.alert_webhooks@,
            r.mentions@ == self.alert_mentions@,
    {
        AppRoute {
            webhooks: copied(&self.alert_webhooks),
            mentions: copied(&self.alert_mentions),
        }
    }

    /// Whether this app gets health checks at all.
    #[must_use]
    pub fn is_monitored(&self) -> (r: bool)
        ensures
            r == monitored(self@),
    {
        !self.paused && self.health_url.is_some()
    }

    fn apply(&mut self, settings: ValidSettings)
        ensures
            final(self)@ == applied(old(self)@, settings@),
    {
        self.name = settings.name;
        self.logs_url = settings.logs_url;
        self.health_url = Some(settings.health_url);
        self.degraded_after_ms = settings.degraded_after_ms;
        self.expect_body = settings.expect_body;
        self.check_assets = settings.check_assets;
        self.interval_secs = settings.interval_secs;
        self.timeout_secs = settings.timeout_secs;
        self.expect_status = settings.expect_status;
        self.headers = settings.headers;
        self.alert_webhooks = settings.alert_webhooks;
        self.alert_mentions = settings.alert_mentions;
    }

    /// Constant-time comparison, so response timing doesn't leak how much of a guessed token
    /// was right.
    #[must_use]
    pub fn embed_token_matches(&self, candidate: &str) -> (r: bool)
        ensures
            r == is_secret(self.embed_token@, candidate@),
    {
        secret_matches(self.embed_token.as_str(), candidate)
    }
}

impl Clone for RegisteredApp {
    fn clone(&self) -> (r: Self)
        ensures
            r@ == self@,
    {
        RegisteredApp {
            slug: self.slug.clone(),
            name: self.name.clone(),
            logs_url: opt_copy(&self.logs_url),
            health_url: opt_copy(&self.health_url),
            embed_token: self.embed_token.clone(),
            paused: self.paused,
            public: self.public,
            degraded_after_ms: self.degraded_after_ms,
            expect_body: opt_copy(&self.expect_body),
            check_assets: self.check_assets,
            paused_at: self.paused_at,
            paused_until: self.paused_until,
            interval_secs: self.interval_secs,
            timeout_secs: self.timeout_secs,
            expect_status: copied_codes(&self.expect_status),
            headers: copied_headers(&self.headers),
            alert_webhooks: copied(&self.alert_webhooks),
            alert_mentions: copied(&self.alert_mentions),
        }
    }
}

pub(crate) fn opt_copy(s: &Option<String>) -> (r: Option<String>)
    ensures
        r == *s,
{
    match s {
        Some(text) => Some(text.clone()),
        None => None,
    }
}

pub(crate) fn copied_codes(v: &Vec<u16>) -> (r: Vec<u16>)
    ensures
        r@ == v@,
{
    let mut out: Vec<u16> = Vec::new();
    let mut i: usize = 0;
    while i < v.len()
        invariant
            i <= v@.len(),
            out@ == v@.take(i as int),
        decreases v@.len() - i,
    {
        out.push(v[i]);
        i += 1;
        proof {
            assert(v@.take(i as int) =~= v@.take(i as int - 1).push(v@[i as int - 1]));
        }
    }
    proof {
        assert(v@.take(v@.len() as int) =~= v@);
    }
    out
}

/// Whether a text can be a fresh embed token: 48 hexadecimal digits.
pub open spec fn fresh_token(s: Seq<char>) -> bool {
    s.len() == 2 * EMBED_TOKEN_BYTES && is_hex(s)
}

/// 24 random bytes, hex-encoded (48 chars).
pub fn new_embed_token() -> (r: Result<String, RegistryError>)
    ensures
        match r {
            Ok(token) => fresh_token(token@),
            Err(error) => error@ is Token,
        },
{
    match random_hex(EMBED_TOKEN_BYTES) {
        Ok(token) => Ok(token),
        Err(error) => Err(RegistryError::Token(error)),
    }
}

#[derive(Debug)]
pub struct AppRegistry {
    apps: Vec<RegisteredApp>,
}

pub open spec fn app_views(v: Seq<RegisteredApp>) -> Seq<AppView> {
    v.map_values(|app: RegisteredApp| app@)
}

proof fn lemma_app_views_push(v: Seq<RegisteredApp>, app: RegisteredApp)
    ensures
        app_views(v.push(app)) == app_views(v).push(app@),
{
    assert(app_views(v.push(app)) =~= app_views(v).push(app@));
}

proof fn lemma_app_views_update(v: Seq<RegisteredApp>, i: int, app: RegisteredApp)
    requires
        0 <= i < v.len(),
    ensures
        app_views(v.update(i, app)) == app_views(v).update(i, app@),
{
    assert(app_views(v.update(i, app)) =~= app_views(v).update(i, app@));
}

impl View for AppRegistry {
    type V = Seq<AppView>;

    closed spec fn view(&self) -> Seq<AppView> {
        app_views(self.apps@)
    }
}

/// Whether `s` is what becomes of an operation on the app with a slug: the error where there is
/// none, otherwise the same apps but for that one.
pub open spec fn modified(
    before: Seq<AppView>,
    after: Seq<AppView>,
    slug: Seq<char>,
    app: AppView,
    r: Result<(), RegistryError>,
) -> bool {
    match slug_index(before, slug) {
        Some(i) => r is Ok && after == before.update(i, app),
        None => after == before && r is Err && r->Err_0@ == Problem::NotFound(slug),
    }
}

impl AppRegistry {
    /// The registry of these apps. One without an embed token gets a fresh one; whether any did
    /// is told along.
    pub fn load(apps: Vec<RegisteredApp>) -> (r: Result<(Self, bool), RegistryError>)
        ensures
            match r {
                Ok((registry, backfilled)) => {
                    &&& registry@.len() == apps@.len()
                    &&& forall|i: int|
                        0 <= i < apps@.len() ==> #[trigger] registry@[i] == if apps@[
                            i
                        ].embed_token@.len() == 0 {
                            AppView { embed_token: registry@[i].embed_token, ..apps@[i]@ }
                        } else {
                            apps@[i]@
                        }
                    &&& forall|i: int|
                        0 <= i < apps@.len() && apps@[i].embed_token@.len() == 0 ==> fresh_token(
                            (#[trigger] registry@[i]).embed_token,
                        )
                    &&& backfilled == exists|i: int|
                        0 <= i < apps@.len() && (#[trigger] apps@[i]).embed_token@.len() == 0
                },
                Err(error) => error@ is Token && exists|i: int|
                    0 <= i < apps@.len() && (#[trigger] apps@[i]).embed_token@.len() == 0,
            },
    {
        let ghost given = apps@;
        let mut list = apps;
        let mut backfilled = false;
        let mut i: usize = 0;
        while i < list.len()
            invariant
                i <= list@.len(),
                list@.len() == given.len(),
                given == apps@,
                forall|j: int|
                    i <= j < given.len() ==> #[trigger] list@[j] == given[j],
                forall|j: int|
                    0 <= j < i ==> (#[trigger] list@[j])@ == if given[j].embed_token@.len() == 0 {
                        AppView { embed_token: list@[j].embed_token@, ..given[j]@ }
                    } else {
                        given[j]@
                    },
                forall|j: int|
                    0 <= j < i && given[j].embed_token@.len() == 0 ==> fresh_token(
                        (#[trigger] list@[j]).embed_token@,
                    ),
                backfilled == exists|j: int|
                    0 <= j < i && (#[trigger] given[j]).embed_token@.len() == 0,
            decreases list@.len() - i,
        {
            if list[i].embed_token.as_str().is_empty() {
                match new_embed_token() {
                    Ok(token) => {
                        list[i].embed_token = token;
                    },
                    Err(error) => {
                        proof {
                            assert(given[i as int].embed_token@.len() == 0);
                        }
                        return Err(error);
                    },
                }
                backfilled = true;
            }
            i += 1;
        }
        let registry = AppRegistry { apps: list };
        proof {
            assert forall|j: int| 0 <= j < given.len() implies #[trigger] registry@[j]
                == list@[j]@ by {}
        }
        Ok((registry, backfilled))
    }

    /// Every app, in the order of registration.
    pub fn list(&self) -> (r: &Vec<RegisteredApp>)
        ensures
            app_views(r@) == self@,
    {
        &self.apps
    }

    fn index_of(&self, slug: &str) -> (r: Option<usize>)
        ensures
            match r {
                Some(i) => slug_index(self@, slug@) == Some(i as int) && i < self.apps@.len(),
                None => slug_index(self@, slug@) is None,
            },
    {
        let mut i: usize = 0;
        while i < self.apps.len()
            invariant
                i <= self.apps@.len(),
                forall|j: int| 0 <= j < i ==> (#[trigger] self@[j]).slug != slug@,
            decreases self.apps@.len() - i,
        {
            proof {
                assert(self@[i as int] == self.apps@[i as int]@);
            }
            if same(self.apps[i].slug.as_str(), slug) {
                proof {
                    lemma_slug_index(self@, slug@, i as int);
                }
                return Some(i);
            }
            i += 1;
        }
        proof {
            lemma_slug_index(self@, slug@, i as int);
        }
        None
    }

    /// The app with this slug.
    pub fn find(&self, slug: &str) -> (r: Option<&RegisteredApp>)
        ensures
            match r {
                Some(app) => slug_index(self@, slug@) is Some && app@ == self@[slug_index(
                    self@,
                    slug@,
                )->0],
                None => slug_index(self@, slug@) is None,
            },
    {
        match self.index_of(slug) {
            Some(i) => {
                proof {
                    assert(self@[i as int] == self.apps@[i as int]@);
                }
                Some(&self.apps[i])
            },
            None => None,
        }
    }

    /// The slug and the tidied settings of an app that can be registered. Errors on settings
    /// that don't hold, on a name without letters or digits, and on a slug collision (two names
    /// that normalize the same way, e.g. "API Test" and "api-test").
    fn prepared(&self, settings: AppSettings) -> (r: Result<
        (String, ValidSettings),
        RegistryError,
    >)
        ensures
            match r {
                Ok((slug, valid)) => addable(self@, settings) is None && slug@ == slug_of(
                    trim(settings.name@),
                ) && valid@ == tidied(settings),
                Err(error) => addable(self@, settings) == Some(error@),
            },
    {
        match settings.normalized() {
            Ok(valid) => {
                let slug = slugify(valid.name.as_str());
                if slug.as_str().is_empty() {
                    return Err(RegistryError::NameWithoutAlphanumerics);
                }
                if self.index_of(slug.as_str()).is_some() {
                    return Err(RegistryError::SlugTaken);
                }
                Ok((slug, valid))
            },
            Err(error) => Err(error),
        }
    }

    fn append(&mut self, slug: String, token: String, valid: ValidSettings)
        ensures
            final(self)@ == old(self)@.push(new_app(slug@, token@, valid@)),
    {
        let mut app = RegisteredApp {
            slug,
            name: String::new(),
            logs_url: None,
            health_url: None,
            embed_token: token,
            paused: false,
            public: false,
            degraded_after_ms: None,
            expect_body: None,
            check_assets: false,
            paused_at: None,
            paused_until: None,
            interval_secs: None,
            timeout_secs: None,
            expect_status: Vec::new(),
            headers: Vec::new(),
            alert_webhooks: Vec::new(),
            alert_mentions: Vec::new(),
        };
        app.apply(valid);
        proof {
            lemma_app_views_push(self.apps@, app);
        }
        self.apps.push(app);
    }

    /// Registers an app under this embed token, returns its new slug.
    pub fn add_with_token(&mut self, settings: AppSettings, token: String) -> (r: Result<
        String,
        RegistryError,
    >)
        ensures
            match addable(old(self)@, settings) {
                Some(problem) => r is Err && r->Err_0@ == problem && final(self)@ == old(self)@,
                None => {
                    let slug = slug_of(trim(settings.name@));
                    &&& r is Ok && r->Ok_0@ == slug
                    &&& final(self)@ == old(self)@.push(new_app(slug, token@, tidied(settings)))
                },
            },
    {
        match self.prepared(settings) {
            Ok((slug, valid)) => {
                self.append(slug.clone(), token, valid);
                Ok(slug)
            },
            Err(error) => Err(error),
        }
    }

    /// Registers an app under a fresh embed token, returns its new slug. Errors on a blank
    /// name/URL or a slug collision rather than silently overwriting the earlier registration.
    pub fn add(&mut self, settings: AppSettings) -> (r: Result<String, RegistryError>)
        ensures
            match addable(old(self)@, settings) {
                Some(problem) => r is Err && r->Err_0@ == problem && final(self)@ == old(self)@,
                None => match r {
                    Ok(slug) => slug@ == slug_of(trim(settings.name@)) && exists|
                        token: Seq<char>,
                    | #[trigger]
                        fresh_token(token) && final(self)@ == old(self)@.push(
                            new_app(slug@, token, tidied(settings)),
                        ),
                    Err(error) => error@ is Token && final(self)@ == old(self)@,
                },
            },
    {
        match self.prepared(settings) {
            Ok((slug, valid)) => match new_embed_token() {
                Ok(token) => {
                    proof {
                        assert(fresh_token(token@));
                    }
                    self.append(slug.clone(), token, valid);
                    Ok(slug)
                },
                Err(error) => Err(error),
            },
            Err(error) => Err(error),
        }
    }

    /// Replaces an app's settings. Its slug, embed token and history stay the same.
    pub fn update(&mut self, slug: &str, settings: AppSettings) -> (r: Result<(), RegistryError>)
        ensures
            match settings_problem(settings) {
                Some(problem) => r is Err && r->Err_0@ == problem && final(self)@ == old(self)@,
                None => match slug_index(old(self)@, slug@) {
                    Some(i) => r is Ok && final(self)@ == old(self)@.update(
                        i,
                        applied(old(self)@[i], tidied(settings)),
                    ),
                    None => final(self)@ == old(self)@ && r is Err && r->Err_0@
                        == Problem::NotFound(slug@),
                },
            },
    {
        match settings.normalized() {
            Ok(valid) => match self.index_of(slug) {
                Some(i) => {
                    let ghost before = self.apps@;
                    let mut app = self.apps.remove(i);
                    app.apply(valid);
                    self.apps.insert(i, app);
                    proof {
                        assert(self.apps@ =~= before.update(i as int, app));
                        lemma_app_views_update(before, i as int, app);
                    }
                    Ok(())
                },
                None => Err(RegistryError::NotFound(slug.to_owned())),
            },
            Err(error) => Err(error),
        }
    }

    /// Pauses (optionally until `until`, unix seconds) or resumes an app's checks.
    pub fn set_paused(&mut self, slug: &str, paused: bool, until: Option<u64>, now: u64) -> (r:
        Result<(), RegistryError>)
        ensures
            slug_index(old(self)@, slug@) is Some ==> modified(
                old(self)@,
                final(self)@,
                slug@,
                if paused {
                    paused_app(old(self)@[slug_index(old(self)@, slug@)->0], until, now)
                } else {
                    resumed_app(old(self)@[slug_index(old(self)@, slug@)->0])
                },
                r,
            ),
            slug_index(old(self)@, slug@) is None ==> final(self)@ == old(self)@ && r is Err
                && r->Err_0@ == Problem::NotFound(slug@),
    {
        match self.index_of(slug) {
            Some(i) => {
                let ghost before = self.apps@;
                let mut app = self.apps.remove(i);
                // Re-pausing a paused app (e.g. to set an end time) keeps when the pause began.
                app.paused_at = if paused {
                    if app.paused && app.paused_at.is_some() {
                        app.paused_at
                    } else {
                        Some(now)
                    }
                } else {
                    None
                };
                app.paused = paused;
                app.paused_until = if paused {
                    until
                } else {
                    None
                };
                self.apps.insert(i, app);
                proof {
                    assert(self.apps@ =~= before.update(i as int, app));
                    lemma_app_views_update(before, i as int, app);
                    assert(old(self)@[i as int] == before[i as int]@);
                }
                Ok(())
            },
            None => Err(RegistryError::NotFound(slug.to_owned())),
        }
    }

    /// Ends every scheduled pause whose time has come; returns the slugs it resumed.
    pub fn resume_expired(&mut self, now: u64) -> (r: Vec<String>)
        ensures
            final(self)@ == all_resumed(old(self)@, now),
            views(r@) == over_slugs(old(self)@, now),
    {
        let ghost given = self.apps@;
        let ghost all = self@;
        let mut resumed: Vec<String> = Vec::new();
        let mut i: usize = 0;
        proof {
            assert(all.take(0) =~= Seq::<AppView>::empty());
            assert(views(resumed@) =~= over_slugs(all.take(0), now));
        }
        while i < self.apps.len()
            invariant
                i <= self.apps@.len(),
                self.apps@.len() == given.len(),
                all == app_views(given),
                views(resumed@) == over_slugs(all.take(i as int), now),
                forall|j: int| i <= j < given.len() ==> #[trigger] self.apps@[j] == given[j],
                forall|j: int|
                    0 <= j < i ==> (#[trigger] self.apps@[j])@ == if pause_over(given[j]@, now) {
                        resumed_app(given[j]@)
                    } else {
                        given[j]@
                    },
            decreases self.apps@.len() - i,
        {
            proof {
                assert(all.take(i as int + 1).drop_last() =~= all.take(i as int));
                assert(all.take(i as int + 1).last() == given[i as int]@);
            }
            let over = match self.apps[i].paused_until {
                Some(until) => self.apps[i].paused && until <= now,
                None => false,
            };
            if over {
                let slug = self.apps[i].slug.clone();
                self.apps[i].paused = false;
                self.apps[i].paused_at = None;
                self.apps[i].paused_until = None;
                proof {
                    lemma_views_push(resumed@, slug);
                }
                resumed.push(slug);
            }
            i += 1;
        }
        proof {
            assert(all.take(all.len() as int) =~= all);
            assert(self@ =~= all_resumed(all, now));
        }
        resumed
    }

    /// Publishes or hides an app's status page.
    pub fn set_public(&mut self, slug: &str, public: bool) -> (r: Result<(), RegistryError>)
        ensures
            slug_index(old(self)@, slug@) is Some ==> modified(
                old(self)@,
                final(self)@,
                slug@,
                AppView { public, ..old(self)@[slug_index(old(self)@, slug@)->0] },
                r,
            ),
            slug_index(old(self)@, slug@) is None ==> final(self)@ == old(self)@ && r is Err
                && r->Err_0@ == Problem::NotFound(slug@),
    {
        match self.index_of(slug) {
            Some(i) => {
                let ghost before = self.apps@;
                let mut app = self.apps.remove(i);
                app.public = public;
                self.apps.insert(i, app);
                proof {
                    assert(self.apps@ =~= before.update(i as int, app));
                    lemma_app_views_update(before, i as int, app);
                    assert(old(self)@[i as int] == before[i as int]@);
                }
                Ok(())
            },
            None => Err(RegistryError::NotFound(slug.to_owned())),
        }
    }

    /// Gives an app this embed token.
    pub fn set_embed_token(&mut self, slug: &str, token: String) -> (r: Result<(), RegistryError>)
        ensures
            slug_index(old(self)@, slug@) is Some ==> modified(
                old(self)@,
                final(self)@,
                slug@,
                AppView {
                    embed_token: token@,
                    ..old(self)@[slug_index(old(self)@, slug@)->0]
                },
                r,
            ),
            slug_index(old(self)@, slug@) is None ==> final(self)@ == old(self)@ && r is Err
                && r->Err_0@ == Problem::NotFound(slug@),
    {
        match self.index_of(slug) {
            Some(i) => {
                let ghost before = self.apps@;
                let mut app = self.apps.remove(i);
                app.embed_token = token;
                self.apps.insert(i, app);
                proof {
                    assert(self.apps@ =~= before.update(i as int, app));
                    lemma_app_views_update(before, i as int, app);
                    assert(old(self)@[i as int] == before[i as int]@);
                }
                Ok(())
            },
            None => Err(RegistryError::NotFound(slug.to_owned())),
        }
    }

    /// Replaces the app's embed token by a fresh one, invalidating every embed that uses the
    /// old one.
    pub fn rotate_embed_token(&mut self, slug: &str) -> (r: Result<(), RegistryError>)
        ensures
            match slug_index(old(self)@, slug@) {
                Some(i) => match r {
                    Ok(()) => exists|token: Seq<char>| #[trigger]
                        fresh_token(token) && final(self)@ == old(self)@.update(
                            i,
                            AppView { embed_token: token, ..old(self)@[i] },
                        ),
                    Err(error) => error@ is Token && final(self)@ == old(self)@,
                },
                None => final(self)@ == old(self)@ && r is Err && r->Err_0@ == Problem::NotFound(
                    slug@,
                ),
            },
    {
        if self.index_of(slug).is_none() {
            return Err(RegistryError::NotFound(slug.to_owned()));
        }
        match new_embed_token() {
            Ok(token) => {
                let ghost t = token@;
                let r = self.set_embed_token(slug, token);
                proof {
                    assert(fresh_token(t));
                }
                r
            },
            Err(error) => Err(error),
        }
    }

    /// Unregisters the app with this slug.
    pub fn remove(&mut self, slug: &str) -> (r: Result<(), RegistryError>)
        ensures
            final(self)@ == without_slug(old(self)@, slug@),
            match r {
                Ok(()) => slug_index(old(self)@, slug@) is Some,
                Err(error) => slug_index(old(self)@, slug@) is None && error@ == Problem::NotFound(
                    slug@,
                ) && final(self)@ == old(self)@,
            },
    {
        let found = self.index_of(slug).is_some();
        let ghost given = self.apps@;
        let ghost all = self@;
        let mut kept: Vec<RegisteredApp> = Vec::new();
        let ghost mut i: int = 0;
        proof {
            assert(given.skip(0) =~= given);
            assert(all.take(0) =~= Seq::<AppView>::empty());
            assert(app_views(kept@) =~= without_slug(all.take(0), slug@));
        }
        while self.apps.len() > 0
            invariant
                0 <= i <= given.len(),
                self.apps@ == given.skip(i),
                all == app_views(given),
                app_views(kept@) == without_slug(all.take(i), slug@),
            decreases self.apps@.len(),
        {
            proof {
                assert(all.take(i + 1).drop_last() =~= all.take(i));
                assert(all.take(i + 1).last() == given[i]@);
                assert(self.apps@[0] == given[i]);
                assert(self.apps@.remove(0) =~= given.skip(i + 1));
            }
            let app = self.apps.remove(0);
            if !same(app.slug.as_str(), slug) {
                proof {
                    lemma_app_views_push(kept@, app);
                }
                kept.push(app);
            }
            proof {
                i = i + 1;
            }
        }
        proof {
            assert(all.take(all.len() as int) =~= all);
            lemma_slug_index_bounds(all, slug@);
            if !found {
                lemma_without_absent_slug(all, slug@);
            }
        }
        self.apps = kept;
        if found {
            Ok(())
        } else {
            Err(RegistryError::NotFound(slug.to_owned()))
        }
    }
}

/// What keeps an app with these settings from being registered.
pub open spec fn addable(apps: Seq<AppView>, settings: AppSettings) -> Option<Problem> {
    let slug = slug_of(trim(settings.name@));
    if settings_problem(settings) is Some {
        settings_problem(settings)
    } else if slug.len() == 0 {
        Some(Problem::NameWithoutAlphanumerics)
    } else if slug_index(apps, slug) is Some {
        Some(Problem::SlugTaken)
    } else {
        None
    }
}

proof fn lemma_without_absent_slug(apps: Seq<AppView>, slug: Seq<char>)
    requires
        forall|j: int| 0 <= j < apps.len() ==> (#[trigger] apps[j]).slug != slug,
    ensures
        without_slug(apps, slug) == apps,
    decreases apps.len(),
{
    if apps.len() > 0 {
        let front = apps.drop_last();
        assert forall|j: int| 0 <= j < front.len() implies (#[trigger] front[j]).slug != slug by {
            assert(front[j] == apps[j]);
        }
        lemma_without_absent_slug(front, slug);
        assert(apps[apps.len() - 1].slug != slug);
        assert(front.push(apps.last()) =~= apps);
    } else {
        assert(without_slug(apps, slug) =~= apps);
    }
}

// ---------------------------------------------------------------------------------------
// What holds of every registry
// ---------------------------------------------------------------------------------------

/// Registering never gives two apps the same slug, and the new app is found under its own.
pub proof fn lemma_registering_keeps_slugs_distinct(
    apps: Seq<AppView>,
    settings: AppSettings,
    token: Seq<char>,
)
    requires
        slugs_distinct(apps),
        addable(apps, settings) is None,
    ensures
        ({
            let slug = slug_of(trim(settings.name@));
            let after = apps.push(new_app(slug, token, tidied(settings)));
            slugs_distinct(after) && slug_index(after, slug) == Some(apps.len() as int)
        }),
{
    let slug = slug_of(trim(settings.name@));
    let app = new_app(slug, token, tidied(settings));
    let after = apps.push(app);
    lemma_slug_index_bounds(apps, slug);
    assert forall|i: int, j: int| 0 <= i < j < after.len() implies (#[trigger] after[i]).slug != (
    #[trigger] after[j]).slug by {
        assert(after[i] == apps[i]);
        if j < apps.len() {
            assert(after[j] == apps[j]);
        }
    }
    assert forall|j: int| 0 <= j < apps.len() implies (#[trigger] after[j]).slug != slug by {
        assert(after[j] == apps[j]);
    }
    lemma_slug_index(after, slug, apps.len() as int);
}

/// Editing an app keeps its slug, its token, its pause and its publication, and leaves every
/// other app alone.
pub proof fn lemma_editing_keeps_identity(app: AppView, valid: (Seq<char>, OptionsView))
    ensures
        applied(app, valid).slug == app.slug,
        applied(app, valid).embed_token == app.embed_token,
        applied(app, valid).paused == app.paused,
        applied(app, valid).paused_at == app.paused_at,
        applied(app, valid).paused_until == app.paused_until,
        applied(app, valid).public == app.public,
{
}

/// Changing one app under its slug keeps the slugs distinct.
pub proof fn lemma_changes_keep_slugs_distinct(apps: Seq<AppView>, i: int, app: AppView)
    requires
        slugs_distinct(apps),
        0 <= i < apps.len(),
        app.slug == apps[i].slug,
    ensures
        slugs_distinct(apps.update(i, app)),
{
    let after = apps.update(i, app);
    assert forall|a: int, b: int| 0 <= a < b < after.len() implies (#[trigger] after[a]).slug != (
    #[trigger] after[b]).slug by {
        assert(after[a].slug == apps[a].slug);
        assert(after[b].slug == apps[b].slug);
    }
}

/// Once removed, an app is no longer found; every other app still is in the list.
pub proof fn lemma_removed_apps_are_gone(apps: Seq<AppView>, slug: Seq<char>)
    ensures
        slug_index(without_slug(apps, slug), slug) is None,
        forall|i: int|
            0 <= i < apps.len() && (#[trigger] apps[i]).slug != slug ==> without_slug(
                apps,
                slug,
            ).contains(apps[i]),
    decreases apps.len(),
{
    let after = without_slug(apps, slug);
    if apps.len() > 0 {
        let front = apps.drop_last();
        lemma_removed_apps_are_gone(front, slug);
        let before = without_slug(front, slug);
        lemma_slug_index_bounds(before, slug);
        assert forall|j: int| 0 <= j < after.len() implies (#[trigger] after[j]).slug != slug by {
            if j < before.len() {
                assert(after[j] == before[j]);
            }
        }
        assert forall|i: int| 0 <= i < apps.len() && (#[trigger] apps[i]).slug
            != slug implies after.contains(apps[i]) by {
            if i < front.len() {
                assert(front[i] == apps[i]);
                let k = choose|k: int| 0 <= k < before.len() && before[k] == apps[i];
                assert(after[k] == apps[i]);
            } else {
                assert(after[after.len() - 1] == apps[i]);
            }
        }
    }
    lemma_slug_index(after, slug, after.len() as int);
}

/// A scheduled pause that is over ends, an open-ended one never does by itself, and after a
/// resumption no pause is over.
pub proof fn lemma_scheduled_pauses_end(apps: Seq<AppView>, now: u64)
    ensures
        forall|i: int|
            0 <= i < apps.len() ==> !pause_over(#[trigger] all_resumed(apps, now)[i], now),
        forall|i: int|
            0 <= i < apps.len() && (#[trigger] apps[i]).paused && apps[i].paused_until is None
                ==> all_resumed(apps, now)[i] == apps[i],
{
}

/// The values of a list in ascending order: strictly ascending, with the list's own values.
pub proof fn lemma_ascending_set(s: Seq<u16>)
    ensures
        forall|i: int, j: int|
            0 <= i < j < ascending_set(s).len() ==> #[trigger] ascending_set(s)[i]
                < #[trigger] ascending_set(s)[j],
        forall|x: u16| #[trigger] ascending_set(s).contains(x) <==> s.contains(x),
    decreases s.len(),
{
    if s.len() > 0 {
        let front = s.drop_last();
        lemma_ascending_set(front);
        lemma_inserted(ascending_set(front), s.last());
        assert forall|x: u16| #[trigger] ascending_set(s).contains(x) <==> s.contains(x) by {
            if s.contains(x) {
                let i = choose|i: int| 0 <= i < s.len() && s[i] == x;
                if i < front.len() {
                    assert(front[i] == x);
                    assert(front.contains(x));
                }
            }
            if front.contains(x) {
                let i = choose|i: int| 0 <= i < front.len() && front[i] == x;
                assert(s[i] == x);
            }
            assert(s[s.len() - 1] == s.last());
            assert(ascending_set(front).contains(x) <==> front.contains(x));
        }
    }
}

proof fn lemma_inserted(s: Seq<u16>, x: u16)
    requires
        forall|i: int, j: int| 0 <= i < j < s.len() ==> #[trigger] s[i] < #[trigger] s[j],
    ensures
        forall|i: int, j: int|
            0 <= i < j < inserted(s, x).len() ==> #[trigger] inserted(s, x)[i] < #[trigger]
            inserted(s, x)[j],
        forall|y: u16| #[trigger] inserted(s, x).contains(y) <==> s.contains(y) || y == x,
    decreases s.len(),
{
    let r = inserted(s, x);
    if s.len() == 0 {
        assert(r[0] == x);
    } else if s.last() < x {
        assert forall|y: u16| #[trigger] r.contains(y) <==> s.contains(y) || y == x by {
            if s.contains(y) {
                let i = choose|i: int| 0 <= i < s.len() && s[i] == y;
                assert(r[i] == y);
            }
            assert(r[r.len() - 1] == x);
            if r.contains(y) && y != x {
                let i = choose|i: int| 0 <= i < r.len() && r[i] == y;
                assert(s[i] == y);
            }
        }
        assert forall|i: int, j: int| 0 <= i < j < r.len() implies #[trigger] r[i]
            < #[trigger] r[j] by {
            if j == s.len() {
                assert(r[i] == s[i]);
                assert(s[i] <= s[s.len() - 1]);
            }
        }
    } else if s.last() == x {
        assert(s[s.len() - 1] == x);
    } else {
        let front = s.drop_last();
        assert forall|i: int, j: int| 0 <= i < j < front.len() implies #[trigger] front[i]
            < #[trigger] front[j] by {
            assert(front[i] == s[i] && front[j] == s[j]);
        }
        lemma_inserted(front, x);
        let f = inserted(front, x);
        assert forall|y: u16| #[trigger] r.contains(y) <==> s.contains(y) || y == x by {
            if s.contains(y) {
                let i = choose|i: int| 0 <= i < s.len() && s[i] == y;
                if i < front.len() {
                    assert(front[i] == y);
                    assert(front.contains(y));
                }
            }
            if f.contains(y) {
                let i = choose|i: int| 0 <= i < f.len() && f[i] == y;
                assert(r[i] == y);
            }
            assert(r[r.len() - 1] == s.last());
            if r.contains(y) && y != s.last() {
                let i = choose|i: int| 0 <= i < r.len() && r[i] == y;
                assert(f[i] == y);
                assert(f.contains(y));
            }
            if front.contains(y) {
                let i = choose|i: int| 0 <= i < front.len() && front[i] == y;
                assert(s[i] == y);
            }
            assert(s[s.len() - 1] == s.last());
        }
        assert forall|i: int, j: int| 0 <= i < j < r.len() implies #[trigger] r[i]
            < #[trigger] r[j] by {
            if j < f.len() {
                assert(r[i] == f[i] && r[j] == f[j]);
            } else {
                assert(r[i] == f[i]);
                assert(f.contains(f[i]));
                if f[i] != x {
                    let k = choose|k: int| 0 <= k < front.len() && front[k] == f[i];
                    assert(s[k] < s[s.len() - 1]);
                }
            }
        }
    }
}

} // verus!
