//! Registering, editing and pausing apps: what the forms mean.

use vstd::prelude::*;

use crate::i18n::I18n;
use crate::i18n::Localize;
use crate::outbound::Outbound;
use crate::registry::first_index;
use crate::registry::header_ok;
use crate::registry::header_views;
use crate::registry::AppSettings;
use crate::registry::CheckHeader;
use crate::registry::Problem;
use crate::registry::RegistryError;
use crate::registry::MAX_INTERVAL_SECS;
use crate::registry::MAX_TIMEOUT_SECS;
use crate::registry::MIN_INTERVAL_SECS;
use crate::routes::api::url_refusal;
use crate::text::decimal;
use crate::text::join;
use crate::text::joined;
use crate::text::lines;
use crate::text::lines_of;
use crate::text::list_entries;
use crate::text::nonblank;
use crate::text::nonblank_entries;
use crate::text::parse_unsigned;
use crate::text::split;
use crate::text::trim;
use crate::text::trimmed;
use crate::text::unsigned;
use crate::text::views;
use crate::uptime::probe::refusal;
use crate::weburl::parsed_url;

verus! {

/// The register/edit form, as submitted. Numbers arrive as text so a blank field can mean "use
/// the global default"; lists arrive as text too, one entry per line or between commas.
#[derive(Debug)]
pub struct AppForm {
    pub name: String,
    /// Blank = monitor-only app.
    pub logs_url: String,
    pub health_url: String,
    pub degraded_after_ms: String,
    pub expect_body: String,
    pub check_assets: bool,
    pub interval_secs: String,
    pub timeout_secs: String,
    /// Codes between commas.
    pub expect_status: String,
    /// One `Name: value` per line.
    pub headers: String,
    /// One URL per line.
    pub alert_webhooks: String,
    /// Entries between commas.
    pub alert_mentions: String,
}

/// A number that may be left blank; an error where it is neither.
pub open spec fn number_field(s: Seq<char>, max: nat) -> Result<Option<nat>, ()> {
    if trim(s).len() == 0 {
        Ok(None)
    } else {
        match unsigned(trim(s), max) {
            Some(n) => Ok(Some(n)),
            None => Err(()),
        }
    }
}

fn number_of(s: &str) -> (r: Result<Option<u32>, ()>)
    ensures
        match r {
            Ok(Some(n)) => number_field(s@, u32::MAX as nat) == Ok::<Option<nat>, ()>(
                Some(n as nat),
            ),
            Ok(None) => number_field(s@, u32::MAX as nat) == Ok::<Option<nat>, ()>(None),
            Err(_) => number_field(s@, u32::MAX as nat) is Err,
        },
{
    let clean = trimmed(s);
    if clean.as_str().is_empty() {
        return Ok(None);
    }
    match parse_unsigned(clean.as_str(), u32::MAX as u64) {
        Some(n) => Ok(Some(n as u32)),
        None => Err(()),
    }
}

/// The first entry that isn't a number of at most sixteen bits.
pub open spec fn bad_code(entries: Seq<Seq<char>>) -> Option<Seq<char>>
    decreases entries.len(),
{
    if entries.len() == 0 {
        None
    } else {
        match bad_code(entries.drop_last()) {
            Some(bad) => Some(bad),
            None => if unsigned(entries.last(), u16::MAX as nat) is None {
                Some(entries.last())
            } else {
                None
            },
        }
    }
}

/// The numbers that entries write.
pub open spec fn codes(entries: Seq<Seq<char>>) -> Seq<u16> {
    entries.map_values(|e: Seq<char>| unsigned(e, u16::MAX as nat)->0 as u16)
}

fn codes_of(text: &str) -> (r: Result<Vec<u16>, String>)
    ensures
        match r {
            Ok(list) => bad_code(nonblank(split(text@, ','))) is None && list@ == codes(
                nonblank(split(text@, ',')),
            ),
            Err(bad) => bad_code(nonblank(split(text@, ','))) == Some(bad@),
        },
{
    let entries = list_entries(text);
    let ghost all = views(entries@);
    let mut out: Vec<u16> = Vec::new();
    let mut bad: Option<String> = None;
    let mut i: usize = 0;
    proof {
        assert(all.take(0) =~= Seq::<Seq<char>>::empty());
        assert(out@ =~= codes(all).take(0));
    }
    while i < entries.len()
        invariant
            i <= entries@.len(),
            all == views(entries@),
            crate::weburl::opt_view(bad) == bad_code(all.take(i as int)),
            bad is None ==> out@ == codes(all).take(i as int),
        decreases entries@.len() - i,
    {
        proof {
            assert(all.take(i as int + 1).drop_last() =~= all.take(i as int));
            assert(all[i as int] == entries@[i as int]@);
        }
        if bad.is_none() {
            match parse_unsigned(entries[i].as_str(), u16::MAX as u64) {
                Some(n) => {
                    out.push(n as u16);
                    proof {
                        assert(codes(all).take(i as int + 1) =~= codes(all).take(i as int).push(
                            n as u16,
                        ));
                    }
                },
                None => {
                    bad = Some(entries[i].clone());
                },
            }
        }
        i += 1;
    }
    proof {
        assert(all.take(all.len() as int) =~= all);
        assert(codes(all).take(all.len() as int) =~= codes(all));
    }
    match bad {
        Some(entry) => Err(entry),
        None => Ok(out),
    }
}

/// The name and the value that a header's line writes, where they may be sent.
pub open spec fn header_of(line: Seq<char>) -> Option<(Seq<char>, Seq<char>)> {
    match first_index(line, ':') {
        Some(i) => {
            let name = trim(line.take(i));
            let value = trim(line.skip(i + 1));
            if header_ok(name, value) {
                Some((name, value))
            } else {
                None
            }
        },
        None => None,
    }
}

/// The first line that isn't a header.
pub open spec fn bad_line(entries: Seq<Seq<char>>) -> Option<Seq<char>>
    decreases entries.len(),
{
    if entries.len() == 0 {
        None
    } else {
        match bad_line(entries.drop_last()) {
            Some(bad) => Some(bad),
            None => if header_of(entries.last()) is None {
                Some(trim(entries.last()))
            } else {
                None
            },
        }
    }
}

/// The headers that lines write.
pub open spec fn headers_in(entries: Seq<Seq<char>>) -> Seq<(Seq<char>, Seq<char>)> {
    entries.map_values(|line: Seq<char>| header_of(line)->0)
}

fn headers_of(text: &str) -> (r: Result<Vec<CheckHeader>, RegistryError>)
    ensures
        match r {
            Ok(list) => bad_line(nonblank(lines(text@))) is None && header_views(list@)
                == headers_in(nonblank(lines(text@))),
            Err(error) => bad_line(nonblank(lines(text@))) is Some && error@
                == Problem::InvalidHeader(bad_line(nonblank(lines(text@)))->0),
        },
{
    let all_lines = lines_of(text);
    let entries = nonblank_entries(&all_lines);
    let ghost all = views(entries@);
    let mut out: Vec<CheckHeader> = Vec::new();
    let mut bad: Option<RegistryError> = None;
    let mut i: usize = 0;
    proof {
        assert(all.take(0) =~= Seq::<Seq<char>>::empty());
        assert(header_views(out@) =~= headers_in(all).take(0));
    }
    while i < entries.len()
        invariant
            i <= entries@.len(),
            all == views(entries@),
            match bad {
                Some(error) => bad_line(all.take(i as int)) is Some && error@
                    == Problem::InvalidHeader(bad_line(all.take(i as int))->0),
                None => bad_line(all.take(i as int)) is None,
            },
            bad is None ==> header_views(out@) == headers_in(all).take(i as int),
        decreases entries@.len() - i,
    {
        proof {
            assert(all.take(i as int + 1).drop_last() =~= all.take(i as int));
            assert(all[i as int] == entries@[i as int]@);
        }
        if bad.is_none() {
            match CheckHeader::parse_line(entries[i].as_str()) {
                Ok(header) => {
                    let ghost before = out@;
                    out.push(header);
                    proof {
                        assert(header_views(out@) =~= header_views(before).push(
                            (header.name@, header.value@),
                        ));
                        assert(headers_in(all).take(i as int + 1) =~= headers_in(all).take(
                            i as int,
                        ).push((header.name@, header.value@)));
                    }
                },
                Err(error) => {
                    bad = Some(error);
                },
            }
        }
        i += 1;
    }
    proof {
        assert(all.take(all.len() as int) =~= all);
        assert(headers_in(all).take(all.len() as int) =~= headers_in(all));
    }
    match bad {
        Some(error) => Err(error),
        None => Ok(out),
    }
}

/// What is wrong with what a form's fields write, in the UI's language; `None` when each means
/// something.
pub open spec fn form_problem(form: AppForm, i18n: I18n) -> Option<Seq<char>> {
    if number_field(form.degraded_after_ms@, u32::MAX as nat) is Err {
        Some(i18n.template("err.threshold"@))
    } else if number_field(form.interval_secs@, u32::MAX as nat) is Err {
        Some(
            i18n.message(
                "err.interval"@,
                seq![
                    ("min"@, decimal(MIN_INTERVAL_SECS as nat)),
                    ("max"@, decimal(MAX_INTERVAL_SECS as nat)),
                ],
            ),
        )
    } else if number_field(form.timeout_secs@, u32::MAX as nat) is Err {
        Some(i18n.message("err.timeout"@, seq![("max"@, decimal(MAX_TIMEOUT_SECS as nat))]))
    } else if bad_code(nonblank(split(form.expect_status@, ','))) is Some {
        Some(
            i18n.message(
                "err.status"@,
                seq![("code"@, bad_code(nonblank(split(form.expect_status@, ',')))->0)],
            ),
        )
    } else if bad_line(nonblank(lines(form.headers@))) is Some {
        Some(
            i18n.message(
                "err.header"@,
                seq![("header"@, bad_line(nonblank(lines(form.headers@)))->0)],
            ),
        )
    } else {
        None
    }
}

/// Whether a setting is the number that a field writes.
pub open spec fn number_is(setting: Option<u32>, field: Seq<char>) -> bool {
    number_field(field, u32::MAX as nat) == Ok::<Option<nat>, ()>(
        match setting {
            Some(n) => Some(n as nat),
            None => None,
        },
    )
}

/// Whether settings are what a form writes.
pub open spec fn settings_of(s: AppSettings, form: AppForm) -> bool {
    &&& s.name == form.name
    &&& s.logs_url == form.logs_url
    &&& s.health_url == form.health_url
    &&& number_is(s.degraded_after_ms, form.degraded_after_ms@)
    &&& s.expect_body == Some(form.expect_body)
    &&& s.check_assets == form.check_assets
    &&& number_is(s.interval_secs, form.interval_secs@)
    &&& number_is(s.timeout_secs, form.timeout_secs@)
    &&& s.expect_status@ == codes(nonblank(split(form.expect_status@, ',')))
    &&& header_views(s.headers@) == headers_in(nonblank(lines(form.headers@)))
    &&& views(s.alert_webhooks@) == nonblank(lines(form.alert_webhooks@))
    &&& views(s.alert_mentions@) == nonblank(split(form.alert_mentions@, ','))
}

/// Why one of a form's URLs may not be stored, in the UI's language; `None` when both may.
pub open spec fn urls_problem(form: AppForm, outbound: Outbound, i18n: I18n) -> Option<Seq<char>> {
    let logs = if trim(form.logs_url@).len() == 0 {
        None
    } else {
        url_refusal(parsed_url(trim(form.logs_url@)), outbound, i18n)
    };
    let health = refusal(parsed_url(trim(form.health_url@)), outbound, i18n);
    match (logs, health) {
        (Some(error), _) => Some(field_error("err.label_logs"@, error, i18n)),
        (None, Some(error)) => Some(field_error("err.label_health"@, error, i18n)),
        (None, None) => None,
    }
}

/// An error with the name of the field that it is about.
pub open spec fn field_error(label: Seq<char>, error: Seq<char>, i18n: I18n) -> Seq<char> {
    i18n.message("err.url_field"@, seq![("label"@, i18n.template(label)), ("error"@, error)])
}

fn field_error_text(label: &str, error: &str, i18n: &I18n) -> (r: String)
    ensures
        r@ == field_error(label@, error@, *i18n),
{
    let name = i18n.line(label);
    i18n.line2("err.url_field", ("label", name.as_str()), ("error", error))
}

impl AppForm {
    /// What the form writes; what is wrong with it, in the UI's language, where a field means
    /// nothing.
    pub fn settings(&self, i18n: &I18n) -> (r: Result<AppSettings, String>)
        ensures
            match form_problem(*self, *i18n) {
                Some(problem) => r is Err && r->Err_0@ == problem,
                None => r is Ok && settings_of(r->Ok_0, *self),
            },
    {
        let degraded_after_ms = match number_of(self.degraded_after_ms.as_str()) {
            Ok(n) => n,
            Err(_) => {
                return Err(i18n.line("err.threshold"));
            },
        };
        let interval_secs = match number_of(self.interval_secs.as_str()) {
            Ok(n) => n,
            Err(_) => {
                return Err(RegistryError::IntervalOutOfRange.localize(i18n));
            },
        };
        let timeout_secs = match number_of(self.timeout_secs.as_str()) {
            Ok(n) => n,
            Err(_) => {
                return Err(RegistryError::TimeoutOutOfRange.localize(i18n));
            },
        };
        let expect_status = match codes_of(self.expect_status.as_str()) {
            Ok(list) => list,
            Err(bad) => {
                return Err(i18n.line1("err.status", "code", bad.as_str()));
            },
        };
        let headers = match headers_of(self.headers.as_str()) {
            Ok(list) => list,
            Err(error) => {
                return Err(error.localize(i18n));
            },
        };
        let hook_lines = lines_of(self.alert_webhooks.as_str());
        Ok(
            AppSettings {
                name: self.name.clone(),
                logs_url: self.logs_url.clone(),
                health_url: self.health_url.clone(),
                degraded_after_ms,
                expect_body: Some(self.expect_body.clone()),
                check_assets: self.check_assets,
                interval_secs,
                timeout_secs,
                expect_status,
                headers,
                alert_webhooks: nonblank_entries(&hook_lines),
                alert_mentions: list_entries(self.alert_mentions.as_str()),
            },
        )
    }

    /// Both URLs must pass the outbound policy before they're ever stored; the logs URL may be
    /// blank.
    pub fn check_urls(&self, outbound: &Outbound, i18n: &I18n) -> (r: Result<(), String>)
        ensures
            match urls_problem(*self, *outbound, *i18n) {
                Some(problem) => r is Err && r->Err_0@ == problem,
                None => r is Ok,
            },
    {
        let logs = trimmed(self.logs_url.as_str());
        if !logs.as_str().is_empty() {
            if let Err(error) = outbound.check(self.logs_url.as_str()) {
                let why = error.localize(i18n);
                return Err(field_error_text("err.label_logs", why.as_str(), i18n));
            }
        }
        proof {
            reveal_strlit("tcp");
            reveal_strlit("https");
            assert("tcp"@.len() != "https"@.len());
        }
        match outbound.check_health(self.health_url.as_str()) {
            Ok(_) => Ok(()),
            Err(error) => {
                let why = error.localize(i18n);
                Err(field_error_text("err.label_health", why.as_str(), i18n))
            },
        }
    }
}

/// The allowed hosts as the page lists them.
pub fn hosts_text(allowed_hosts: &str) -> (r: String)
    ensures
        r@ == join(nonblank(split(allowed_hosts@, ',')), ", "@),
{
    let hosts = list_entries(allowed_hosts);
    joined(&hosts, ", ")
}

// ---------------------------------------------------------------------------------------
// Pauses
// ---------------------------------------------------------------------------------------

/// Longest scheduled pause, in hours: thirty days.
pub const MAX_PAUSE_HOURS: u64 = 720;

/// A switch, as submitted.
#[derive(Debug, Clone, Copy)]
pub struct ToggleForm {
    pub value: bool,
    /// Hours that a pause lasts; absent = until resumed by hand.
    pub hours: Option<u64>,
}

/// The hours that a form's text asks for; anything but a number asks for none.
pub fn hours_asked(raw: &str) -> (r: Option<u64>)
    ensures
        match r {
            Some(hours) => unsigned(trim(raw@), u64::MAX as nat) == Some(hours as nat),
            None => unsigned(trim(raw@), u64::MAX as nat) is None,
        },
{
    let text = trimmed(raw);
    parse_unsigned(text.as_str(), u64::MAX)
}

/// When a pause ends by itself: after the hours asked for, at least one and at most thirty
/// days.
pub open spec fn pause_end(form: ToggleForm, now: u64) -> Option<u64> {
    match form.hours {
        Some(hours) => if form.value {
            let length = if hours < 1 {
                1
            } else if hours > MAX_PAUSE_HOURS {
                MAX_PAUSE_HOURS
            } else {
                hours
            };
            Some((now + length * 3600) as u64)
        } else {
            None
        },
        None => None,
    }
}

/// When a pause ends by itself.
pub fn pause_until(form: &ToggleForm, now: u64) -> (r: Option<u64>)
    requires
        now + MAX_PAUSE_HOURS * 3600 <= u64::MAX,
    ensures
        r == pause_end(*form, now),
{
    match form.hours {
        Some(hours) => if form.value {
            let length: u64 = if hours < 1 {
                1
            } else if hours > MAX_PAUSE_HOURS {
                MAX_PAUSE_HOURS
            } else {
                hours
            };
            Some(now + length * 3600)
        } else {
            None
        },
        None => None,
    }
}

// ---------------------------------------------------------------------------------------
// What holds of every form
// ---------------------------------------------------------------------------------------

/// A health URL outside the policy is never stored, whatever else the form says.
pub proof fn lemma_refused_urls_are_not_stored(form: AppForm, outbound: Outbound, i18n: I18n)
    requires
        refusal(parsed_url(trim(form.health_url@)), outbound, i18n) is Some,
    ensures
        urls_problem(form, outbound, i18n) is Some,
{
}

/// A scheduled pause lasts at least an hour and at most thirty days.
pub proof fn lemma_scheduled_pauses_are_bounded(form: ToggleForm, now: u64)
    requires
        now + MAX_PAUSE_HOURS * 3600 <= u64::MAX,
        pause_end(form, now) is Some,
    ensures
        now + 3600 <= pause_end(form, now)->0 <= now + MAX_PAUSE_HOURS * 3600,
{
}

} // verus!
