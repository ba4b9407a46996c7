//! What holds of every registry: what may be set, what is kept, and which app a change is of.

use vstd::prelude::*;

use crate::alerts::app_hook;
use crate::alerts::mention_of;
use crate::i18n::I18n;
use crate::i18n::Localize;
use crate::registry::addable;
use crate::registry::all_resumed;
use crate::registry::applied;
use crate::registry::bad_header;
use crate::registry::bad_mention;
use crate::registry::bad_status;
use crate::registry::bad_webhook;
use crate::registry::first_index;
use crate::registry::fresh_token;
use crate::registry::header_name;
use crate::registry::header_ok;
use crate::registry::header_value;
use crate::registry::header_views;
use crate::registry::hyphenated;
use crate::registry::lemma_ascending_set;
use crate::registry::modified;
use crate::registry::monitored;
use crate::registry::new_app;
use crate::registry::over_slugs;
use crate::registry::paused_app;
use crate::registry::resumed_app;
use crate::registry::settings_problem;
use crate::registry::slug_index;
use crate::registry::slug_of;
use crate::registry::tidied;
use crate::registry::token_char;
use crate::registry::trimmed_pairs;
use crate::registry::unique_entries;
use crate::registry::unless_blank;
use crate::registry::unless_zero;
use crate::registry::without_slug;
use crate::registry::AppSettings;
use crate::registry::AppView;
use crate::registry::MAX_HEADERS;
use crate::registry::MAX_INTERVAL_SECS;
use crate::registry::MAX_TIMEOUT_SECS;
use crate::registry::MAX_WEBHOOKS;
use crate::registry::MIN_INTERVAL_SECS;
use crate::registry::OptionsView;
use crate::registry::Problem;
use crate::registry::RegisteredApp;
use crate::registry::RegistryError;
use crate::text::ascii_lower;
use crate::text::decimal;
use crate::text::is_alnum;
use crate::text::starts_with;
use crate::text::trim;
use crate::text::trim_end_char;
use crate::text::views;

verus! {

/// The first character of its kind in a text, if there is one.
pub proof fn lemma_first_characters_are_found(s: Seq<char>, c: char)
    ensures
        match first_index(s, c) {
            Some(i) => 0 <= i < s.len() && s[i] == c && forall|j: int|
                0 <= j < i ==> #[trigger] s[j] != c,
            None => forall|j: int| 0 <= j < s.len() ==> #[trigger] s[j] != c,
        },
    decreases s.len(),
{
    if s.len() > 0 && s[0] != c {
        let rest = s.skip(1);
        lemma_first_characters_are_found(rest, c);
        let n: int = match first_index(s, c) {
            Some(i) => i,
            None => s.len() as int,
        };
        assert forall|j: int| 0 <= j < n implies #[trigger] s[j] != c by {
            if j > 0 {
                assert(rest[j - 1] == s[j]);
            }
        }
        if first_index(s, c) is Some {
            assert(rest[n - 1] == s[n]);
        }
    }
}

/// A header that says how the request is sent is refused, in whatever case it is written.
pub proof fn lemma_reserved_headers_are_refused(name: Seq<char>, value: Seq<char>)
    requires
        ascii_lower(name) == "host"@ || ascii_lower(name) == "content-length"@ || ascii_lower(name)
            == "transfer-encoding"@ || ascii_lower(name) == "connection"@ || ascii_lower(name)
            == "upgrade"@,
    ensures
        !header_ok(name, value),
{
}

/// Any other header of letters, digits and hyphens is accepted, with a value of printable
/// characters.
pub proof fn lemma_ordinary_headers_are_accepted(name: Seq<char>, value: Seq<char>)
    requires
        1 <= name.len() <= 65_535,
        forall|i: int| 0 <= i < name.len() ==> is_alnum(#[trigger] name[i]) || name[i] == '-',
        ascii_lower(name) != "host"@,
        ascii_lower(name) != "content-length"@,
        ascii_lower(name) != "transfer-encoding"@,
        ascii_lower(name) != "connection"@,
        ascii_lower(name) != "upgrade"@,
        forall|i: int| 0 <= i < value.len() ==> 32 <= (#[trigger] value[i]) as u32 <= 126,
    ensures
        header_ok(name, value),
{
}

/// A name with white space, a colon or a control character is none, nor is an empty one; a value
/// with a line break is refused.
pub proof fn lemma_broken_headers_are_refused(name: Seq<char>, value: Seq<char>, i: int)
    ensures
        name.len() == 0 ==> !header_ok(name, value),
        0 <= i < name.len() && (name[i] as u32 <= 32 || name[i] == ':' || name[i] as u32 >= 127)
            ==> !header_ok(name, value),
        0 <= i < value.len() && (value[i] == '\n' || value[i] == '\r' || value[i] as u32 == 0
            || value[i] as u32 == 127) ==> !header_ok(name, value),
{
    if 0 <= i < name.len() {
        assert(header_name(name) ==> token_char(name[i]));
    }
    if 0 <= i < value.len() {
        let c = value[i];
        assert(header_value(value) ==> (c as u32 >= 32 && c as u32 != 127) || c == '\t');
    }
}

/// Blank texts and zeros are as good as none; anything else is kept, a text trimmed.
pub proof fn lemma_blanks_are_none(s: Seq<char>, n: u32)
    ensures
        unless_blank(s) is None <==> trim(s).len() == 0,
        unless_blank(s) is Some ==> unless_blank(s)->0 == trim(s),
        unless_zero(Some(n)) is None <==> n == 0,
        n != 0 ==> unless_zero(Some(n)) == Some(n),
        unless_zero(None) is None,
{
}

/// Entries are kept trimmed, each text once where it first stands, and the blank ones not at
/// all: `at` tells which entries are kept.
pub proof fn lemma_entries_are_kept_once(entries: Seq<Seq<char>>) -> (at: Seq<int>)
    ensures
        at.len() == unique_entries(entries).len(),
        forall|k: int|
            0 <= k < at.len() ==> 0 <= #[trigger] at[k] < entries.len() && unique_entries(
                entries,
            )[k] == trim(entries[at[k]]),
        forall|k: int, l: int| 0 <= k < l < at.len() ==> #[trigger] at[k] < #[trigger] at[l],
        unique_entries(entries).no_duplicates(),
        forall|x: Seq<char>| #[trigger]
            unique_entries(entries).contains(x) <==> x.len() > 0 && exists|i: int|
                0 <= i < entries.len() && trim(#[trigger] entries[i]) == x,
    decreases entries.len(),
{
    if entries.len() == 0 {
        Seq::empty()
    } else {
        let front = entries.drop_last();
        let n = front.len() as int;
        let before = lemma_entries_are_kept_once(front);
        let old = unique_entries(front);
        let all = unique_entries(entries);
        let entry = trim(entries.last());
        let kept = !(entry.len() == 0 || old.contains(entry));
        let at = if kept {
            before.push(n)
        } else {
            before
        };
        assert forall|k: int| 0 <= k < at.len() implies 0 <= #[trigger] at[k] < entries.len()
            && all[k] == trim(entries[at[k]]) by {
            if k < before.len() {
                assert(front[before[k]] == entries[before[k]]);
            }
        }
        assert forall|x: Seq<char>| #[trigger] all.contains(x) <==> x.len() > 0 && exists|i: int|
            0 <= i < entries.len() && trim(#[trigger] entries[i]) == x by {
            if old.contains(x) {
                let k = choose|k: int| 0 <= k < old.len() && old[k] == x;
                assert(all[k] == x);
                let i = choose|i: int| 0 <= i < front.len() && trim(#[trigger] front[i]) == x;
                assert(entries[i] == front[i]);
            }
            if kept {
                assert(all[old.len() as int] == entry);
            }
            if all.contains(x) && !old.contains(x) {
                let k = choose|k: int| 0 <= k < all.len() && all[k] == x;
                assert(k == old.len());
            }
            if exists|i: int| 0 <= i < entries.len() && trim(#[trigger] entries[i]) == x {
                let i = choose|i: int| 0 <= i < entries.len() && trim(#[trigger] entries[i]) == x;
                if i < n {
                    assert(front[i] == entries[i]);
                }
            }
            assert(entries[n] == entries.last());
        }
        assert(all.no_duplicates()) by {
            if kept {
                assert forall|i: int, j: int|
                    0 <= i < all.len() && 0 <= j < all.len() && i != j implies all[i] != all[j] by {
                    if i < old.len() && j < old.len() {
                        assert(old[i] != old[j]);
                    } else if i < old.len() {
                        assert(old.contains(old[i]));
                    } else {
                        assert(old.contains(old[j]));
                    }
                }
            }
        }
        at
    }
}

/// The first value that is no HTTP status code is the one that is complained about.
pub proof fn lemma_bad_codes_are_found(s: Seq<u16>)
    ensures
        match bad_status(s) {
            Some(code) => (code < 100 || code > 599) && exists|i: int|
                0 <= i < s.len() && #[trigger] s[i] == code && forall|j: int|
                    0 <= j < i ==> 100 <= #[trigger] s[j] <= 599,
            None => forall|j: int| 0 <= j < s.len() ==> 100 <= #[trigger] s[j] <= 599,
        },
    decreases s.len(),
{
    if s.len() > 0 {
        if !(100 <= s[0] <= 599) {
            assert(s[0] == bad_status(s)->0);
        } else {
            let rest = s.skip(1);
            lemma_bad_codes_are_found(rest);
            if bad_status(s) is Some {
                let i = choose|i: int|
                    0 <= i < rest.len() && #[trigger] rest[i] == bad_status(s)->0 && forall|j: int|
                        0 <= j < i ==> 100 <= #[trigger] rest[j] <= 599;
                assert(s[i + 1] == rest[i]);
                assert forall|j: int| 0 <= j < i + 1 implies 100 <= #[trigger] s[j] <= 599 by {
                    if j > 0 {
                        assert(rest[j - 1] == s[j]);
                    }
                }
            } else {
                assert forall|j: int| 0 <= j < s.len() implies 100 <= #[trigger] s[j] <= 599 by {
                    if j > 0 {
                        assert(rest[j - 1] == s[j]);
                    }
                }
            }
        }
    }
}

/// Entries are refused exactly where one of them can't be used, and then one that can't is named.
pub proof fn lemma_bad_entries_are_found(
    headers: Seq<(Seq<char>, Seq<char>)>,
    hooks: Seq<Seq<char>>,
    mentions: Seq<Seq<char>>,
)
    ensures
        bad_header(headers) is None <==> forall|i: int|
            0 <= i < headers.len() ==> header_ok((#[trigger] headers[i]).0, headers[i].1),
        bad_header(headers) is Some ==> exists|i: int|
            0 <= i < headers.len() && (#[trigger] headers[i]).0 == bad_header(headers)->0
                && !header_ok(headers[i].0, headers[i].1),
        bad_webhook(hooks) is None <==> forall|i: int|
            0 <= i < hooks.len() ==> app_hook(#[trigger] hooks[i]) is Some,
        bad_webhook(hooks) is Some ==> hooks.contains(bad_webhook(hooks)->0) && app_hook(
            bad_webhook(hooks)->0,
        ) is None,
        bad_mention(mentions) is None <==> forall|i: int|
            0 <= i < mentions.len() ==> mention_of(#[trigger] mentions[i]) is Some,
        bad_mention(mentions) is Some ==> mentions.contains(bad_mention(mentions)->0)
            && mention_of(bad_mention(mentions)->0) is None,
{
    lemma_bad_headers(headers);
    lemma_bad_hooks(hooks);
    lemma_bad_mentions(mentions);
}

proof fn lemma_bad_headers(s: Seq<(Seq<char>, Seq<char>)>)
    ensures
        bad_header(s) is None <==> forall|i: int|
            0 <= i < s.len() ==> header_ok((#[trigger] s[i]).0, s[i].1),
        bad_header(s) is Some ==> exists|i: int|
            0 <= i < s.len() && (#[trigger] s[i]).0 == bad_header(s)->0 && !header_ok(
                s[i].0,
                s[i].1,
            ),
    decreases s.len(),
{
    if s.len() > 0 {
        let rest = s.skip(1);
        if header_ok(s[0].0, s[0].1) {
            lemma_bad_headers(rest);
            if bad_header(rest) is None {
                assert forall|i: int| 0 <= i < s.len() implies header_ok(
                    (#[trigger] s[i]).0,
                    s[i].1,
                ) by {
                    if i > 0 {
                        assert(rest[i - 1] == s[i]);
                    }
                }
            } else {
                let i = choose|i: int|
                    0 <= i < rest.len() && (#[trigger] rest[i]).0 == bad_header(rest)->0
                        && !header_ok(rest[i].0, rest[i].1);
                assert(s[i + 1] == rest[i]);
            }
        } else {
            assert(s[0].0 == bad_header(s)->0);
        }
    }
}

proof fn lemma_bad_hooks(s: Seq<Seq<char>>)
    ensures
        bad_webhook(s) is None <==> forall|i: int|
            0 <= i < s.len() ==> app_hook(#[trigger] s[i]) is Some,
        bad_webhook(s) is Some ==> s.contains(bad_webhook(s)->0) && app_hook(
            bad_webhook(s)->0,
        ) is None,
    decreases s.len(),
{
    if s.len() > 0 {
        let rest = s.skip(1);
        if app_hook(s[0]) is Some {
            lemma_bad_hooks(rest);
            if bad_webhook(rest) is None {
                assert forall|i: int| 0 <= i < s.len() implies app_hook(#[trigger] s[i]) is Some by {
                    if i > 0 {
                        assert(rest[i - 1] == s[i]);
                    }
                }
            } else {
                let i = choose|i: int| 0 <= i < rest.len() && rest[i] == bad_webhook(rest)->0;
                assert(s[i + 1] == rest[i]);
                assert(app_hook(s[i + 1]) is None);
            }
        } else {
            assert(s[0] == bad_webhook(s)->0);
        }
    }
}

proof fn lemma_bad_mentions(s: Seq<Seq<char>>)
    ensures
        bad_mention(s) is None <==> forall|i: int|
            0 <= i < s.len() ==> mention_of(#[trigger] s[i]) is Some,
        bad_mention(s) is Some ==> s.contains(bad_mention(s)->0) && mention_of(
            bad_mention(s)->0,
        ) is None,
    decreases s.len(),
{
    if s.len() > 0 {
        let rest = s.skip(1);
        if mention_of(s[0]) is Some {
            lemma_bad_mentions(rest);
            if bad_mention(rest) is None {
                assert forall|i: int| 0 <= i < s.len() implies mention_of(
                    #[trigger] s[i],
                ) is Some by {
                    if i > 0 {
                        assert(rest[i - 1] == s[i]);
                    }
                }
            } else {
                let i = choose|i: int| 0 <= i < rest.len() && rest[i] == bad_mention(rest)->0;
                assert(s[i + 1] == rest[i]);
                assert(mention_of(s[i + 1]) is None);
            }
        } else {
            assert(s[0] == bad_mention(s)->0);
        }
    }
}

/// What settings have to be: a name; a web URL for logs, where there is one, and a web or tcp URL
/// to check; an interval from ten seconds to a day and a timeout up to a minute, where they are
/// set; HTTP status codes; at most ten headers, all of which may be sent; at most five webhooks
/// and any mentions, each of which names something. Settings like that are accepted, and no
/// others.
pub proof fn lemma_what_settings_have_to_be(s: AppSettings)
    ensures
        settings_problem(s) is None <==> {
            let logs = trim(s.logs_url@);
            let health = trim(s.health_url@);
            let headers = s.headers@;
            let hooks = unique_entries(views(s.alert_webhooks@));
            let mentions = unique_entries(views(s.alert_mentions@));
            &&& trim(s.name@).len() > 0
            &&& logs.len() == 0 || starts_with(logs, "http://"@) || starts_with(logs, "https://"@)
            &&& starts_with(health, "http://"@) || starts_with(health, "https://"@) || starts_with(
                health,
                "tcp://"@,
            )
            &&& s.interval_secs is Some && s.interval_secs->0 > 0 ==> 10 <= s.interval_secs->0
                <= 86_400
            &&& s.timeout_secs is Some ==> s.timeout_secs->0 <= 60
            &&& forall|i: int|
                0 <= i < s.expect_status@.len() ==> 100 <= #[trigger] s.expect_status@[i] <= 599
            &&& headers.len() <= 10
            &&& forall|i: int|
                0 <= i < headers.len() ==> header_ok(
                    trim((#[trigger] headers[i]).name@),
                    trim(headers[i].value@),
                )
            &&& hooks.len() <= 5
            &&& forall|i: int| 0 <= i < hooks.len() ==> app_hook(#[trigger] hooks[i]) is Some
            &&& forall|i: int| 0 <= i < mentions.len() ==> mention_of(#[trigger] mentions[i]) is Some
        },
        settings_problem(s) == Some(Problem::EmptyName) <==> trim(s.name@).len() == 0,
{
    let headers = trimmed_pairs(header_views(s.headers@));
    let hooks = unique_entries(views(s.alert_webhooks@));
    let mentions = unique_entries(views(s.alert_mentions@));
    lemma_bad_codes_are_found(s.expect_status@);
    lemma_bad_headers(headers);
    lemma_bad_hooks(hooks);
    lemma_bad_mentions(mentions);
    assert(headers.len() == s.headers@.len());
    assert((forall|i: int|
        0 <= i < headers.len() ==> header_ok((#[trigger] headers[i]).0, headers[i].1)) <==> (
    forall|i: int|
        0 <= i < s.headers@.len() ==> header_ok(
            trim((#[trigger] s.headers@[i]).name@),
            trim(s.headers@[i].value@),
        ))) by {
        if forall|i: int|
            0 <= i < headers.len() ==> header_ok((#[trigger] headers[i]).0, headers[i].1) {
            assert forall|i: int| 0 <= i < s.headers@.len() implies header_ok(
                trim((#[trigger] s.headers@[i]).name@),
                trim(s.headers@[i].value@),
            ) by {
                assert(header_ok(headers[i].0, headers[i].1));
            }
        }
    }
}

/// What is kept of settings: every field as it was entered, texts trimmed, blanks and zeros as
/// none, codes in order and entries each once.
pub proof fn lemma_what_is_kept_of_settings(s: AppSettings)
    ensures
        ({
            let (health, kept) = tidied(s);
            &&& health == trim(s.health_url@)
            &&& kept.name == trim(s.name@)
            &&& kept.logs_url is Some <==> trim(s.logs_url@).len() > 0
            &&& kept.logs_url is Some ==> kept.logs_url->0 == trim(s.logs_url@)
            &&& kept.expect_body is Some <==> s.expect_body is Some && trim(
                s.expect_body->0@,
            ).len() > 0
            &&& kept.expect_body is Some ==> kept.expect_body->0 == trim(s.expect_body->0@)
            &&& kept.check_assets == s.check_assets
            &&& kept.interval_secs is Some ==> kept.interval_secs == s.interval_secs
            &&& kept.interval_secs is None <==> s.interval_secs is None || s.interval_secs->0 == 0
            &&& kept.timeout_secs is Some ==> kept.timeout_secs == s.timeout_secs
            &&& kept.timeout_secs is None <==> s.timeout_secs is None || s.timeout_secs->0 == 0
            &&& kept.degraded_after_ms is Some ==> kept.degraded_after_ms == s.degraded_after_ms
            &&& kept.degraded_after_ms is None <==> s.degraded_after_ms is None
                || s.degraded_after_ms->0 == 0
            &&& forall|x: u16| #[trigger]
                kept.expect_status.contains(x) <==> s.expect_status@.contains(x)
            &&& forall|i: int, j: int|
                0 <= i < j < kept.expect_status.len() ==> (#[trigger] kept.expect_status[i]) < (
                #[trigger] kept.expect_status[j])
            &&& kept.headers.len() == s.headers@.len()
            &&& forall|i: int|
                0 <= i < kept.headers.len() ==> (#[trigger] kept.headers[i]).0 == trim(
                    s.headers@[i].name@,
                ) && kept.headers[i].1 == trim(s.headers@[i].value@)
            &&& kept.alert_webhooks == unique_entries(views(s.alert_webhooks@))
            &&& kept.alert_mentions == unique_entries(views(s.alert_mentions@))
        }),
{
    lemma_ascending_set(s.expect_status@);
}

/// A new app has the settings it was registered with, runs, and isn't public; an edited one has
/// the new settings.
pub proof fn lemma_apps_have_their_settings(
    app: AppView,
    slug: Seq<char>,
    token: Seq<char>,
    valid: (Seq<char>, OptionsView),
)
    ensures
        new_app(slug, token, valid).slug == slug,
        new_app(slug, token, valid).embed_token == token,
        !new_app(slug, token, valid).paused,
        !new_app(slug, token, valid).public,
        new_app(slug, token, valid).paused_at is None,
        new_app(slug, token, valid).paused_until is None,
        new_app(slug, token, valid).health_url == Some(valid.0),
        new_app(slug, token, valid).settings == valid.1,
        applied(app, valid).health_url == Some(valid.0),
        applied(app, valid).settings == valid.1,
{
}

/// Pausing an app stops its checks until the given time, and remembers when the pause began, the
/// first time; resuming undoes it. Nothing else of the app changes.
pub proof fn lemma_pauses_can_be_undone(app: AppView, until: Option<u64>, now: u64)
    ensures
        ({
            let paused = paused_app(app, until, now);
            &&& paused.paused && !monitored(paused)
            &&& paused.paused_until == until
            &&& !app.paused ==> paused.paused_at == Some(now)
            &&& app.paused && app.paused_at is Some ==> paused.paused_at == app.paused_at
            &&& app.paused && app.paused_at is None ==> paused.paused_at == Some(now)
            &&& paused.slug == app.slug && paused.embed_token == app.embed_token && paused.public
                == app.public && paused.health_url == app.health_url && paused.settings
                == app.settings
            &&& !app.paused && app.paused_at is None && app.paused_until is None ==> resumed_app(
                paused,
            ) == app
            &&& !resumed_app(app).paused && resumed_app(app).paused_at is None && resumed_app(
                app,
            ).paused_until is None
            &&& resumed_app(app).slug == app.slug && resumed_app(app).embed_token
                == app.embed_token && resumed_app(app).public == app.public && resumed_app(
                app,
            ).health_url == app.health_url && resumed_app(app).settings == app.settings
        }),
{
}

/// Exactly the apps whose scheduled pause has come to its end are resumed, and they are named.
pub proof fn lemma_due_apps_are_resumed(apps: Seq<AppView>, now: u64)
    ensures
        all_resumed(apps, now).len() == apps.len(),
        forall|i: int|
            0 <= i < apps.len() ==> {
                let over = apps[i].paused && apps[i].paused_until is Some && apps[i].paused_until->0
                    <= now;
                &&& over ==> #[trigger] all_resumed(apps, now)[i] == (AppView {
                    paused: false,
                    paused_at: None,
                    paused_until: None,
                    ..apps[i]
                })
                &&& !over ==> all_resumed(apps, now)[i] == apps[i]
            },
        over_slugs(apps, now) == apps.filter(
            |a: AppView| a.paused && a.paused_until is Some && a.paused_until->0 <= now,
        ).map_values(|a: AppView| a.slug),
    decreases apps.len(),
{
    reveal(Seq::filter);
    if apps.len() > 0 {
        lemma_due_apps_are_resumed(apps.drop_last(), now);
    }
    assert(over_slugs(apps, now) =~= apps.filter(
        |a: AppView| a.paused && a.paused_until is Some && a.paused_until->0 <= now,
    ).map_values(|a: AppView| a.slug));
}

/// Removing a slug leaves the other apps, in their order.
pub proof fn lemma_the_others_stay(apps: Seq<AppView>, slug: Seq<char>)
    ensures
        without_slug(apps, slug) == apps.filter(|a: AppView| a.slug != slug),
    decreases apps.len(),
{
    reveal(Seq::filter);
    if apps.len() > 0 {
        lemma_the_others_stay(apps.drop_last(), slug);
    }
}

/// A slug stands for the first app that has it.
pub proof fn lemma_slugs_name_the_first(apps: Seq<AppView>, slug: Seq<char>)
    ensures
        match slug_index(apps, slug) {
            Some(i) => 0 <= i < apps.len() && apps[i].slug == slug && forall|j: int|
                0 <= j < i ==> (#[trigger] apps[j]).slug != slug,
            None => forall|j: int| 0 <= j < apps.len() ==> (#[trigger] apps[j]).slug != slug,
        },
    decreases apps.len(),
{
    if apps.len() > 0 && apps[0].slug != slug {
        let rest = apps.skip(1);
        lemma_slugs_name_the_first(rest, slug);
        let n: int = match slug_index(apps, slug) {
            Some(i) => i,
            None => apps.len() as int,
        };
        assert forall|j: int| 0 <= j < n implies (#[trigger] apps[j]).slug != slug by {
            if j > 0 {
                assert(rest[j - 1] == apps[j]);
            }
        }
        if slug_index(apps, slug) is Some {
            assert(rest[n - 1] == apps[n]);
        }
    }
}

/// A change of one app is a change of that app alone; a slug that names none changes nothing and
/// is complained about.
pub proof fn lemma_changes_are_of_one_app(
    before: Seq<AppView>,
    after: Seq<AppView>,
    slug: Seq<char>,
    app: AppView,
    r: Result<(), RegistryError>,
)
    requires
        modified(before, after, slug, app, r),
    ensures
        r is Ok <==> exists|i: int| 0 <= i < before.len() && (#[trigger] before[i]).slug == slug,
        r is Err ==> after == before && r->Err_0@ == Problem::NotFound(slug),
        after.len() == before.len(),
        forall|i: int|
            0 <= i < before.len() && (#[trigger] before[i]).slug != slug ==> after[i] == before[i],
        r is Ok ==> exists|i: int|
            0 <= i < before.len() && (#[trigger] before[i]).slug == slug && after[i] == app,
{
    lemma_slugs_name_the_first(before, slug);
    if let Some(i) = slug_index(before, slug) {
        assert(before[i].slug == slug);
    }
}

/// An app can be registered exactly where its settings hold and its name makes a slug that no
/// other app has.
pub proof fn lemma_who_can_be_registered(apps: Seq<AppView>, settings: AppSettings)
    ensures
        ({
            let slug = slug_of(trim(settings.name@));
            let taken = exists|i: int| 0 <= i < apps.len() && (#[trigger] apps[i]).slug == slug;
            &&& addable(apps, settings) is None <==> settings_problem(settings) is None
                && slug.len() > 0 && !taken
            &&& settings_problem(settings) is None && slug.len() > 0 && taken ==> addable(
                apps,
                settings,
            ) == Some(Problem::SlugTaken)
            &&& settings_problem(settings) is None && slug.len() == 0 ==> addable(apps, settings)
                == Some(Problem::NameWithoutAlphanumerics)
            &&& settings_problem(settings) is Some ==> addable(apps, settings) == settings_problem(
                settings,
            )
        }),
{
    let slug = slug_of(trim(settings.name@));
    lemma_slugs_name_the_first(apps, slug);
    if let Some(i) = slug_index(apps, slug) {
        assert(apps[i].slug == slug);
    }
}

/// A slug keeps the letters and digits of the name, all of them and in their order.
pub proof fn lemma_slugs_keep_letters_and_digits(lower: Seq<char>)
    ensures
        trim_end_char(hyphenated(lower), '-').filter(|c: char| c != '-') == lower.filter(
            |c: char| is_alnum(c),
        ),
{
    lemma_hyphenated_keeps(lower);
    let h = hyphenated(lower);
    lemma_trimming_hyphens(h);
}

proof fn lemma_hyphenated_keeps(lower: Seq<char>)
    ensures
        hyphenated(lower).filter(|c: char| c != '-') == lower.filter(|c: char| is_alnum(c)),
    decreases lower.len(),
{
    reveal(Seq::filter);
    if lower.len() > 0 {
        let front = lower.drop_last();
        lemma_hyphenated_keeps(front);
        let h = hyphenated(front);
        assert(h.push(lower.last()).drop_last() =~= h);
        assert(h.push('-').drop_last() =~= h);
    }
}

proof fn lemma_trimming_hyphens(s: Seq<char>)
    ensures
        trim_end_char(s, '-').filter(|c: char| c != '-') == s.filter(|c: char| c != '-'),
    decreases s.len(),
{
    reveal(Seq::filter);
    if s.len() > 0 && s.last() == '-' {
        lemma_trimming_hyphens(s.drop_last());
    }
}

/// A hyphen stands between two characters of a slug exactly where something else stood between
/// them in the name.
pub proof fn lemma_hyphens_stand_for_gaps(a: Seq<char>, gap: Seq<char>, c: char)
    requires
        is_alnum(c),
        forall|i: int| 0 <= i < gap.len() ==> !is_alnum(#[trigger] gap[i]),
        a.len() > 0,
        is_alnum(a.last()),
    ensures
        hyphenated((a + gap).push(c)) == if gap.len() == 0 {
            hyphenated(a).push(c)
        } else {
            hyphenated(a).push('-').push(c)
        },
{
    lemma_gap(a, gap);
    assert((a + gap).push(c).drop_last() =~= a + gap);
}

proof fn lemma_gap(a: Seq<char>, gap: Seq<char>)
    requires
        forall|i: int| 0 <= i < gap.len() ==> !is_alnum(#[trigger] gap[i]),
        a.len() > 0,
        is_alnum(a.last()),
    ensures
        hyphenated(a + gap) == if gap.len() == 0 {
            hyphenated(a)
        } else {
            hyphenated(a).push('-')
        },
        hyphenated(a).len() > 0,
        hyphenated(a).last() == a.last(),
    decreases gap.len(),
{
    if gap.len() == 0 {
        assert(a + gap =~= a);
    } else {
        let front = gap.drop_last();
        assert forall|i: int| 0 <= i < front.len() implies !is_alnum(#[trigger] front[i]) by {
            assert(front[i] == gap[i]);
        }
        lemma_gap(a, front);
        assert((a + gap).drop_last() =~= a + front);
        assert((a + gap).last() == gap.last());
        assert(!is_alnum(gap[gap.len() - 1]));
    }
}

/// The limits of what an admin can set, and the length of an embed token.
pub proof fn lemma_registry_limits(token: Seq<char>)
    ensures
        MIN_INTERVAL_SECS == 10,
        MAX_INTERVAL_SECS == 24 * 3600,
        MAX_TIMEOUT_SECS == 60,
        MAX_HEADERS == 10,
        MAX_WEBHOOKS == 5,
        fresh_token(token) ==> token.len() == 48 && forall|i: int|
            0 <= i < token.len() ==> '0' <= #[trigger] token[i] <= '9' || 'a' <= token[i] <= 'f',
{
}

/// What a registered app is, is what its fields say.
pub proof fn lemma_apps_are_what_their_fields_say(app: RegisteredApp)
    ensures
        app@.slug == app.slug@,
        app@.embed_token == app.embed_token@,
        app@.paused == app.paused,
        app@.public == app.public,
        app@.paused_at == app.paused_at,
        app@.paused_until == app.paused_until,
        app@.health_url is Some <==> app.health_url is Some,
        app.health_url is Some ==> app@.health_url->0 == app.health_url->0@,
        app@.settings.name == app.name@,
        app@.settings.logs_url is Some <==> app.logs_url is Some,
        app.logs_url is Some ==> app@.settings.logs_url->0 == app.logs_url->0@,
        app@.settings.degraded_after_ms == app.degraded_after_ms,
        app@.settings.expect_body is Some <==> app.expect_body is Some,
        app.expect_body is Some ==> app@.settings.expect_body->0 == app.expect_body->0@,
        app@.settings.check_assets == app.check_assets,
        app@.settings.interval_secs == app.interval_secs,
        app@.settings.timeout_secs == app.timeout_secs,
        app@.settings.expect_status == app.expect_status@,
        app@.settings.headers.len() == app.headers@.len(),
        forall|i: int|
            0 <= i < app.headers@.len() ==> (#[trigger] app@.settings.headers[i])
                == (app.headers@[i].name@, app.headers@[i].value@),
        app@.settings.alert_webhooks == views(app.alert_webhooks@),
        app@.settings.alert_mentions == views(app.alert_mentions@),
{
}

/// An app is watched exactly where it has a health URL and isn't paused.
pub proof fn lemma_which_apps_are_watched(app: AppView)
    ensures
        monitored(app) <==> app.health_url is Some && !app.paused,
{
}

/// What an admin reads of an error: what it is about, and the limit that was passed.
pub proof fn lemma_errors_say_what_is_wrong(i18n: I18n, e: RegistryError)
    ensures
        e is EmptyName ==> e.localized(&i18n) == i18n.template("err.empty_name"@),
        e is NameWithoutAlphanumerics ==> e.localized(&i18n) == i18n.template(
            "err.name_no_alnum"@,
        ),
        e is SlugTaken ==> e.localized(&i18n) == i18n.template("err.slug_taken"@),
        e is IntervalOutOfRange ==> e.localized(&i18n) == i18n.message(
            "err.interval"@,
            seq![("min"@, decimal(10)), ("max"@, decimal(86_400))],
        ),
        e is TimeoutOutOfRange ==> e.localized(&i18n) == i18n.message(
            "err.timeout"@,
            seq![("max"@, decimal(60))],
        ),
        e matches RegistryError::InvalidUrl(label) ==> e.localized(&i18n) == i18n.message(
            "err.invalid_url"@,
            seq![("label"@, label@)],
        ),
        e matches RegistryError::InvalidStatus(code) ==> e.localized(&i18n) == i18n.message(
            "err.status"@,
            seq![("code"@, decimal(code as nat))],
        ),
        e matches RegistryError::InvalidHeader(line) ==> e.localized(&i18n) == i18n.message(
            "err.header"@,
            seq![("header"@, line@)],
        ),
        e matches RegistryError::InvalidWebhook(url) ==> e.localized(&i18n) == i18n.message(
            "err.webhook"@,
            seq![("url"@, url@)],
        ),
        e matches RegistryError::InvalidMention(entry) ==> e.localized(&i18n) == i18n.message(
            "err.mention"@,
            seq![("entry"@, entry@)],
        ),
        e matches RegistryError::TooMany(field) ==> e.localized(&i18n) == i18n.message(
            "err.too_many"@,
            seq![("field"@, field@)],
        ),
        e matches RegistryError::NotFound(slug) ==> e.localized(&i18n) == i18n.message(
            "err.not_found"@,
            seq![("slug"@, slug@)],
        ),
        e matches RegistryError::Token(error) ==> e.localized(&i18n) == i18n.message(
            "err.internal"@,
            seq![("error"@, "could not generate a token: "@ + error@)],
        ),
{
}

/// Whether a URL is one of the web.
pub open spec fn of_the_web(url: Seq<char>) -> bool {
    starts_with(url, "http://"@) || starts_with(url, "https://"@)
}

/// The first thing that is wrong with settings is told, in the order of the form: the name, the
/// URL of the logs, that of the check, the interval, the timeout, a code, the headers, the
/// webhooks and the mentions.
pub proof fn lemma_the_first_problem_is_told(s: AppSettings)
    requires
        trim(s.name@).len() > 0,
    ensures
        ({
            let logs = trim(s.logs_url@);
            let health = trim(s.health_url@);
            let hooks = unique_entries(views(s.alert_webhooks@));
            let mentions = unique_entries(views(s.alert_mentions@));
            let bad_logs = logs.len() > 0 && !of_the_web(logs);
            let bad_health = !of_the_web(health) && !starts_with(health, "tcp://"@);
            let bad_interval = s.interval_secs is Some && s.interval_secs->0 > 0 && (
            s.interval_secs->0 < 10 || s.interval_secs->0 > 86_400);
            let bad_timeout = s.timeout_secs is Some && s.timeout_secs->0 > 60;
            let early = bad_logs || bad_health || bad_interval || bad_timeout;
            let code = bad_status(s.expect_status@);
            let r = settings_problem(s);
            &&& bad_logs ==> r == Some(Problem::InvalidUrl("logs"@))
            &&& !bad_logs && bad_health ==> r == Some(Problem::InvalidUrl("health"@))
            &&& !bad_logs && !bad_health && bad_interval ==> r == Some(Problem::IntervalOutOfRange)
            &&& !bad_logs && !bad_health && !bad_interval && bad_timeout ==> r == Some(
                Problem::TimeoutOutOfRange,
            )
            &&& !early && code is Some ==> r == Some(Problem::InvalidStatus(code->0))
            &&& !early && code is None && s.headers@.len() > 10 ==> r == Some(
                Problem::TooMany("headers"@),
            )
            &&& r is Some && r->0 is InvalidHeader ==> exists|i: int|
                0 <= i < s.headers@.len() && trim((#[trigger] s.headers@[i]).name@)
                    == r->0->InvalidHeader_0 && !header_ok(
                    trim(s.headers@[i].name@),
                    trim(s.headers@[i].value@),
                )
            &&& r == Some(Problem::TooMany("webhooks"@)) ==> hooks.len() > 5
            &&& r is Some && r->0 is TooMany ==> s.headers@.len() > 10 || hooks.len() > 5
            &&& r is Some && r->0 is InvalidWebhook ==> hooks.contains(r->0->InvalidWebhook_0)
                && app_hook(r->0->InvalidWebhook_0) is None
            &&& r is Some && r->0 is InvalidMention ==> mentions.contains(r->0->InvalidMention_0)
                && mention_of(r->0->InvalidMention_0) is None
            &&& !early && code is None && s.headers@.len() <= 10 && (forall|i: int|
                0 <= i < s.headers@.len() ==> header_ok(
                    trim((#[trigger] s.headers@[i]).name@),
                    trim(s.headers@[i].value@),
                )) && hooks.len() > 5 ==> r == Some(Problem::TooMany("webhooks"@))
        }),
{
    let headers = trimmed_pairs(header_views(s.headers@));
    let hooks = unique_entries(views(s.alert_webhooks@));
    let mentions = unique_entries(views(s.alert_mentions@));
    lemma_bad_headers(headers);
    lemma_bad_hooks(hooks);
    lemma_bad_mentions(mentions);
    assert(headers.len() == s.headers@.len());
    reveal_strlit("headers");
    reveal_strlit("webhooks");
    assert("headers"@.len() != "webhooks"@.len());
    if bad_header(headers) is Some {
        let i = choose|i: int|
            0 <= i < headers.len() && (#[trigger] headers[i]).0 == bad_header(headers)->0
                && !header_ok(headers[i].0, headers[i].1);
        assert(trim(s.headers@[i].name@) == headers[i].0);
    }
}

} // verus!
