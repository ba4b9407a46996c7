//! What holds of every alert: where it goes, whom it pages and what it says.

use vstd::prelude::*;

use crate::alert_templates::rendered;
use crate::alert_templates::TemplateKind;
use crate::alert_templates::VarsView;
use crate::alerts::all_written;
use crate::alerts::app_hook;
use crate::alerts::app_hooks;
use crate::alerts::duration_text;
use crate::alerts::entry_of;
use crate::alerts::env_hook;
use crate::alerts::env_hooks;
use crate::alerts::flavor_of;
use crate::alerts::lemma_plain_entry;
use crate::alerts::masked_segment;
use crate::alerts::masked_segments;
use crate::alerts::masked_url;
use crate::alerts::mention_of;
use crate::alerts::nonempty;
use crate::alerts::reminder;
use crate::alerts::told;
use crate::alerts::transient;
use crate::alerts::unrepeated;
use crate::alerts::untold;
use crate::alerts::written;
use crate::alerts::AppRoute;
use crate::alerts::Flavor;
use crate::alerts::MassOutage;
use crate::alerts::MentionView;
use crate::alerts::Origin;
use crate::alerts::StatusChange;
use crate::alerts::WebhookView;
use crate::alerts::alerter::change_payload;
use crate::alerts::alerter::change_text;
use crate::alerts::alerter::change_vars;
use crate::alerts::alerter::delivery_in;
use crate::alerts::alerter::has_url;
use crate::alerts::alerter::hook_info;
use crate::alerts::alerter::is_sample;
use crate::alerts::alerter::kind_of;
use crate::alerts::alerter::kinds;
use crate::alerts::alerter::link;
use crate::alerts::alerter::mention_info;
use crate::alerts::alerter::outage_payload;
use crate::alerts::alerter::outage_text;
use crate::alerts::alerter::paged;
use crate::alerts::alerter::ping_payload;
use crate::alerts::alerter::ping_text;
use crate::alerts::alerter::reached;
use crate::alerts::alerter::retry_delays;
use crate::alerts::alerter::sample_text;
use crate::alerts::alerter::sample_vars;
use crate::alerts::alerter::template_info;
use crate::alerts::alerter::test_of;
use crate::alerts::alerter::with_hooks;
use crate::alerts::alerter::worth;
use crate::alerts::alerter::AlerterView;
use crate::alerts::alerter::Delivery;
use crate::alerts::alerter::MentionInfo;
use crate::alerts::alerter::Payload;
use crate::alerts::alerter::TemplateInfo;
use crate::alerts::alerter::TestKind;
use crate::alerts::alerter::WebhookInfo;
use crate::i18n::I18n;
use crate::text::decimal;
use crate::text::is_digit;
use crate::text::is_upper;
use crate::text::join;
use crate::text::split;
use crate::text::starts_with;
use crate::text::trim;
use crate::text::views;
use crate::uptime::Status;
use crate::weburl::opt_view;
use crate::weburl::parsed_url;
use crate::weburl::UrlView;

verus! {

/// A webhook is Slack's or Discord's exactly where its URL is at that service, and gets plain
/// JSON anywhere else.
pub proof fn lemma_services_are_told_by_their_hosts(url: UrlView)
    ensures
        flavor_of(url) == Flavor::Slack <==> url.host == Some("hooks.slack.com"@),
        flavor_of(url) == Flavor::Discord <==> (url.host == Some("discord.com"@) || url.host == Some(
            "discordapp.com"@,
        )) && starts_with(url.path, "/api/webhooks/"@),
{
    reveal_strlit("hooks.slack.com");
    reveal_strlit("discord.com");
    reveal_strlit("discordapp.com");
    assert("hooks.slack.com"@[0] != "discord.com"@[0]);
    assert("hooks.slack.com"@[0] != "discordapp.com"@[0]);
}

/// An app's webhook has to be a well-formed https URL; a global one just well-formed. Both are
/// at the URL that was entered, and keep where they come from.
pub proof fn lemma_webhooks_are_at_their_urls(raw: Seq<char>)
    ensures
        app_hook(raw) is Some <==> parsed_url(trim(raw)) is Ok && parsed_url(trim(raw))->Ok_0.scheme
            == "https"@,
        env_hook(raw) is Some <==> parsed_url(trim(raw)) is Ok,
        app_hook(raw) is Some ==> app_hook(raw)->0.url == parsed_url(trim(raw))->Ok_0
            && app_hook(raw)->0.origin == Origin::App,
        env_hook(raw) is Some ==> env_hook(raw)->0.url == parsed_url(trim(raw))->Ok_0
            && env_hook(raw)->0.origin == Origin::Env,
        app_hook(raw) is Some ==> app_hook(raw)->0.flavor == flavor_of(app_hook(raw)->0.url),
        env_hook(raw) is Some ==> env_hook(raw)->0.flavor == flavor_of(env_hook(raw)->0.url),
{
}

/// Every entry that names a webhook is one, in the order of the entries; the others are left
/// out.
pub proof fn lemma_every_valid_webhook_counts(entries: Seq<Seq<char>>)
    ensures
        app_hooks(entries) == entries.filter(|e: Seq<char>| app_hook(e) is Some).map_values(
            |e: Seq<char>| app_hook(e)->0,
        ),
        env_hooks(entries) == entries.filter(|e: Seq<char>| env_hook(e) is Some).map_values(
            |e: Seq<char>| env_hook(e)->0,
        ),
    decreases entries.len(),
{
    reveal(Seq::filter);
    if entries.len() > 0 {
        lemma_every_valid_webhook_counts(entries.drop_last());
    }
    assert(app_hooks(entries) =~= entries.filter(
        |e: Seq<char>| app_hook(e) is Some,
    ).map_values(|e: Seq<char>| app_hook(e)->0));
    assert(env_hooks(entries) =~= entries.filter(
        |e: Seq<char>| env_hook(e) is Some,
    ).map_values(|e: Seq<char>| env_hook(e)->0));
}

/// Every entry either mentions somebody or is reported as unknown, in the order of the entries.
pub proof fn lemma_every_entry_is_told_or_reported(entries: Seq<Seq<char>>)
    ensures
        told(entries) == entries.filter(|e: Seq<char>| mention_of(e) is Some).map_values(
            |e: Seq<char>| mention_of(e)->0,
        ),
        untold(entries) == entries.filter(|e: Seq<char>| mention_of(e) is None).map_values(
            |e: Seq<char>| trim(e),
        ),
        told(entries).len() + untold(entries).len() == entries.len(),
    decreases entries.len(),
{
    reveal(Seq::filter);
    if entries.len() > 0 {
        lemma_every_entry_is_told_or_reported(entries.drop_last());
    }
    assert(told(entries) =~= entries.filter(|e: Seq<char>| mention_of(e) is Some).map_values(
        |e: Seq<char>| mention_of(e)->0,
    ));
    assert(untold(entries) =~= entries.filter(|e: Seq<char>| mention_of(e) is None).map_values(
        |e: Seq<char>| trim(e),
    ));
}

/// A service writes the mentions that it knows, in their order.
pub proof fn lemma_known_mentions_are_written(ms: Seq<MentionView>, flavor: Flavor)
    ensures
        all_written(ms, flavor) == ms.filter(
            |m: MentionView| written(m, flavor) is Some,
        ).map_values(|m: MentionView| written(m, flavor)->0),
    decreases ms.len(),
{
    reveal(Seq::filter);
    if ms.len() > 0 {
        lemma_known_mentions_are_written(ms.drop_last(), flavor);
    }
    assert(all_written(ms, flavor) =~= ms.filter(
        |m: MentionView| written(m, flavor) is Some,
    ).map_values(|m: MentionView| written(m, flavor)->0));
}

/// A path's segments without the empty ones.
pub proof fn lemma_empty_segments_are_dropped(parts: Seq<Seq<char>>)
    ensures
        nonempty(parts) == parts.filter(|p: Seq<char>| p.len() > 0),
    decreases parts.len(),
{
    reveal(Seq::filter);
    if parts.len() > 0 {
        lemma_empty_segments_are_dropped(parts.drop_last());
    }
}

/// A delivery is tried again exactly where trying again may help: there was no answer, the
/// server failed, or it was asked too often. There are three more attempts, over 42 seconds.
pub proof fn lemma_what_is_tried_again(code: u16)
    ensures
        transient(None),
        transient(Some(code)) <==> code == 429 || code / 100 == 5,
        retry_delays().len() == 3,
        retry_delays()[0] + retry_delays()[1] + retry_delays()[2] == 42,
        retry_delays()[0] < retry_delays()[1] < retry_delays()[2],
        retry_delays()[0] == 2 && retry_delays()[1] == 10,
{
}

/// Whom an ID mentions: a Slack user or group by its first letter, a Discord user where it is
/// all digits, and a Discord role with an ampersand before it.
pub proof fn lemma_ids_are_told_by_their_form(id: Seq<char>)
    requires
        id.len() >= 3,
        forall|i: int| 0 <= i < id.len() ==> is_upper(#[trigger] id[i]) || is_digit(id[i]),
    ensures
        id[0] == 'U' || id[0] == 'W' ==> mention_of(id) == Some(MentionView::SlackUser(id)),
        id[0] == 'S' ==> mention_of(id) == Some(MentionView::SlackGroup(id)),
        (forall|i: int| 0 <= i < id.len() ==> is_digit(#[trigger] id[i])) ==> mention_of(id)
            == Some(MentionView::DiscordUser(id)) && mention_of(seq!['&'] + id) == Some(
            MentionView::DiscordRole(id),
        ),
        (exists|i: int| 0 <= i < id.len() && !is_digit(#[trigger] id[i])) && id[0] != 'U' && id[0]
            != 'W' && id[0] != 'S' ==> mention_of(id) is None,
{
    reveal_strlit("here");
    reveal_strlit("channel");
    reveal_strlit("everyone");
    assert(is_upper(id[0]) || is_digit(id[0]));
    assert(is_upper(id[id.len() - 1]) || is_digit(id[id.len() - 1]));
    lemma_plain_entry(id);
    let role = seq!['&'] + id;
    assert(role.last() == id[id.len() - 1]);
    lemma_plain_entry(role);
    assert(role.skip(1) =~= id);
    assert("here"@[0] == 'h' && "channel"@[0] == 'c' && "everyone"@[0] == 'e');
    if exists|i: int| 0 <= i < id.len() && !is_digit(#[trigger] id[i]) {
        let i = choose|i: int| 0 <= i < id.len() && !is_digit(#[trigger] id[i]);
        assert(!is_digit(id[i]));
    }
}

/// Only entries of a known form mention anybody, and the mention keeps the ID as it is entered.
pub proof fn lemma_mentions_have_a_form(raw: Seq<char>)
    requires
        mention_of(raw) is Some,
    ensures
        match mention_of(raw)->0 {
            MentionView::Here | MentionView::Channel => true,
            MentionView::SlackUser(id) => id.len() >= 3 && (id[0] == 'U' || id[0] == 'W')
                && forall|i: int|
                0 <= i < id.len() ==> is_upper(#[trigger] id[i]) || is_digit(id[i]),
            MentionView::SlackGroup(id) => id.len() >= 3 && id[0] == 'S' && forall|i: int|
                0 <= i < id.len() ==> is_upper(#[trigger] id[i]) || is_digit(id[i]),
            MentionView::DiscordUser(id) => id.len() > 0 && forall|i: int|
                0 <= i < id.len() ==> is_digit(#[trigger] id[i]),
            MentionView::DiscordRole(id) => id.len() > 0 && forall|i: int|
                0 <= i < id.len() ==> is_digit(#[trigger] id[i]),
        },
        mention_of("here"@) == Some(MentionView::Here),
        mention_of("channel"@) == Some(MentionView::Channel),
        mention_of("everyone"@) == Some(MentionView::Channel),
{
    reveal_strlit("here");
    reveal_strlit("channel");
    reveal_strlit("everyone");
    lemma_plain_entry("here"@);
    lemma_plain_entry("channel"@);
    lemma_plain_entry("everyone"@);
    assert("here"@.len() != "channel"@.len());
    assert("here"@.len() != "everyone"@.len());
}

/// How each service writes a mention: everybody in the channel in its own words, people and
/// groups by their ID; the other service's IDs, and anybody in plain JSON, not at all.
pub proof fn lemma_mentions_are_written_in_the_services_words(id: Seq<char>)
    ensures
        written(MentionView::Here, Flavor::Slack) == Some("<!here>"@),
        written(MentionView::Here, Flavor::Discord) == Some("@here"@),
        written(MentionView::Channel, Flavor::Slack) == Some("<!channel>"@),
        written(MentionView::Channel, Flavor::Discord) == Some("@everyone"@),
        written(MentionView::SlackUser(id), Flavor::Slack) == Some("<@"@ + id + ">"@),
        written(MentionView::SlackGroup(id), Flavor::Slack) == Some("<!subteam^"@ + id + ">"@),
        written(MentionView::DiscordUser(id), Flavor::Discord) == Some("<@"@ + id + ">"@),
        written(MentionView::DiscordRole(id), Flavor::Discord) == Some("<@&"@ + id + ">"@),
        written(MentionView::SlackUser(id), Flavor::Discord) is None,
        written(MentionView::SlackGroup(id), Flavor::Discord) is None,
        written(MentionView::DiscordUser(id), Flavor::Slack) is None,
        written(MentionView::DiscordRole(id), Flavor::Slack) is None,
        forall|m: MentionView| (#[trigger] written(m, Flavor::Generic)) is None,
{
}

/// A length of time reads as its two largest units, and as seconds below a minute.
pub proof fn lemma_durations_read_as_their_units(days: nat, hours: nat, mins: nat, secs: nat)
    requires
        hours < 24,
        mins < 60,
        secs < 60,
    ensures
        ({
            let text = duration_text(days * 86_400 + hours * 3600 + mins * 60 + secs);
            &&& days > 0 && hours > 0 ==> text == decimal(days) + " d "@ + decimal(hours) + " h"@
            &&& days > 0 && hours == 0 ==> text == decimal(days) + " d"@
            &&& days == 0 && hours > 0 && mins > 0 ==> text == decimal(hours) + " h "@ + decimal(
                mins,
            ) + " min"@
            &&& days == 0 && hours > 0 && mins == 0 ==> text == decimal(hours) + " h"@
            &&& days == 0 && hours == 0 && mins > 0 ==> text == decimal(mins) + " min"@
            &&& days == 0 && hours == 0 && mins == 0 ==> text == decimal(secs) + " s"@
        }),
{
    let all = days * 86_400 + hours * 3600 + mins * 60 + secs;
    assert(all / 86_400 == days && all % 86_400 == hours * 3600 + mins * 60 + secs);
    assert((hours * 3600 + mins * 60 + secs) / 3600 == hours);
    assert(all % 3600 == mins * 60 + secs);
    assert((mins * 60 + secs) / 60 == mins);
}

/// The end of a webhook's path shows its last four characters and hides all before them; of a
/// long segment its first four are shown.
pub proof fn lemma_masks_show_four_characters(segment: Seq<char>)
    ensures
        segment.len() > 4 ==> masked_segment(segment, true).len() == 5 && forall|i: int|
            0 <= i < 4 ==> #[trigger] masked_segment(segment, true)[1 + i] == segment[segment.len()
                - 4 + i],
        segment.len() > 8 ==> masked_segment(segment, false).len() == 5 && forall|i: int|
            0 <= i < 4 ==> #[trigger] masked_segment(segment, false)[i] == segment[i],
        segment.len() <= 8 ==> masked_segment(segment, false) == segment,
        segment.len() <= 4 ==> masked_segment(segment, true) == segment,
{
    reveal_strlit("…");
}

/// Going down and coming back are always worth an alert; any other change only where degraded
/// counts, and no change never is.
pub proof fn lemma_what_is_worth_an_alert(on_degraded: bool, from: Status, to: Status)
    ensures
        worth(on_degraded, from, to) <==> (from == Status::Down) != (to == Status::Down) || (
        on_degraded && from != to),
{
}

/// The kind of a message: down for an app that goes down, a reminder for one that stays down,
/// degraded where that counts, and recovered for anything else.
pub proof fn lemma_kinds_follow_the_change(on_degraded: bool, change: StatusChange)
    ensures
        kind_of(on_degraded, change) == TemplateKind::Down <==> change.to == Status::Down
            && change.from != Status::Down,
        kind_of(on_degraded, change) == TemplateKind::Reminder <==> change.to == Status::Down
            && change.from == Status::Down,
        kind_of(on_degraded, change) == TemplateKind::Degraded <==> change.to == Status::Degraded
            && on_degraded,
        reminder(change) <==> change.from == Status::Down && change.to == Status::Down,
{
}

/// Each kind of message has a sample of its own, which shows a change of that kind and no real
/// app.
pub proof fn lemma_samples_show_their_kind(
    i18n: I18n,
    kind: TemplateKind,
    now: u64,
    c: StatusChange,
)
    requires
        is_sample(i18n, test_of(kind), now, c),
        now >= 1500,
    ensures
        kind_of(true, c) == kind,
        c.slug@.len() == 0,
        c.beat.status == c.to,
        c.beat.at == now,
        c.down_since is Some <==> c.from == Status::Down,
        test_of(kind) != TestKind::Ping,
{
}

/// The last delivery to a URL is the first entry under it.
pub proof fn lemma_deliveries_are_found(log: Seq<(String, Delivery)>, url: Seq<char>)
    ensures
        match delivery_in(log, url) {
            Some(d) => exists|i: int|
                0 <= i < log.len() && (#[trigger] log[i]).0@ == url && log[i].1 == d && forall|j: int|
                    0 <= j < i ==> (#[trigger] log[j]).0@ != url,
            None => forall|j: int| 0 <= j < log.len() ==> (#[trigger] log[j]).0@ != url,
        },
    decreases log.len(),
{
    if log.len() > 0 {
        if log[0].0@ == url {
            assert(log[0].1 == delivery_in(log, url)->0);
        } else {
            let rest = log.skip(1);
            lemma_deliveries_are_found(rest, url);
            if delivery_in(log, url) is Some {
                let i = choose|i: int|
                    0 <= i < rest.len() && (#[trigger] rest[i]).0@ == url && rest[i].1
                        == delivery_in(log, url)->0 && forall|j: int|
                        0 <= j < i ==> (#[trigger] rest[j]).0@ != url;
                assert(log[i + 1] == rest[i]);
                assert forall|j: int| 0 <= j < i + 1 implies (#[trigger] log[j]).0@ != url by {
                    if j > 0 {
                        assert(rest[j - 1] == log[j]);
                    }
                }
            } else {
                assert forall|j: int| 0 <= j < log.len() implies (#[trigger] log[j]).0@ != url by {
                    if j > 0 {
                        assert(rest[j - 1] == log[j]);
                    }
                }
            }
        }
    }
}

/// An alert links to its app's page on the dashboard, and to nothing where no public URL is set.
pub proof fn lemma_alerts_link_to_their_app(base: Seq<char>, slug: Seq<char>)
    ensures
        link(None, slug) is None,
        slug.len() > 0 ==> link(Some(base), slug) == Some(base + "/#"@ + slug),
        link(Some(base), Seq::empty()) == Some(base + "/"@),
{
}

/// What a message is filled with is what the change is about.
pub proof fn lemma_messages_carry_the_change(a: AlerterView, flavor: Flavor, change: StatusChange)
    ensures
        ({
            let vars = change_vars(a, flavor, change);
            &&& vars.app == change.name@
            &&& vars.message == change.beat.message@
            &&& change.beat.latency_ms is None ==> vars.latency == Seq::<char>::empty()
            &&& change.beat.latency_ms is Some ==> vars.latency == decimal(
                change.beat.latency_ms->0 as nat,
            ) + " ms"@
            &&& a.base is None ==> vars.link == Seq::<char>::empty()
            &&& a.base is Some && change.slug@.len() > 0 ==> vars.link == a.base->0 + "/#"@
                + change.slug@
            &&& change.to == Status::Down ==> vars.mentions == join(
                all_written(paged(a.mentions, change), flavor),
                " "@,
            )
            &&& change.to != Status::Down ==> vars.mentions == Seq::<char>::empty()
        }),
{
    if change.to != Status::Down {
        assert(all_written(Seq::<MentionView>::empty(), flavor) =~= Seq::<Seq<char>>::empty());
    }
}

/// A plain-JSON event tells the change field by field; Slack and Discord get its text alone.
pub proof fn lemma_events_tell_the_change(
    a: AlerterView,
    on_degraded: bool,
    flavor: Flavor,
    change: StatusChange,
    p: Payload,
)
    requires
        change_payload(a, on_degraded, flavor, change, p),
    ensures
        ({
            let words = change_text(a, on_degraded, flavor, change);
            match p {
                Payload::Slack { text } => flavor == Flavor::Slack && text@ == words,
                Payload::Discord { content } => flavor == Flavor::Discord && content@ == words,
                Payload::Event {
                    event,
                    slug,
                    name,
                    from,
                    to,
                    at,
                    latency_ms,
                    message,
                    url,
                    down_for_secs,
                    mentions,
                    text,
                } => {
                    &&& flavor == Flavor::Generic
                    &&& event@ == "still_down"@ <==> change.from == Status::Down && change.to
                        == Status::Down
                    &&& event@ == "status_change"@ <==> !(change.from == Status::Down && change.to
                        == Status::Down)
                    &&& slug@ == change.slug@ && name@ == change.name@
                    &&& from == change.from && to == change.to
                    &&& at == change.beat.at && latency_ms == change.beat.latency_ms
                    &&& message@ == change.beat.message@
                    &&& opt_view(url) == link(a.base, change.slug@)
                    &&& down_for_secs is Some <==> change.from == Status::Down && change.down_since
                        is Some
                    &&& down_for_secs is Some && change.beat.at >= change.down_since->0
                        ==> down_for_secs->0 == change.beat.at - change.down_since->0
                    &&& mentions@.len() == paged(a.mentions, change).len()
                    &&& forall|i: int|
                        0 <= i < mentions@.len() ==> (#[trigger] mentions@[i])@ == entry_of(
                            paged(a.mentions, change)[i],
                        )
                    &&& text@ == words
                },
                _ => false,
            }
        }),
{
    reveal_strlit("still_down");
    reveal_strlit("status_change");
    assert("still_down"@.len() != "status_change"@.len());
    if let Payload::Event { mentions, .. } = p {
        let all = paged(a.mentions, change);
        assert(views(mentions@).len() == mentions@.len());
        assert forall|i: int| 0 <= i < mentions@.len() implies (#[trigger] mentions@[i])@
            == entry_of(all[i]) by {
            assert(views(mentions@)[i] == mentions@[i]@);
            assert(all.map_values(|m: MentionView| entry_of(m))[i] == entry_of(all[i]));
        }
    }
}

/// The notice of a mass outage tells the numbers; that it is over pages nobody, whoever is
/// configured.
pub proof fn lemma_mass_notices_tell_the_numbers(
    a: AlerterView,
    b: AlerterView,
    flavor: Flavor,
    outage: MassOutage,
    now: u64,
    p: Payload,
)
    requires
        outage_payload(a, flavor, outage, now, p),
    ensures
        match p {
            Payload::Slack { text } => flavor == Flavor::Slack && text@ == outage_text(
                a,
                flavor,
                outage,
            ),
            Payload::Discord { content } => flavor == Flavor::Discord && content@ == outage_text(
                a,
                flavor,
                outage,
            ),
            Payload::MassOutageStarted { down, total, at, mentions, text } => outage
                == (MassOutage::Started { down, total }) && at == now && mentions@.len()
                == a.mentions.len() && text@ == outage_text(a, flavor, outage),
            Payload::MassOutageEnded { total, at, text } => outage == (MassOutage::Ended { total })
                && at == now && text@ == outage_text(a, flavor, outage),
            _ => false,
        },
        a.i18n == b.i18n && a.base == b.base && outage is Ended ==> outage_text(a, flavor, outage)
            == outage_text(b, flavor, outage),
{
    if let Payload::MassOutageStarted { mentions, .. } = p {
        assert(views(mentions@).len() == mentions@.len());
    }
}

/// The connectivity check links to the dashboard where it has a public URL.
pub proof fn lemma_pings_link_to_the_dashboard(a: AlerterView)
    ensures
        a.base is None ==> ping_text(a) == a.i18n.template("alert.ping"@),
        a.base is Some ==> ping_text(a) == a.i18n.template("alert.ping"@) + "\n"@ + a.base->0
            + "/"@,
{
}

proof fn lemma_with_hooks_members(all: Seq<WebhookView>, more: Seq<WebhookView>, k: int)
    requires
        0 <= k < with_hooks(all, more).len(),
    ensures
        k < all.len() ==> with_hooks(all, more)[k] == all[k],
        k >= all.len() ==> more.contains(with_hooks(all, more)[k]) && !has_url(
            all,
            with_hooks(all, more)[k].url.text,
        ),
        with_hooks(all, more).len() >= all.len(),
    decreases more.len(),
{
    if more.len() > 0 {
        let front = more.drop_last();
        let before = with_hooks(all, front);
        if before.len() > 0 {
            lemma_with_hooks_members(all, front, 0);
        } else {
            lemma_with_hooks_len(all, front);
        }
        if k < before.len() {
            lemma_with_hooks_members(all, front, k);
            if k >= all.len() {
                let i = choose|i: int| 0 <= i < front.len() && front[i] == before[k];
                assert(more[i] == before[k]);
            }
        } else {
            assert(more[more.len() - 1] == more.last());
            let text = more.last().url.text;
            if has_url(all, text) {
                let i = choose|i: int| 0 <= i < all.len() && (#[trigger] all[i]).url.text == text;
                lemma_with_hooks_len(all, front);
                lemma_with_hooks_members(all, front, i);
                assert(before[i].url.text == text);
            }
        }
    }
}

proof fn lemma_with_hooks_len(all: Seq<WebhookView>, more: Seq<WebhookView>)
    ensures
        with_hooks(all, more).len() >= all.len(),
    decreases more.len(),
{
    if more.len() > 0 {
        lemma_with_hooks_len(all, more.drop_last());
    }
}

/// An alert only goes to webhooks that the settings or the app name, as they name them; where
/// both name one, it stays the settings' own.
pub proof fn lemma_alerts_go_nowhere_else(global: Seq<WebhookView>, route: AppRoute, k: int)
    requires
        0 <= k < reached(global, route).len(),
    ensures
        global.contains(reached(global, route)[k]) || (app_hooks(views(route.webhooks@)).contains(
            reached(global, route)[k],
        ) && !has_url(global, reached(global, route)[k].url.text)),
{
    let none = Seq::<WebhookView>::empty();
    let own = app_hooks(views(route.webhooks@));
    let first = with_hooks(none, global);
    let hook = reached(global, route)[k];
    lemma_with_hooks_members(first, own, k);
    if k < first.len() {
        lemma_with_hooks_members(none, global, k);
    } else if has_url(global, hook.url.text) {
        crate::alerts::alerter::lemma_destinations_are_distinct(
            global,
            AppRoute { webhooks: route.webhooks, mentions: route.mentions },
        );
        lemma_global_urls_stay(global, hook.url.text);
    }
}

proof fn lemma_global_urls_stay(global: Seq<WebhookView>, text: Seq<char>)
    requires
        has_url(global, text),
    ensures
        has_url(with_hooks(Seq::empty(), global), text),
    decreases global.len(),
{
    let front = global.drop_last();
    let before = with_hooks(Seq::empty(), front);
    let all = with_hooks(Seq::empty(), global);
    let i = choose|i: int| 0 <= i < global.len() && (#[trigger] global[i]).url.text == text;
    if i < front.len() {
        assert(front[i].url.text == text);
        lemma_global_urls_stay(front, text);
        let j = choose|j: int| 0 <= j < before.len() && (#[trigger] before[j]).url.text == text;
        assert(all[j].url.text == text);
    } else if has_url(before, text) {
        assert(all == before);
    } else {
        assert(all[before.len() as int].url.text == text);
    }
}

/// What the samples of the kinds are about: an outage that begins, one of 25 minutes, a slow
/// answer, and an outage of seven minutes that is over.
pub proof fn lemma_samples_are_of_their_kind(
    a: AlerterView,
    i18n: I18n,
    kind: TestKind,
    now: u64,
    c: StatusChange,
)
    requires
        is_sample(i18n, kind, now, c),
        now >= 1500,
    ensures
        c.name@ == i18n.template("alert.test_app"@),
        kind != TestKind::Ping,
        kind == TestKind::Down ==> c.from == Status::Up && c.to == Status::Down,
        kind == TestKind::Reminder ==> c.from == Status::Down && c.to == Status::Down
            && c.down_since is Some && c.down_since->0 + 25 * 60 == now,
        kind == TestKind::Degraded ==> c.from == Status::Up && c.to == Status::Degraded
            && c.beat.latency_ms == Some(2100u32),
        kind == TestKind::Recovered ==> c.from == Status::Down && c.to == Status::Up
            && c.beat.latency_ms == Some(180u32) && c.down_since is Some && c.down_since->0 + 7 * 60
            == now,
        c.to == Status::Down ==> c.beat.latency_ms is None && c.beat.message@
            == "HTTP 503 Service Unavailable"@,
        c.to != Status::Down ==> c.beat.message@ == "HTTP 200 OK"@,
        a.i18n == i18n && c.route.mentions@.len() == 0 ==> {
            let vars = change_vars(a, Flavor::Slack, c);
            let shown = sample_vars(a, kind);
            &&& shown.app == vars.app
            &&& shown.message == vars.message
            &&& shown.latency == vars.latency
            &&& shown.link == vars.link
            &&& shown.mentions == vars.mentions
            &&& shown.duration == vars.duration
        },
{
    if c.route.mentions@.len() == 0 {
        assert(views(c.route.mentions@).len() == 0);
        assert(told(views(c.route.mentions@)).len() == 0);
        assert(paged(a.mentions, c) == if c.to == Status::Down {
            unrepeated(a.mentions)
        } else {
            Seq::empty()
        });
        assert(all_written(Seq::<MentionView>::empty(), Flavor::Slack) =~= Seq::<Seq<char>>::empty());
        assert(c.slug@ =~= Seq::<char>::empty());
    }
}

/// Every kind of message has the sample of the same name, and the page shows all four kinds.
pub proof fn lemma_every_kind_is_shown(kind: TemplateKind)
    ensures
        test_of(TemplateKind::Down) == TestKind::Down,
        test_of(TemplateKind::Reminder) == TestKind::Reminder,
        test_of(TemplateKind::Degraded) == TestKind::Degraded,
        test_of(TemplateKind::Recovered) == TestKind::Recovered,
        kinds().len() == 4,
        kinds().contains(kind),
        kinds()[0] == TemplateKind::Down,
        kinds()[3] == TemplateKind::Recovered,
{
    assert(kinds()[0] == TemplateKind::Down);
    assert(kinds()[1] == TemplateKind::Reminder);
    assert(kinds()[2] == TemplateKind::Degraded);
    assert(kinds()[3] == TemplateKind::Recovered);
}

/// What the settings page says of a webhook, a mention and a template is about that one.
pub proof fn lemma_settings_show_what_is_set(
    a: AlerterView,
    i: int,
    hook: WebhookInfo,
    m: MentionView,
    mention: MentionInfo,
    kind: TemplateKind,
    template: TemplateInfo,
)
    requires
        hook_info(a, i, hook),
        mention_info(m, mention),
        template_info(a, kind, template),
    ensures
        hook.index == i,
        hook.service == a.hooks[i].flavor,
        hook.masked@ == masked_url(a.hooks[i].url),
        hook.last == delivery_in(a.deliveries, a.hooks[i].url.text),
        mention.raw@ == entry_of(m),
        mention.slack is Some <==> written(m, Flavor::Slack) is Some,
        mention.slack is Some ==> mention.slack->0@ == written(m, Flavor::Slack)->0,
        mention.discord is Some <==> written(m, Flavor::Discord) is Some,
        mention.discord is Some ==> mention.discord->0@ == written(m, Flavor::Discord)->0,
        template.kind == kind,
        a.templates.customized(kind) is Some ==> template.custom && Some(template.template@)
            == a.templates.customized(kind),
        a.templates.customized(kind) is None ==> !template.custom && template.template@
            == a.templates.fallback(kind),
        template.default@ == a.templates.fallback(kind),
        template.sample@ == sample_vars(a, test_of(kind)),
        sample_text(a, kind) == rendered(template.template@, template.sample@),
{
}

/// A webhook's URL shows its scheme, host and port, and the masked segments of its path between
/// slashes; what is hidden is shown as an ellipsis.
pub proof fn lemma_masked_urls_show_where_they_go(url: UrlView, segment: Seq<char>)
    ensures
        ({
            let parts = split(url.path, '/').filter(|p: Seq<char>| p.len() > 0);
            let shown = Seq::new(
                parts.len(),
                |i: int| masked_segment(parts[i], i == parts.len() - 1),
            );
            let place = if url.host is Some {
                url.host->0
            } else {
                Seq::empty()
            };
            let door = if url.port is Some {
                seq![':'] + decimal(url.port->0 as nat)
            } else {
                Seq::empty()
            };
            masked_url(url) == url.scheme + "://"@ + place + door + "/"@ + join(shown, "/"@)
        }),
        segment.len() > 4 ==> masked_segment(segment, true)[0] == '…',
        segment.len() > 8 ==> masked_segment(segment, false)[4] == '…',
{
    reveal_strlit("…");
    reveal_strlit("");
    reveal_strlit(":");
    assert(""@ =~= Seq::<char>::empty());
    assert(":"@ =~= seq![':']);
    lemma_empty_segments_are_dropped(split(url.path, '/'));
    let parts = split(url.path, '/').filter(|p: Seq<char>| p.len() > 0);
    assert(masked_segments(parts) =~= Seq::new(
        parts.len(),
        |i: int| masked_segment(parts[i], i == parts.len() - 1),
    ));
}

/// Whom an entry names is told by the entry: a mention's own entry is its ID, with an ampersand
/// before a role's.
pub proof fn lemma_mentions_have_entries(id: Seq<char>)
    ensures
        entry_of(MentionView::Here) == "here"@,
        entry_of(MentionView::Channel) == "channel"@,
        entry_of(MentionView::SlackUser(id)) == id,
        entry_of(MentionView::SlackGroup(id)) == id,
        entry_of(MentionView::DiscordUser(id)) == id,
        entry_of(MentionView::DiscordRole(id)) == "&"@ + id,
{
    reveal_strlit("&");
    assert("&"@ =~= seq!['&']);
}

/// A connectivity check is sent as its text, in the service's own shape.
pub proof fn lemma_pings_are_their_text(a: AlerterView, flavor: Flavor, p: Payload)
    requires
        ping_payload(a, flavor, p),
    ensures
        p is Slack <==> flavor == Flavor::Slack,
        p is Discord <==> flavor == Flavor::Discord,
        p is Ping <==> flavor == Flavor::Generic,
        p matches Payload::Slack { text } ==> text@ == ping_text(a),
        p matches Payload::Discord { content } ==> content@ == ping_text(a),
        p matches Payload::Ping { message } ==> message@ == ping_text(a),
{
}

/// A message is the template in effect for the change's kind, filled with the change; the notice
/// of a mass outage says how many apps are down of how many, and whom it pages.
pub proof fn lemma_messages_are_their_templates(
    a: AlerterView,
    on_degraded: bool,
    flavor: Flavor,
    change: StatusChange,
    down: usize,
    total: usize,
)
    ensures
        ({
            let kind = if change.to == Status::Down && change.from == Status::Down {
                TemplateKind::Reminder
            } else if change.to == Status::Down {
                TemplateKind::Down
            } else if change.to == Status::Degraded && on_degraded {
                TemplateKind::Degraded
            } else {
                TemplateKind::Recovered
            };
            change_text(a, on_degraded, flavor, change) == rendered(
                a.templates.in_effect(kind),
                change_vars(a, flavor, change),
            )
        }),
        ({
            let none = VarsView {
                app: Seq::empty(),
                message: Seq::empty(),
                latency: Seq::empty(),
                link: Seq::empty(),
                mentions: Seq::empty(),
                duration: Seq::empty(),
            };
            let page = if a.base is Some {
                a.base->0 + "/"@
            } else {
                Seq::empty()
            };
            &&& outage_text(a, flavor, MassOutage::Started { down, total }) == rendered(
                a.i18n.message(
                    "alert.mass_down"@,
                    seq![
                        ("mentions"@, join(all_written(a.mentions, flavor), " "@)),
                        ("down"@, decimal(down as nat)),
                        ("total"@, decimal(total as nat)),
                        ("link"@, page),
                    ],
                ),
                none,
            )
            &&& outage_text(a, flavor, MassOutage::Ended { total }) == rendered(
                a.i18n.message(
                    "alert.mass_recovered"@,
                    seq![("total"@, decimal(total as nat)), ("link"@, page)],
                ),
                none,
            )
        }),
{
}

} // verus!
