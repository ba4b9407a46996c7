//! What holds of everything that is served: of exports, embeds, badges and pages.

use vstd::prelude::*;
use vstd::utf8::encode_utf8;

use crate::auth::Role;
use crate::auth::Session;
use crate::config::Config;
use crate::demo::fnv;
use crate::i18n::I18n;
use crate::i18n::Lang;
use crate::outbound::policy_host;
use crate::outbound::Outbound;
use crate::registry::first_index;
use crate::registry::header_ok;
use crate::registry::header_views;
use crate::registry::slug_index;
use crate::registry::AppSettings;
use crate::registry::AppView;
use crate::registry_laws::lemma_first_characters_are_found;
use crate::routes::api::logs_refusal;
use crate::routes::api::relays;
use crate::routes::api::url_refusal;
use crate::routes::api::LogsAnswer;
use crate::routes::apps::bad_code;
use crate::routes::apps::bad_line;
use crate::routes::apps::codes;
use crate::routes::apps::form_problem;
use crate::routes::apps::header_of;
use crate::routes::apps::headers_in;
use crate::routes::apps::number_field;
use crate::routes::apps::pause_end;
use crate::routes::apps::settings_of;
use crate::routes::apps::urls_problem;
use crate::routes::apps::AppForm;
use crate::routes::apps::MAX_PAUSE_HOURS;
use crate::routes::apps::ToggleForm;
use crate::routes::embed::badge_hash;
use crate::routes::embed::badge_id;
use crate::routes::embed::badge_text;
use crate::routes::embed::char_width;
use crate::routes::embed::opens;
use crate::routes::embed::public_part;
use crate::routes::embed::state_color;
use crate::routes::embed::state_key;
use crate::routes::embed::width;
use crate::routes::embed::xml;
use crate::routes::embed::xml_char;
use crate::routes::embed::MAX_LABEL_CHARS;
use crate::routes::embed::State;
use crate::routes::metrics::exposition;
use crate::routes::metrics::family;
use crate::routes::metrics::label_char;
use crate::routes::metrics::labelled;
use crate::routes::metrics::presented;
use crate::routes::metrics::reading;
use crate::routes::metrics::readings;
use crate::routes::metrics::sample;
use crate::routes::metrics::samples;
use crate::routes::metrics::Reading;
use crate::routes::settings::shows;
use crate::routes::settings::ConfigView;
use crate::routes::status::has_page;
use crate::routes::status::level_key;
use crate::routes::status::HISTORY_DAYS;
use crate::routes::status::Level;
use crate::routes::uptime::clamped_hours;
use crate::routes::uptime::csv_line;
use crate::routes::uptime::csv_lines;
use crate::routes::uptime::csv_text;
use crate::routes::uptime::doubled;
use crate::routes::uptime::status_name;
use crate::routes::uptime::DETAIL_HOURS;
use crate::routes::uptime::EXPORT_HOURS;
use crate::routes::uptime::MAX_WINDOW_HOURS;
use crate::security::Header;
use crate::text::decimal;
use crate::text::first_chars;
use crate::text::hex;
use crate::text::lines;
use crate::text::nonblank;
use crate::text::split;
use crate::text::starts_with;
use crate::text::trim;
use crate::text::unicode_upper;
use crate::text::unsigned;
use crate::text::views;
use crate::uptime::Heartbeat;
use crate::uptime::Status;
use crate::uptime::monitor::MonitorSummary;
use crate::uptime::probe::refusal;
use crate::weburl::parsed_url;
use crate::weburl::UrlView;

verus! {

/// A window is as long as asked, from an hour to thirty days, and as long as usual where nothing
/// is asked.
pub proof fn lemma_windows_are_as_asked(hours: u64, usual: u64)
    ensures
        1 <= hours <= 720 ==> clamped_hours(Some(hours), usual) == hours,
        hours == 0 ==> clamped_hours(Some(hours), usual) == 1,
        hours > 720 ==> clamped_hours(Some(hours), usual) == 720,
        clamped_hours(None, usual) == clamped_hours(Some(usual), hours),
{
}

/// A field stays as it is unless a comma, a quote or a line break stands in it; then it is put in
/// quotes.
pub proof fn lemma_fields_are_quoted_where_they_must(s: Seq<char>)
    ensures
        (forall|i: int|
            0 <= i < s.len() ==> #[trigger] s[i] != ',' && s[i] != '"' && s[i] != '\n' && s[i]
                != '\r') ==> csv_text(s) == s,
        (exists|i: int|
            0 <= i < s.len() && (#[trigger] s[i] == ',' || s[i] == '"' || s[i] == '\n' || s[i]
                == '\r')) ==> csv_text(s).len() >= 2 && csv_text(s)[0] == '"' && csv_text(s).last()
            == '"' && csv_text(s).subrange(1, csv_text(s).len() - 1) == doubled(s),
{
    if exists|i: int|
        0 <= i < s.len() && (#[trigger] s[i] == ',' || s[i] == '"' || s[i] == '\n' || s[i]
            == '\r') {
        let t = seq!['"'] + doubled(s) + seq!['"'];
        assert(t.subrange(1, t.len() - 1) =~= doubled(s));
        assert(t.last() == '"');
    }
}

/// Inside quotes every quote is written twice, and everything else once.
pub proof fn lemma_quotes_are_doubled(a: Seq<char>, b: Seq<char>)
    ensures
        doubled(a + b) == doubled(a) + doubled(b),
        doubled(seq!['"']) == seq!['"', '"'],
        forall|c: char| c != '"' ==> #[trigger] doubled(seq![c]) == seq![c],
    decreases b.len(),
{
    let none = Seq::<char>::empty();
    assert(doubled(none) =~= none);
    assert(seq!['"'].drop_last() =~= none);
    assert(doubled(seq!['"']) =~= seq!['"', '"']);
    assert forall|c: char| c != '"' implies #[trigger] doubled(seq![c]) == seq![c] by {
        assert(seq![c].drop_last() =~= none);
        assert(doubled(seq![c]) =~= seq![c]);
    }
    if b.len() == 0 {
        assert(a + b =~= a);
        assert(doubled(a) + doubled(b) =~= doubled(a));
    } else {
        lemma_quotes_are_doubled(a, b.drop_last());
        assert((a + b).drop_last() =~= a + b.drop_last());
        assert((a + b).last() == b.last());
        assert(doubled(a + b) =~= doubled(a) + doubled(b));
    }
}

/// A check's line has its time, its status, its latency, where there is one, and its message.
pub proof fn lemma_lines_tell_the_check(beat: Heartbeat)
    ensures
        beat.latency_ms is Some ==> csv_line(beat) == decimal(beat.at as nat) + seq![','] + (
        if beat.status == Status::Up {
            "up"@
        } else if beat.status == Status::Down {
            "down"@
        } else {
            "degraded"@
        }) + seq![','] + decimal(beat.latency_ms->0 as nat) + seq![','] + csv_text(beat.message@)
            + seq!['\n'],
        beat.latency_ms is None ==> csv_line(beat) == decimal(beat.at as nat) + seq![','] + (
        if beat.status == Status::Up {
            "up"@
        } else if beat.status == Status::Down {
            "down"@
        } else {
            "degraded"@
        }) + seq![',', ','] + csv_text(beat.message@) + seq!['\n'],
{
    reveal_strlit(",");
    reveal_strlit("\n");
    assert(","@ =~= seq![',']);
    assert("\n"@ =~= seq!['\n']);
    if beat.latency_ms is None {
        let head = decimal(beat.at as nat) + seq![','] + status_name(beat.status);
        assert(head + seq![','] + Seq::<char>::empty() + seq![','] =~= head + seq![',', ',']);
    }
}

/// An export has a line for every check, in their order.
pub proof fn lemma_exports_have_every_check(a: Seq<Heartbeat>, b: Seq<Heartbeat>, beat: Heartbeat)
    ensures
        csv_lines(a + b) == csv_lines(a) + csv_lines(b),
        csv_lines(seq![beat]) == csv_line(beat),
        csv_lines(Seq::empty()).len() == 0,
    decreases b.len(),
{
    assert(seq![beat].drop_last() =~= Seq::<Heartbeat>::empty());
    assert(csv_lines(Seq::<Heartbeat>::empty()) =~= Seq::<char>::empty());
    assert(csv_lines(seq![beat]) =~= csv_line(beat));
    if b.len() == 0 {
        assert(a + b =~= a);
        assert(csv_lines(a) + csv_lines(b) =~= csv_lines(a));
    } else {
        lemma_exports_have_every_check(a, b.drop_last(), beat);
        assert((a + b).drop_last() =~= a + b.drop_last());
        assert((a + b).last() == b.last());
        assert(csv_lines(a + b) =~= csv_lines(a) + csv_lines(b));
    }
}

/// The settings page shows what is configured; of the key and the ping only whether they are
/// there, and of passwords nothing.
pub proof fn lemma_settings_show_the_configuration(view: ConfigView, cfg: Config)
    requires
        shows(view, cfg),
    ensures
        cfg.auth is Upstream ==> view.auth_mode@ == "upstream"@ && view.admin_email is None
            && view.login_url == Some(cfg.auth->login_url),
        cfg.auth is Password ==> view.auth_mode@ == "password"@ && view.login_url is None
            && view.admin_email == Some(cfg.auth->admin.email),
        cfg.app_lang == Lang::Es ==> view.app_lang@ == "es"@,
        cfg.app_lang == Lang::En ==> view.app_lang@ == "en"@,
        view.public_url == cfg.public_url,
        view.allowed_hosts == cfg.allowed_hosts,
        view.admin_logs_key <==> cfg.admin_logs_key is Some,
        view.dead_mans_switch <==> cfg.heartbeat_ping_url is Some,
        view.interval_secs == cfg.uptime_interval_secs,
        view.degraded_ms == cfg.uptime_degraded_ms,
        view.retries == cfg.uptime_retries,
        view.cert_warn_days == cfg.uptime_cert_warn_days,
        view.retention_days == cfg.uptime_retention_days,
        view.alert_on_degraded == cfg.alert_on_degraded,
        view.timeout_secs == cfg.uptime_timeout_secs,
        view.mass_down_pct == cfg.uptime_mass_down_pct,
        view.remind_mins == cfg.alert_remind_mins,
{
}

/// What is public of an app's summary is taken from it: its name, how it stands, its share of a
/// day and its checks without their messages.
pub proof fn lemma_embeds_tell_how_an_app_stands(summary: MonitorSummary, i: int)
    ensures
        public_part(summary).name == summary.name@,
        public_part(summary).paused == summary.paused,
        public_part(summary).status == summary.status,
        public_part(summary).uptime_24h == summary.uptime_24h,
        public_part(summary).recent.len() == summary.recent@.len(),
        0 <= i < summary.recent@.len() ==> {
            let beat = public_part(summary).recent[i];
            beat.at == summary.recent@[i].at && beat.status == summary.recent@[i].status
                && beat.latency_ms == summary.recent@[i].latency_ms
        },
{
}

/// An app's own token opens it, where it has one, and no other text does; an app that is
/// published has a page, and no other does.
pub proof fn lemma_what_opens_an_app(
    apps: Seq<AppView>,
    slug: Seq<char>,
    token: Seq<char>,
    i: int,
)
    requires
        slug_index(apps, slug) == Some(i),
    ensures
        opens(apps, slug, token, i) <==> token == apps[i].embed_token && token.len() > 0,
        has_page(apps, slug, i) <==> apps[i].public,
{
}

/// A slug opens no app but the one that it names.
pub proof fn lemma_slugs_open_their_own_app(
    apps: Seq<AppView>,
    slug: Seq<char>,
    token: Seq<char>,
    i: int,
)
    requires
        slug_index(apps, slug) != Some(i),
    ensures
        !opens(apps, slug, token, i),
        !has_page(apps, slug, i),
{
}

/// Characters are four, seven, eight or ten wide.
pub proof fn lemma_characters_have_widths(c: char)
    ensures
        char_width(c) == 4 <==> c == 'i' || c == 'l' || c == 'j' || c == '.' || c == ',' || c == ':'
            || c == '|' || c == '!' || c == '\'',
        char_width(c) == 10 <==> c == 'm' || c == 'w' || c == 'M' || c == 'W',
        char_width(c) == 8 ==> unicode_upper(c),
        char_width(c) == 4 || char_width(c) == 7 || char_width(c) == 8 || char_width(c) == 10,
        char_width(c) == 7 ==> !unicode_upper(c),
{
}

/// A text is as wide as its characters together, and is escaped character by character.
pub proof fn lemma_texts_are_drawn_by_characters(a: Seq<char>, b: Seq<char>, c: char)
    ensures
        width(a + b) == width(a) + width(b),
        width(seq![c]) == char_width(c),
        xml(a + b) == xml(a) + xml(b),
        xml(seq!['&']) == "&amp;"@,
        xml(seq!['<']) == "&lt;"@,
        xml(seq!['>']) == "&gt;"@,
        xml(seq!['"']) == "&quot;"@,
        c != '&' && c != '<' && c != '>' && c != '"' ==> xml(seq![c]) == seq![c],
    decreases b.len(),
{
    let none = Seq::<char>::empty();
    assert(width(none) == 0);
    assert(xml(none) =~= none);
    lemma_xml_of_one(c);
    lemma_xml_of_one('&');
    lemma_xml_of_one('<');
    lemma_xml_of_one('>');
    lemma_xml_of_one('"');
    assert(seq![c].drop_last() =~= none);
    if b.len() == 0 {
        assert(a + b =~= a);
        assert(xml(a) + xml(b) =~= xml(a));
    } else {
        lemma_texts_are_drawn_by_characters(a, b.drop_last(), c);
        assert((a + b).drop_last() =~= a + b.drop_last());
        assert((a + b).last() == b.last());
        assert(xml(a + b) =~= xml(a) + xml(b));
    }
}

proof fn lemma_xml_of_one(c: char)
    ensures
        xml(seq![c]) == xml_char(c),
{
    let none = Seq::<char>::empty();
    assert(seq![c].drop_last() =~= none);
    assert(xml(none) =~= none);
    assert(none + xml_char(c) =~= xml_char(c));
}

/// The ids of a badge hash its content, with bars between its parts.
pub proof fn lemma_badge_ids_hash_the_content(label: Seq<char>, state: Seq<char>, color: Seq<char>)
    ensures
        badge_hash(label, state, color) == fnv(
            encode_utf8(label + seq!['|'] + state + seq!['|'] + color),
        ),
        badge_id(label, state, color).len() > 2,
        badge_id(label, state, color)[0] == 'h',
        badge_id(label, state, color)[1] == 'b',
        badge_id(label, state, color).skip(2) == hex(badge_hash(label, state, color) as nat),
{
    reveal_strlit("hb");
    assert(badge_id(label, state, color).skip(2) =~= hex(badge_hash(label, state, color) as nat));
    lemma_hex_has_digits(badge_hash(label, state, color) as nat);
}

proof fn lemma_hex_has_digits(n: nat)
    ensures
        hex(n).len() > 0,
{
}

/// The colors and words of the states.
pub proof fn lemma_states_have_words_and_colors()
    ensures
        state_key(State::Up) == "up"@ && state_color(State::Up) == "#3fb950"@,
        state_key(State::Degraded) == "degraded"@ && state_color(State::Degraded) == "#d29922"@,
        state_key(State::Down) == "down"@ && state_color(State::Down) == "#e5534b"@,
        state_key(State::Paused) == "paused"@ && state_color(State::Paused) == "#6e737c"@,
        state_key(State::Unknown) == "unknown"@ && state_color(State::Unknown) == "#6e737c"@,
        level_key(Level::Up) == "up"@,
        level_key(Level::Degraded) == "degraded"@,
        level_key(Level::Down) == "down"@,
        level_key(Level::Unmeasured) == "none"@,
{
}

/// The limits of what the pages show.
pub proof fn lemma_page_limits()
    ensures
        MAX_WINDOW_HOURS == 30 * 24,
        DETAIL_HOURS == 6,
        EXPORT_HOURS == 24,
        HISTORY_DAYS == 30,
        MAX_LABEL_CHARS == 40,
        MAX_PAUSE_HOURS == 30 * 24,
{
}

/// A label writes backslashes, quotes and line breaks behind a backslash, and everything else as
/// it is.
pub proof fn lemma_labels_are_written_by_characters(a: Seq<char>, b: Seq<char>, c: char)
    ensures
        labelled(a + b) == labelled(a) + labelled(b),
        labelled(seq!['\\']) == seq!['\\', '\\'],
        labelled(seq!['"']) == seq!['\\', '"'],
        labelled(seq!['\n']) == seq!['\\', 'n'],
        c != '\\' && c != '"' && c != '\n' ==> labelled(seq![c]) == seq![c],
    decreases b.len(),
{
    lemma_label_of_one('\\');
    lemma_label_of_one('"');
    lemma_label_of_one('\n');
    lemma_label_of_one(c);
    let none = Seq::<char>::empty();
    assert(labelled(none) =~= none);
    if b.len() == 0 {
        assert(a + b =~= a);
        assert(labelled(a) + labelled(b) =~= labelled(a));
    } else {
        lemma_labels_are_written_by_characters(a, b.drop_last(), c);
        assert((a + b).drop_last() =~= a + b.drop_last());
        assert((a + b).last() == b.last());
        assert(labelled(a + b) =~= labelled(a) + labelled(b));
    }
}

proof fn lemma_label_of_one(c: char)
    ensures
        labelled(seq![c]) == label_char(c),
{
    let none = Seq::<char>::empty();
    assert(seq![c].drop_last() =~= none);
    assert(labelled(none) =~= none);
    assert(none + label_char(c) =~= label_char(c));
}

/// A gauge has a sample for every app that has a value, with that value, and none for the
/// others: one more app adds its own, or nothing.
pub proof fn lemma_gauges_have_the_values(
    name: Seq<char>,
    monitors: Seq<MonitorSummary>,
    values: Seq<Option<Seq<char>>>,
    m: MonitorSummary,
    value: Seq<char>,
)
    requires
        values.len() == monitors.len(),
    ensures
        samples(name, monitors.push(m), values.push(Some(value))) == samples(
            name,
            monitors,
            values,
        ) + name + "{app=\""@ + labelled(m.slug@) + "\",name=\""@ + labelled(m.name@) + "\"} "@
            + value + "\n"@,
        samples(name, monitors.push(m), values.push(None)) == samples(name, monitors, values),
        samples(name, Seq::empty(), Seq::empty()).len() == 0,
{
    assert(monitors.push(m).drop_last() =~= monitors);
    lemma_samples_go_by_place(name, monitors, values, values.push(Some(value)));
    lemma_samples_go_by_place(name, monitors, values, values.push(None));
    let before = samples(name, monitors, values);
    let own = sample(name, m.slug@, m.name@, value);
    assert(before + own =~= before + name + "{app=\""@ + labelled(m.slug@) + "\",name=\""@
        + labelled(m.name@) + "\"} "@ + value + "\n"@);
}

proof fn lemma_samples_go_by_place(
    name: Seq<char>,
    monitors: Seq<MonitorSummary>,
    a: Seq<Option<Seq<char>>>,
    b: Seq<Option<Seq<char>>>,
)
    requires
        forall|i: int| 0 <= i < monitors.len() ==> a[i] == #[trigger] b[i],
    ensures
        samples(name, monitors, a) == samples(name, monitors, b),
    decreases monitors.len(),
{
    if monitors.len() > 0 {
        lemma_samples_go_by_place(name, monitors.drop_last(), a, b);
        assert(a[monitors.len() - 1] == b[monitors.len() - 1]);
    }
}

/// What the gauges read of an app: whether the last check wasn't down, whether it was degraded,
/// whether the app is paused, the latency and when the certificate expires; nothing where there
/// is nothing to read.
pub proof fn lemma_gauges_read_the_summary(m: MonitorSummary)
    ensures
        m.status == Some(Status::Up) ==> reading(Reading::Up, m) == Some("1"@) && reading(
            Reading::Degraded,
            m,
        ) == Some("0"@),
        m.status == Some(Status::Degraded) ==> reading(Reading::Up, m) == Some("1"@) && reading(
            Reading::Degraded,
            m,
        ) == Some("1"@),
        m.status == Some(Status::Down) ==> reading(Reading::Up, m) == Some("0"@) && reading(
            Reading::Degraded,
            m,
        ) == Some("0"@),
        m.status is None ==> reading(Reading::Up, m) is None && reading(
            Reading::Degraded,
            m,
        ) is None,
        m.paused ==> reading(Reading::Paused, m) == Some("1"@),
        !m.paused ==> reading(Reading::Paused, m) == Some("0"@),
        reading(Reading::Latency, m) is Some <==> m.latency_ms is Some,
        m.latency_ms is Some ==> reading(Reading::Latency, m) == Some(
            decimal(m.latency_ms->0 as nat),
        ),
        reading(Reading::CertExpiry, m) is Some <==> m.cert_expires_at is Some,
        m.cert_expires_at is Some ==> reading(Reading::CertExpiry, m) == Some(
            decimal(m.cert_expires_at->0 as nat),
        ),
{
}

/// The readings of a gauge are those of the apps, one each and in their order.
pub proof fn lemma_readings_are_the_apps(kind: Reading, monitors: Seq<MonitorSummary>, i: int)
    ensures
        readings(kind, monitors).len() == monitors.len(),
        0 <= i < monitors.len() ==> readings(kind, monitors)[i] == reading(kind, monitors[i]),
{
}

/// The exposition has seven gauges one after the other, each under its own name.
pub proof fn lemma_expositions_have_seven_gauges(
    monitors: Seq<MonitorSummary>,
    day: Seq<Option<Seq<char>>>,
    month: Seq<Option<Seq<char>>>,
) -> (parts: Seq<Seq<char>>)
    ensures
        parts.len() == 7,
        exposition(monitors, day, month) == parts[0] + parts[1] + parts[2] + parts[3] + parts[4]
            + parts[5] + parts[6],
        gauge_of(parts[0], "heartbeat_up"@, monitors, readings(Reading::Up, monitors)),
        gauge_of(parts[1], "heartbeat_degraded"@, monitors, readings(Reading::Degraded, monitors)),
        gauge_of(parts[2], "heartbeat_paused"@, monitors, readings(Reading::Paused, monitors)),
        gauge_of(
            parts[3],
            "heartbeat_latency_milliseconds"@,
            monitors,
            readings(Reading::Latency, monitors),
        ),
        gauge_of(parts[4], "heartbeat_uptime_24h_ratio"@, monitors, day),
        gauge_of(parts[5], "heartbeat_uptime_30d_ratio"@, monitors, month),
        gauge_of(
            parts[6],
            "heartbeat_cert_expiry_timestamp_seconds"@,
            monitors,
            readings(Reading::CertExpiry, monitors),
        ),
{
    let parts = seq![
        family(
            "heartbeat_up"@,
            "1 if the last check was up or degraded, 0 if down."@,
            monitors,
            readings(Reading::Up, monitors),
        ),
        family(
            "heartbeat_degraded"@,
            "1 if the last check was degraded (slow, or a certificate about to expire)."@,
            monitors,
            readings(Reading::Degraded, monitors),
        ),
        family(
            "heartbeat_paused"@,
            "1 while the app's checks are paused."@,
            monitors,
            readings(Reading::Paused, monitors),
        ),
        family(
            "heartbeat_latency_milliseconds"@,
            "Response time of the last check."@,
            monitors,
            readings(Reading::Latency, monitors),
        ),
        family(
            "heartbeat_uptime_24h_ratio"@,
            "Share of available checks over the last 24 hours (0-1)."@,
            monitors,
            day,
        ),
        family(
            "heartbeat_uptime_30d_ratio"@,
            "Share of available checks over the last 30 days (0-1)."@,
            monitors,
            month,
        ),
        family(
            "heartbeat_cert_expiry_timestamp_seconds"@,
            "When the health endpoint's TLS certificate expires (unix seconds)."@,
            monitors,
            readings(Reading::CertExpiry, monitors),
        ),
    ];
    lemma_gauge_of(
        "heartbeat_up"@,
        "1 if the last check was up or degraded, 0 if down."@,
        monitors,
        readings(Reading::Up, monitors),
    );
    lemma_gauge_of(
        "heartbeat_degraded"@,
        "1 if the last check was degraded (slow, or a certificate about to expire)."@,
        monitors,
        readings(Reading::Degraded, monitors),
    );
    lemma_gauge_of(
        "heartbeat_paused"@,
        "1 while the app's checks are paused."@,
        monitors,
        readings(Reading::Paused, monitors),
    );
    lemma_gauge_of(
        "heartbeat_latency_milliseconds"@,
        "Response time of the last check."@,
        monitors,
        readings(Reading::Latency, monitors),
    );
    lemma_gauge_of(
        "heartbeat_uptime_24h_ratio"@,
        "Share of available checks over the last 24 hours (0-1)."@,
        monitors,
        day,
    );
    lemma_gauge_of(
        "heartbeat_uptime_30d_ratio"@,
        "Share of available checks over the last 30 days (0-1)."@,
        monitors,
        month,
    );
    lemma_gauge_of(
        "heartbeat_cert_expiry_timestamp_seconds"@,
        "When the health endpoint's TLS certificate expires (unix seconds)."@,
        monitors,
        readings(Reading::CertExpiry, monitors),
    );
    parts
}

/// Whether a text introduces a gauge by name, with some help, and then has its samples.
pub open spec fn gauge_of(
    part: Seq<char>,
    name: Seq<char>,
    monitors: Seq<MonitorSummary>,
    values: Seq<Option<Seq<char>>>,
) -> bool {
    exists|help: Seq<char>|
        part == #[trigger] ("# HELP "@ + name + " "@ + help) + "\n# TYPE "@ + name
            + " gauge\n"@ + samples(name, monitors, values)
}

proof fn lemma_gauge_of(
    name: Seq<char>,
    help: Seq<char>,
    monitors: Seq<MonitorSummary>,
    values: Seq<Option<Seq<char>>>,
)
    ensures
        gauge_of(family(name, help, monitors, values), name, monitors, values),
{
    let head = "# HELP "@ + name + " "@ + help;
    assert(family(name, help, monitors, values) == head + "\n# TYPE "@ + name + " gauge\n"@
        + samples(name, monitors, values));
}

/// A scraper presents what stands behind `Bearer ` in its header, and nothing otherwise.
pub proof fn lemma_what_scrapers_present(header: Header, token: Seq<char>)
    ensures
        header is Text && header->Text_0@ == "Bearer "@ + token ==> presented(header) == token,
        !(header is Text) ==> presented(header).len() == 0,
        header is Text && !starts_with(header->Text_0@, "Bearer "@) ==> presented(header).len()
            == 0,
{
    let text = "Bearer "@ + token;
    assert(text.take("Bearer "@.len() as int) =~= "Bearer "@);
    assert(text.subrange(0, "Bearer "@.len() as int) =~= "Bearer "@);
    assert(text.skip("Bearer "@.len() as int) =~= token);
}

/// A URL is requested exactly where it parses, is https and goes to an allowed host; what stands
/// in the way is told.
pub proof fn lemma_which_urls_are_requested(
    url: UrlView,
    error: Seq<char>,
    outbound: Outbound,
    i18n: I18n,
)
    ensures
        url_refusal(Ok(url), outbound, i18n) is None <==> url.scheme == "https"@
            && outbound.allows(policy_host(url)),
        url_refusal(Err(error), outbound, i18n) == Some(
            i18n.message("outbound.invalid_url"@, seq![("error"@, error)]),
        ),
        url.scheme != "https"@ ==> url_refusal(Ok(url), outbound, i18n) == Some(
            i18n.template("outbound.not_https"@),
        ),
        url.scheme == "https"@ && !outbound.allows(policy_host(url)) ==> url_refusal(
            Ok(url),
            outbound,
            i18n,
        ) == Some(i18n.message("outbound.host_not_allowed"@, seq![("host"@, policy_host(url))])),
{
}

/// What a request for logs is answered: 401 without a session, 403 to a viewer, 404 for what
/// isn't registered or has no logs, 403 for a URL that may not be requested. Any other is served.
pub proof fn lemma_who_gets_logs(
    session: Option<Session>,
    slug: Seq<char>,
    app: Option<AppView>,
    outbound: Outbound,
    i18n: I18n,
)
    ensures
        ({
            let r = logs_refusal(session, slug, app, outbound, i18n);
            let admin = session is Some && session->0.role == Role::Admin;
            let raw = app->0.settings.logs_url;
            let name = app->0.settings.name;
            &&& session is None ==> r == Some((401u16, i18n.template("api.no_session"@)))
            &&& session is Some && !admin ==> r == Some((403u16, i18n.template("api.forbidden"@)))
            &&& admin && app is None ==> r == Some(
                (404u16, i18n.message("api.not_registered"@, seq![("slug"@, slug)])),
            )
            &&& admin && app is Some && raw is None ==> r == Some(
                (404u16, i18n.message("api.no_logs"@, seq![("name"@, name)])),
            )
            &&& admin && app is Some && raw is Some ==> {
                let refused = url_refusal(parsed_url(trim(raw->0)), outbound, i18n);
                &&& r is None <==> refused is None
                &&& refused is Some ==> r == Some(
                    (
                        403u16,
                        i18n.message(
                            "api.logs_refused"@,
                            seq![("name"@, name), ("error"@, refused->0)],
                        ),
                    ),
                )
            }
        }),
{
}

/// An endpoint's own status is passed on, where it is one, with its JSON; of anything else only
/// the length is told.
pub proof fn lemma_what_is_relayed(
    answer: LogsAnswer,
    name: Seq<char>,
    status: u16,
    body: Seq<char>,
    json: Option<Seq<char>>,
    i18n: I18n,
)
    requires
        relays(answer, name, status, body, json, i18n),
    ensures
        100 <= status <= 999 ==> answer.status == status,
        !(100 <= status <= 999) ==> answer.status == 502,
        answer.body is Json <==> json is Some,
        json is Some ==> answer.body->Json_0@ == json->0,
        json is None ==> answer.body->Error_0@ == i18n.message(
            "api.not_json"@,
            seq![
                ("name"@, name),
                ("status"@, decimal(status as nat)),
                ("bytes"@, decimal(encode_utf8(body).len())),
            ],
        ),
{
}

/// A number field may be blank; otherwise it has to write a number.
pub proof fn lemma_number_fields(s: Seq<char>, max: nat)
    ensures
        trim(s).len() == 0 ==> number_field(s, max) == Ok::<Option<nat>, ()>(None),
        trim(s).len() > 0 && unsigned(trim(s), max) is Some ==> number_field(s, max) == Ok::<
            Option<nat>,
            (),
        >(unsigned(trim(s), max)),
        number_field(s, max) is Err <==> trim(s).len() > 0 && unsigned(trim(s), max) is None,
{
}

/// The first entry that writes no code is complained about, and the first line that is no header.
pub proof fn lemma_bad_fields_are_found(entries: Seq<Seq<char>>)
    ensures
        match bad_code(entries) {
            Some(bad) => exists|i: int|
                0 <= i < entries.len() && #[trigger] entries[i] == bad && unsigned(
                    bad,
                    65_535,
                ) is None && forall|j: int|
                    0 <= j < i ==> unsigned(#[trigger] entries[j], 65_535) is Some,
            None => forall|j: int|
                0 <= j < entries.len() ==> unsigned(#[trigger] entries[j], 65_535) is Some,
        },
        match bad_line(entries) {
            Some(bad) => exists|i: int|
                0 <= i < entries.len() && trim(#[trigger] entries[i]) == bad && header_of(
                    entries[i],
                ) is None && forall|j: int|
                    0 <= j < i ==> header_of(#[trigger] entries[j]) is Some,
            None => forall|j: int|
                0 <= j < entries.len() ==> header_of(#[trigger] entries[j]) is Some,
        },
{
    lemma_bad_code(entries);
    lemma_bad_line(entries);
}

proof fn lemma_bad_code(entries: Seq<Seq<char>>)
    ensures
        match bad_code(entries) {
            Some(bad) => exists|i: int|
                0 <= i < entries.len() && #[trigger] entries[i] == bad && unsigned(
                    bad,
                    65_535,
                ) is None && forall|j: int|
                    0 <= j < i ==> unsigned(#[trigger] entries[j], 65_535) is Some,
            None => forall|j: int|
                0 <= j < entries.len() ==> unsigned(#[trigger] entries[j], 65_535) is Some,
        },
    decreases entries.len(),
{
    if entries.len() > 0 {
        let front = entries.drop_last();
        let n = front.len() as int;
        lemma_bad_code(front);
        assert(entries[n] == entries.last());
        assert forall|j: int| 0 <= j < n implies #[trigger] entries[j] == front[j] by {}
        if bad_code(front) is Some {
            let bad = bad_code(front)->0;
            let i = choose|i: int|
                0 <= i < front.len() && #[trigger] front[i] == bad && unsigned(bad, 65_535) is None
                    && forall|j: int|
                    0 <= j < i ==> unsigned(#[trigger] front[j], 65_535) is Some;
            assert(entries[i] == bad);
        }
    }
}

proof fn lemma_bad_line(entries: Seq<Seq<char>>)
    ensures
        match bad_line(entries) {
            Some(bad) => exists|i: int|
                0 <= i < entries.len() && trim(#[trigger] entries[i]) == bad && header_of(
                    entries[i],
                ) is None && forall|j: int|
                    0 <= j < i ==> header_of(#[trigger] entries[j]) is Some,
            None => forall|j: int|
                0 <= j < entries.len() ==> header_of(#[trigger] entries[j]) is Some,
        },
    decreases entries.len(),
{
    if entries.len() > 0 {
        let front = entries.drop_last();
        let n = front.len() as int;
        lemma_bad_line(front);
        assert(entries[n] == entries.last());
        assert forall|j: int| 0 <= j < n implies #[trigger] entries[j] == front[j] by {}
        if bad_line(front) is Some {
            let bad = bad_line(front)->0;
            let i = choose|i: int|
                0 <= i < front.len() && trim(#[trigger] front[i]) == bad && header_of(
                    front[i],
                ) is None && forall|j: int| 0 <= j < i ==> header_of(#[trigger] front[j]) is Some;
            assert(entries[i] == front[i]);
        }
    }
}

/// A header's line has its name before the first colon and its value behind it; without a colon
/// it is none.
pub proof fn lemma_header_lines(name: Seq<char>, value: Seq<char>)
    requires
        forall|i: int| 0 <= i < name.len() ==> #[trigger] name[i] != ':',
    ensures
        header_of(name) is None,
        header_of(name + seq![':'] + value) is Some <==> header_ok(trim(name), trim(value)),
        header_ok(trim(name), trim(value)) ==> header_of(name + seq![':'] + value) == Some(
            (trim(name), trim(value)),
        ),
{
    let line = name + seq![':'] + value;
    lemma_first_characters_are_found(name, ':');
    lemma_first_characters_are_found(line, ':');
    let n = name.len() as int;
    assert(line[n] == ':');
    if let Some(i) = first_index(name, ':') {
        assert(name[i] == ':');
    }
    if let Some(i) = first_index(line, ':') {
        if i < n {
            assert(line[i] == name[i]);
        }
        assert(i == n);
    }
    assert(line.take(n) =~= name);
    assert(line.skip(n + 1) =~= value);
}

/// A form is accepted exactly where its numbers are numbers or blank, its codes are codes and its
/// lines are headers; the first field that isn't is complained about.
pub proof fn lemma_which_forms_are_accepted(form: AppForm, i18n: I18n)
    ensures
        ({
            let threshold = number_field(form.degraded_after_ms@, 0xffff_ffff) is Err;
            let interval = number_field(form.interval_secs@, 0xffff_ffff) is Err;
            let timeout = number_field(form.timeout_secs@, 0xffff_ffff) is Err;
            let code = bad_code(nonblank(split(form.expect_status@, ',')));
            let line = bad_line(nonblank(lines(form.headers@)));
            let r = form_problem(form, i18n);
            &&& r is None <==> !threshold && !interval && !timeout && code is None && line is None
            &&& threshold ==> r == Some(i18n.template("err.threshold"@))
            &&& !threshold && interval ==> r == Some(
                i18n.message(
                    "err.interval"@,
                    seq![("min"@, decimal(10)), ("max"@, decimal(86_400))],
                ),
            )
            &&& !threshold && !interval && timeout ==> r == Some(
                i18n.message("err.timeout"@, seq![("max"@, decimal(60))]),
            )
            &&& !threshold && !interval && !timeout && code is Some ==> r == Some(
                i18n.message("err.status"@, seq![("code"@, code->0)]),
            )
            &&& !threshold && !interval && !timeout && code is None && line is Some ==> r == Some(
                i18n.message("err.header"@, seq![("header"@, line->0)]),
            )
        }),
{
}

/// Settings say what the form's fields write.
pub proof fn lemma_settings_are_what_was_entered(s: AppSettings, form: AppForm)
    requires
        settings_of(s, form),
    ensures
        s.name@ == form.name@,
        s.logs_url@ == form.logs_url@,
        s.health_url@ == form.health_url@,
        s.expect_body is Some && s.expect_body->0@ == form.expect_body@,
        s.check_assets == form.check_assets,
        entered(s.degraded_after_ms, form.degraded_after_ms@),
        entered(s.interval_secs, form.interval_secs@),
        entered(s.timeout_secs, form.timeout_secs@),
        ({
            let entries = nonblank(split(form.expect_status@, ','));
            &&& s.expect_status@.len() == entries.len()
            &&& forall|i: int|
                0 <= i < entries.len() && unsigned(entries[i], 65_535) is Some
                    ==> #[trigger] s.expect_status@[i] == unsigned(entries[i], 65_535)->0
        }),
        ({
            let entries = nonblank(lines(form.headers@));
            &&& s.headers@.len() == entries.len()
            &&& forall|i: int|
                0 <= i < entries.len() && header_of(entries[i]) is Some ==> (
                #[trigger] s.headers@[i]).name@ == (header_of(entries[i])->0).0
                    && s.headers@[i].value@ == (header_of(entries[i])->0).1
        }),
        views(s.alert_webhooks@) == nonblank(lines(form.alert_webhooks@)),
        views(s.alert_mentions@) == nonblank(split(form.alert_mentions@, ',')),
{
    let entries = nonblank(lines(form.headers@));
    assert(header_views(s.headers@).len() == s.headers@.len());
    assert forall|i: int| 0 <= i < entries.len() && header_of(entries[i]) is Some implies (
    #[trigger] s.headers@[i]).name@ == (header_of(entries[i])->0).0 && s.headers@[i].value@
        == (header_of(entries[i])->0).1 by {
        assert(header_views(s.headers@)[i] == headers_in(entries)[i]);
    }
    let written = nonblank(split(form.expect_status@, ','));
    assert forall|i: int|
        0 <= i < written.len() && unsigned(written[i], 65_535) is Some implies #[trigger] s.expect_status@[i]
        == unsigned(written[i], 65_535)->0 by {
        assert(s.expect_status@[i] == codes(written)[i]);
        assert(unsigned(written[i], 65_535)->0 <= 65_535);
    }
}

/// Whether a setting is the number that a field writes, or none where the field is blank.
pub open spec fn entered(setting: Option<u32>, field: Seq<char>) -> bool {
    &&& setting is None <==> trim(field).len() == 0
    &&& setting is Some ==> unsigned(trim(field), 0xffff_ffff) == Some(setting->0 as nat)
}

/// A form's URLs may be stored exactly where both may be requested, the logs' where there is one;
/// the error names the field, and the logs' comes first.
pub proof fn lemma_which_urls_are_stored(form: AppForm, outbound: Outbound, i18n: I18n)
    ensures
        ({
            let blank = trim(form.logs_url@).len() == 0;
            let logs = url_refusal(parsed_url(trim(form.logs_url@)), outbound, i18n);
            let health = refusal(parsed_url(trim(form.health_url@)), outbound, i18n);
            let r = urls_problem(form, outbound, i18n);
            &&& r is None <==> (blank || logs is None) && health is None
            &&& !blank && logs is Some ==> r == Some(
                i18n.message(
                    "err.url_field"@,
                    seq![("label"@, i18n.template("err.label_logs"@)), ("error"@, logs->0)],
                ),
            )
            &&& (blank || logs is None) && health is Some ==> r == Some(
                i18n.message(
                    "err.url_field"@,
                    seq![("label"@, i18n.template("err.label_health"@)), ("error"@, health->0)],
                ),
            )
        }),
{
}

/// A pause ends after the hours asked for, from one to thirty days of them; without hours, or
/// where the app is resumed, nothing is scheduled.
pub proof fn lemma_when_pauses_end(form: ToggleForm, now: u64)
    requires
        now + 720 * 3600 <= u64::MAX,
    ensures
        pause_end(form, now) is Some <==> form.value && form.hours is Some,
        form.value && form.hours is Some && 1 <= form.hours->0 <= 720 ==> pause_end(form, now)->0
            == now + form.hours->0 * 3600,
        form.value && form.hours == Some(0u64) ==> pause_end(form, now)->0 == now + 3600,
        form.value && form.hours is Some && form.hours->0 > 720 ==> pause_end(form, now)->0 == now
            + 720 * 3600,
{
}

/// A badge draws, in this order, its width, what it says aloud and as its title, its ids, the
/// boxes of the label and the state one behind the other, the state's in its color, and the two
/// texts in the middle of their boxes; `t` is what stands between these.
pub proof fn lemma_badges_draw_both_boxes(label: Seq<char>, state: Seq<char>, color: Seq<char>) -> (t:
    Seq<Seq<char>>)
    ensures
        t.len() == 18,
        ({
            let short = if label.len() <= 40 {
                label
            } else {
                label.take(40)
            };
            let lw: nat = width(short) + 12;
            let sw: nat = width(state) + 12;
            let total = decimal(width(short) + width(state) + 24);
            let id = badge_id(short, state, color);
            let l = xml(short);
            let s = xml(state);
            badge_text(label, state, color) == t[0] + total + t[1] + l + ": "@ + s + t[2] + l
                + ": "@ + s + t[3] + id + t[4] + id + t[5] + total + t[6] + id + t[7] + decimal(lw)
                + t[8] + decimal(lw) + t[9] + decimal(sw) + t[10] + color + t[11] + total + t[12]
                + id + t[13] + decimal((lw / 2) as nat) + t[14] + l + t[15] + decimal(
                (lw + sw / 2) as nat,
            ) + t[16] + s + t[17]
        }),
{
    let t = seq![
        "<svg xmlns=\"http://www.w3.org/2000/svg\" width=\""@,
        "\" height=\"20\" role=\"img\" aria-label=\""@,
        "\"><title>"@,
        "</title><linearGradient id=\""@,
        "s\" x2=\"0\" y2=\"100%\"><stop offset=\"0\" stop-color=\"#bbb\" stop-opacity=\".1\"/><stop offset=\"1\" stop-opacity=\".1\"/></linearGradient><clipPath id=\""@,
        "r\"><rect width=\""@,
        "\" height=\"20\" rx=\"3\" fill=\"#fff\"/></clipPath><g clip-path=\"url(#"@,
        "r)\"><rect width=\""@,
        "\" height=\"20\" fill=\"#555\"/><rect x=\""@,
        "\" width=\""@,
        "\" height=\"20\" fill=\""@,
        "\"/><rect width=\""@,
        "\" height=\"20\" fill=\"url(#"@,
        "s)\"/></g><g fill=\"#fff\" text-anchor=\"middle\" font-family=\"Verdana,Geneva,DejaVu Sans,sans-serif\" font-size=\"11\"><text x=\""@,
        "\" y=\"14\">"@,
        "</text><text x=\""@,
        "\" y=\"14\">"@,
        "</text></g></svg>"@,
    ];
    assert(label.len() <= 40 ==> first_chars(label, 40) =~= label);
    assert(label.len() > 40 ==> first_chars(label, 40) =~= label.take(40));
    t
}

} // verus!
