//! What holds of everyone who knocks, and of every address that is called: who gets in, for how
//! long, and where requests may go.

use vstd::prelude::*;
use vstd::utf8::encode_utf8;

use crate::assets::tag_of;
use crate::assets::TAG_BYTES;
use crate::auth::access;
use crate::auth::kept;
use crate::auth::live;
use crate::auth::resolved;
use crate::auth::Access;
use crate::auth::Role;
use crate::auth::Route;
use crate::auth::SESSION_COOKIE;
use crate::auth::SESSION_ID_BYTES;
use crate::auth::SESSION_SECS;
use crate::auth::Session;
use crate::i18n::I18n;
use crate::login::failure_text;
use crate::login::json_fields;
use crate::login::local_role;
use crate::login::login_fields;
use crate::login::upstream_decides;
use crate::login::wait_minutes;
use crate::login::Admission;
use crate::login::LoginFailure;
use crate::outbound::entry_admits;
use crate::outbound::list_admits;
use crate::outbound::policy_host;
use crate::outbound::public;
use crate::outbound::public_only;
use crate::outbound::subdomain_of;
use crate::outbound::Ip;
use crate::password::password_fits;
use crate::password::salt_fits;
use crate::password::unended;
use crate::password::SALT_BYTES;
use crate::security::client;
use crate::security::email_key;
use crate::security::failed;
use crate::security::from_own_page;
use crate::security::ip_key;
use crate::security::lock;
use crate::security::locked;
use crate::security::recent;
use crate::security::safe_method;
use crate::security::tidied;
use crate::security::times_of;
use crate::security::Header;
use crate::security::LOGIN_MAX_FAILURES;
use crate::security::LOGIN_WINDOW;
use crate::text::ascii_lower;
use crate::text::decimal;
use crate::text::starts_with;
use crate::text::trim;
use crate::text::unicode_lower;
use crate::token::hex_pairs;
use crate::token::is_secret;
use crate::token::lemma_hex_pairs;
use crate::uptime::history::at_most;
use crate::weburl::parsed_url;
use crate::weburl::UrlView;

verus! {

/// A request came from one of the app's own pages exactly where it names its host, and the URL in
/// its `Origin`, or in its `Referer` where it has no `Origin`, names the same host and port.
pub proof fn lemma_own_pages_name_their_host(host: Header, origin: Header, referer: Header)
    ensures
        from_own_page(host, origin, referer) <==> {
            let from = if origin is Absent {
                referer
            } else {
                origin
            };
            &&& host is Text
            &&& from is Text
            &&& parsed_url(from->Text_0@) is Ok
            &&& {
                let url = parsed_url(from->Text_0@)->Ok_0;
                &&& url.host is Some
                &&& url.port is None ==> ascii_lower(url.host->0) == ascii_lower(host->Text_0@)
                &&& url.port is Some ==> ascii_lower(
                    url.host->0 + seq![':'] + decimal(url.port->0 as nat),
                ) == ascii_lower(host->Text_0@)
            }
        },
{
}

/// Two reads are let through from anywhere, and nothing else is.
pub proof fn lemma_only_reads_are_safe(method: Seq<char>)
    ensures
        safe_method("GET"@),
        safe_method("HEAD"@),
        method != "GET"@ && method != "HEAD"@ ==> !safe_method(method),
{
}

/// A failed login counts for fifteen minutes (900,000 ms), and the fifth that counts locks its
/// key until the oldest of them no longer does.
pub proof fn lemma_five_failures_lock(times: Seq<u64>, now: u64)
    ensures
        ({
            let counted = times.filter(|t: u64| now < t + 900_000);
            &&& recent(times, now) == counted
            &&& lock(times, now) is Some <==> counted.len() >= 5
            &&& lock(times, now) is Some && counted[0] <= now ==> now + lock(times, now)->0
                == counted[0] + 900_000
            &&& lock(times, now) is Some && counted[0] > now ==> lock(times, now)->0 == 900_000
        }),
{
    lemma_recent(times, now);
    let counted = recent(times, now);
    if counted.len() > 0 {
        let pred = |t: u64| now < t + 900_000;
        times.lemma_filter_pred(pred, 0);
    }
}

proof fn lemma_recent(times: Seq<u64>, now: u64)
    ensures
        recent(times, now) == times.filter(|t: u64| now < t + 900_000),
    decreases times.len(),
{
    reveal(Seq::filter);
    if times.len() > 0 {
        lemma_recent(times.drop_last(), now);
    }
}

/// A client is locked out as long as its address or its account is, whichever is longer.
pub proof fn lemma_either_key_locks(
    m: Map<Seq<char>, Seq<u64>>,
    ip: Seq<char>,
    email: Seq<char>,
    now: u64,
)
    ensures
        ({
            let a = "ip:"@ + ip;
            let b = "email:"@ + unicode_lower(trim(email));
            let by_ip = if m.contains_key(a) {
                lock(m[a], now)
            } else {
                None
            };
            let by_email = if m.contains_key(b) {
                lock(m[b], now)
            } else {
                None
            };
            let r = locked(m, ip, email, now);
            &&& r is None <==> by_ip is None && by_email is None
            &&& r is Some ==> r == by_ip || r == by_email
            &&& by_ip is Some ==> r->0 >= by_ip->0
            &&& by_email is Some ==> r->0 >= by_email->0
        }),
{
}

/// Clients and accounts are counted apart: no address shares its key with an account or with
/// another address, and an account is the same however its email is spaced.
pub proof fn lemma_keys_are_apart(ip: Seq<char>, other: Seq<char>, email: Seq<char>)
    ensures
        ip_key(ip) != email_key(email),
        ip_key(ip) == ip_key(other) ==> ip == other,
        email_key(email) == email_key(other) <==> unicode_lower(trim(email)) == unicode_lower(
            trim(other),
        ),
{
    reveal_strlit("ip:");
    reveal_strlit("email:");
    assert(ip_key(ip)[0] == 'i');
    assert(email_key(email)[0] == 'e');
    assert(ip_key(ip).skip(3) =~= ip);
    assert(ip_key(other).skip(3) =~= other);
    assert(email_key(email).skip(6) =~= unicode_lower(trim(email)));
    assert(email_key(other).skip(6) =~= unicode_lower(trim(other)));
}

/// A failure adds its time to those of its key, and tidying a key leaves out what no longer
/// counts; the other keys keep what they have.
pub proof fn lemma_failures_add_up(
    m: Map<Seq<char>, Seq<u64>>,
    key: Seq<char>,
    other: Seq<char>,
    now: u64,
)
    ensures
        failed(m, key, now).contains_key(key),
        failed(m, key, now)[key].last() == now,
        failed(m, key, now)[key].drop_last() == (if m.contains_key(key) {
            m[key]
        } else {
            Seq::empty()
        }),
        failed(m, key, now)[key].len() >= 1,
        m.contains_key(key) ==> tidied(m, key, now)[key] == m[key].filter(
            |t: u64| now < t + 900_000,
        ),
        tidied(m, key, now).dom() == m.dom(),
        other != key ==> failed(m, key, now).contains_key(other) == m.contains_key(other),
        other != key && m.contains_key(other) ==> failed(m, key, now)[other] == m[other],
        other != key && m.contains_key(other) ==> tidied(m, key, now)[other] == m[other],
{
    if m.contains_key(key) {
        lemma_recent(m[key], now);
    }
    assert(tidied(m, key, now).dom() =~= m.dom());
    assert(failed(m, key, now)[key].drop_last() =~= times_of(m, key));
}

/// Any five failures of a key within fifteen minutes lock it.
pub proof fn lemma_five_recent_failures_lock(times: Seq<u64>, now: u64)
    requires
        times.len() >= 5,
        forall|i: int| 0 <= i < times.len() ==> now < #[trigger] times[i] + 900_000,
    ensures
        lock(times, now) is Some,
{
    lemma_all_recent(times, now);
}

proof fn lemma_all_recent(times: Seq<u64>, now: u64)
    requires
        forall|i: int| 0 <= i < times.len() ==> now < #[trigger] times[i] + 900_000,
    ensures
        recent(times, now) == times,
    decreases times.len(),
{
    if times.len() > 0 {
        let front = times.drop_last();
        assert forall|i: int| 0 <= i < front.len() implies now < #[trigger] front[i] + 900_000 by {
            assert(front[i] == times[i]);
        }
        lemma_all_recent(front, now);
        assert(now < times[times.len() - 1] + 900_000);
        assert(front.push(times.last()) =~= times);
    }
}

/// A request from this machine is its proxy's: it comes from the address that the proxy names,
/// where it names one. Any other comes from where it was connected from.
pub proof fn lemma_whom_requests_come_from(
    octets: [u8; 4],
    groups: [u16; 8],
    text: Seq<char>,
    named: Seq<char>,
)
    ensures
        octets@[0] == 127 ==> client(Some((Ip::V4(octets), text)), Some(named)) == named,
        octets@[0] != 127 ==> client(Some((Ip::V4(octets), text)), Some(named)) == text,
        groups@ == seq![0u16, 0, 0, 0, 0, 0, 0, 1] ==> client(
            Some((Ip::V6(groups), text)),
            Some(named),
        ) == named,
        groups@ != seq![0u16, 0, 0, 0, 0, 0, 0, 1] ==> client(
            Some((Ip::V6(groups), text)),
            Some(named),
        ) == text,
        client(Some((Ip::V4(octets), text)), None) == text,
        client(Some((Ip::V6(groups), text)), None) == text,
        client(None, Some(named)) == "unknown"@,
        client(None, None) == "unknown"@,
{
}

/// A failed login says what the login server said, where it said something.
pub proof fn lemma_what_failures_say(failure: LoginFailure, i18n: I18n)
    ensures
        failure is Unavailable ==> failure_text(failure, i18n) == i18n.template(
            failure->Unavailable_0@,
        ),
        failure is Rejected && failure->upstream is Some ==> failure_text(failure, i18n)
            == failure->upstream->0@,
        failure is Rejected && failure->upstream is None ==> failure_text(failure, i18n)
            == i18n.template(failure->key@),
{
}

/// The admin gets in with the admin's email and password, the viewer with the viewer's, and
/// nobody with the email of the one and the password of the other.
pub proof fn lemma_who_gets_in(
    given: Seq<char>,
    admin: Seq<char>,
    admin_password: bool,
    viewer: Option<Seq<char>>,
    viewer_password: bool,
)
    ensures
        ({
            let email = ascii_lower(trim(given));
            let r = local_role(given, admin, admin_password, viewer, viewer_password);
            &&& r == Some(Role::Admin) <==> admin_password && email == ascii_lower(admin)
            &&& r is Some ==> (admin_password && email == ascii_lower(admin)) || (viewer_password
                && viewer is Some && email == ascii_lower(viewer->0))
            &&& viewer_password && viewer is Some && email == ascii_lower(viewer->0) ==> r is Some
        }),
{
}

/// What the login server's answer comes to: a refusal where it refuses; otherwise an admin gets
/// in as one, and another user as a viewer where viewers are allowed, with the token that the
/// answer must hold.
pub proof fn lemma_answers_decide(
    status: u16,
    message: Option<Seq<char>>,
    is_admin: Option<bool>,
    token: Option<Seq<char>>,
    allow_viewers: bool,
    r: Result<Admission, LoginFailure>,
)
    requires
        upstream_decides(status, (message, is_admin, token), allow_viewers, r),
    ensures
        r is Ok <==> 200 <= status <= 299 && (is_admin == Some(true) || allow_viewers)
            && token is Some,
        r is Ok ==> r->Ok_0.upstream_token@ == token->0 && (r->Ok_0.role == Role::Admin <==> is_admin
            == Some(true)),
        r is Err && r->Err_0 is Unavailable <==> 200 <= status <= 299 && (is_admin == Some(true)
            || allow_viewers) && token is None,
        r is Err && r->Err_0 is Unavailable ==> r->Err_0->Unavailable_0@ == "login.no_token"@,
        !(200 <= status <= 299) ==> r->Err_0->key@ == "login.invalid"@ && (message is Some
            <==> r->Err_0->upstream is Some) && (message is Some ==> r->Err_0->upstream->0@
            == message->0),
        200 <= status <= 299 && is_admin != Some(true) && !allow_viewers ==> r->Err_0->key@
            == "login.not_admin"@ && r->Err_0->upstream is None,
{
}

/// The minutes to wait cover the seconds to wait, and one minute less wouldn't.
pub proof fn lemma_waits_are_the_least_minutes(wait: u64)
    ensures
        wait_minutes(wait) * 60 >= wait / 1000,
        wait_minutes(wait) >= 1,
        wait_minutes(wait) > 1 ==> (wait_minutes(wait) - 1) * 60 < wait / 1000,
{
}

/// A session counts as long as it hasn't expired.
pub proof fn lemma_sessions_count_until_they_expire(
    sessions: Map<Seq<char>, Session>,
    id: Seq<char>,
    now: u64,
)
    ensures
        live(sessions, now).contains_key(id) <==> sessions.contains_key(id) && now
            < sessions[id].expires_at,
        live(sessions, now).contains_key(id) ==> live(sessions, now)[id] == sessions[id],
        resolved(sessions, id, now) is Some <==> sessions.contains_key(id) && now
            < sessions[id].expires_at,
        resolved(sessions, id, now) is Some ==> resolved(sessions, id, now)->0 == sessions[id],
{
}

/// Of the rows of one ID the last one counts, and every row's ID is known.
pub proof fn lemma_last_rows_count(rows: Seq<(String, Session)>, id: Seq<char>)
    ensures
        kept(rows).contains_key(id) <==> exists|i: int|
            0 <= i < rows.len() && (#[trigger] rows[i]).0@ == id,
        kept(rows).contains_key(id) ==> exists|i: int|
            0 <= i < rows.len() && (#[trigger] rows[i]).0@ == id && kept(rows)[id] == rows[i].1
                && forall|j: int| i < j < rows.len() ==> (#[trigger] rows[j]).0@ != id,
    decreases rows.len(),
{
    if rows.len() > 0 {
        let front = rows.drop_last();
        let n = front.len() as int;
        lemma_last_rows_count(front, id);
        if rows.last().0@ == id {
            assert(rows[n].0@ == id);
        } else {
            if kept(front).contains_key(id) {
                let i = choose|i: int|
                    0 <= i < front.len() && (#[trigger] front[i]).0@ == id && kept(front)[id]
                        == front[i].1 && forall|j: int|
                        i < j < front.len() ==> (#[trigger] front[j]).0@ != id;
                assert(rows[i].0@ == id);
                assert forall|j: int| i < j < rows.len() implies (#[trigger] rows[j]).0@ != id by {
                    if j < n {
                        assert(front[j] == rows[j]);
                    }
                }
            } else {
                assert forall|j: int| 0 <= j < rows.len() implies (#[trigger] rows[j]).0@ != id by {
                    if j < n {
                        assert(front[j] == rows[j]);
                    }
                }
            }
        }
    }
}

/// An admin goes everywhere, and nobody else gets to what only admins may change; without a
/// session, a page sends to the login and an endpoint answers that nobody is logged in.
pub proof fn lemma_who_gets_where(route: Route)
    ensures
        access(route, Some(Role::Admin)) == Access::Granted,
        access(Route::Dashboard, Some(Role::Viewer)) == Access::Granted,
        access(Route::Uptime, Some(Role::Viewer)) == Access::Granted,
        route != Route::Dashboard && route != Route::Uptime ==> access(route, Some(Role::Viewer))
            == Access::Forbidden,
        access(Route::Uptime, None) == Access::Unauthorized,
        access(Route::LogsApi, None) == Access::Unauthorized,
        access(Route::AlertsApi, None) == Access::Unauthorized,
        access(Route::Dashboard, None) == Access::Login,
        access(Route::Logs, None) == Access::Login,
        access(Route::Apps, None) == Access::Login,
        access(Route::Settings, None) == Access::Login,
        access(Route::Notices, None) == Access::Login,
{
}

/// A host is below a domain exactly where something, a dot and the domain make it up.
pub proof fn lemma_subdomains_have_a_label(host: Seq<char>, domain: Seq<char>)
    ensures
        subdomain_of(host, domain) <==> exists|label: Seq<char>|
            label.len() > 0 && host == #[trigger] (label + seq!['.']) + domain,
{
    if subdomain_of(host, domain) {
        let n = host.len() - domain.len();
        let label = host.take(n - 1);
        let made = (label + seq!['.']) + domain;
        assert forall|i: int| n <= i < host.len() implies host[i] == domain[i - n] by {
            assert(host.skip(n)[i - n] == host[i]);
        }
        assert(host =~= made);
    }
    if exists|label: Seq<char>| label.len() > 0 && host == #[trigger] (label + seq!['.']) + domain {
        let label = choose|label: Seq<char>|
            label.len() > 0 && host == #[trigger] (label + seq!['.']) + domain;
        assert(host.skip(label.len() as int + 1) =~= domain);
        assert(host[label.len() as int] == '.');
    }
}

/// An entry with a star admits the hosts below its domain, any other the host that it names, in
/// whatever case it is written; a list admits what one of its entries does, blank ones aside.
pub proof fn lemma_lists_admit_what_an_entry_admits(entries: Seq<Seq<char>>, host: Seq<char>)
    ensures
        list_admits(entries, host) <==> exists|i: int|
            0 <= i < entries.len() && trim(#[trigger] entries[i]).len() > 0 && {
                let entry = ascii_lower(trim(entries[i]));
                ||| !starts_with(entry, "*."@) && host == entry
                ||| starts_with(entry, "*."@) && subdomain_of(host, entry.skip(2))
            },
    decreases entries.len(),
{
    if entries.len() > 0 {
        let front = entries.drop_last();
        let n = front.len() as int;
        lemma_lists_admit_what_an_entry_admits(front, host);
        assert(entries[n] == entries.last());
        if list_admits(front, host) {
            let i = choose|i: int|
                0 <= i < front.len() && trim(#[trigger] front[i]).len() > 0 && {
                    let entry = ascii_lower(trim(front[i]));
                    ||| !starts_with(entry, "*."@) && host == entry
                    ||| starts_with(entry, "*."@) && subdomain_of(host, entry.skip(2))
                };
            assert(entries[i] == front[i]);
        } else if exists|i: int|
            0 <= i < n && trim(#[trigger] entries[i]).len() > 0 && entry_admits(entries[i], host) {
            let i = choose|i: int|
                0 <= i < n && trim(#[trigger] entries[i]).len() > 0 && entry_admits(
                    entries[i],
                    host,
                );
            assert(front[i] == entries[i]);
        }
    }
}

/// The allowlist sees a host in lower case, and none as the empty text.
pub proof fn lemma_hosts_are_seen_in_lower_case(url: UrlView)
    ensures
        url.host is Some ==> policy_host(url) == ascii_lower(url.host->0),
        url.host is None ==> policy_host(url).len() == 0,
{
}

/// The IPv4 addresses that aren't public, as the numbers that their bytes make up.
pub proof fn lemma_public_addresses(a: u8, b: u8, c: u8, d: u8, octets: [u8; 4])
    requires
        octets@ == seq![a, b, c, d],
    ensures
        ({
            let n: int = ((a * 256 + b) * 256 + c) * 256 + d;
            public(Ip::V4(octets)) <==> !{
                ||| n < 0x0100_0000
                ||| 0x0a00_0000 <= n < 0x0b00_0000
                ||| 0x6440_0000 <= n < 0x6480_0000
                ||| 0x7f00_0000 <= n < 0x8000_0000
                ||| 0xa9fe_0000 <= n < 0xa9ff_0000
                ||| 0xac10_0000 <= n < 0xac20_0000
                ||| 0xc000_0200 <= n < 0xc000_0300
                ||| 0xc0a8_0000 <= n < 0xc0a9_0000
                ||| 0xc633_6400 <= n < 0xc633_6500
                ||| 0xcb00_7100 <= n < 0xcb00_7200
                ||| 0xe000_0000 <= n < 0xf000_0000
                ||| n == 0xffff_ffff
            }
        }),
{
}

/// An IPv6 address that holds an IPv4 address is as public as that; of the others, the loopback
/// and unspecified ones, those of `ff00::/8`, `fc00::/7` and `fe80::/10` aren't public, and the
/// rest are.
pub proof fn lemma_public_long_addresses(groups: [u16; 8], octets: [u8; 4])
    ensures
        ({
            let s = groups@;
            let empty = |n: int| forall|i: int| 0 <= i < n ==> #[trigger] s[i] == 0;
            let mapped = empty(5) && s[5] == 0xffff;
            &&& mapped && s[6] == octets@[0] * 256 + octets@[1] && s[7] == octets@[2] * 256
                + octets@[3] ==> public(Ip::V6(groups)) == public(Ip::V4(octets))
            &&& !mapped ==> (public(Ip::V6(groups)) <==> !{
                ||| empty(7) && (s[7] == 0 || s[7] == 1)
                ||| s[0] / 0x100 == 0xff
                ||| s[0] / 0x200 == 0x7e
                ||| s[0] / 0x40 == 0x3fa
            })
        }),
{
    let s = groups@;
    if s[0] == 0 && s[1] == 0 && s[2] == 0 && s[3] == 0 && s[4] == 0 {
        assert(forall|i: int| 0 <= i < 5 ==> #[trigger] s[i] == 0);
        if s[5] == 0 && s[6] == 0 {
            assert(forall|i: int| 0 <= i < 7 ==> #[trigger] s[i] == 0);
        }
    }
}

/// Requests go to the public ones of a name's addresses, in their order.
pub proof fn lemma_public_addresses_are_kept(all: Seq<Ip>)
    ensures
        public_only(all) == all.filter(|ip: Ip| public(ip)),
    decreases all.len(),
{
    reveal(Seq::filter);
    if all.len() > 0 {
        lemma_public_addresses_are_kept(all.drop_last());
    }
}

/// Every byte stands as two digits in base sixteen, at twice its place: the digits tell the byte.
pub proof fn lemma_bytes_are_two_digits(bytes: Seq<u8>, i: int)
    requires
        0 <= i < bytes.len(),
    ensures
        ({
            let s = hex_pairs(bytes);
            let value = |c: char|
                if c <= '9' {
                    c as int - '0' as int
                } else {
                    c as int - 'a' as int + 10
                };
            &&& s.len() == 2 * bytes.len()
            &&& value(s[2 * i]) * 16 + value(s[2 * i + 1]) == bytes[i]
            &&& ('0' <= s[2 * i] <= '9' || 'a' <= s[2 * i] <= 'f')
            &&& ('0' <= s[2 * i + 1] <= '9' || 'a' <= s[2 * i + 1] <= 'f')
        }),
    decreases bytes.len(),
{
    lemma_hex_pairs(bytes);
    let front = bytes.drop_last();
    lemma_hex_pairs(front);
    if i < front.len() {
        lemma_bytes_are_two_digits(front, i);
        assert(hex_pairs(bytes)[2 * i] == hex_pairs(front)[2 * i]);
        assert(hex_pairs(bytes)[2 * i + 1] == hex_pairs(front)[2 * i + 1]);
    }
}

/// A secret is met by itself alone, and an empty one by nothing.
pub proof fn lemma_secrets_are_met_by_themselves(expected: Seq<char>, candidate: Seq<char>)
    ensures
        candidate.len() == 0 ==> !is_secret(expected, candidate),
        candidate != expected ==> !is_secret(expected, candidate),
        expected.len() > 0 ==> is_secret(expected, expected),
{
}

/// A line loses the line ends that it ends in, and nothing else: `n` is where they begin.
pub proof fn lemma_line_ends_go(line: Seq<char>) -> (n: int)
    ensures
        0 <= n <= line.len(),
        unended(line) == line.take(n),
        forall|i: int| n <= i < line.len() ==> #[trigger] line[i] == '\n' || line[i] == '\r',
        n > 0 ==> line[n - 1] != '\n' && line[n - 1] != '\r',
    decreases line.len(),
{
    if line.len() > 0 && (line.last() == '\n' || line.last() == '\r') {
        let front = line.drop_last();
        let n = lemma_line_ends_go(front);
        assert(front.take(n) =~= line.take(n));
        assert forall|i: int| n <= i < line.len() implies #[trigger] line[i] == '\n' || line[i]
            == '\r' by {
            if i < front.len() {
                assert(front[i] == line[i]);
            }
        }
        n
    } else {
        assert(line.take(line.len() as int) =~= line);
        line.len() as int
    }
}

/// A file's tag has the first twelve bytes of its hash, between quotes.
pub proof fn lemma_tags_show_the_hash(hash: Seq<u8>)
    requires
        hash.len() >= 12,
    ensures
        tag_of(hash).len() == 26,
        tag_of(hash)[0] == '"',
        tag_of(hash)[25] == '"',
        tag_of(hash).subrange(1, 25) == hex_pairs(hash.take(12)),
{
    let first = hash.take(12);
    lemma_hex_pairs(first);
    assert(hash.len() == 12 ==> first =~= hash);
    assert(at_most(hash, 12) == first);
    assert(tag_of(hash).subrange(1, 25) =~= hex_pairs(first));
}

/// The lengths and times that guard accounts.
pub proof fn lemma_guarding_limits()
    ensures
        SESSION_SECS == 12 * 3600,
        SESSION_ID_BYTES == 32,
        SESSION_COOKIE@ == "heartbeat_session"@,
        LOGIN_MAX_FAILURES == 5,
        LOGIN_WINDOW == 15 * 60 * 1000,
        SALT_BYTES == 16,
        TAG_BYTES == 12,
        salt_fits(Seq::new(8, |i: int| 0u8)),
        !salt_fits(Seq::new(7, |i: int| 0u8)),
        salt_fits(Seq::new(48, |i: int| 0u8)),
        !salt_fits(Seq::new(49, |i: int| 0u8)),
{
}

/// The login server's answer is read by its own names: `error`, `is_admin` and `access_token`.
pub proof fn lemma_answers_are_read_by_name(body: Seq<u8>)
    ensures
        login_fields(body) == json_fields(body, "error"@, "is_admin"@, "access_token"@),
{
}

/// A password of less than 4 GiB can be hashed, and no longer one.
pub proof fn lemma_passwords_fit_below_four_gibibytes(password: Seq<char>)
    ensures
        password_fits(password) <==> encode_utf8(password).len() < 4 * 1024 * 1024 * 1024,
{
}

} // verus!
