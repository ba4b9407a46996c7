//! Every request this app makes to a registered app's URL (logs proxy, uptime probes) goes
//! through `Outbound`. Registered URLs are admin-entered data and those requests carry
//! secrets, so:
//!
//! - only `https://` URLs (and `tcp://host:port` for health checks) whose host matches
//!   `ALLOWED_HOSTS` are allowed, so that secrets can't be pointed at an arbitrary server or
//!   sent in cleartext;
//! - DNS answers are filtered to public addresses (`is_public`);
//! - redirects are never followed.

use vstd::prelude::*;

use crate::i18n::I18n;
use crate::i18n::Localize;
use crate::text::ascii_lower;
use crate::text::ends_with;
use crate::text::pieces;
use crate::text::same;
use crate::text::split;
use crate::text::starts_with;
use crate::text::to_ascii_lower;
use crate::text::trim;
use crate::text::trimmed;
use crate::text::views;
use crate::text::without_prefix;
use crate::text::without_suffix;
use crate::weburl::parse_url;
use crate::weburl::parsed_url;
use crate::weburl::Url;
use crate::weburl::UrlView;

verus! {

/// Why a URL is refused.
#[derive(Debug)]
pub enum OutboundError {
    InvalidUrl(String),
    NotHttps,
    HostNotAllowed(String),
    /// A `tcp://` URL without a port.
    MissingPort,
}

impl Localize for OutboundError {
    open spec fn localized(&self, i18n: &I18n) -> Seq<char> {
        match self {
            OutboundError::InvalidUrl(error) => i18n.message(
                "outbound.invalid_url"@,
                seq![("error"@, error@)],
            ),
            OutboundError::NotHttps => i18n.template("outbound.not_https"@),
            OutboundError::HostNotAllowed(host) => i18n.message(
                "outbound.host_not_allowed"@,
                seq![("host"@, host@)],
            ),
            OutboundError::MissingPort => i18n.template("outbound.missing_port"@),
        }
    }

    fn localize(&self, i18n: &I18n) -> (r: String) {
        match self {
            OutboundError::InvalidUrl(error) => i18n.line1(
                "outbound.invalid_url",
                "error",
                error.as_str(),
            ),
            OutboundError::NotHttps => i18n.line("outbound.not_https"),
            OutboundError::HostNotAllowed(host) => i18n.line1(
                "outbound.host_not_allowed",
                "host",
                host.as_str(),
            ),
            OutboundError::MissingPort => i18n.line("outbound.missing_port"),
        }
    }
}

/// One `ALLOWED_HOSTS` entry: `api.example.com` (exact) or `*.example.com` (any subdomain, not
/// the bare domain itself).
#[derive(Debug, PartialEq, Eq)]
pub enum HostPattern {
    Exact(String),
    Subdomain(String),
}

/// Whether `host` is a subdomain of `domain`: some label, a dot, and the domain.
pub open spec fn subdomain_of(host: Seq<char>, domain: Seq<char>) -> bool {
    &&& ends_with(host, domain)
    &&& host.len() - domain.len() > 1
    &&& host[host.len() - domain.len() - 1] == '.'
}

/// Whether an entry of the allowlist admits a host.
pub open spec fn admits(pattern: HostPattern, host: Seq<char>) -> bool {
    match pattern {
        HostPattern::Exact(h) => host == h@,
        HostPattern::Subdomain(domain) => subdomain_of(host, domain@),
    }
}

/// Whether the entry `raw` of `ALLOWED_HOSTS` admits `host`.
pub open spec fn entry_admits(raw: Seq<char>, host: Seq<char>) -> bool {
    let entry = ascii_lower(trim(raw));
    if starts_with(entry, "*."@) {
        subdomain_of(host, entry.skip(2))
    } else {
        host == entry
    }
}

impl HostPattern {
    /// The pattern that an entry of `ALLOWED_HOSTS` writes.
    pub fn parse(raw: &str) -> (r: Self)
        ensures
            forall|host: Seq<char>| #[trigger] admits(r, host) == entry_admits(raw@, host),
    {
        let clean = trimmed(raw);
        let entry = to_ascii_lower(clean.as_str());
        proof {
            reveal_strlit("*.");
        }
        match without_prefix(entry.as_str(), "*.") {
            Some(domain) => HostPattern::Subdomain(domain),
            None => HostPattern::Exact(entry),
        }
    }

    pub fn matches(&self, host: &str) -> (r: bool)
        ensures
            r == admits(*self, host@),
    {
        match self {
            HostPattern::Exact(h) => same(host, h.as_str()),
            HostPattern::Subdomain(domain) => match without_suffix(host, domain.as_str()) {
                Some(label) => {
                    let v = crate::text::chars_of(label.as_str());
                    v.len() > 1 && v[v.len() - 1] == '.'
                },
                None => false,
            },
        }
    }
}

/// An IP address: four octets, or eight segments.
#[derive(Debug, Clone, Copy, PartialEq, Eq)]
pub enum Ip {
    V4([u8; 4]),
    V6([u16; 8]),
}

/// Whether an IPv4 address is one that the whole Internet can reach.
pub open spec fn public_v4(a: u8, b: u8, c: u8, d: u8) -> bool {
    &&& !(a == 10 || (a == 172 && 16 <= b <= 31) || (a == 192 && b == 168))  // private
    &&& a != 127  // loopback
    &&& !(a == 169 && b == 254)  // link-local, cloud metadata among them
    &&& a != 0  // this network, the unspecified address among them
    &&& !(a == 255 && b == 255 && c == 255 && d == 255)  // broadcast
    &&& !(224 <= a <= 239)  // multicast
    &&& !((a == 192 && b == 0 && c == 2) || (a == 198 && b == 51 && c == 100) || (a == 203 && b
        == 0 && c == 113))  // documentation
    &&& !(a == 100 && 64 <= b <= 127)  // shared by carriers
}

/// Whether eight segments hold an IPv4 address.
pub open spec fn v4_mapped(s: Seq<u16>) -> bool {
    s[0] == 0 && s[1] == 0 && s[2] == 0 && s[3] == 0 && s[4] == 0 && s[5] == 0xffff
}

/// Whether an IPv6 address that holds no IPv4 address is one that the whole Internet can reach.
pub open spec fn public_v6(s: Seq<u16>) -> bool {
    &&& !(s[0] == 0 && s[1] == 0 && s[2] == 0 && s[3] == 0 && s[4] == 0 && s[5] == 0 && s[6] == 0
        && s[7] <= 1)  // unspecified and loopback
    &&& s[0] < 0xff00  // multicast
    &&& !(0xfc00 <= s[0] <= 0xfdff)  // unique local
    &&& !(0xfe80 <= s[0] <= 0xfebf)  // link-local
}

/// Whether an address is one that the whole Internet can reach; one that holds an IPv4 address
/// is as public as that.
pub open spec fn public(ip: Ip) -> bool {
    match ip {
        Ip::V4(o) => public_v4(o@[0], o@[1], o@[2], o@[3]),
        Ip::V6(s) => if v4_mapped(s@) {
            public_v4(
                (s@[6] / 256) as u8,
                (s@[6] % 256) as u8,
                (s@[7] / 256) as u8,
                (s@[7] % 256) as u8,
            )
        } else {
            public_v6(s@)
        },
    }
}

fn is_public_v4(a: u8, b: u8, c: u8, d: u8) -> (r: bool)
    ensures
        r == public_v4(a, b, c, d),
{
    let private = a == 10 || (a == 172 && 16 <= b && b <= 31) || (a == 192 && b == 168);
    let documentation = (a == 192 && b == 0 && c == 2) || (a == 198 && b == 51 && c == 100) || (a
        == 203 && b == 0 && c == 113);
    let shared_cgnat = a == 100 && 64 <= b && b <= 127;
    let broadcast_all = a == 255 && b == 255 && c == 255 && d == 255;
    !(private || a == 127 || (a == 169 && b == 254) || a == 0 || broadcast_all || (224 <= a && a
        <= 239) || documentation || shared_cgnat)
}

/// Whether requests may go to `ip`.
pub fn is_public(ip: Ip) -> (r: bool)
    ensures
        r == public(ip),
{
    match ip {
        Ip::V4(o) => is_public_v4(o[0], o[1], o[2], o[3]),
        Ip::V6(s) => {
            let mapped = s[0] == 0 && s[1] == 0 && s[2] == 0 && s[3] == 0 && s[4] == 0 && s[5]
                == 0xffff;
            if mapped {
                is_public_v4(
                    (s[6] / 256) as u8,
                    (s[6] % 256) as u8,
                    (s[7] / 256) as u8,
                    (s[7] % 256) as u8,
                )
            } else {
                let low = s[0] == 0 && s[1] == 0 && s[2] == 0 && s[3] == 0 && s[4] == 0 && s[5]
                    == 0 && s[6] == 0 && s[7] <= 1;
                !(low || s[0] >= 0xff00 || (0xfc00 <= s[0] && s[0] <= 0xfdff) || (0xfe80 <= s[0]
                    && s[0] <= 0xfebf))
            }
        },
    }
}

/// The public ones of some addresses, in their order; none are left where the name resolves
/// to private ones alone, and the request is then refused.
pub open spec fn public_only(all: Seq<Ip>) -> Seq<Ip>
    decreases all.len(),
{
    if all.len() == 0 {
        Seq::empty()
    } else {
        let before = public_only(all.drop_last());
        if public(all.last()) {
            before.push(all.last())
        } else {
            before
        }
    }
}

/// The addresses of a name that requests may go to; `None` where there are none.
pub fn reachable(all: &Vec<Ip>) -> (r: Option<Vec<Ip>>)
    ensures
        match r {
            Some(kept) => kept@ == public_only(all@) && kept@.len() > 0,
            None => public_only(all@).len() == 0,
        },
{
    let mut out: Vec<Ip> = Vec::new();
    let mut i: usize = 0;
    proof {
        assert(all@.take(0) =~= Seq::<Ip>::empty());
    }
    while i < all.len()
        invariant
            i <= all@.len(),
            out@ == public_only(all@.take(i as int)),
        decreases all@.len() - i,
    {
        proof {
            assert(all@.take(i as int + 1).drop_last() =~= all@.take(i as int));
            assert(all@.take(i as int + 1).last() == all@[i as int]);
        }
        if is_public(all[i]) {
            out.push(all[i]);
        }
        i += 1;
    }
    proof {
        assert(all@.take(all@.len() as int) =~= all@);
    }
    if out.len() == 0 {
        None
    } else {
        Some(out)
    }
}

/// Where a health check goes.
#[derive(Debug)]
pub enum HealthTarget {
    Http(Url),
    Tcp { host: String, port: u16 },
}

/// The allowlist for requests to registered apps.
#[derive(Debug)]
pub struct Outbound {
    allowed_hosts: Vec<HostPattern>,
}

/// Whether some entry of a comma-separated `ALLOWED_HOSTS` admits `host`.
pub open spec fn list_admits(entries: Seq<Seq<char>>, host: Seq<char>) -> bool
    decreases entries.len(),
{
    entries.len() > 0 && (list_admits(entries.drop_last(), host) || (trim(entries.last()).len() > 0
        && entry_admits(entries.last(), host)))
}

/// The host of a URL as the allowlist sees it.
pub open spec fn policy_host(url: UrlView) -> Seq<char> {
    match url.host {
        Some(host) => ascii_lower(host),
        None => Seq::empty(),
    }
}

impl Outbound {
    /// Whether requests may go to `host`.
    pub closed spec fn allows(&self, host: Seq<char>) -> bool {
        exists|i: int|
            0 <= i < self.allowed_hosts@.len() && admits(#[trigger] self.allowed_hosts@[i], host)
    }

    /// `allowed_hosts`: comma-separated `ALLOWED_HOSTS` value.
    pub fn new(allowed_hosts: &str) -> (r: Self)
        ensures
            forall|host: Seq<char>| #[trigger]
                r.allows(host) == list_admits(split(allowed_hosts@, ','), host),
    {
        let parts = pieces(allowed_hosts, ',');
        let ghost all = views(parts@);
        let mut r = Outbound { allowed_hosts: Vec::new() };
        let mut i: usize = 0;
        proof {
            assert(all.take(0) =~= Seq::<Seq<char>>::empty());
        }
        while i < parts.len()
            invariant
                i <= parts@.len(),
                all == views(parts@),
                forall|host: Seq<char>| #[trigger]
                    r.allows(host) == list_admits(all.take(i as int), host),
            decreases parts@.len() - i,
        {
            let raw = parts[i].as_str();
            let ghost old_hosts = r.allowed_hosts@;
            proof {
                assert(all.take(i as int + 1).drop_last() =~= all.take(i as int));
                assert(all.take(i as int + 1).last() == raw@);
            }
            let clean = trimmed(raw);
            let ghost before = r;
            if !clean.as_str().is_empty() {
                let pattern = HostPattern::parse(raw);
                r.allowed_hosts.push(pattern);
                proof {
                    assert forall|host: Seq<char>| #[trigger] r.allows(host) == (before.allows(
                        host,
                    ) || admits(pattern, host)) by {
                        if before.allows(host) {
                            let k = choose|k: int|
                                0 <= k < old_hosts.len() && admits(
                                    #[trigger] old_hosts[k],
                                    host,
                                );
                            assert(r.allowed_hosts@[k] == old_hosts[k]);
                        }
                        if admits(pattern, host) {
                            assert(r.allowed_hosts@[old_hosts.len() as int] == pattern);
                        }
                        if r.allows(host) && !admits(pattern, host) {
                            let k = choose|k: int|
                                0 <= k < r.allowed_hosts@.len() && admits(
                                    #[trigger] r.allowed_hosts@[k],
                                    host,
                                );
                            assert(old_hosts[k] == r.allowed_hosts@[k]);
                        }
                    }
                }
            }
            i += 1;
            proof {
                assert forall|host: Seq<char>| #[trigger] r.allows(host) == list_admits(
                    all.take(i as int),
                    host,
                ) by {
                    assert(before.allows(host) == list_admits(all.take(i as int - 1), host));
                }
            }
        }
        proof {
            assert(all.take(all.len() as int) =~= all);
        }
        r
    }

    fn admits_host(&self, host: &str) -> (r: bool)
        ensures
            r == self.allows(host@),
    {
        let mut i: usize = 0;
        while i < self.allowed_hosts.len()
            invariant
                i <= self.allowed_hosts@.len(),
                forall|j: int| 0 <= j < i ==> !admits(#[trigger] self.allowed_hosts@[j], host@),
            decreases self.allowed_hosts@.len() - i,
        {
            if self.allowed_hosts[i].matches(host) {
                return true;
            }
            i += 1;
        }
        false
    }

    /// What the policy says of a parsed URL: only https, only to an allowed host.
    pub fn check_url(&self, url: Url) -> (r: Result<Url, OutboundError>)
        ensures
            match r {
                Ok(checked) => checked == url && url@.scheme == "https"@ && self.allows(
                    policy_host(url@),
                ),
                Err(OutboundError::NotHttps) => url@.scheme != "https"@,
                Err(OutboundError::HostNotAllowed(host)) => url@.scheme == "https"@ && host@
                    == policy_host(url@) && !self.allows(host@),
                Err(_) => false,
            },
    {
        if !same(url.scheme.as_str(), "https") {
            return Err(OutboundError::NotHttps);
        }
        let host = policy_host_of(&url);
        if !self.admits_host(host.as_str()) {
            return Err(OutboundError::HostNotAllowed(host));
        }
        Ok(url)
    }

    /// Parses `raw` and checks it against the policy; the only way to get a URL that secrets
    /// are sent to.
    pub fn check(&self, raw: &str) -> (r: Result<Url, OutboundError>)
        ensures
            match parsed_url(trim(raw@)) {
                Ok(url) => match r {
                    Ok(checked) => checked@ == url && url.scheme == "https"@ && self.allows(
                        policy_host(url),
                    ),
                    Err(OutboundError::NotHttps) => url.scheme != "https"@,
                    Err(OutboundError::HostNotAllowed(host)) => url.scheme == "https"@ && host@
                        == policy_host(url) && !self.allows(host@),
                    Err(_) => false,
                },
                Err(error) => r matches Err(OutboundError::InvalidUrl(e)) && e@ == error,
            },
    {
        let clean = trimmed(raw);
        match parse_url(clean.as_str()) {
            Ok(url) => self.check_url(url),
            Err(error) => Err(OutboundError::InvalidUrl(error)),
        }
    }

    /// What the policy says of a parsed health URL: `https://` and `tcp://` with a port, to an
    /// allowed host alone.
    pub fn check_health_url(&self, url: Url) -> (r: Result<HealthTarget, OutboundError>)
        ensures
            match r {
                Ok(HealthTarget::Http(checked)) => checked == url && url@.scheme == "https"@
                    && self.allows(policy_host(url@)),
                Ok(HealthTarget::Tcp { host, port }) => url@.scheme == "tcp"@ && host@
                    == policy_host(url@) && self.allows(host@) && url@.port == Some(port),
                Err(OutboundError::NotHttps) => url@.scheme != "https"@ && url@.scheme != "tcp"@,
                Err(OutboundError::HostNotAllowed(host)) => (url@.scheme == "https"@ || url@.scheme
                    == "tcp"@) && host@ == policy_host(url@) && !self.allows(host@),
                Err(OutboundError::MissingPort) => url@.scheme == "tcp"@ && self.allows(
                    policy_host(url@),
                ) && url@.port is None,
                Err(OutboundError::InvalidUrl(_)) => false,
            },
    {
        proof {
            reveal_strlit("tcp");
            reveal_strlit("https");
        }
        if !same(url.scheme.as_str(), "tcp") {
            return match self.check_url(url) {
                Ok(checked) => Ok(HealthTarget::Http(checked)),
                Err(error) => Err(error),
            };
        }
        assert("tcp"@.len() != "https"@.len());
        let host = policy_host_of(&url);
        if !self.admits_host(host.as_str()) {
            return Err(OutboundError::HostNotAllowed(host));
        }
        match url.port {
            Some(port) => Ok(HealthTarget::Tcp { host, port }),
            None => Err(OutboundError::MissingPort),
        }
    }

    /// Parses a health URL and checks it against the policy.
    pub fn check_health(&self, raw: &str) -> (r: Result<HealthTarget, OutboundError>)
        ensures
            match parsed_url(trim(raw@)) {
                Ok(url) => match r {
                    Ok(HealthTarget::Http(checked)) => checked@ == url && url.scheme == "https"@
                        && self.allows(policy_host(url)),
                    Ok(HealthTarget::Tcp { host, port }) => url.scheme == "tcp"@ && host@
                        == policy_host(url) && self.allows(host@) && url.port == Some(port),
                    Err(OutboundError::NotHttps) => url.scheme != "https"@ && url.scheme
                        != "tcp"@,
                    Err(OutboundError::HostNotAllowed(host)) => (url.scheme == "https"@
                        || url.scheme == "tcp"@) && host@ == policy_host(url) && !self.allows(
                        host@,
                    ),
                    Err(OutboundError::MissingPort) => url.scheme == "tcp"@ && self.allows(
                        policy_host(url),
                    ) && url.port is None,
                    Err(OutboundError::InvalidUrl(_)) => false,
                },
                Err(error) => r matches Err(OutboundError::InvalidUrl(e)) && e@ == error,
            },
    {
        let clean = trimmed(raw);
        match parse_url(clean.as_str()) {
            Ok(url) => self.check_health_url(url),
            Err(error) => Err(OutboundError::InvalidUrl(error)),
        }
    }
}

fn policy_host_of(url: &Url) -> (r: String)
    ensures
        r@ == policy_host(url@),
{
    match &url.host {
        Some(host) => to_ascii_lower(host.as_str()),
        None => String::new(),
    }
}

/// An entry `*.domain` admits no host that is the bare domain, nor one that merely ends in its
/// letters.
pub proof fn lemma_wildcards_need_a_dot(entry: Seq<char>, host: Seq<char>)
    requires
        starts_with(ascii_lower(trim(entry)), "*."@),
        entry_admits(entry, host),
    ensures
        ({
            let domain = ascii_lower(trim(entry)).skip(2);
            &&& host != domain
            &&& host.len() > domain.len() + 1
            &&& host[host.len() - domain.len() - 1] == '.'
        }),
{
}

/// A list of nothing but blanks allows no host.
pub proof fn lemma_blank_list_allows_nothing(entries: Seq<Seq<char>>, host: Seq<char>)
    requires
        forall|i: int| 0 <= i < entries.len() ==> trim(#[trigger] entries[i]).len() == 0,
    ensures
        !list_admits(entries, host),
    decreases entries.len(),
{
    if entries.len() > 0 {
        let front = entries.drop_last();
        assert forall|i: int| 0 <= i < front.len() implies trim(#[trigger] front[i]).len()
            == 0 by {
            assert(front[i] == entries[i]);
        }
        lemma_blank_list_allows_nothing(front, host);
        assert(trim(entries[entries.len() - 1]).len() == 0);
    }
}

} // verus!
