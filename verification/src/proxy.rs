//! The web filter: which names are blocked, which addresses are public, which requests are
//! let through, and what is taken out of their headers.
use vstd::prelude::*;

use crate::address::{parse_url, url_outcome, url_parts, UrlParts, UrlView};
use crate::text::{
    all_digits, chars_of, decimal, digits_value, ends_with, has_char, has_end, is_digit, join, joined, lower, lower_char, lowered,
    pieces, same, same_chars, split, split_at, string_of, texts, trim, trim_end_char, trimmed, trimmed_end_char,
};

verus! {

/// The names under which other resolvers are reached; they are always blocked.
pub open spec fn resolver_names() -> Seq<Seq<char>> {
    seq![
        "dns.google"@,
        "cloudflare-dns.com"@,
        "dns.quad9.net"@,
        "dns.nextdns.io"@,
        "dns.adguard-dns.com"@,
        "doh.opendns.com"@,
        "dns.mullvad.net"@,
    ]
}

/// Whether a name is a domain or stands below it.
pub open spec fn covers(domain: Seq<char>, name: Seq<char>) -> bool {
    name == domain || ends_with(name, seq!['.'] + domain)
}

/// A host name as it is compared: in lower case, without points at its end.
pub open spec fn host_key(host: Seq<char>) -> Seq<char> {
    lower(trim_end_char(host, '.'))
}

/// A listed domain as it is compared.
pub open spec fn domain_key(domain: Seq<char>) -> Seq<char> {
    host_key(trim(domain))
}

/// Whether one of the listed domains covers a name. An empty entry covers nothing.
pub open spec fn listed(name: Seq<char>, domains: Seq<Seq<char>>) -> bool {
    exists|i: int|
        0 <= i < domains.len() && domain_key(#[trigger] domains[i]).len() > 0 && covers(
            domain_key(domains[i]),
            name,
        )
}

/// Whether a name belongs to one of the other resolvers.
pub open spec fn resolver(name: Seq<char>) -> bool {
    exists|i: int| 0 <= i < resolver_names().len() && covers(#[trigger] resolver_names()[i], name)
}

/// Whether a host is blocked.
pub open spec fn is_blocked(host: Seq<char>, domains: Seq<Seq<char>>) -> bool {
    listed(host_key(host), domains) || resolver(host_key(host))
}

/// Whether a name is a domain or stands below it.
fn domain_covers(domain: &Vec<char>, name: &Vec<char>) -> (r: bool)
    ensures
        r == covers(domain@, name@),
{
    let mut below: Vec<char> = Vec::new();
    below.push('.');
    let ghost start = below@;
    for i in 0..domain.len()
        invariant
            start == seq!['.'],
            below@ == start + domain@.take(i as int),
    {
        below.push(domain[i]);
        assert(domain@.take(i + 1) == domain@.take(i as int).push(domain@[i as int]));
    }
    assert(domain@.take(domain@.len() as int) == domain@);
    same_chars(name, domain) || has_end(name, &below)
}

/// Whether a name belongs to one of the other resolvers.
fn is_resolver(name: &Vec<char>) -> (r: bool)
    ensures
        r == resolver(name@),
{
    let a = domain_covers(&chars_of("dns.google"), name);
    let b = domain_covers(&chars_of("cloudflare-dns.com"), name);
    let c = domain_covers(&chars_of("dns.quad9.net"), name);
    let d = domain_covers(&chars_of("dns.nextdns.io"), name);
    let e = domain_covers(&chars_of("dns.adguard-dns.com"), name);
    let f = domain_covers(&chars_of("doh.opendns.com"), name);
    let g = domain_covers(&chars_of("dns.mullvad.net"), name);
    proof {
        let names = resolver_names();
        assert(a == covers(names[0], name@));
        assert(b == covers(names[1], name@));
        assert(c == covers(names[2], name@));
        assert(d == covers(names[3], name@));
        assert(e == covers(names[4], name@));
        assert(f == covers(names[5], name@));
        assert(g == covers(names[6], name@));
    }
    a || b || c || d || e || f || g
}

/// Whether a host is blocked: it is a listed domain or stands below one, or it belongs to
/// another resolver.
pub fn blocked(host: &str, domains: &[String]) -> (r: bool)
    ensures
        r == is_blocked(host@, texts(domains@)),
{
    let bare = trimmed_end_char(&chars_of(host), '.');
    let name = lowered(&bare);
    for i in 0..domains.len()
        invariant
            name@ == host_key(host@),
            forall|j: int|
                0 <= j < i ==> !(domain_key(#[trigger] texts(domains@)[j]).len() > 0 && covers(
                    domain_key(texts(domains@)[j]),
                    name@,
                )),
    {
        let entry = trimmed(&chars_of(domains[i].as_str()));
        let short = trimmed_end_char(&entry, '.');
        let domain = lowered(&short);
        assert(domain@ == domain_key(texts(domains@)[i as int]));
        if domain.len() > 0 && domain_covers(&domain, &name) {
            return true;
        }
    }
    is_resolver(&name)
}

/// Cutting points off the end leaves a lower-case text in lower case.
proof fn lemma_host_key_of_lower(host: Seq<char>)
    ensures
        host_key(lower(host)) == host_key(host),
    decreases host.len(),
{
    if host.len() > 0 {
        assert(lower(host).last() == lower_char(host.last()));
        if host.last() == '.' {
            assert(lower(host).drop_last() == lower(host.drop_last()));
            lemma_host_key_of_lower(host.drop_last());
        } else {
            assert(lower(host).last() != '.');
            assert(lower(lower(host)) == lower(host));
        }
    } else {
        assert(lower(host) == host);
    }
}

/// Points are cut off the end of the second part only, unless it holds nothing else.
proof fn lemma_trim_end_of_sum(a: Seq<char>, b: Seq<char>)
    requires
        trim_end_char(b, '.').len() > 0,
    ensures
        trim_end_char(a + b, '.') == a + trim_end_char(b, '.'),
    decreases b.len(),
{
    assert((a + b).last() == b.last());
    if b.last() == '.' {
        assert((a + b).drop_last() == a + b.drop_last());
        lemma_trim_end_of_sum(a, b.drop_last());
    }
}

/// Whether a host is blocked does not depend on upper and lower case, nor on the point
/// that may end a full name.
pub proof fn law_case_and_final_point_do_not_matter(host: Seq<char>, domains: Seq<Seq<char>>)
    ensures
        is_blocked(lower(host), domains) == is_blocked(host, domains),
        is_blocked(host.push('.'), domains) == is_blocked(host, domains),
{
    lemma_host_key_of_lower(host);
    assert(host.push('.').drop_last() == host);
}

/// What stands below a name that a domain covers is covered too.
proof fn lemma_covers_below(domain: Seq<char>, name: Seq<char>, label: Seq<char>)
    requires
        covers(domain, name),
    ensures
        covers(domain, label + seq!['.'] + name),
{
    let longer = label + seq!['.'] + name;
    let below = seq!['.'] + domain;
    if name == domain {
        assert(longer.skip(longer.len() - below.len()) =~= below);
    } else {
        assert(longer.skip(longer.len() - below.len()) =~= name.skip(name.len() - below.len()));
    }
}

/// Where a host is blocked, everything below it is blocked.
pub proof fn law_subdomains_of_blocked_hosts_are_blocked(
    host: Seq<char>,
    label: Seq<char>,
    domains: Seq<Seq<char>>,
)
    requires
        is_blocked(host, domains),
    ensures
        is_blocked(label + seq!['.'] + host, domains),
{
    let name = host_key(host);
    let sub = label + seq!['.'] + host;
    lemma_resolver_names();
    if name.len() == 0 {
        if listed(name, domains) {
            let i = choose|i: int|
                0 <= i < domains.len() && domain_key(#[trigger] domains[i]).len() > 0 && covers(
                    domain_key(domains[i]),
                    name,
                );
            assert(false);
        } else {
            let i = choose|i: int|
                0 <= i < resolver_names().len() && covers(#[trigger] resolver_names()[i], name);
            assert(resolver_names()[i].len() > 0);
            assert(false);
        }
    }
    lemma_trim_end_of_sum(label + seq!['.'], host);
    assert(host_key(sub) =~= lower(label) + seq!['.'] + name);
    if listed(name, domains) {
        let i = choose|i: int|
            0 <= i < domains.len() && domain_key(#[trigger] domains[i]).len() > 0 && covers(
                domain_key(domains[i]),
                name,
            );
        lemma_covers_below(domain_key(domains[i]), name, lower(label));
    } else {
        let i = choose|i: int| 0 <= i < resolver_names().len() && covers(#[trigger] resolver_names()[i], name);
        lemma_covers_below(resolver_names()[i], name, lower(label));
    }
}

/// No name of another resolver is empty.
proof fn lemma_resolver_names()
    ensures
        forall|i: int| 0 <= i < resolver_names().len() ==> (#[trigger] resolver_names()[i]).len() > 0,
{
    reveal_strlit("dns.google");
    reveal_strlit("cloudflare-dns.com");
    reveal_strlit("dns.quad9.net");
    reveal_strlit("dns.nextdns.io");
    reveal_strlit("dns.adguard-dns.com");
    reveal_strlit("doh.opendns.com");
    reveal_strlit("dns.mullvad.net");
}

/// Two lists together block exactly what one of them blocks, so a longer list blocks no
/// less; and the other resolvers are blocked by every list.
pub proof fn law_longer_lists_block_more(host: Seq<char>, domains: Seq<Seq<char>>, more: Seq<Seq<char>>)
    ensures
        is_blocked(host, domains + more) <==> is_blocked(host, domains) || is_blocked(host, more),
        is_blocked(host, Seq::empty()) ==> is_blocked(host, domains),
{
    let both = domains + more;
    if listed(host_key(host), both) {
        let i = choose|i: int|
            0 <= i < both.len() && domain_key(#[trigger] both[i]).len() > 0 && covers(
                domain_key(both[i]),
                host_key(host),
            );
        if i < domains.len() {
            assert(domains[i] == both[i]);
        } else {
            assert(more[i - domains.len()] == both[i]);
        }
    }
    if listed(host_key(host), more) {
        let i = choose|i: int|
            0 <= i < more.len() && domain_key(#[trigger] more[i]).len() > 0 && covers(
                domain_key(more[i]),
                host_key(host),
            );
        assert(both[domains.len() + i] == more[i]);
    }
    if listed(host_key(host), domains) {
        let i = choose|i: int|
            0 <= i < domains.len() && domain_key(#[trigger] domains[i]).len() > 0 && covers(
                domain_key(domains[i]),
                host_key(host),
            );
        assert(both[i] == domains[i]);
    }
}

/// An address of the internet protocol, by its bytes or its groups.
#[derive(Clone, Copy, Debug)]
pub enum IpAddr {
    V4([u8; 4]),
    V6([u16; 8]),
}

/// An address with the port at which it is connected to.
#[derive(Clone, Copy, Debug)]
pub struct Endpoint {
    pub ip: IpAddr,
    pub port: u16,
}

/// Whether an address of version 4 is public: not one that is kept for private networks,
/// the machine itself, a link, a carrier, or many receivers.
pub open spec fn public_v4(b: Seq<u8>) -> bool {
    &&& b[0] != 0
    &&& b[0] != 10
    &&& b[0] != 127
    &&& !(b[0] == 100 && 64 <= b[1] <= 127)
    &&& !(b[0] == 169 && b[1] == 254)
    &&& !(b[0] == 172 && 16 <= b[1] <= 31)
    &&& !(b[0] == 192 && b[1] == 168)
    &&& b[0] < 224
}

/// Whether an address of version 6 stands for one of version 4.
pub open spec fn mapped(g: Seq<u16>) -> bool {
    g[0] == 0 && g[1] == 0 && g[2] == 0 && g[3] == 0 && g[4] == 0 && g[5] == 0xffff
}

/// The bytes of the address of version 4 that one of version 6 stands for.
pub open spec fn mapped_bytes(g: Seq<u16>) -> Seq<u8> {
    seq![(g[6] / 256) as u8, (g[6] % 256) as u8, (g[7] / 256) as u8, (g[7] % 256) as u8]
}

/// Whether an address of version 6 that stands for no other is public.
pub open spec fn public_v6(g: Seq<u16>) -> bool {
    let low = g[0] == 0 && g[1] == 0 && g[2] == 0 && g[3] == 0 && g[4] == 0 && g[5] == 0 && g[6] == 0;
    &&& !(low && g[7] <= 1)
    &&& !(g[0] >= 0xff00)
    &&& !(0xfc00 <= g[0] < 0xfe00)
    &&& !(0xfe80 <= g[0] < 0xfec0)
}

/// Whether an address is public.
pub open spec fn public_address(ip: IpAddr) -> bool {
    match ip {
        IpAddr::V4(b) => public_v4(b@),
        IpAddr::V6(g) => if mapped(g@) {
            public_v4(mapped_bytes(g@))
        } else {
            public_v6(g@)
        },
    }
}

fn is_public_v4(a: u8, b: u8) -> (r: bool)
    ensures
        forall|s: Seq<u8>| s.len() == 4 && s[0] == a && s[1] == b ==> #[trigger] public_v4(s) == r,
{
    a != 0 && a != 10 && a != 127 && !(a == 100 && 64 <= b && b <= 127) && !(a == 169 && b == 254) && !(a == 172
        && 16 <= b && b <= 31) && !(a == 192 && b == 168) && a < 224
}

/// Whether an address is public. One of version 6 that stands for one of version 4 is
/// judged by that.
pub fn public_ip(ip: IpAddr) -> (r: bool)
    ensures
        r == public_address(ip),
{
    match ip {
        IpAddr::V4(b) => {
            assert(b@.len() == 4);
            is_public_v4(b[0], b[1])
        },
        IpAddr::V6(g) => {
            let zeros = g[0] == 0 && g[1] == 0 && g[2] == 0 && g[3] == 0 && g[4] == 0;
            if zeros && g[5] == 0xffff {
                assert(mapped_bytes(g@).len() == 4);
                is_public_v4((g[6] / 256) as u8, (g[6] % 256) as u8)
            } else {
                !(zeros && g[5] == 0 && g[6] == 0 && g[7] <= 1) && g[0] < 0xff00 && !(0xfc00 <= g[0] && g[0]
                    < 0xfe00) && !(0xfe80 <= g[0] && g[0] < 0xfec0)
            }
        },
    }
}

/// An address of version 4 is judged the same in either version.
pub proof fn law_mapped_addresses_are_judged_alike(b: [u8; 4], g: [u16; 8])
    requires
        mapped(g@),
        g@[6] == b@[0] * 256 + b@[1],
        g@[7] == b@[2] * 256 + b@[3],
    ensures
        public_address(IpAddr::V6(g)) == public_address(IpAddr::V4(b)),
{
    assert(mapped_bytes(g@)[0] == b@[0]);
    assert(mapped_bytes(g@)[1] == b@[1]);
}

/// Whether an address is one of the machine itself.
pub open spec fn loopback(ip: IpAddr) -> bool {
    match ip {
        IpAddr::V4(b) => b@[0] == 127,
        IpAddr::V6(g) => g@ == seq![0u16, 0, 0, 0, 0, 0, 0, 1],
    }
}

/// Whether an address is one of the machine itself.
pub fn is_loopback(ip: IpAddr) -> (r: bool)
    ensures
        r == loopback(ip),
{
    match ip {
        IpAddr::V4(b) => b[0] == 127,
        IpAddr::V6(g) => {
            let one = g[0] == 0 && g[1] == 0 && g[2] == 0 && g[3] == 0 && g[4] == 0 && g[5] == 0 && g[6] == 0
                && g[7] == 1;
            proof {
                if one {
                    assert(g@ =~= seq![0u16, 0, 0, 0, 0, 0, 0, 1]);
                }
            }
            one
        },
    }
}

/// No address of the machine itself is public.
pub proof fn law_loopback_is_not_public(ip: IpAddr)
    requires
        loopback(ip),
    ensures
        !public_address(ip),
{
    match ip {
        IpAddr::V6(g) => {
            assert(g@[5] == 0);
            assert(g@[7] == 1);
        },
        _ => {},
    }
}

/// Whether a connection is served: there is room for it, it comes from this machine, and
/// its owner may use the proxy.
pub open spec fn is_served(room: bool, peer: IpAddr, authorized: bool) -> bool {
    room && loopback(peer) && authorized
}

/// Whether a connection is served: there is room for it, it comes from this machine, and
/// its owner may use the proxy. One that is not is closed without a word.
pub fn serves(room: bool, peer: IpAddr, authorized: bool) -> (r: bool)
    ensures
        r == is_served(room, peer, authorized),
{
    room && is_loopback(peer) && authorized
}

/// What is said of resolved addresses that are not all public.
pub open spec fn non_public() -> Seq<char> {
    "Non-public target"@
}

/// Whether a name may be connected to at what it resolves to: there is an address, and all
/// are public.
pub open spec fn resolves_publicly(addresses: Seq<Endpoint>) -> bool {
    addresses.len() > 0 && forall|i: int| 0 <= i < addresses.len() ==> public_address((#[trigger] addresses[i]).ip)
}

/// What the proxy's own resolution makes of what a lookup found: an address that is not
/// public makes an error of it, and so does there being none.
pub open spec fn publicly(found: Result<Seq<Endpoint>, Seq<char>>) -> Result<Seq<Endpoint>, Seq<char>> {
    match found {
        Ok(addresses) => if resolves_publicly(addresses) {
            Ok(addresses)
        } else {
            Err(non_public())
        },
        Err(e) => Err(e),
    }
}

/// What a lookup found, as it is said.
pub open spec fn found_view(found: Result<Vec<Endpoint>, String>) -> Result<Seq<Endpoint>, Seq<char>> {
    match found {
        Ok(addresses) => Ok(addresses@),
        Err(e) => Err(e@),
    }
}

/// Checks the addresses that a name resolves to.
pub fn check_resolved(addresses: &Vec<Endpoint>) -> (r: Result<(), String>)
    ensures
        match r {
            Ok(_) => resolves_publicly(addresses@),
            Err(e) => !resolves_publicly(addresses@) && e@ == non_public(),
        },
{
    if addresses.len() == 0 {
        return Err("Non-public target".to_owned());
    }
    for i in 0..addresses.len()
        invariant
            forall|j: int| 0 <= j < i ==> public_address((#[trigger] addresses@[j]).ip),
    {
        if !public_ip(addresses[i].ip) {
            assert(!public_address(addresses@[i as int].ip));
            return Err("Non-public target".to_owned());
        }
    }
    Ok(())
}

/// Ends the resolution of a name by the proxy itself, given what the lookup found. The
/// addresses are handed on as they are, so that what was judged is what is connected to.
pub fn resolve_public(found: Result<Vec<Endpoint>, String>) -> (r: Result<Vec<Endpoint>, String>)
    ensures
        found_view(r) == publicly(found_view(found)),
{
    let addresses = match found {
        Ok(addresses) => addresses,
        Err(e) => {
            return Err(e);
        },
    };
    match check_resolved(&addresses) {
        Ok(_) => Ok(addresses),
        Err(e) => Err(e),
    }
}

/// The text that is read as the URL of a request: for a tunnel the target alone is named,
/// which must hold nothing but a host and a port.
pub open spec fn request_text(connect: bool, target: Seq<char>) -> Result<Seq<char>, Seq<char>> {
    if connect && (target.contains('/') || target.contains('?') || target.contains('#') || target.contains('@')) {
        Err("Invalid CONNECT target"@)
    } else if connect {
        Ok("https://"@ + target + "/"@)
    } else {
        Ok(target)
    }
}

/// What a result with texts on both sides says.
pub open spec fn text_outcome(r: Result<String, String>) -> Result<Seq<char>, Seq<char>> {
    match r {
        Ok(s) => Ok(s@),
        Err(e) => Err(e@),
    }
}

/// The text that is read as the URL of a request.
pub fn request_url(connect: bool, target: &str) -> (r: Result<String, String>)
    ensures
        text_outcome(r) == request_text(connect, target@),
{
    if connect && (has_char(target, '/') || has_char(target, '?') || has_char(target, '#') || has_char(
        target,
        '@',
    )) {
        Err("Invalid CONNECT target".to_owned())
    } else if connect {
        let a = join("https://", target);
        Ok(join(a.as_str(), "/"))
    } else {
        Ok(target.to_owned())
    }
}

/// The port of a request: that of HTTPS for a tunnel, else that of HTTP.
pub open spec fn port_of(connect: bool) -> u16 {
    if connect {
        443
    } else {
        80
    }
}

/// The host that a request is for, or why it is refused: no credentials, the usual port,
/// for anything but a tunnel HTTP, and a host that is not blocked.
pub open spec fn host_of(
    connect: bool,
    url: Result<UrlView, Seq<char>>,
    domains: Seq<Seq<char>>,
) -> Result<Seq<char>, Seq<char>> {
    match url {
        Err(e) => Err(e),
        Ok(u) => if u.username.len() > 0 || u.password is Some {
            Err("Credentials in URL"@)
        } else if u.port != Some(port_of(connect)) || (!connect && u.scheme != "http"@) {
            Err("Only HTTP and HTTPS supported"@)
        } else {
            match u.host {
                None => Err("No hostname"@),
                Some(host) => if is_blocked(host, domains) {
                    Err("Blocked domain"@)
                } else {
                    Ok(host)
                },
            }
        },
    }
}

/// The host that a request is for, given the parts of its URL, or why it is refused.
pub fn check_request(connect: bool, url: Result<UrlParts, String>, domains: &[String]) -> (r: Result<String, String>)
    ensures
        text_outcome(r) == host_of(connect, url_outcome(url), texts(domains@)),
{
    let parts = match url {
        Err(e) => {
            return Err(e);
        },
        Ok(parts) => parts,
    };
    let named = chars_of(parts.username.as_str());
    if named.len() > 0 || parts.password.is_some() {
        return Err("Credentials in URL".to_owned());
    }
    let port: u16 = if connect {
        443
    } else {
        80
    };
    let usual = match parts.port {
        Some(p) => p == port,
        None => false,
    };
    if !usual || (!connect && !same(parts.scheme.as_str(), "http")) {
        return Err("Only HTTP and HTTPS supported".to_owned());
    }
    match parts.host {
        None => Err("No hostname".to_owned()),
        Some(host) => if blocked(host.as_str(), domains) {
            Err("Blocked domain".to_owned())
        } else {
            Ok(host)
        },
    }
}

/// The host that a request is for, or why it is refused.
pub open spec fn requested_host(
    connect: bool,
    target: Seq<char>,
    domains: Seq<Seq<char>>,
) -> Result<Seq<char>, Seq<char>> {
    match request_text(connect, target) {
        Err(e) => Err(e),
        Ok(text) => host_of(connect, url_parts(text), domains),
    }
}

/// The host that a request is for, or why it is refused.
pub fn read_request(connect: bool, target: &str, domains: &[String]) -> (r: Result<String, String>)
    ensures
        text_outcome(r) == requested_host(connect, target@, texts(domains@)),
{
    match request_url(connect, target) {
        Err(e) => Err(e),
        Ok(text) => check_request(connect, parse_url(text.as_str()), domains),
    }
}

/// Whether a text is a number of an address of version 4: up to three digits, no zero before
/// others, at most 255.
pub open spec fn octet_text(s: Seq<char>) -> bool {
    &&& 1 <= s.len() <= 3
    &&& all_digits(s)
    &&& s.len() > 1 ==> s[0] != '0'
    &&& digits_value(s) <= 255
}

/// Whether a text is an address of version 4: four numbers with points between them.
pub open spec fn ipv4_text(s: Seq<char>) -> bool {
    let p = split(s, '.');
    p.len() == 4 && octet_text(p[0]) && octet_text(p[1]) && octet_text(p[2]) && octet_text(p[3])
}

/// Whether a text is a number of an address of version 4.
fn is_octet(v: &Vec<char>) -> (r: bool)
    ensures
        r == octet_text(v@),
{
    if v.len() == 0 || v.len() > 3 || (v.len() > 1 && v[0] == '0') {
        return false;
    }
    let mut value: u32 = 0;
    for i in 0..v.len()
        invariant
            v.len() <= 3,
            value == digits_value(v@.take(i as int)),
            i == 0 ==> value == 0,
            i == 1 ==> value <= 9,
            i == 2 ==> value <= 99,
            i == 3 ==> value <= 999,
            forall|j: int| 0 <= j < i ==> is_digit(#[trigger] v@[j]),
    {
        let c = v[i];
        if !('0' <= c && c <= '9') {
            assert(!is_digit(v@[i as int]));
            return false;
        }
        assert(v@.take(i + 1).drop_last() == v@.take(i as int));
        value = value * 10 + (c as u32 - 48);
    }
    assert(v@.take(v@.len() as int) == v@);
    value <= 255
}

/// Whether a text is an address of version 4.
pub fn is_ipv4(host: &str) -> (r: bool)
    ensures
        r == ipv4_text(host@),
{
    let p = split_at(&chars_of(host), '.');
    assert(pieces(p@) == split(host@, '.'));
    if p.len() != 4 {
        return false;
    }
    assert(pieces(p@)[0] == p@[0]@);
    assert(pieces(p@)[1] == p@[1]@);
    assert(pieces(p@)[2] == p@[2]@);
    assert(pieces(p@)[3] == p@[3]@);
    is_octet(&p[0]) && is_octet(&p[1]) && is_octet(&p[2]) && is_octet(&p[3])
}

/// Whether the host of a URL is an address: of version 4 as four numbers, of version 6 in
/// brackets.
pub open spec fn address_literal(host: Seq<char>) -> bool {
    ipv4_text(host) || (host.len() > 0 && host[0] == '[')
}

/// What is said of a host that is an address.
pub open spec fn literal_error() -> Seq<char> {
    "IP literal not allowed"@
}

/// Whether the host of a URL may be resolved: it is a name, not an address.
pub fn check_host(host: &str) -> (r: Result<(), String>)
    ensures
        match r {
            Ok(_) => !ipv4_text(host@) && !(host@.len() > 0 && host@[0] == '['),
            Err(e) => (ipv4_text(host@) || (host@.len() > 0 && host@[0] == '[')) && e@ == literal_error(),
        },
{
    let chars = chars_of(host);
    if is_ipv4(host) || (chars.len() > 0 && chars[0] == '[') {
        Err("IP literal not allowed".to_owned())
    } else {
        Ok(())
    }
}

/// The answer to a request that is refused, whatever the reason: its status and its text.
pub fn refusal() -> (r: (u16, String))
    ensures
        forall|reason: Seq<char>|
            #![trigger refused(reason)]
            refused(reason) == RelayStepView::Refuse(r.0, r.1@, reason),
        r.0 == 403,
        r.1@ == "ScreenGuard cannot allow this request."@,
{
    (403, "ScreenGuard cannot allow this request.".to_owned())
}

/// Whether a host is still allowed after it was resolved, by the list of that moment.
pub fn check_again(host: &str, domains: &[String]) -> (r: Result<(), String>)
    ensures
        match r {
            Ok(_) => !is_blocked(host@, texts(domains@)),
            Err(e) => is_blocked(host@, texts(domains@)) && e@ == "Policy changed during resolution"@,
        },
{
    if blocked(host, domains) {
        Err("Policy changed during resolution".to_owned())
    } else {
        Ok(())
    }
}

/// Whether a tunnel stays open when the list has changed; it closes with the list.
pub fn tunnel_stays(host: &str, domains: Option<&Vec<String>>) -> (r: bool)
    ensures
        r == match domains {
            Some(list) => !is_blocked(host@, texts(list@)),
            None => false,
        },
{
    match domains {
        Some(list) => !blocked(host, list.as_slice()),
        None => false,
    }
}

/// How far a request has come, by what is waited for.
#[derive(Clone, Copy, Debug, PartialEq, Eq, Structural)]
pub enum RelayStage {
    /// For the addresses of its host.
    Resolving,
    /// For the host to be reached.
    Connecting,
    /// For the tunnel to end, or the list to change.
    Open,
    Over,
}

/// What has happened to a request since the last step.
#[derive(Debug)]
pub enum RelayEvent<'a> {
    /// The addresses of its host, by whatever means it is resolved, or why there are none, and
    /// the list of this moment.
    Resolved(Result<Vec<Endpoint>, String>, &'a Vec<String>),
    /// The host was reached, or why not.
    Reached(Result<(), String>),
    /// The list has changed to this one, or there is none any more.
    Changed(Option<&'a Vec<String>>),
    /// One side has ended the tunnel.
    Ended,
}

/// What has happened to a request, as it is said.
pub enum RelayEventView {
    Resolved(Result<Seq<Endpoint>, Seq<char>>, Seq<Seq<char>>),
    Reached(Result<(), Seq<char>>),
    Changed(Option<Seq<Seq<char>>>),
    Ended,
}

impl<'a> View for RelayEvent<'a> {
    type V = RelayEventView;

    open spec fn view(&self) -> RelayEventView {
        match *self {
            RelayEvent::Resolved(Ok(a), d) => RelayEventView::Resolved(Ok(a@), texts(d@)),
            RelayEvent::Resolved(Err(e), d) => RelayEventView::Resolved(Err(e@), texts(d@)),
            RelayEvent::Reached(Ok(_)) => RelayEventView::Reached(Ok(())),
            RelayEvent::Reached(Err(e)) => RelayEventView::Reached(Err(e@)),
            RelayEvent::Changed(Some(d)) => RelayEventView::Changed(Some(texts(d@))),
            RelayEvent::Changed(None) => RelayEventView::Changed(None),
            RelayEvent::Ended => RelayEventView::Ended,
        }
    }
}

/// What is done next with a request.
#[derive(Debug)]
pub enum RelayStep {
    /// Resolve the host at the port.
    Resolve(String, u16),
    /// Connect to one of these addresses, and to no other.
    Tunnel(Vec<Endpoint>),
    /// Send the request on to the host, at one of these addresses and no other.
    Forward(String, Vec<Endpoint>),
    /// Answer with this status and nothing else, and carry what comes both ways.
    Accept(u16),
    /// Hand the answer on, without the headers of one connection.
    PassOn,
    /// Go on with the tunnel.
    Keep,
    /// Close the tunnel.
    Close,
    /// Answer with this status and this text; for the log, why.
    Refuse(u16, String, String),
}

/// What is done next with a request, as it is said.
pub enum RelayStepView {
    Resolve(Seq<char>, u16),
    Tunnel(Seq<Endpoint>),
    Forward(Seq<char>, Seq<Endpoint>),
    Accept(u16),
    PassOn,
    Keep,
    Close,
    Refuse(u16, Seq<char>, Seq<char>),
}

impl View for RelayStep {
    type V = RelayStepView;

    open spec fn view(&self) -> RelayStepView {
        match *self {
            RelayStep::Resolve(h, p) => RelayStepView::Resolve(h@, p),
            RelayStep::Tunnel(a) => RelayStepView::Tunnel(a@),
            RelayStep::Forward(h, a) => RelayStepView::Forward(h@, a@),
            RelayStep::Accept(code) => RelayStepView::Accept(code),
            RelayStep::PassOn => RelayStepView::PassOn,
            RelayStep::Keep => RelayStepView::Keep,
            RelayStep::Close => RelayStepView::Close,
            RelayStep::Refuse(code, text, reason) => RelayStepView::Refuse(code, text@, reason@),
        }
    }
}

/// A request that is being relayed.
#[derive(Debug)]
pub struct Relay {
    connect: bool,
    host: String,
    stage: RelayStage,
}

/// What a request that is being relayed holds.
pub struct RelayView {
    /// Whether it asks for a tunnel.
    pub connect: bool,
    pub host: Seq<char>,
    pub stage: RelayStage,
}

impl View for Relay {
    type V = RelayView;

    closed spec fn view(&self) -> RelayView {
        RelayView { connect: self.connect, host: self.host@, stage: self.stage }
    }
}

impl RelayView {
    /// Whether what has happened is what was waited for. Only tunnels stay open.
    pub open spec fn expects(self, e: RelayEventView) -> bool {
        match self.stage {
            RelayStage::Resolving => e is Resolved,
            RelayStage::Connecting => e is Reached,
            RelayStage::Open => e is Changed || e is Ended,
            RelayStage::Over => false,
        }
    }
}

/// The refusal of a request, for a reason.
pub open spec fn refused(reason: Seq<char>) -> RelayStepView {
    RelayStepView::Refuse(403, "ScreenGuard cannot allow this request."@, reason)
}

/// What becomes of a request at first, given its host or why it has none: it is refused, or
/// its host, a name, is resolved.
pub open spec fn relay_start(connect: bool, host: Result<Seq<char>, Seq<char>>) -> (RelayView, RelayStepView) {
    match host {
        Err(e) => (RelayView { connect, host: Seq::empty(), stage: RelayStage::Over }, refused(e)),
        Ok(h) => if address_literal(h) {
            (RelayView { connect, host: h, stage: RelayStage::Over }, refused(literal_error()))
        } else {
            (
                RelayView { connect, host: h, stage: RelayStage::Resolving },
                RelayStepView::Resolve(h, port_of(connect)),
            )
        },
    }
}

/// What follows an event: the request afterwards, and what is done next. A host that
/// resolves is judged once more, by the list of that moment. Its addresses were judged by
/// whoever resolved it.
pub open spec fn relay_next(s: RelayView, e: RelayEventView) -> (RelayView, RelayStepView) {
    let over = RelayView { stage: RelayStage::Over, ..s };
    match (s.stage, e) {
        (RelayStage::Resolving, RelayEventView::Resolved(Err(e), _)) => (over, refused(e)),
        (RelayStage::Resolving, RelayEventView::Resolved(Ok(addresses), domains)) => if is_blocked(s.host, domains) {
            (over, refused("Policy changed during resolution"@))
        } else {
            (
                RelayView { stage: RelayStage::Connecting, ..s },
                if s.connect {
                    RelayStepView::Tunnel(addresses)
                } else {
                    RelayStepView::Forward(s.host, addresses)
                },
            )
        },
        (RelayStage::Connecting, RelayEventView::Reached(Err(e))) => (over, refused(e)),
        (RelayStage::Connecting, RelayEventView::Reached(Ok(_))) => if s.connect {
            (RelayView { stage: RelayStage::Open, ..s }, RelayStepView::Accept(200))
        } else {
            (over, RelayStepView::PassOn)
        },
        (RelayStage::Open, RelayEventView::Changed(Some(domains))) => if is_blocked(s.host, domains) {
            (over, RelayStepView::Close)
        } else {
            (s, RelayStepView::Keep)
        },
        _ => (over, RelayStepView::Close),
    }
}

/// Refuses a request, for a reason.
fn refuse(reason: String) -> (r: RelayStep)
    ensures
        r@ == refused(reason@),
{
    let (code, text) = refusal();
    RelayStep::Refuse(code, text, reason)
}

impl Relay {
    /// A request, given its host or why it has none.
    pub fn with_host(connect: bool, host: Result<String, String>) -> (r: (Relay, RelayStep))
        ensures
            (r.0@, r.1@) == relay_start(connect, text_outcome(host)),
    {
        match host {
            Err(e) => {
                let over = Relay { connect, host: String::new(), stage: RelayStage::Over };
                assert(over@.host =~= Seq::<char>::empty());
                (over, refuse(e))
            },
            Ok(h) => match check_host(h.as_str()) {
                Err(e) => (Relay { connect, host: h, stage: RelayStage::Over }, refuse(e)),
                Ok(_) => {
                    let port: u16 = if connect {
                        443
                    } else {
                        80
                    };
                    let step = RelayStep::Resolve(h.clone(), port);
                    (Relay { connect, host: h, stage: RelayStage::Resolving }, step)
                },
            },
        }
    }

    /// A request as it comes: its target is read and judged by the list, and nothing that is
    /// refused is resolved.
    pub fn begin(connect: bool, target: &str, domains: &[String]) -> (r: (Relay, RelayStep))
        ensures
            (r.0@, r.1@) == relay_start(connect, requested_host(connect, target@, texts(domains@))),
    {
        Relay::with_host(connect, read_request(connect, target, domains))
    }

    /// Takes what has happened, and says what is done next.
    pub fn next(&mut self, event: RelayEvent<'_>) -> (r: RelayStep)
        requires
            old(self)@.expects(event@),
        ensures
            final(self)@ == relay_next(old(self)@, event@).0,
            r@ == relay_next(old(self)@, event@).1,
    {
        match event {
            RelayEvent::Resolved(found, domains) => self.on_resolved(found, domains),
            RelayEvent::Reached(result) => match result {
                Err(e) => {
                    self.stage = RelayStage::Over;
                    refuse(e)
                },
                Ok(_) => if self.connect {
                    self.stage = RelayStage::Open;
                    RelayStep::Accept(200)
                } else {
                    self.stage = RelayStage::Over;
                    RelayStep::PassOn
                },
            },
            RelayEvent::Changed(list) => if tunnel_stays(self.host.as_str(), list) {
                RelayStep::Keep
            } else {
                self.stage = RelayStage::Over;
                RelayStep::Close
            },
            RelayEvent::Ended => {
                self.stage = RelayStage::Over;
                RelayStep::Close
            },
        }
    }

    fn on_resolved(&mut self, found: Result<Vec<Endpoint>, String>, domains: &Vec<String>) -> (r: RelayStep)
        requires
            old(self)@.stage == RelayStage::Resolving,
        ensures
            final(self)@ == relay_next(old(self)@, RelayEvent::Resolved(found, domains)@).0,
            r@ == relay_next(old(self)@, RelayEvent::Resolved(found, domains)@).1,
    {
        let addresses = match found {
            Err(e) => {
                self.stage = RelayStage::Over;
                return refuse(e);
            },
            Ok(addresses) => addresses,
        };
        if let Err(e) = check_again(self.host.as_str(), domains.as_slice()) {
            self.stage = RelayStage::Over;
            return refuse(e);
        }
        self.stage = RelayStage::Connecting;
        if self.connect {
            RelayStep::Tunnel(addresses)
        } else {
            RelayStep::Forward(self.host.clone(), addresses)
        }
    }
}

/// Whether a step reaches out to a host.
pub open spec fn reaches_out(step: RelayStepView) -> bool {
    step is Tunnel || step is Forward
}

/// Whether a request goes through: its host is accepted, is a name, resolves, and is still
/// allowed then.
pub open spec fn goes_through(
    connect: bool,
    url: Result<UrlView, Seq<char>>,
    domains: Seq<Seq<char>>,
    found: Result<Seq<Endpoint>, Seq<char>>,
    domains_then: Seq<Seq<char>>,
) -> bool {
    &&& host_of(connect, url, domains) matches Ok(host) && !address_literal(host) && !is_blocked(host, domains_then)
    &&& found is Ok
}

/// A request reaches out exactly where it goes through: first its host is judged, then it is
/// resolved, by whatever means, then it is judged again. It then goes to the addresses that
/// it was resolved to, and to no others.
pub proof fn law_requests_reach_out_exactly_where_they_go_through(
    connect: bool,
    url: Result<UrlView, Seq<char>>,
    domains: Seq<Seq<char>>,
    found: Result<Seq<Endpoint>, Seq<char>>,
    domains_then: Seq<Seq<char>>,
)
    ensures
        ({
            let (first, step) = relay_start(connect, host_of(connect, url, domains));
            let (second, then) = relay_next(first, RelayEventView::Resolved(found, domains_then));
            &&& !reaches_out(step)
            &&& (step is Resolve && reaches_out(then)) <==> goes_through(connect, url, domains, found, domains_then)
            &&& reaches_out(then) ==> then == (if connect {
                RelayStepView::Tunnel(found->Ok_0)
            } else {
                RelayStepView::Forward(first.host, found->Ok_0)
            })
        }),
{
}

/// A request that the proxy resolves itself, and that goes through, is for a host that
/// neither list blocks, which is a name, over the usual port, and without credentials. It
/// goes to the addresses that the lookup found, all of them public.
pub proof fn law_only_allowed_public_hosts_are_reached(
    connect: bool,
    url: UrlView,
    domains: Seq<Seq<char>>,
    found: Result<Seq<Endpoint>, Seq<char>>,
    domains_then: Seq<Seq<char>>,
)
    requires
        goes_through(connect, Ok(url), domains, publicly(found), domains_then),
    ensures
        url.host is Some,
        !is_blocked(url.host->Some_0, domains),
        !is_blocked(url.host->Some_0, domains_then),
        !resolver(host_key(url.host->Some_0)),
        !ipv4_text(url.host->Some_0),
        url.port == Some(port_of(connect)),
        !connect ==> url.scheme == "http"@,
        url.username.len() == 0 && url.password is None,
        publicly(found) == found,
        found->Ok_0.len() > 0,
        forall|i: int|
            0 <= i < found->Ok_0.len() ==> public_address((#[trigger] found->Ok_0[i]).ip) && !loopback(
                found->Ok_0[i].ip,
            ),
{
    let addresses = found->Ok_0;
    assert forall|i: int| 0 <= i < addresses.len() implies public_address((#[trigger] addresses[i]).ip) && !loopback(
        addresses[i].ip,
    ) by {
        if loopback(addresses[i].ip) {
            law_loopback_is_not_public(addresses[i].ip);
        }
    }
}

/// A request that the proxy resolves itself is refused where the lookup found an address
/// that is not public, or none.
pub proof fn law_non_public_targets_are_refused(
    s: RelayView,
    addresses: Seq<Endpoint>,
    i: int,
    domains: Seq<Seq<char>>,
)
    requires
        s.stage == RelayStage::Resolving,
        addresses.len() == 0 || (0 <= i < addresses.len() && !public_address(addresses[i].ip)),
    ensures
        relay_next(s, RelayEventView::Resolved(publicly(Ok(addresses)), domains)) == (
            RelayView { stage: RelayStage::Over, ..s },
            refused(non_public()),
        ),
{
}

/// A request for a blocked host, for an address or over another port is answered with the
/// refusal at once: nothing is resolved for it, and nothing is connected to.
pub proof fn law_refused_requests_are_not_resolved(
    connect: bool,
    url: UrlView,
    domains: Seq<Seq<char>>,
)
    requires
        ({
            ||| (url.host matches Some(host) && (is_blocked(host, domains) || address_literal(host)))
            ||| url.port != Some(port_of(connect))
            ||| url.username.len() > 0 || url.password is Some
        }),
    ensures
        ({
            let (first, step) = relay_start(connect, host_of(connect, Ok(url), domains));
            &&& first.stage == RelayStage::Over
            &&& step matches RelayStepView::Refuse(code, text, _) && code == 403 && text
                == "ScreenGuard cannot allow this request."@
        }),
{
}

/// Whenever a request is refused, at whatever step and for whatever reason, the answer is the
/// same, and it is over.
pub proof fn law_refusals_are_answered_alike(
    connect: bool,
    host: Result<Seq<char>, Seq<char>>,
    s: RelayView,
    e: RelayEventView,
)
    ensures
        relay_start(connect, host).1 matches RelayStepView::Refuse(code, text, _) ==> code == 403 && text
            == "ScreenGuard cannot allow this request."@ && relay_start(connect, host).0.stage == RelayStage::Over,
        relay_next(s, e).1 matches RelayStepView::Refuse(code, text, _) ==> code == 403 && text
            == "ScreenGuard cannot allow this request."@ && relay_next(s, e).0.stage == RelayStage::Over,
{
}

/// A tunnel after a series of lists, one after another.
pub open spec fn after_lists(s: RelayView, lists: Seq<Seq<Seq<char>>>) -> RelayView
    decreases lists.len(),
{
    if lists.len() == 0 {
        s
    } else {
        let before = after_lists(s, lists.drop_last());
        if before.stage == RelayStage::Open {
            relay_next(before, RelayEventView::Changed(Some(lists.last()))).0
        } else {
            before
        }
    }
}

/// An open tunnel stays open exactly as long as no list blocks its host; the first one that
/// does closes it.
pub proof fn law_tunnels_close_when_blocked(s: RelayView, lists: Seq<Seq<Seq<char>>>)
    requires
        s.stage == RelayStage::Open,
    ensures
        after_lists(s, lists).host == s.host,
        after_lists(s, lists).stage == RelayStage::Open <==> forall|i: int|
            0 <= i < lists.len() ==> !is_blocked(s.host, #[trigger] lists[i]),
    decreases lists.len(),
{
    if lists.len() > 0 {
        let front = lists.drop_last();
        law_tunnels_close_when_blocked(s, front);
        assert(forall|i: int| 0 <= i < front.len() ==> #[trigger] front[i] == lists[i]);
        assert(lists[lists.len() - 1] == lists.last());
        if after_lists(s, lists).stage == RelayStage::Open {
            assert forall|i: int| 0 <= i < lists.len() implies !is_blocked(s.host, #[trigger] lists[i]) by {
                if i < front.len() {
                    assert(!is_blocked(s.host, front[i]));
                }
            }
        } else if forall|i: int| 0 <= i < lists.len() ==> !is_blocked(s.host, #[trigger] lists[i]) {
            assert forall|i: int| 0 <= i < front.len() implies !is_blocked(s.host, #[trigger] front[i]) by {
                assert(!is_blocked(s.host, lists[i]));
            }
            assert(!is_blocked(s.host, lists[lists.len() - 1]));
        }
    }
}

/// The collection of headers of the http crate.
#[verifier::external_type_specification]
#[verifier::external_body]
#[verifier::reject_recursive_types(T)]
pub struct ExHeaderMap<T>(reqwest::header::HeaderMap<T>);

/// The value of a header of the http crate.
#[verifier::external_type_specification]
#[verifier::external_body]
pub struct ExHeaderValue(reqwest::header::HeaderValue);

/// The headers of a collection that a text can name: under each name, in lower case, the
/// bytes of its values in order. A name with a quotation mark, which a collection can hold
/// where `HeaderName::from_static` or `HeaderName::from_lowercase` made it, is found by no
/// text and is not among them.
pub uninterp spec fn headers_of(
    headers: reqwest::header::HeaderMap<reqwest::header::HeaderValue>,
) -> Map<Seq<char>, Seq<Seq<u8>>>;

/// The bytes of each entry of a list.
pub open spec fn byte_lists(v: Seq<Vec<u8>>) -> Seq<Seq<u8>> {
    Seq::new(v.len(), |i: int| v[i]@)
}

/// The values under a name; none where the name is missing.
pub open spec fn values_under(m: Map<Seq<char>, Seq<Seq<u8>>>, name: Seq<char>) -> Seq<Seq<u8>> {
    if m.dom().contains(name) {
        m[name]
    } else {
        Seq::empty()
    }
}

/// `HeaderMap::get_all`, with the bytes of each value. Names are found in upper or lower
/// case; a missing name has no values, and neither has a text that is no header name.
#[verifier::external_body]
fn header_values(
    headers: &reqwest::header::HeaderMap<reqwest::header::HeaderValue>,
    name: &str,
) -> (r: Vec<Vec<u8>>)
    ensures
        byte_lists(r@) == values_under(headers_of(*headers), lower(name@)),
{
    headers.get_all(name).iter().map(|v| v.as_bytes().to_vec()).collect()
}

/// `HeaderMap::remove`. All values under the name go, whether it is written in upper or
/// lower case, and nothing else changes. A text that is no header name, such as one with a
/// quotation mark, names nothing in the collection, and nothing changes.
#[verifier::external_body]
fn remove_header(headers: &mut reqwest::header::HeaderMap<reqwest::header::HeaderValue>, name: &str)
    ensures
        headers_of(*final(headers)) == headers_of(*old(headers)).remove(lower(name@)),
{
    headers.remove(name);
}

/// Whether bytes are text that a header shows: visible ASCII characters, spaces and tabs.
pub open spec fn visible(value: Seq<u8>) -> bool {
    forall|i: int| 0 <= i < value.len() ==> (32 <= #[trigger] value[i] < 127) || value[i] == 9
}

/// Bytes as ASCII characters.
pub open spec fn ascii(value: Seq<u8>) -> Seq<char> {
    Seq::new(value.len(), |i: int| value[i] as char)
}

/// The names that a value lists, separated by commas; none where it is not visible text.
pub open spec fn names_in(value: Seq<u8>) -> Seq<Seq<char>> {
    if visible(value) {
        let parts = split(ascii(value), ',');
        Seq::new(parts.len(), |i: int| trim(parts[i]))
    } else {
        Seq::empty()
    }
}

/// The names that values list, one value after another.
pub open spec fn all_names(values: Seq<Seq<u8>>) -> Seq<Seq<char>>
    decreases values.len(),
{
    if values.len() == 0 {
        Seq::empty()
    } else {
        all_names(values.drop_last()) + names_in(values.last())
    }
}

/// The headers that speak of one connection only.
pub open spec fn hop_names() -> Seq<Seq<char>> {
    seq![
        "connection"@,
        "proxy-connection"@,
        "keep-alive"@,
        "transfer-encoding"@,
        "te"@,
        "trailer"@,
        "upgrade"@,
    ]
}

/// Headers without those of some names.
pub open spec fn minus(
    m: Map<Seq<char>, Seq<Seq<u8>>>,
    names: Seq<Seq<char>>,
) -> Map<Seq<char>, Seq<Seq<u8>>>
    decreases names.len(),
{
    if names.len() == 0 {
        m
    } else {
        minus(m, names.drop_last()).remove(lower(names.last()))
    }
}

/// Headers without those that speak of one connection only: the usual ones, and those that
/// the connection header lists.
pub open spec fn without_hops(m: Map<Seq<char>, Seq<Seq<u8>>>) -> Map<Seq<char>, Seq<Seq<u8>>> {
    minus(minus(m, all_names(values_under(m, lower("connection"@)))), hop_names())
}

/// The characters of visible text.
fn header_text(value: &Vec<u8>) -> (r: Option<Vec<char>>)
    ensures
        match r {
            Some(chars) => visible(value@) && chars@ == ascii(value@),
            None => !visible(value@),
        },
{
    let mut out: Vec<char> = Vec::new();
    for i in 0..value.len()
        invariant
            out@ == ascii(value@.take(i as int)),
            forall|j: int| 0 <= j < i ==> (32 <= #[trigger] value@[j] < 127) || value@[j] == 9,
    {
        let b = value[i];
        if !((32 <= b && b < 127) || b == 9) {
            assert(!((32 <= value@[i as int] < 127) || value@[i as int] == 9));
            return None;
        }
        out.push(b as char);
        assert(ascii(value@.take(i + 1)) == ascii(value@.take(i as int)).push(b as char));
    }
    assert(value@.take(value@.len() as int) == value@);
    Some(out)
}

/// The names that values list.
fn listed_names(values: &Vec<Vec<u8>>) -> (r: Vec<String>)
    ensures
        texts(r@) == all_names(byte_lists(values@)),
{
    let ghost all = byte_lists(values@);
    let mut out: Vec<String> = Vec::new();
    assert(all.take(0) == Seq::<Seq<u8>>::empty());
    assert(texts(out@) == all_names(all.take(0)));
    for i in 0..values.len()
        invariant
            all == byte_lists(values@),
            texts(out@) == all_names(all.take(i as int)),
    {
        assert(all.take(i + 1).drop_last() == all.take(i as int));
        assert(all.take(i + 1).last() == values@[i as int]@);
        let ghost before = texts(out@);
        match header_text(&values[i]) {
            Some(chars) => {
                let parts = split_at(&chars, ',');
                let ghost names = names_in(values@[i as int]@);
                for k in 0..parts.len()
                    invariant
                        names.len() == parts.len(),
                        forall|j: int| 0 <= j < parts.len() ==> #[trigger] names[j] == trim(parts@[j]@),
                        texts(out@) == before + names.take(k as int),
                {
                    let ghost so_far = out@;
                    let name = string_of(&trimmed(&parts[k]));
                    out.push(name);
                    assert(texts(out@) == texts(so_far).push(names[k as int]));
                    assert(names.take(k + 1) == names.take(k as int).push(names[k as int]));
                }
                assert(names.take(names.len() as int) == names);
            },
            None => {
                assert(before + Seq::<Seq<char>>::empty() == before);
            },
        }
    }
    assert(all.take(all.len() as int) == all);
    out
}

/// Removes the headers of some names.
fn remove_all(
    headers: &mut reqwest::header::HeaderMap<reqwest::header::HeaderValue>,
    names: &Vec<String>,
)
    ensures
        headers_of(*final(headers)) == minus(headers_of(*old(headers)), texts(names@)),
{
    let ghost all = texts(names@);
    assert(all.take(0) == Seq::<Seq<char>>::empty());
    for i in 0..names.len()
        invariant
            all == texts(names@),
            headers_of(*headers) == minus(headers_of(*old(headers)), all.take(i as int)),
    {
        assert(all.take(i + 1).drop_last() == all.take(i as int));
        remove_header(headers, names[i].as_str());
    }
    assert(all.take(all.len() as int) == all);
}

/// Removes the headers that speak of one connection only.
pub fn remove_hop_headers(headers: &mut reqwest::header::HeaderMap<reqwest::header::HeaderValue>)
    ensures
        headers_of(*final(headers)) == without_hops(headers_of(*old(headers))),
{
    let values = header_values(headers, "connection");
    let named = listed_names(&values);
    remove_all(headers, &named);
    let mut usual: Vec<String> = Vec::new();
    usual.push("connection".to_owned());
    usual.push("proxy-connection".to_owned());
    usual.push("keep-alive".to_owned());
    usual.push("transfer-encoding".to_owned());
    usual.push("te".to_owned());
    usual.push("trailer".to_owned());
    usual.push("upgrade".to_owned());
    assert(texts(usual@) == hop_names());
    remove_all(headers, &usual);
}

/// The headers of a request that are forwarded: not what speaks of one connection only, nor
/// the host, nor what is meant for the proxy.
pub open spec fn forwarded(m: Map<Seq<char>, Seq<Seq<u8>>>) -> Map<Seq<char>, Seq<Seq<u8>>> {
    without_hops(m).remove(lower("host"@)).remove(lower("proxy-authorization"@))
}

/// Removes from a request what is not forwarded: what speaks of one connection only, the
/// host, which is set anew, and what is meant for the proxy.
pub fn forwarded_headers(headers: &mut reqwest::header::HeaderMap<reqwest::header::HeaderValue>)
    ensures
        headers_of(*final(headers)) == forwarded(headers_of(*old(headers))),
{
    remove_hop_headers(headers);
    remove_header(headers, "host");
    remove_header(headers, "proxy-authorization");
}

/// A header is removed with some names exactly where one of them names it; what remains
/// keeps its values.
proof fn lemma_minus(m: Map<Seq<char>, Seq<Seq<u8>>>, names: Seq<Seq<char>>, key: Seq<char>)
    ensures
        minus(m, names).dom().contains(key) <==> m.dom().contains(key) && forall|i: int|
            0 <= i < names.len() ==> lower(#[trigger] names[i]) != key,
        minus(m, names).dom().contains(key) ==> minus(m, names)[key] == m[key],
    decreases names.len(),
{
    if names.len() > 0 {
        let front = names.drop_last();
        lemma_minus(m, front, key);
        assert(forall|i: int| 0 <= i < front.len() ==> #[trigger] front[i] == names[i]);
        if forall|i: int| 0 <= i < names.len() ==> lower(#[trigger] names[i]) != key {
            assert(lower(names[names.len() - 1]) != key);
            assert forall|i: int| 0 <= i < front.len() implies lower(#[trigger] front[i]) != key by {
                assert(lower(names[i]) != key);
            }
        }
        if minus(m, names).dom().contains(key) {
            assert forall|i: int| 0 <= i < names.len() implies lower(#[trigger] names[i]) != key by {
                if i < front.len() {
                    assert(lower(front[i]) != key);
                }
            }
        }
    }
}

/// A header stays exactly where it is none of the usual headers of one connection and the
/// connection header does not list it; a header that stays keeps its values.
pub proof fn law_hop_headers_go_and_others_stay(m: Map<Seq<char>, Seq<Seq<u8>>>, key: Seq<char>)
    ensures
        without_hops(m).dom().contains(key) <==> {
            &&& m.dom().contains(key)
            &&& forall|i: int| 0 <= i < hop_names().len() ==> lower(#[trigger] hop_names()[i]) != key
            &&& forall|i: int|
                0 <= i < all_names(values_under(m, lower("connection"@))).len() ==> lower(
                    #[trigger] all_names(values_under(m, lower("connection"@)))[i],
                ) != key
        },
        without_hops(m).dom().contains(key) ==> without_hops(m)[key] == m[key],
{
    let named = all_names(values_under(m, lower("connection"@)));
    lemma_minus(m, named, key);
    lemma_minus(minus(m, named), hop_names(), key);
}

/// Removing the headers of one connection a second time changes nothing.
pub proof fn law_removing_hop_headers_twice_changes_nothing(m: Map<Seq<char>, Seq<Seq<u8>>>)
    ensures
        without_hops(without_hops(m)) == without_hops(m),
{
    let once = without_hops(m);
    assert(values_under(once, lower("connection"@)) == Seq::<Seq<u8>>::empty()) by {
        law_hop_headers_go_and_others_stay(m, lower("connection"@));
        assert(hop_names()[0] == "connection"@);
    }
    assert forall|key: Seq<char>|
        without_hops(once).dom().contains(key) == #[trigger] once.dom().contains(key) && (once.dom().contains(key)
            ==> without_hops(once)[key] == once[key]) by {
        law_hop_headers_go_and_others_stay(m, key);
        law_hop_headers_go_and_others_stay(once, key);
    }
    assert(without_hops(once) =~= once);
}

/// Whether two characters are the same letter, in upper or lower case, or the same otherwise.
pub open spec fn alike(a: char, b: char) -> bool {
    ||| a == b
    ||| 65 <= a as int <= 90 && b as int == a as int + 32
    ||| 65 <= b as int <= 90 && a as int == b as int + 32
}

/// A list entry, without the white space around it and the points at its end, blocks the host
/// of that name and every host that ends in a point and that name, in upper or lower case.
pub proof fn law_listed_domains_block_what_stands_below(
    domains: Seq<Seq<char>>,
    i: int,
    name: Seq<char>,
    label: Seq<char>,
)
    requires
        0 <= i < domains.len(),
        trim_end_char(trim(domains[i]), '.').len() > 0,
        name.len() == trim_end_char(trim(domains[i]), '.').len(),
        forall|k: int| 0 <= k < name.len() ==> alike(#[trigger] name[k], trim_end_char(trim(domains[i]), '.')[k]),
    ensures
        is_blocked(name, domains),
        is_blocked(label + seq!['.'] + name, domains),
{
    let listed_name = trim_end_char(trim(domains[i]), '.');
    lemma_cut_end(trim(domains[i]));
    assert(alike(name[name.len() - 1], listed_name[name.len() - 1]));
    assert(name.last() != '.');
    assert(trim_end_char(name, '.') == name);
    assert(lower(name) =~= lower(listed_name)) by {
        assert forall|k: int| 0 <= k < name.len() implies lower_char(name[k]) == lower_char(listed_name[k]) by {
            assert(alike(name[k], listed_name[k]));
        }
    }
    assert(domain_key(domains[i]) == lower(listed_name));
    assert(covers(domain_key(domains[i]), host_key(name)));
    let long = label + seq!['.'] + name;
    assert(long.last() == name.last());
    assert(trim_end_char(long, '.') == long);
    let below = seq!['.'] + domain_key(domains[i]);
    let key = host_key(long);
    assert(key.skip(key.len() - below.len()) =~= below);
    assert(covers(domain_key(domains[i]), key));
}

proof fn lemma_cut_end(s: Seq<char>)
    ensures
        trim_end_char(s, '.').len() > 0 ==> trim_end_char(s, '.').last() != '.',
    decreases s.len(),
{
    if s.len() > 0 && s.last() == '.' {
        lemma_cut_end(s.drop_last());
    }
}

/// A host that a list blocks, though no list at all does not, is a name of the list or ends in
/// a point and such a name, in lower case; entries that hold nothing else block nothing.
pub proof fn law_nothing_else_is_blocked(host: Seq<char>, domains: Seq<Seq<char>>) -> (i: int)
    requires
        is_blocked(host, domains),
        !is_blocked(host, Seq::empty()),
    ensures
        0 <= i < domains.len(),
        trim_end_char(trim(domains[i]), '.').len() > 0,
        ({
            let name = lower(trim_end_char(host, '.'));
            let of_list = lower(trim_end_char(trim(domains[i]), '.'));
            ||| name == of_list
            ||| name.len() > of_list.len() && name.skip(name.len() - of_list.len()) == of_list && name[name.len()
                - of_list.len() - 1] == '.'
        }),
{
    let key = host_key(host);
    let i = choose|i: int|
        0 <= i < domains.len() && domain_key(#[trigger] domains[i]).len() > 0 && covers(domain_key(domains[i]), key);
    let d = domain_key(domains[i]);
    if key != d {
        let below = seq!['.'] + d;
        let end = key.skip(key.len() - below.len());
        assert(end == below);
        assert(key[key.len() - below.len()] == end[0]);
        assert(key.skip(key.len() - d.len()) =~= d) by {
            assert forall|k: int| 0 <= k < d.len() implies key[key.len() - d.len() + k] == d[k] by {
                assert(end[k + 1] == below[k + 1]);
            }
        }
    }
    i
}

/// Under every list, the hosts of other resolvers are blocked, and so is what stands below.
pub proof fn law_known_resolvers_are_blocked(label: Seq<char>, domains: Seq<Seq<char>>)
    ensures
        is_blocked("dns.google"@, domains) && is_blocked(label + seq!['.'] + "dns.google"@, domains),
        is_blocked("cloudflare-dns.com"@, domains) && is_blocked(label + seq!['.'] + "cloudflare-dns.com"@, domains),
        is_blocked("dns.quad9.net"@, domains) && is_blocked(label + seq!['.'] + "dns.quad9.net"@, domains),
        is_blocked("dns.nextdns.io"@, domains) && is_blocked(label + seq!['.'] + "dns.nextdns.io"@, domains),
        is_blocked("dns.adguard-dns.com"@, domains) && is_blocked(label + seq!['.'] + "dns.adguard-dns.com"@, domains),
        is_blocked("doh.opendns.com"@, domains) && is_blocked(label + seq!['.'] + "doh.opendns.com"@, domains),
        is_blocked("dns.mullvad.net"@, domains) && is_blocked(label + seq!['.'] + "dns.mullvad.net"@, domains),
{
    reveal_strlit("dns.google");
    reveal_strlit("cloudflare-dns.com");
    reveal_strlit("dns.quad9.net");
    reveal_strlit("dns.nextdns.io");
    reveal_strlit("dns.adguard-dns.com");
    reveal_strlit("doh.opendns.com");
    reveal_strlit("dns.mullvad.net");
    lemma_resolver_is_blocked(0, domains);
    lemma_resolver_is_blocked(1, domains);
    lemma_resolver_is_blocked(2, domains);
    lemma_resolver_is_blocked(3, domains);
    lemma_resolver_is_blocked(4, domains);
    lemma_resolver_is_blocked(5, domains);
    lemma_resolver_is_blocked(6, domains);
    law_subdomains_of_blocked_hosts_are_blocked("dns.google"@, label, domains);
    law_subdomains_of_blocked_hosts_are_blocked("cloudflare-dns.com"@, label, domains);
    law_subdomains_of_blocked_hosts_are_blocked("dns.quad9.net"@, label, domains);
    law_subdomains_of_blocked_hosts_are_blocked("dns.nextdns.io"@, label, domains);
    law_subdomains_of_blocked_hosts_are_blocked("dns.adguard-dns.com"@, label, domains);
    law_subdomains_of_blocked_hosts_are_blocked("doh.opendns.com"@, label, domains);
    law_subdomains_of_blocked_hosts_are_blocked("dns.mullvad.net"@, label, domains);
}

proof fn lemma_resolver_is_blocked(i: int, domains: Seq<Seq<char>>)
    requires
        0 <= i < resolver_names().len(),
        resolver_names()[i].len() > 0,
        resolver_names()[i].last() != '.',
        forall|k: int| 0 <= k < resolver_names()[i].len() ==> !(65 <= #[trigger] resolver_names()[i][k] as int <= 90),
    ensures
        is_blocked(resolver_names()[i], domains),
{
    let name = resolver_names()[i];
    assert(lower(name) =~= name);
    assert(host_key(name) == name);
    assert(covers(resolver_names()[i], name));
}

/// A host that every list blocks is one of the known resolvers, or stands below one.
pub proof fn law_only_known_resolvers_are_always_blocked(host: Seq<char>)
    requires
        is_blocked(host, Seq::empty()),
    ensures
        exists|name: Seq<char>|
            {
                let key = lower(trim_end_char(host, '.'));
                &&& name == "dns.google"@ || name == "cloudflare-dns.com"@ || name == "dns.quad9.net"@ || name
                    == "dns.nextdns.io"@ || name == "dns.adguard-dns.com"@ || name == "doh.opendns.com"@ || name
                    == "dns.mullvad.net"@
                &&& key == name || key.len() > name.len() && key == key.take(key.len() - name.len() - 1).push('.')
                    + #[trigger] name.take(name.len() as int)
            },
{
    let key = host_key(host);
    let i = choose|i: int| 0 <= i < resolver_names().len() && covers(#[trigger] resolver_names()[i], key);
    let name = resolver_names()[i];
    assert(name.take(name.len() as int) =~= name);
    if key != name {
        let below = seq!['.'] + name;
        assert(key =~= key.take(key.len() - below.len()) + key.skip(key.len() - below.len()));
        assert(key =~= key.take(key.len() - name.len() - 1).push('.') + name);
    }
}

/// An address of version 4, as one number, is public exactly where it lies in none of the
/// ranges that are kept: 0/8, 10/8, 100.64/10, 127/8, 169.254/16, 172.16/12, 192.168/16, and
/// everything from 224 on.
pub proof fn law_kept_ranges_are_not_public(b: [u8; 4])
    ensures
        ({
            let n = ((b@[0] * 256 + b@[1]) * 256 + b@[2]) * 256 + b@[3];
            public_address(IpAddr::V4(b)) <==> !{
                ||| n < 0x0100_0000
                ||| 0x0a00_0000 <= n < 0x0b00_0000
                ||| 0x6440_0000 <= n < 0x6480_0000
                ||| 0x7f00_0000 <= n < 0x8000_0000
                ||| 0xa9fe_0000 <= n < 0xa9ff_0000
                ||| 0xac10_0000 <= n < 0xac20_0000
                ||| 0xc0a8_0000 <= n < 0xc0a9_0000
                ||| 0xe000_0000 <= n
            }
        }),
{
}

/// An address of version 6 that stands for none of version 4 is public exactly where it is
/// neither all zeros, nor zeros and a one, and its first bits are none of those that are kept
/// for one site, one link or many receivers.
pub proof fn law_local_addresses_of_version_6_are_not_public(g: [u16; 8])
    requires
        !(g@[0] == 0 && g@[1] == 0 && g@[2] == 0 && g@[3] == 0 && g@[4] == 0 && g@[5] == 65535),
    ensures
        public_address(IpAddr::V6(g)) <==> !{
            ||| g@ == seq![0u16, 0, 0, 0, 0, 0, 0, 0]
            ||| g@ == seq![0u16, 0, 0, 0, 0, 0, 0, 1]
            ||| g@[0] / 512 == 126
            ||| g@[0] / 64 == 1018
            ||| g@[0] / 256 == 255
        },
{
    if g@[0] == 0 && g@[1] == 0 && g@[2] == 0 && g@[3] == 0 && g@[4] == 0 && g@[5] == 0 && g@[6] == 0 {
        if g@[7] == 0 {
            assert(g@ =~= seq![0u16, 0, 0, 0, 0, 0, 0, 0]);
        }
        if g@[7] == 1 {
            assert(g@ =~= seq![0u16, 0, 0, 0, 0, 0, 0, 1]);
        }
    }
}

/// An address of version 6 that stands for one of version 4 is judged by the bytes of its last
/// two groups.
pub proof fn law_mapped_addresses_hide_nothing(g: [u16; 8], b: [u8; 4])
    requires
        g@[0] == 0 && g@[1] == 0 && g@[2] == 0 && g@[3] == 0 && g@[4] == 0 && g@[5] == 65535,
        g@[6] == 256 * b@[0] + b@[1],
        g@[7] == 256 * b@[2] + b@[3],
    ensures
        public_address(IpAddr::V6(g)) == public_address(IpAddr::V4(b)),
{
    law_mapped_addresses_are_judged_alike(b, g);
}

/// A connection is served only with room, with leave, and from an address of the machine
/// itself, which begins with 127 or is the one of version 6; and then it is.
pub proof fn law_only_this_machine_is_served(room: bool, b: [u8; 4], g: [u16; 8], authorized: bool)
    ensures
        is_served(room, IpAddr::V4(b), authorized) <==> room && authorized && b@[0] == 127,
        is_served(room, IpAddr::V6(g), authorized) <==> room && authorized && g@[7] == 1 && forall|i: int|
            0 <= i < 7 ==> #[trigger] g@[i] == 0,
{
    if g@[7] == 1 && forall|i: int| 0 <= i < 7 ==> #[trigger] g@[i] == 0 {
        assert(g@ =~= seq![0u16, 0, 0, 0, 0, 0, 0, 1]);
    }
    if g@ == seq![0u16, 0, 0, 0, 0, 0, 0, 1] {
        assert forall|i: int| 0 <= i < 7 implies #[trigger] g@[i] == 0 by {}
    }
}

/// A request without credentials, over the usual port, by HTTP unless it is a tunnel, for a
/// named host that the list does not block, is resolved under that name at that port.
pub proof fn law_ordinary_requests_are_resolved(
    connect: bool,
    url: UrlView,
    host: Seq<char>,
    domains: Seq<Seq<char>>,
)
    requires
        url.username.len() == 0,
        url.password is None,
        connect ==> url.port == Some(443u16),
        !connect ==> url.port == Some(80u16) && url.scheme == "http"@,
        url.host == Some(host),
        !is_blocked(host, domains),
        !address_literal(host),
    ensures
        host_of(connect, Ok(url), domains) == Ok::<Seq<char>, Seq<char>>(host),
        connect ==> relay_start(connect, host_of(connect, Ok(url), domains)).1 == RelayStepView::Resolve(host, 443),
        !connect ==> relay_start(connect, host_of(connect, Ok(url), domains)).1 == RelayStepView::Resolve(host, 80),
        relay_start(connect, host_of(connect, Ok(url), domains)).0.stage == RelayStage::Resolving,
{
}

/// Why a request is refused: first for credentials, then for its port or scheme, then for
/// having no host, then for a host that is blocked.
pub proof fn law_refusals_have_their_reason(connect: bool, url: UrlView, domains: Seq<Seq<char>>)
    ensures
        ({
            let secret = url.username.len() > 0 || url.password is Some;
            let usual = if connect {
                url.port == Some(443u16)
            } else {
                url.port == Some(80u16) && url.scheme == "http"@
            };
            let r = host_of(connect, Ok(url), domains);
            &&& secret ==> r == Err::<Seq<char>, Seq<char>>("Credentials in URL"@)
            &&& !secret && !usual ==> r == Err::<Seq<char>, Seq<char>>("Only HTTP and HTTPS supported"@)
            &&& !secret && usual && url.host is None ==> r == Err::<Seq<char>, Seq<char>>("No hostname"@)
            &&& !secret && usual && url.host is Some && is_blocked(url.host->Some_0, domains) ==> r == Err::<
                Seq<char>,
                Seq<char>,
            >("Blocked domain"@)
        }),
{
}

/// The target of a tunnel is read as the host and port of an HTTPS URL, and refused where it
/// holds anything else; any other target is a URL as it stands.
pub proof fn law_targets_are_read_as_urls(target: Seq<char>)
    ensures
        request_text(false, target) == Ok::<Seq<char>, Seq<char>>(target),
        request_text(true, target) is Err <==> exists|i: int|
            0 <= i < target.len() && (#[trigger] target[i] == '/' || target[i] == '?' || target[i] == '#' || target[i]
                == '@'),
        request_text(true, target) matches Ok(text) ==> text == "https://"@ + target + seq!['/'],
        request_text(true, target) matches Err(e) ==> e == "Invalid CONNECT target"@,
{
    reveal_strlit("/");
    assert("/"@ =~= seq!['/']);
    if exists|i: int|
        0 <= i < target.len() && (#[trigger] target[i] == '/' || target[i] == '?' || target[i] == '#' || target[i]
            == '@') {
        let i = choose|i: int|
            0 <= i < target.len() && (#[trigger] target[i] == '/' || target[i] == '?' || target[i] == '#' || target[i]
                == '@');
        assert(target.contains(target[i]));
    }
    if target.contains('/') {
        let k = choose|k: int| 0 <= k < target.len() && target[k] == '/';
        assert(target[k] == '/');
    }
    if target.contains('?') {
        let k = choose|k: int| 0 <= k < target.len() && target[k] == '?';
        assert(target[k] == '?');
    }
    if target.contains('#') {
        let k = choose|k: int| 0 <= k < target.len() && target[k] == '#';
        assert(target[k] == '#');
    }
    if target.contains('@') {
        let k = choose|k: int| 0 <= k < target.len() && target[k] == '@';
        assert(target[k] == '@');
    }
}

proof fn lemma_octet_is_decimal(s: Seq<char>)
    requires
        s.len() > 0,
        all_digits(s),
        s.len() > 1 ==> s[0] != '0',
    ensures
        decimal(digits_value(s)) == s,
        s.len() > 1 ==> digits_value(s) >= 10,
        s[0] != '0' ==> digits_value(s) >= 1,
    decreases s.len(),
{
    reveal_with_fuel(digits_value, 2);
    let front = s.drop_last();
    assert(is_digit(s.last())) by {
        assert(is_digit(s[s.len() - 1]));
    }
    if s.len() == 1 {
        assert(front =~= Seq::<char>::empty());
        assert(decimal(digits_value(s)) =~= s);
    } else {
        assert forall|i: int| 0 <= i < front.len() implies is_digit(#[trigger] front[i]) by {
            assert(is_digit(s[i]));
        }
        assert(front[0] == s[0]);
        lemma_octet_is_decimal(front);
        let d = s.last() as int - 48;
        assert(digits_value(s) == digits_value(front) * 10 + d);
        assert(digits_value(s) / 10 == digits_value(front));
        assert(digits_value(s) % 10 == d);
        assert(decimal(digits_value(s)) =~= s);
    }
}

proof fn lemma_decimal_is_octet(n: nat)
    requires
        n <= 255,
    ensures
        octet_text(decimal(n)),
        !decimal(n).contains('.'),
{
    reveal_with_fuel(decimal, 4);
    crate::text::law_decimal_denotes_its_number(n);
    assert(decimal(n).len() <= 3);
    assert(decimal(n).len() > 1 ==> n > 0);
    assert(!decimal(n).contains('.')) by {
        if decimal(n).contains('.') {
            let k = choose|k: int| 0 <= k < decimal(n).len() && decimal(n)[k] == '.';
            assert(is_digit(decimal(n)[k]));
        }
    }
}

proof fn lemma_split_after(a: Seq<char>, b: Seq<char>, sep: char)
    requires
        !b.contains(sep),
    ensures
        split(b, sep) == seq![b],
        split(a.push(sep) + b, sep) == split(a, sep).push(b),
    decreases b.len(),
{
    let whole = a.push(sep) + b;
    if b.len() == 0 {
        assert(b =~= Seq::<char>::empty());
        assert(whole =~= a.push(sep));
        assert(whole.drop_last() =~= a);
        assert(split(b, sep) =~= seq![b]);
        assert(split(whole, sep) =~= split(a, sep).push(b));
    } else {
        let front = b.drop_last();
        assert(!front.contains(sep)) by {
            if front.contains(sep) {
                let k = choose|k: int| 0 <= k < front.len() && front[k] == sep;
                assert(b[k] == sep);
            }
        }
        lemma_split_after(a, front, sep);
        assert(b.last() != sep) by {
            assert(b[b.len() - 1] == b.last());
        }
        assert(whole.drop_last() =~= a.push(sep) + front);
        assert(front.push(b.last()) =~= b);
        assert(split(b, sep) =~= seq![b]);
        assert(split(whole, sep) =~= split(a, sep).push(b));
    }
}

/// A text is an address of version 4 exactly where it is four numbers up to 255, in decimal,
/// with points between them. Such a host is refused before it is resolved, as is one in
/// brackets.
pub proof fn law_addresses_are_four_numbers(a: nat, b: nat, c: nat, d: nat, connect: bool, tail: Seq<char>)
    requires
        a <= 255,
        b <= 255,
        c <= 255,
        d <= 255,
    ensures
        ({
            let host = decimal(a).push('.') + decimal(b).push('.') + decimal(c).push('.') + decimal(d);
            &&& address_literal(host)
            &&& relay_start(connect, Ok(host)).1 is Refuse
            &&& relay_start(connect, Ok(seq!['['] + tail)).1 is Refuse
        }),
{
    lemma_decimal_is_octet(a);
    lemma_decimal_is_octet(b);
    lemma_decimal_is_octet(c);
    lemma_decimal_is_octet(d);
    let one = decimal(a);
    let two = one.push('.') + decimal(b);
    let three = two.push('.') + decimal(c);
    let four = three.push('.') + decimal(d);
    lemma_split_after(Seq::empty(), one, '.');
    lemma_split_after(one, decimal(b), '.');
    lemma_split_after(two, decimal(c), '.');
    lemma_split_after(three, decimal(d), '.');
    assert(four =~= decimal(a).push('.') + decimal(b).push('.') + decimal(c).push('.') + decimal(d));
    let p = split(four, '.');
    assert(p =~= seq![decimal(a), decimal(b), decimal(c), decimal(d)]);
    let bracket = seq!['['] + tail;
    assert(bracket[0] == '[');
}

/// A host that is refused as an address is four numbers up to 255 with points between them, or
/// begins with a bracket; so a name is never taken for an address.
pub proof fn law_names_are_not_addresses(host: Seq<char>)
    requires
        address_literal(host),
        host.len() > 0 ==> host[0] != '[',
    ensures
        exists|a: nat, b: nat, c: nat, d: nat|
            a <= 255 && b <= 255 && c <= 255 && d <= 255 && host == joined(
                seq![#[trigger] decimal(a), #[trigger] decimal(b), #[trigger] decimal(c), #[trigger] decimal(d)],
                '.',
            ),
{
    let p = split(host, '.');
    crate::text::law_split_pieces_make_the_text(host, '.');
    lemma_octet_is_decimal(p[0]);
    lemma_octet_is_decimal(p[1]);
    lemma_octet_is_decimal(p[2]);
    lemma_octet_is_decimal(p[3]);
    let a = digits_value(p[0]);
    let b = digits_value(p[1]);
    let c = digits_value(p[2]);
    let d = digits_value(p[3]);
    assert(p =~= seq![decimal(a), decimal(b), decimal(c), decimal(d)]);
}

/// A tunnel is accepted once its host was reached, a forwarded request is answered with what
/// came back, and a host that cannot be reached, or that is blocked in the meantime, is refused.
pub proof fn law_reached_hosts_are_answered(s: RelayView, e: Seq<char>, addresses: Seq<Endpoint>, domains: Seq<Seq<char>>)
    ensures
        s.stage == RelayStage::Connecting ==> {
            &&& relay_next(s, RelayEventView::Reached(Ok(()))).1 == (if s.connect {
                RelayStepView::Accept(200)
            } else {
                RelayStepView::PassOn
            })
            &&& relay_next(s, RelayEventView::Reached(Ok(()))).0.stage == (if s.connect {
                RelayStage::Open
            } else {
                RelayStage::Over
            })
            &&& relay_next(s, RelayEventView::Reached(Err(e))).1 is Refuse
        },
        s.stage == RelayStage::Resolving && is_blocked(s.host, domains) ==> relay_next(
            s,
            RelayEventView::Resolved(Ok(addresses), domains),
        ).1 is Refuse,
        s.stage == RelayStage::Resolving && !is_blocked(s.host, domains) ==> relay_next(
            s,
            RelayEventView::Resolved(Ok(addresses), domains),
        ).1 == (if s.connect {
            RelayStepView::Tunnel(addresses)
        } else {
            RelayStepView::Forward(s.host, addresses)
        }),
        s.stage == RelayStage::Resolving ==> relay_next(s, RelayEventView::Resolved(Err(e), domains)).1 is Refuse,
        s.stage == RelayStage::Open ==> {
            &&& relay_next(s, RelayEventView::Changed(None)).1 == RelayStepView::Close
            &&& relay_next(s, RelayEventView::Ended).1 == RelayStepView::Close
            &&& relay_next(s, RelayEventView::Changed(Some(domains))).1 == (if is_blocked(s.host, domains) {
                RelayStepView::Close
            } else {
                RelayStepView::Keep
            })
        },
{
}

/// Whether a name is one of the headers that speak of one connection.
pub open spec fn usual_hop(key: Seq<char>) -> bool {
    key == "connection"@ || key == "proxy-connection"@ || key == "keep-alive"@ || key == "transfer-encoding"@ || key
        == "te"@ || key == "trailer"@ || key == "upgrade"@
}

proof fn lemma_hop_names_are_low()
    ensures
        forall|i: int| 0 <= i < hop_names().len() ==> lower(#[trigger] hop_names()[i]) == hop_names()[i],
        lower("host"@) == "host"@,
        lower("proxy-authorization"@) == "proxy-authorization"@,
{
    reveal_strlit("connection");
    reveal_strlit("proxy-connection");
    reveal_strlit("keep-alive");
    reveal_strlit("transfer-encoding");
    reveal_strlit("te");
    reveal_strlit("trailer");
    reveal_strlit("upgrade");
    reveal_strlit("host");
    reveal_strlit("proxy-authorization");
    assert(lower("connection"@) =~= "connection"@);
    assert(lower("proxy-connection"@) =~= "proxy-connection"@);
    assert(lower("keep-alive"@) =~= "keep-alive"@);
    assert(lower("transfer-encoding"@) =~= "transfer-encoding"@);
    assert(lower("te"@) =~= "te"@);
    assert(lower("trailer"@) =~= "trailer"@);
    assert(lower("upgrade"@) =~= "upgrade"@);
    assert(lower("host"@) =~= "host"@);
    assert(lower("proxy-authorization"@) =~= "proxy-authorization"@);
}

/// The usual headers of one connection are removed whatever the connection header says; a
/// forwarded request loses its host and what it says to the proxy too; and without a
/// connection header everything else stays.
pub proof fn law_usual_hop_headers_are_removed(m: Map<Seq<char>, Seq<Seq<u8>>>, key: Seq<char>)
    ensures
        usual_hop(key) ==> !without_hops(m).dom().contains(key),
        !forwarded(m).dom().contains("host"@),
        !forwarded(m).dom().contains("proxy-authorization"@),
        key != "host"@ && key != "proxy-authorization"@ ==> (forwarded(m).dom().contains(key)
            <==> without_hops(m).dom().contains(key)),
        forwarded(m).dom().contains(key) ==> forwarded(m)[key] == m[key],
        !m.dom().contains("connection"@) && !usual_hop(key) ==> (without_hops(m).dom().contains(key)
            <==> m.dom().contains(key)),
{
    lemma_hop_names_are_low();
    law_hop_headers_go_and_others_stay(m, key);
    let hops = hop_names();
    assert(hops[0] == "connection"@);
    assert(hops[1] == "proxy-connection"@);
    assert(hops[2] == "keep-alive"@);
    assert(hops[3] == "transfer-encoding"@);
    assert(hops[4] == "te"@);
    assert(hops[5] == "trailer"@);
    assert(hops[6] == "upgrade"@);
    if usual_hop(key) {
        assert(lower(hops[0]) == hops[0] && lower(hops[1]) == hops[1] && lower(hops[2]) == hops[2] && lower(hops[3])
            == hops[3] && lower(hops[4]) == hops[4] && lower(hops[5]) == hops[5] && lower(hops[6]) == hops[6]);
    }
    if forwarded(m).dom().contains(key) {
        assert(without_hops(m).dom().contains(key));
    }
    if !m.dom().contains("connection"@) && !usual_hop(key) && m.dom().contains(key) {
        assert(values_under(m, lower("connection"@)) == Seq::<Seq<u8>>::empty()) by {
            assert(lower(hops[0]) == hops[0]);
        }
        assert forall|i: int| 0 <= i < hops.len() implies lower(#[trigger] hops[i]) != key by {
            assert(hops[i] == hops[0] || hops[i] == hops[1] || hops[i] == hops[2] || hops[i] == hops[3] || hops[i]
                == hops[4] || hops[i] == hops[5] || hops[i] == hops[6]);
        }
    }
}

proof fn lemma_all_names(values: Seq<Seq<u8>>, v: int, k: int)
    requires
        0 <= v < values.len(),
        0 <= k < names_in(values[v]).len(),
    ensures
        exists|i: int| 0 <= i < all_names(values).len() && all_names(values)[i] == names_in(values[v])[k],
    decreases values.len(),
{
    let front = all_names(values.drop_last());
    let whole = all_names(values);
    if v == values.len() - 1 {
        assert(whole[front.len() + k] == names_in(values[v])[k]);
    } else {
        assert(values.drop_last()[v] == values[v]);
        lemma_all_names(values.drop_last(), v, k);
        let i = choose|i: int| 0 <= i < front.len() && front[i] == names_in(values[v])[k];
        assert(whole[i] == front[i]);
    }
}

/// A header is removed where a value of the connection header, made of visible ASCII
/// characters, spaces and tabs, names it between commas: in upper or lower case, and with or
/// without white space around.
pub proof fn law_named_headers_are_removed(
    m: Map<Seq<char>, Seq<Seq<u8>>>,
    v: int,
    before: Seq<char>,
    name: Seq<char>,
    after: Seq<char>,
)
    requires
        m.dom().contains("connection"@),
        0 <= v < m["connection"@].len(),
        forall|i: int|
            0 <= i < m["connection"@][v].len() ==> (32 <= #[trigger] m["connection"@][v][i] <= 126)
                || m["connection"@][v][i] == 9,
        Seq::new(m["connection"@][v].len(), |i: int| m["connection"@][v][i] as char) == before.push(',') + name + (
        seq![','] + after),
        !name.contains(','),
    ensures
        !without_hops(m).dom().contains(lower(trim(name))),
{
    lemma_hop_names_are_low();
    assert(hop_names()[0] == "connection"@);
    assert(lower(hop_names()[0]) == hop_names()[0]);
    let values = m["connection"@];
    let value = values[v];
    assert(values_under(m, lower("connection"@)) == values);
    assert(visible(value));
    let text = ascii(value);
    assert(text == Seq::new(value.len(), |i: int| value[i] as char));
    let left = before.push(',') + name;
    lemma_split_after(before, name, ',');
    assert(text =~= left.push(',') + after);
    lemma_split_prefix(left, after, ',');
    let n = split(left, ',').len() - 1;
    crate::text::law_split_pieces_make_the_text(before, ',');
    assert(split(left, ',')[n as int] == name);
    assert(split(text, ',')[n as int] == name);
    assert(names_in(value)[n as int] == trim(name));
    lemma_all_names(values, v, n as int);
    law_hop_headers_go_and_others_stay(m, lower(trim(name)));
    let i = choose|i: int| 0 <= i < all_names(values).len() && all_names(values)[i] == trim(name);
    assert(lower(all_names(values)[i]) == lower(trim(name)));
}

/// The pieces of a text that ends in a separator stay its first pieces, whatever follows.
proof fn lemma_split_prefix(a: Seq<char>, b: Seq<char>, sep: char)
    ensures
        split(a.push(sep) + b, sep).len() > split(a, sep).len(),
        forall|i: int| 0 <= i < split(a, sep).len() ==> #[trigger] split(a.push(sep) + b, sep)[i] == split(a, sep)[i],
    decreases b.len(),
{
    let whole = a.push(sep) + b;
    crate::text::lemma_split_nonempty(a, sep);
    if b.len() == 0 {
        assert(whole =~= a.push(sep));
        assert(whole.drop_last() =~= a);
    } else {
        lemma_split_prefix(a, b.drop_last(), sep);
        assert(whole.drop_last() =~= a.push(sep) + b.drop_last());
    }
}

/// A tunnel is judged by the parts of the HTTPS URL of its target, and any other request by the parts
/// of its target as it stands; a target that is none is refused.
pub proof fn law_requests_are_judged_by_their_url(target: Seq<char>, domains: Seq<Seq<char>>)
    ensures
        requested_host(false, target, domains) == host_of(false, url_parts(target), domains),
        !(exists|i: int|
            0 <= i < target.len() && (#[trigger] target[i] == '/' || target[i] == '?' || target[i] == '#' || target[i]
                == '@')) ==> requested_host(true, target, domains) == host_of(
            true,
            url_parts("https://"@ + target + seq!['/']),
            domains,
        ),
        (exists|i: int|
            0 <= i < target.len() && (#[trigger] target[i] == '/' || target[i] == '?' || target[i] == '#' || target[i]
                == '@')) ==> requested_host(true, target, domains) == Err::<Seq<char>, Seq<char>>(
            "Invalid CONNECT target"@,
        ),
{
    law_targets_are_read_as_urls(target);
}

/// Whatever the reason, a refused request gets the one answer: it is forbidden, and the answer does not
/// tell why.
pub proof fn law_refusals_do_not_tell_why(reason: Seq<char>, other: Seq<char>)
    ensures
        refused(reason) matches RelayStepView::Refuse(status, text, told) && status == 403 && text
            == "ScreenGuard cannot allow this request."@ && told == reason,
        (refused(reason)->Refuse_0, refused(reason)->Refuse_1) == (refused(other)->Refuse_0, refused(other)->Refuse_1),
{
}

/// What a lookup found may be connected to exactly where it is one address or more, each of them
/// public; one public address is enough, and one that is not public spoils all.
pub proof fn law_all_found_addresses_are_public(found: Seq<Endpoint>, e: Seq<char>, i: int)
    ensures
        found.len() == 0 ==> publicly(Ok(found)) == Err::<Seq<Endpoint>, Seq<char>>("Non-public target"@),
        0 <= i < found.len() && !public_address(found[i].ip) ==> publicly(Ok(found)) == Err::<
            Seq<Endpoint>,
            Seq<char>,
        >("Non-public target"@),
        found.len() >= 1 && (forall|j: int| 0 <= j < found.len() ==> public_address((#[trigger] found[j]).ip))
            ==> publicly(Ok(found)) == Ok::<Seq<Endpoint>, Seq<char>>(found),
        found.len() == 1 ==> (publicly(Ok(found)) is Ok <==> public_address(found[0].ip)),
        publicly(Err(e)) == Err::<Seq<Endpoint>, Seq<char>>(e),
{
}

/// The address of version 4 that one of version 6 stands for has the four bytes of its last two groups,
/// the upper byte of each first.
pub proof fn law_mapped_addresses_keep_their_bytes(g: Seq<u16>)
    requires
        g.len() == 8,
    ensures
        mapped_bytes(g).len() == 4,
        mapped_bytes(g)[0] * 256 + mapped_bytes(g)[1] == g[6],
        mapped_bytes(g)[2] * 256 + mapped_bytes(g)[3] == g[7],
{
}

} // verus!
