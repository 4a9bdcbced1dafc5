use reqwest::header::{HeaderMap, HeaderValue};
use screenguard::address::UrlParts;
use screenguard::proxy::{
    blocked, check_again, check_host, check_request, check_resolved, forwarded_headers, is_ipv4, is_loopback,
    public_ip, read_request, refusal, remove_hop_headers, request_url, resolve_public, serves, tunnel_stays, Endpoint,
    IpAddr, Relay, RelayEvent, RelayStep,
};

fn v4(a: u8, b: u8, c: u8, d: u8) -> IpAddr {
    IpAddr::V4([a, b, c, d])
}

fn at(ip: IpAddr, port: u16) -> Endpoint {
    Endpoint { ip, port }
}

fn strings(list: &[&str]) -> Vec<String> {
    list.iter().map(|s| s.to_string()).collect()
}

fn parts(scheme: &str, host: Option<&str>, port: Option<u16>) -> UrlParts {
    UrlParts {
        scheme: scheme.to_string(),
        username: String::new(),
        password: None,
        host: host.map(|h| h.to_string()),
        port,
        path: "/".to_string(),
        query: None,
        fragment: None,
    }
}

#[test]
fn domain_boundaries_and_case() {
    let list = vec!["YouTube.COM.".into()];
    assert!(blocked("m.youtube.com", &list));
    assert!(blocked("YOUTUBE.COM.", &list));
    assert!(!blocked("notyoutube.com", &list));
    assert!(!blocked("youtube.com.evil.net", &list));
}

#[test]
fn reject_private_and_mapped_targets() {
    for ip in [
        v4(127, 0, 0, 1),
        v4(10, 0, 0, 1),
        v4(192, 168, 1, 1),
        v4(169, 254, 169, 254),
        v4(100, 64, 0, 1),
        IpAddr::V6([0, 0, 0, 0, 0, 0, 0, 1]),
        IpAddr::V6([0, 0, 0, 0, 0, 0xffff, 0x7f00, 1]),
        IpAddr::V6([0xfc00, 0, 0, 0, 0, 0, 0, 1]),
        IpAddr::V6([0xfe80, 0, 0, 0, 0, 0, 0, 1]),
    ] {
        assert!(!public_ip(ip), "{ip:?}");
    }
    assert!(public_ip(v4(1, 2, 3, 4)));
}

#[test]
fn the_edges_of_what_is_not_public() {
    for ip in [
        v4(0, 1, 2, 3),
        v4(100, 127, 255, 255),
        v4(172, 16, 0, 0),
        v4(172, 31, 255, 255),
        v4(224, 0, 0, 1),
        v4(255, 255, 255, 255),
        IpAddr::V6([0; 8]),
        IpAddr::V6([0xfdff, 1, 2, 3, 4, 5, 6, 7]),
        IpAddr::V6([0xfebf, 1, 2, 3, 4, 5, 6, 7]),
        IpAddr::V6([0xff02, 0, 0, 0, 0, 0, 0, 1]),
        IpAddr::V6([0, 0, 0, 0, 0, 0xffff, 0x0a00, 1]),
    ] {
        assert!(!public_ip(ip), "{ip:?}");
    }
    for ip in [
        v4(100, 63, 0, 0),
        v4(100, 128, 0, 0),
        v4(172, 15, 0, 0),
        v4(172, 32, 0, 0),
        v4(169, 253, 0, 0),
        v4(192, 167, 0, 0),
        v4(223, 255, 255, 255),
        IpAddr::V6([0, 0, 0, 0, 0, 0, 0, 2]),
        IpAddr::V6([0, 0, 0, 0, 0, 0xffff, 0x0102, 0x0304]),
        IpAddr::V6([0xfec0, 0, 0, 0, 0, 0, 0, 1]),
        IpAddr::V6([0x2606, 0x4700, 0, 0, 0, 0, 0, 1]),
    ] {
        assert!(public_ip(ip), "{ip:?}");
    }
}

#[test]
fn only_the_machine_itself_is_loopback() {
    assert!(is_loopback(v4(127, 9, 9, 9)));
    assert!(!is_loopback(v4(128, 0, 0, 1)));
    assert!(is_loopback(IpAddr::V6([0, 0, 0, 0, 0, 0, 0, 1])));
    assert!(!is_loopback(IpAddr::V6([0, 0, 0, 0, 0, 0xffff, 0x7f00, 1])));
}

#[test]
fn other_resolvers_are_always_blocked() {
    for host in ["dns.google", "DNS.Google.", "x.cloudflare-dns.com", "dns.mullvad.net"] {
        assert!(blocked(host, &[]));
    }
    assert!(!blocked("google", &[]));
    assert!(!blocked("example.com", &strings(&["", " . ", "example.org"])));
    assert!(blocked("example.com", &strings(&["  Example.com.. "])));
    assert!(blocked("a.b.example.com", &strings(&["example.com", "other"])));
}

#[test]
fn another_user_or_machine_is_not_served() {
    assert!(serves(true, v4(127, 0, 0, 1), true));
    assert!(!serves(true, v4(127, 0, 0, 1), false));
    assert!(!serves(true, v4(10, 0, 0, 1), true));
    assert!(!serves(false, v4(127, 0, 0, 1), true));
}

#[test]
fn blocked_tunnels_are_refused_before_resolution() {
    let list = strings(&["blocked.example"]);
    assert_eq!(read_request(true, "blocked.example:443", &list), Err("Blocked domain".to_string()));
    assert_eq!(read_request(true, "allowed.example:443", &list), Ok("allowed.example".to_string()));
    assert_eq!(
        read_request(false, "http://www.Blocked.example/page", &list),
        Err("Blocked domain".to_string())
    );
}

#[test]
fn addresses_and_tunnels_to_other_ports_are_refused() {
    let host = read_request(true, "127.0.0.1:443", &[]).unwrap();
    assert_eq!(host, "127.0.0.1");
    assert_eq!(check_host(&host), Err("IP literal not allowed".to_string()));
    let host = read_request(true, "[::1]:443", &[]).unwrap();
    assert_eq!(check_host(&host), Err("IP literal not allowed".to_string()));
    assert_eq!(check_host("allowed.example"), Ok(()));
    assert_eq!(
        read_request(true, "allowed.example:22", &[]),
        Err("Only HTTP and HTTPS supported".to_string())
    );
}

#[test]
fn requests_are_read_as_urls() {
    assert_eq!(request_url(true, "host:443"), Ok("https://host:443/".to_string()));
    assert_eq!(request_url(false, "http://host/a?b"), Ok("http://host/a?b".to_string()));
    for target in ["host/x", "host?x", "host#x", "user@host"] {
        assert_eq!(request_url(true, target), Err("Invalid CONNECT target".to_string()));
    }
    assert_eq!(read_request(false, "http://host/a", &[]), Ok("host".to_string()));
    assert_eq!(read_request(false, "http://HOST:80/a", &[]), Ok("host".to_string()));
    for target in ["https://host/", "http://host:8080/", "ftp://host/"] {
        assert_eq!(read_request(false, target, &[]), Err("Only HTTP and HTTPS supported".to_string()));
    }
    assert_eq!(read_request(false, "http://me:pw@host/", &[]), Err("Credentials in URL".to_string()));
    assert!(read_request(false, "/relative", &[]).is_err());
}

#[test]
fn the_parts_of_a_url_decide() {
    assert_eq!(check_request(false, Ok(parts("http", Some("h"), Some(80))), &[]), Ok("h".to_string()));
    assert_eq!(check_request(true, Ok(parts("https", Some("h"), Some(443))), &[]), Ok("h".to_string()));
    assert_eq!(
        check_request(false, Ok(parts("http", None, Some(80))), &[]),
        Err("No hostname".to_string())
    );
    assert_eq!(
        check_request(false, Ok(parts("https", Some("h"), Some(80))), &[]),
        Err("Only HTTP and HTTPS supported".to_string())
    );
    assert_eq!(
        check_request(true, Ok(parts("https", Some("h"), None)), &[]),
        Err("Only HTTP and HTTPS supported".to_string())
    );
    assert_eq!(check_request(true, Err("bad".to_string()), &[]), Err("bad".to_string()));
    let mut named = parts("http", Some("h"), Some(80));
    named.password = Some(String::new());
    assert_eq!(check_request(false, Ok(named), &[]), Err("Credentials in URL".to_string()));
    assert_eq!(
        check_request(false, Ok(parts("http", Some("dns.google"), Some(80))), &[]),
        Err("Blocked domain".to_string())
    );
}

#[test]
fn every_resolved_address_must_be_public() {
    assert_eq!(check_resolved(&vec![at(v4(1, 1, 1, 1), 443), at(v4(8, 8, 8, 8), 443)]), Ok(()));
    assert_eq!(check_resolved(&vec![]), Err("Non-public target".to_string()));
    assert_eq!(
        check_resolved(&vec![at(v4(1, 1, 1, 1), 443), at(v4(10, 0, 0, 1), 443)]),
        Err("Non-public target".to_string())
    );
    let found = resolve_public(Ok(vec![at(v4(1, 1, 1, 1), 443), at(v4(8, 8, 8, 8), 80)])).unwrap();
    assert!(matches!(
        found[..],
        [Endpoint { ip: IpAddr::V4([1, 1, 1, 1]), port: 443 }, Endpoint { ip: IpAddr::V4([8, 8, 8, 8]), port: 80 }]
    ));
    assert_eq!(resolve_public(Err("dns".to_string())).unwrap_err(), "dns");
    assert_eq!(resolve_public(Ok(vec![])).unwrap_err(), "Non-public target");
    assert_eq!(resolve_public(Ok(vec![at(v4(127, 0, 0, 1), 443)])).unwrap_err(), "Non-public target");
}

#[test]
fn a_changed_list_closes_tunnels() {
    let list = strings(&["allowed.example"]);
    assert!(tunnel_stays("allowed.example", Some(&vec![])));
    assert!(!tunnel_stays("allowed.example", Some(&list)));
    assert!(!tunnel_stays("allowed.example", None));
    assert_eq!(check_again("allowed.example", &[]), Ok(()));
    assert_eq!(
        check_again("allowed.example", &list),
        Err("Policy changed during resolution".to_string())
    );
}

#[test]
fn addresses_are_four_numbers_or_in_brackets() {
    for host in ["127.0.0.1", "0.0.0.0", "255.255.255.255", "10.0.0.1", "99.100.199.200", "1.2.3.4"] {
        assert!(is_ipv4(host), "{host}");
        assert_eq!(check_host(host), Err("IP literal not allowed".to_string()), "{host}");
    }
    for host in [
        "256.0.0.1", "1.2.3", "1.2.3.4.5", "1.2.3.04", "01.2.3.4", "1.2.3.", ".1.2.3", "1..2.3", "1.2.3.4.",
        "1.2.3.+4", "1.2.3.a", "", "....", "1.2.3.999", "1.2.3.0004", "example.com", "1.2.3.4x", " 1.2.3.4",
        "\u{661}.2.3.4",
    ] {
        assert!(!is_ipv4(host), "{host}");
        assert_eq!(check_host(host), Ok(()), "{host}");
    }
    assert!(!is_ipv4("[2606:4700::1]"));
    assert_eq!(check_host("[2606:4700::1]"), Err("IP literal not allowed".to_string()));
}

#[test]
fn hosts_of_requests_in_other_forms_are_addresses_too() {
    for target in ["0x7f000001:443", "2130706433:443", "127.1:443", "0177.0.0.1:443"] {
        let (_, step) = Relay::begin(true, target, &[]);
        assert!(matches!(step, RelayStep::Refuse(403, _, r) if r == "IP literal not allowed"), "{target}");
    }
}

#[test]
fn refused_requests_are_answered_with_403() {
    let list = strings(&["blocked.example"]);
    assert_eq!(refusal(), (403, "ScreenGuard cannot allow this request.".to_string()));
    for target in ["blocked.example:443", "127.0.0.1:443", "allowed.example:22", "user@allowed.example:443"] {
        let (_, step) = Relay::begin(true, target, &list);
        match step {
            RelayStep::Refuse(code, text, _) => {
                assert_eq!(code, 403);
                assert_eq!(text, "ScreenGuard cannot allow this request.");
            }
            other => panic!("{target}: {other:?}"),
        }
    }
}

#[test]
fn a_tunnel_from_its_request_to_its_end() {
    let (mut relay, step) = Relay::begin(true, "allowed.example:443", &[]);
    assert!(matches!(step, RelayStep::Resolve(h, 443) if h == "allowed.example"));
    let none = vec![];
    let found = resolve_public(Ok(vec![at(v4(1, 1, 1, 1), 443), at(v4(8, 8, 4, 4), 443)]));
    let step = relay.next(RelayEvent::Resolved(found, &none));
    match step {
        RelayStep::Tunnel(addresses) => {
            assert_eq!(addresses.len(), 2);
            assert!(matches!(addresses[0], Endpoint { ip: IpAddr::V4([1, 1, 1, 1]), port: 443 }));
            assert!(matches!(addresses[1], Endpoint { ip: IpAddr::V4([8, 8, 4, 4]), port: 443 }));
        }
        other => panic!("{other:?}"),
    }
    assert!(matches!(relay.next(RelayEvent::Reached(Ok(()))), RelayStep::Accept(200)));
    let other = strings(&["other.example"]);
    assert!(matches!(relay.next(RelayEvent::Changed(Some(&other))), RelayStep::Keep));
    let list = strings(&["allowed.example"]);
    assert!(matches!(relay.next(RelayEvent::Changed(Some(&list))), RelayStep::Close));
}

#[test]
fn another_resolution_may_lead_anywhere() {
    let (mut relay, step) = Relay::begin(true, "allowed.example:443", &[]);
    assert!(matches!(step, RelayStep::Resolve(h, 443) if h == "allowed.example"));
    let none = vec![];
    let step = relay.next(RelayEvent::Resolved(Ok(vec![at(v4(127, 0, 0, 1), 40123)]), &none));
    match step {
        RelayStep::Tunnel(addresses) => {
            assert!(matches!(addresses[..], [Endpoint { ip: IpAddr::V4([127, 0, 0, 1]), port: 40123 }]))
        }
        other => panic!("{other:?}"),
    }
    assert!(matches!(relay.next(RelayEvent::Reached(Ok(()))), RelayStep::Accept(200)));
    let list = strings(&["allowed.example"]);
    assert!(matches!(relay.next(RelayEvent::Changed(Some(&list))), RelayStep::Close));
    let mut relay = Relay::with_host(false, Ok("allowed.example".to_string())).0;
    let step = relay.next(RelayEvent::Resolved(Ok(vec![]), &none));
    assert!(matches!(step, RelayStep::Forward(h, a) if h == "allowed.example" && a.is_empty()));
}

#[test]
fn two_lists_block_what_either_blocks() {
    let first = strings(&["one.example"]);
    let second = strings(&["two.example"]);
    let both = strings(&["one.example", "two.example"]);
    for host in ["a.one.example", "two.example", "three.example", "dns.google"] {
        assert_eq!(blocked(host, &both), blocked(host, &first) || blocked(host, &second), "{host}");
    }
}

#[test]
fn a_request_is_judged_again_once_it_is_resolved() {
    let none = vec![];
    let list = strings(&["allowed.example"]);
    let resolving = || Relay::with_host(false, Ok("allowed.example".to_string())).0;
    let refused = |step: RelayStep, why: &str| matches!(step, RelayStep::Refuse(403, _, r) if r == why);
    let public = || resolve_public(Ok(vec![at(v4(1, 1, 1, 1), 80)]));
    let private = resolve_public(Ok(vec![at(v4(1, 1, 1, 1), 80), at(v4(10, 0, 0, 1), 80)]));
    assert!(refused(resolving().next(RelayEvent::Resolved(private, &none)), "Non-public target"));
    assert!(refused(resolving().next(RelayEvent::Resolved(resolve_public(Ok(vec![])), &none)), "Non-public target"));
    assert!(refused(resolving().next(RelayEvent::Resolved(Err("dns".to_string()), &none)), "dns"));
    assert!(refused(resolving().next(RelayEvent::Resolved(public(), &list)), "Policy changed during resolution"));
    let mut relay = resolving();
    let step = relay.next(RelayEvent::Resolved(public(), &none));
    assert!(matches!(step, RelayStep::Forward(h, a) if h == "allowed.example" && a.len() == 1));
    assert!(matches!(relay.next(RelayEvent::Reached(Ok(()))), RelayStep::PassOn));
    let mut relay = resolving();
    relay.next(RelayEvent::Resolved(public(), &none));
    assert!(refused(relay.next(RelayEvent::Reached(Err("gone".to_string()))), "gone"));
    let mut tunnel = Relay::with_host(true, Ok("allowed.example".to_string())).0;
    tunnel.next(RelayEvent::Resolved(public(), &none));
    tunnel.next(RelayEvent::Reached(Ok(())));
    assert!(matches!(tunnel.next(RelayEvent::Ended), RelayStep::Close));
}

fn sample_headers() -> HeaderMap {
    let mut headers = HeaderMap::new();
    headers.append("connection", HeaderValue::from_static("close, X-One"));
    headers.append("connection", HeaderValue::from_static(" x-two ,"));
    headers.append("connection", HeaderValue::from_bytes(b"x-three\xff").unwrap());
    headers.insert("x-one", HeaderValue::from_static("1"));
    headers.append("x-two", HeaderValue::from_static("2"));
    headers.append("x-two", HeaderValue::from_static("3"));
    headers.insert("x-three", HeaderValue::from_static("kept"));
    headers.insert("transfer-encoding", HeaderValue::from_static("chunked"));
    headers.insert("te", HeaderValue::from_static("trailers"));
    headers.insert("trailer", HeaderValue::from_static("x"));
    headers.insert("upgrade", HeaderValue::from_static("h2c"));
    headers.insert("keep-alive", HeaderValue::from_static("5"));
    headers.insert("proxy-connection", HeaderValue::from_static("close"));
    headers.insert("host", HeaderValue::from_static("example.com"));
    headers.insert("proxy-authorization", HeaderValue::from_static("Basic x"));
    headers.append("accept", HeaderValue::from_static("a"));
    headers.append("accept", HeaderValue::from_static("b"));
    headers
}

#[test]
fn headers_of_one_connection_are_removed() {
    let mut headers = sample_headers();
    remove_hop_headers(&mut headers);
    let mut names: Vec<String> = headers.keys().map(|n| n.to_string()).collect();
    names.sort();
    assert_eq!(names, vec!["accept", "host", "proxy-authorization", "x-three"]);
    let accepted: Vec<&[u8]> = headers.get_all("accept").iter().map(|v| v.as_bytes()).collect();
    assert_eq!(accepted, vec![b"a", b"b"]);
    let once = headers.clone();
    remove_hop_headers(&mut headers);
    assert_eq!(headers, once);
}

#[test]
fn a_forwarded_request_loses_its_host_too() {
    let mut headers = sample_headers();
    forwarded_headers(&mut headers);
    let mut names: Vec<String> = headers.keys().map(|n| n.to_string()).collect();
    names.sort();
    assert_eq!(names, vec!["accept", "x-three"]);
}
