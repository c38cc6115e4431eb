use pingcore::addr::{
    ip_to_string, is_ip_address, parse_ipv4, parse_ipv6, IpAddress, Ipv4Address, Ipv6Address,
};
use pingcore::ping::build_probe_request;
use pingcore::types::{IcmpReply, PingError, ProbeOutcome};
use pingcore::utils::{
    create_error_result, create_success_result, execute_ping, icmp_kind_for, resolve_host,
    resolve_lookup, IcmpKind, ResolveAction, PAYLOAD_SIZE, PING_TIMEOUT_SECS,
};

fn v4(a: u8, b: u8, c: u8, d: u8) -> Ipv4Address {
    Ipv4Address { a, b, c, d }
}

fn v6(s: [u16; 8]) -> Ipv6Address {
    Ipv6Address {
        s0: s[0],
        s1: s[1],
        s2: s[2],
        s3: s[3],
        s4: s[4],
        s5: s[5],
        s6: s[6],
        s7: s[7],
    }
}

#[test]
fn parses_ipv4_loopback() {
    assert_eq!(parse_ipv4("127.0.0.1"), Some(v4(127, 0, 0, 1)));
    assert_eq!(is_ip_address("127.0.0.1"), Some(IpAddress::V4(v4(127, 0, 0, 1))));
}

#[test]
fn parses_ipv4_bounds() {
    assert_eq!(parse_ipv4("0.0.0.0"), Some(v4(0, 0, 0, 0)));
    assert_eq!(parse_ipv4("255.255.255.255"), Some(v4(255, 255, 255, 255)));
    assert_eq!(parse_ipv4("192.168.10.254"), Some(v4(192, 168, 10, 254)));
}

#[test]
fn rejects_bad_ipv4() {
    assert_eq!(parse_ipv4("256.1.1.1"), None);
    assert_eq!(parse_ipv4("01.2.3.4"), None);
    assert_eq!(parse_ipv4("1.2.3"), None);
    assert_eq!(parse_ipv4("1.2.3.4.5"), None);
    assert_eq!(parse_ipv4("1.2.3.4 "), None);
    assert_eq!(parse_ipv4(""), None);
    assert_eq!(parse_ipv4("a.b.c.d"), None);
    assert_eq!(parse_ipv4("1..2.3"), None);
    assert_eq!(parse_ipv4("1.2.3."), None);
}

#[test]
fn parses_ipv6_loopback() {
    assert_eq!(parse_ipv6("::1"), Some(v6([0, 0, 0, 0, 0, 0, 0, 1])));
    assert_eq!(
        is_ip_address("::1"),
        Some(IpAddress::V6(v6([0, 0, 0, 0, 0, 0, 0, 1])))
    );
}

#[test]
fn parses_ipv6_forms() {
    assert_eq!(parse_ipv6("::"), Some(v6([0; 8])));
    assert_eq!(
        parse_ipv6("1:2:3:4:5:6:7:8"),
        Some(v6([1, 2, 3, 4, 5, 6, 7, 8]))
    );
    assert_eq!(
        parse_ipv6("fe80::1"),
        Some(v6([0xfe80, 0, 0, 0, 0, 0, 0, 1]))
    );
    assert_eq!(
        parse_ipv6("FE80::1"),
        Some(v6([0xfe80, 0, 0, 0, 0, 0, 0, 1]))
    );
    assert_eq!(
        parse_ipv6("1:2:3:4:5:6:7::"),
        Some(v6([1, 2, 3, 4, 5, 6, 7, 0]))
    );
    assert_eq!(
        parse_ipv6("::aaaa:bbbb"),
        Some(v6([0, 0, 0, 0, 0, 0, 0xaaaa, 0xbbbb]))
    );
    assert_eq!(
        parse_ipv6("2001:0db8:0000:0000:0000:0000:0000:0001"),
        Some(v6([0x2001, 0x0db8, 0, 0, 0, 0, 0, 1]))
    );
}

#[test]
fn parses_ipv6_with_embedded_ipv4() {
    assert_eq!(
        parse_ipv6("::ffff:192.168.0.1"),
        Some(v6([0, 0, 0, 0, 0, 0xffff, 0xc0a8, 0x0001]))
    );
    assert_eq!(
        parse_ipv6("::1.2.3.4"),
        Some(v6([0, 0, 0, 0, 0, 0, 0x0102, 0x0304]))
    );
    assert_eq!(
        parse_ipv6("1:2:3:4:5:6:7.8.9.10"),
        Some(v6([1, 2, 3, 4, 5, 6, 0x0708, 0x090a]))
    );
    assert_eq!(
        parse_ipv6("64:ff9b::255.255.255.255"),
        Some(v6([0x64, 0xff9b, 0, 0, 0, 0, 0xffff, 0xffff]))
    );
}

#[test]
fn rejects_bad_embedded_ipv4() {
    assert_eq!(parse_ipv6("::1.2.3.4.5"), None);
    assert_eq!(parse_ipv6("::1.2.3.256"), None);
    assert_eq!(parse_ipv6("1.2.3.4::"), None);
    assert_eq!(parse_ipv6("::1.2.3.4:5"), None);
    assert_eq!(parse_ipv6("1:2:3:4:5:6:7:1.2.3.4"), None);
    assert_eq!(parse_ipv6("1:2:3:4:5:1.2.3.4"), None);
}

#[test]
fn rejects_bad_ipv6() {
    assert_eq!(parse_ipv6(""), None);
    assert_eq!(parse_ipv6(":"), None);
    assert_eq!(parse_ipv6(":::"), None);
    assert_eq!(parse_ipv6("1::2::3"), None);
    assert_eq!(parse_ipv6("1:2:3:4:5:6:7"), None);
    assert_eq!(parse_ipv6("1:2:3:4:5:6:7:8:9"), None);
    assert_eq!(parse_ipv6("::1:2:3:4:5:6:7:8"), None);
    assert_eq!(parse_ipv6("12345::"), None);
    assert_eq!(parse_ipv6("g::1"), None);
    assert_eq!(parse_ipv6("fe80::1%eth0"), None);
    assert_eq!(parse_ipv6("1:"), None);
    assert_eq!(parse_ipv6(":1"), None);
}

#[test]
fn renders_ipv4() {
    assert_eq!(ip_to_string(&IpAddress::V4(v4(127, 0, 0, 1))).as_str(), "127.0.0.1");
    assert_eq!(
        ip_to_string(&IpAddress::V4(v4(255, 10, 0, 254))).as_str(),
        "255.10.0.254"
    );
}

#[test]
fn renders_ipv6_in_full() {
    assert_eq!(
        ip_to_string(&IpAddress::V6(v6([0, 0, 0, 0, 0, 0, 0, 1]))).as_str(),
        "0:0:0:0:0:0:0:1"
    );
    assert_eq!(
        ip_to_string(&IpAddress::V6(v6([0xfe80, 0, 0x12, 0x345, 0x6789, 0xabcd, 0xef01, 1])))
            .as_str(),
        "fe80:0:12:345:6789:abcd:ef01:1"
    );
}

#[test]
fn rendered_text_parses_back() {
    let addrs = [
        IpAddress::V4(v4(127, 0, 0, 1)),
        IpAddress::V4(v4(0, 0, 0, 0)),
        IpAddress::V4(v4(255, 255, 255, 255)),
        IpAddress::V6(v6([0, 0, 0, 0, 0, 0, 0, 1])),
        IpAddress::V6(v6([0xfe80, 1, 0x203, 0x4567, 0, 0xffff, 0xa, 0xbc])),
    ];
    for ip in addrs {
        assert_eq!(is_ip_address(ip_to_string(&ip).as_str()), Some(ip));
    }
}

#[test]
fn literal_resolves_without_lookup() {
    assert_eq!(
        resolve_host("127.0.0.1"),
        ResolveAction::Resolved(IpAddress::V4(v4(127, 0, 0, 1)))
    );
    assert_eq!(
        resolve_host("::1"),
        ResolveAction::Resolved(IpAddress::V6(v6([0, 0, 0, 0, 0, 0, 0, 1])))
    );
}

#[test]
fn hostname_needs_lookup() {
    assert_eq!(resolve_host("localhost"), ResolveAction::NeedsLookup);
    assert_eq!(resolve_host("example.com"), ResolveAction::NeedsLookup);
}

#[test]
fn lookup_takes_first_address() {
    let addrs = vec![
        IpAddress::V4(v4(10, 0, 0, 1)),
        IpAddress::V4(v4(10, 0, 0, 2)),
    ];
    let r = resolve_lookup(Ok(addrs));
    assert_eq!(r.unwrap(), IpAddress::V4(v4(10, 0, 0, 1)));
}

#[test]
fn empty_lookup_is_resolution_error() {
    let r = resolve_lookup(Ok(Vec::new()));
    match r {
        Err(PingError::Resolution(m)) => assert_eq!(m.as_str(), "No valid IP address found"),
        _ => panic!("expected a resolution error"),
    }
}

#[test]
fn failed_lookup_is_resolution_error() {
    let r = resolve_lookup(Err(String::from("no such host")));
    match r {
        Err(PingError::Resolution(m)) => {
            assert_eq!(m.as_str(), "DNS lookup failed: no such host")
        },
        _ => panic!("expected a resolution error"),
    }
}

#[test]
fn error_message_is_kept() {
    let e = PingError::Transport(String::from("permission denied"));
    assert_eq!(e.message().as_str(), "permission denied");
}

#[test]
fn icmp_kind_matches_family() {
    assert_eq!(icmp_kind_for(&IpAddress::V4(v4(8, 8, 8, 8))), IcmpKind::V4);
    assert_eq!(icmp_kind_for(&IpAddress::V6(v6([0; 8]))), IcmpKind::V6);
}

#[test]
fn matched_reply_builds_success() {
    let outcome = ProbeOutcome::Matched {
        reply: IcmpReply::V4 {
            sequence: 1,
            ttl: Some(64),
        },
        elapsed_ns: 1_234_567,
    };
    let r = execute_ping("127.0.0.1", "127.0.0.1", "127.0.0.1", 1, PAYLOAD_SIZE, outcome);
    assert!(r.success);
    assert_eq!(r.host.as_str(), "127.0.0.1");
    assert_eq!(r.ip.as_str(), "127.0.0.1");
    assert_eq!(r.bytes, 56);
    assert_eq!(r.icmp_seq, 1);
    assert_eq!(r.ttl, Some(64));
    assert_eq!(r.time_ns, 1_234_567);
    assert_eq!(r.error, None);
}

#[test]
fn matched_v6_reply_reports_hop_limit() {
    let outcome = ProbeOutcome::Matched {
        reply: IcmpReply::V6 {
            sequence: 1,
            max_hop_limit: 255,
        },
        elapsed_ns: 42,
    };
    let r = execute_ping("::1", "::1", "0:0:0:0:0:0:0:1", 1, PAYLOAD_SIZE, outcome);
    assert!(r.success);
    assert_eq!(r.ip.as_str(), "0:0:0:0:0:0:0:1");
    assert_eq!(r.ttl, Some(255));
    assert_eq!(r.bytes, 56);
    assert_eq!(r.error, None);
}

#[test]
fn matched_v4_reply_may_lack_ttl() {
    let outcome = ProbeOutcome::Matched {
        reply: IcmpReply::V4 {
            sequence: 1,
            ttl: None,
        },
        elapsed_ns: 42,
    };
    let r = execute_ping("10.0.0.9", "10.0.0.9", "10.0.0.9", 1, PAYLOAD_SIZE, outcome);
    assert!(r.success);
    assert_eq!(r.ttl, None);
    assert_eq!(r.error, None);
}

#[test]
fn timeout_builds_timeout_failure() {
    let r = execute_ping(
        "10.255.255.1",
        "10.255.255.1",
        "10.255.255.1",
        1,
        PAYLOAD_SIZE,
        ProbeOutcome::TimedOut,
    );
    assert!(!r.success);
    assert_eq!(r.error.as_deref(), Some("Timeout"));
    assert_eq!(r.time_ns, 0);
    assert_eq!(r.ttl, None);
    assert_eq!(r.bytes, 0);
    assert_eq!(r.icmp_seq, 1);
}

#[test]
fn protocol_error_is_kept_verbatim() {
    let outcome = ProbeOutcome::ProtocolError {
        message: String::from("destination unreachable"),
    };
    let r = execute_ping("10.0.0.9", "10.0.0.9", "10.0.0.9", 1, PAYLOAD_SIZE, outcome);
    assert!(!r.success);
    assert_eq!(r.error.as_deref(), Some("destination unreachable"));
    assert_eq!(r.time_ns, 0);
    assert_eq!(r.ttl, None);
    assert_eq!(r.bytes, 0);
}

#[test]
fn error_result_reports_nothing_sent() {
    let r = create_error_result("host", "1.2.3.4", 1, String::from("boom"));
    assert!(!r.success);
    assert_eq!(r.bytes, 0);
    assert_eq!(r.time_ns, 0);
    assert_eq!(r.ttl, None);
    assert_eq!(r.error.as_deref(), Some("boom"));
    assert_eq!(r.host.as_str(), "host");
    assert_eq!(r.ip.as_str(), "1.2.3.4");
}

#[test]
fn success_result_keeps_host_and_counts_payload() {
    let reply = IcmpReply::V4 {
        sequence: 7,
        ttl: Some(3),
    };
    let r = create_success_result("example.com", "93.184.216.34", 56, 7, 999, &reply);
    assert!(r.success);
    assert_eq!(r.host.as_str(), "example.com");
    assert_eq!(r.ip.as_str(), "93.184.216.34");
    assert_eq!(r.bytes, 56);
    assert_eq!(r.icmp_seq, 7);
    assert_eq!(r.ttl, Some(3));
    assert_eq!(r.time_ns, 999);
    assert_eq!(r.error, None);
}

#[test]
fn request_has_fixed_payload_and_sequence() {
    let req = build_probe_request("example.com");
    assert_eq!(req.host.as_str(), "example.com");
    assert_eq!(req.sequence, 1);
    assert_eq!(req.payload.len(), PAYLOAD_SIZE);
    assert!(req.payload.iter().all(|b| *b == 0));
}

#[test]
fn independent_requests_share_nothing_but_constants() {
    let first = build_probe_request("127.0.0.1");
    let second = build_probe_request("127.0.0.1");
    assert_eq!(first.sequence, second.sequence);
    assert_eq!(first.payload, second.payload);
    assert_eq!(first.host, second.host);
}

#[test]
fn deadline_is_five_seconds() {
    assert_eq!(PING_TIMEOUT_SECS, 5);
}
