//! Tests of the host, header, hop, and whole-output parsers.

use lookout::asn::ASn;
use lookout::error::{LookoutError, ParseErrorKind, ParseSource};
use lookout::ip::Ip;
use lookout::traceroute::{Host, TracerouteHeader, TracerouteHop, TracerouteResult};

#[test]
fn test_parse_header() {
    assert_eq!(
        TracerouteHeader::from_str(
            "traceroute to one.one.one.one (1.1.1.1), 30 hops max, 60 byte packets"
        )
        .unwrap(),
        TracerouteHeader {
            destination: Host::new("one.one.one.one", Ip::from_str("1.1.1.1").unwrap(), None),
            max_hops: 30,
            packet_size: 60,
        }
    );
}

#[test]
fn test_parse_host() {
    assert_eq!(
        Host::from_str("one.one.one.one (1.1.1.1) [AS13335]").unwrap(),
        Host::new(
            "one.one.one.one",
            Ip::from_str("1.1.1.1").unwrap(),
            Some(ASn(13335))
        )
    );
    assert_eq!(
        Host::from_str(" 100.127.1.7 (100.127.1.7) [*]\t").unwrap(),
        Host::new("100.127.1.7", Ip::from_str("100.127.1.7").unwrap(), None)
    );
    assert_eq!(
        Host::from_str("100.127.1.7 (100.127.1.7)").unwrap(),
        Host::new("100.127.1.7", Ip::from_str("100.127.1.7").unwrap(), None)
    );
    assert!(Host::from_str("100.127.1.7 100.127.1.7").is_err());
    assert!(Host::from_str("100.127.1.7 (100.127.1.7) AS1234").is_err());
    assert!(Host::from_str("100.127.1.7 (100.127.1.7) [AS1234] Blah").is_err());
}

#[test]
fn host_error_kinds() {
    assert_eq!(
        Host::from_str("").unwrap_err(),
        LookoutError::Parse(ParseSource::Host, ParseErrorKind::MissingField)
    );
    assert_eq!(
        Host::from_str("onlyhost").unwrap_err(),
        LookoutError::Parse(ParseSource::Host, ParseErrorKind::MissingField)
    );
    assert_eq!(
        Host::from_str("h 1.1.1.1").unwrap_err(),
        LookoutError::Parse(ParseSource::Host, ParseErrorKind::MalformedDelimiter)
    );
    assert_eq!(
        Host::from_str("h (not-an-ip)").unwrap_err(),
        LookoutError::Parse(ParseSource::Host, ParseErrorKind::MalformedNumber)
    );
    assert_eq!(
        Host::from_str("h (1.1.1.1) [AS99999999]").unwrap_err(),
        LookoutError::Parse(ParseSource::Asn, ParseErrorKind::MalformedNumber)
    );
    assert_eq!(
        Host::from_str("a b c d").unwrap_err(),
        LookoutError::Parse(ParseSource::Host, ParseErrorKind::ExcessFields)
    );
}

#[test]
fn host_ipv6_group() {
    assert_eq!(
        Host::from_str("cf.example (2001:db8::1) [AS13335]").unwrap(),
        Host::new(
            "cf.example",
            Ip::V6(0x2001, 0xdb8, 0, 0, 0, 0, 0, 1),
            Some(ASn(13335))
        )
    );
}

#[test]
fn host_round_trip_text() {
    let with_asn = Host::new("one.one.one.one", Ip::V4(1, 1, 1, 1), Some(ASn(13335)));
    assert_eq!(with_asn.to_text(), "one.one.one.one (1.1.1.1) [AS13335]");
    assert_eq!(Host::from_str(&with_asn.to_text()).unwrap(), with_asn);

    let without = Host::new("100.127.1.7", Ip::V4(100, 127, 1, 7), None);
    assert_eq!(without.to_text(), "100.127.1.7 (100.127.1.7)");
    assert_eq!(Host::from_str(&without.to_text()).unwrap(), without);
}

#[test]
fn header_round_trip_text() {
    let header = TracerouteHeader {
        destination: Host::new("one.one.one.one", Ip::V4(1, 1, 1, 1), None),
        max_hops: 30,
        packet_size: 60,
    };
    assert_eq!(
        header.to_text(),
        "traceroute to one.one.one.one (1.1.1.1), 30 hops max, 60 byte packets"
    );
    assert_eq!(TracerouteHeader::from_str(&header.to_text()).unwrap(), header);
}

#[test]
fn header_error_kinds() {
    assert_eq!(
        TracerouteHeader::from_str("traceroute to h (1.1.1.1)").unwrap_err(),
        LookoutError::Parse(ParseSource::Header, ParseErrorKind::MissingField)
    );
    assert_eq!(
        TracerouteHeader::from_str("traceroute to h (1.1.1.1), x hops max, 60 byte packets")
            .unwrap_err(),
        LookoutError::Parse(ParseSource::Header, ParseErrorKind::MalformedNumber)
    );
    assert_eq!(
        TracerouteHeader::from_str("traceroute to h (1.1.1.1), 30 hops max, x byte packets")
            .unwrap_err(),
        LookoutError::Parse(ParseSource::Header, ParseErrorKind::MalformedNumber)
    );
}

#[test]
fn hop_full_line() {
    let hop = TracerouteHop::from_str("1 12 gw.example (192.0.2.1) [AS65000] 15 18").unwrap();
    let gw = Host::new("gw.example", Ip::V4(192, 0, 2, 1), Some(ASn(65000)));
    assert_eq!(hop.rtts, [Some(12), Some(15), Some(18)]);
    assert_eq!(hop.hosts, [Some(gw.clone()), Some(gw.clone()), Some(gw)]);
}

#[test]
fn hop_all_timeouts() {
    let hop = TracerouteHop::from_str("7 * * *").unwrap();
    assert_eq!(hop.rtts, [None, None, None]);
    assert_eq!(hop.hosts, [None, None, None]);
}

#[test]
fn hop_mixed_slots() {
    let hop = TracerouteHop::from_str("3 * 7 h1.example (10.0.0.1) 9").unwrap();
    let h1 = Host::new("h1.example", Ip::V4(10, 0, 0, 1), None);
    assert_eq!(hop.rtts, [None, Some(7), Some(9)]);
    assert_eq!(hop.hosts, [None, Some(h1.clone()), Some(h1)]);
}

#[test]
fn hop_host_change_mid_line() {
    let hop =
        TracerouteHop::from_str("4 5 a.example (10.0.0.1) 6 b.example (10.0.0.2) 7").unwrap();
    let a = Host::new("a.example", Ip::V4(10, 0, 0, 1), None);
    let b = Host::new("b.example", Ip::V4(10, 0, 0, 2), None);
    assert_eq!(hop.rtts, [Some(5), Some(6), Some(7)]);
    assert_eq!(hop.hosts, [Some(a), Some(b.clone()), Some(b)]);
}

#[test]
fn hop_forward_fill_across_timeout() {
    let hop = TracerouteHop::from_str("5 1 a.example (10.0.0.1) * 3").unwrap();
    let a = Host::new("a.example", Ip::V4(10, 0, 0, 1), None);
    assert_eq!(hop.rtts, [Some(1), None, Some(3)]);
    assert_eq!(hop.hosts, [Some(a.clone()), None, Some(a)]);
}

#[test]
fn hop_two_slots_only() {
    let hop = TracerouteHop::from_str("2 -1 10").unwrap();
    assert_eq!(hop.rtts, [Some(-1), Some(10), None]);
    assert_eq!(hop.hosts, [None, None, None]);
}

#[test]
fn hop_errors() {
    assert_eq!(
        TracerouteHop::from_str("").unwrap_err(),
        LookoutError::Parse(ParseSource::Hop, ParseErrorKind::MissingField)
    );
    assert_eq!(
        TracerouteHop::from_str("x 1 2 3").unwrap_err(),
        LookoutError::Parse(ParseSource::Hop, ParseErrorKind::MalformedNumber)
    );
    assert_eq!(
        TracerouteHop::from_str("5 12x").unwrap_err(),
        LookoutError::Parse(ParseSource::Hop, ParseErrorKind::MalformedNumber)
    );
    assert_eq!(
        TracerouteHop::from_str("4 1 2 3 5").unwrap_err(),
        LookoutError::Parse(ParseSource::Hop, ParseErrorKind::ExcessFields)
    );
    assert_eq!(
        TracerouteHop::from_str("4 5 h.example 10.0.0.1 6").unwrap_err(),
        LookoutError::Parse(ParseSource::Host, ParseErrorKind::MalformedDelimiter)
    );
}

#[test]
fn whole_output() {
    let text = "traceroute to one.one.one.one (1.1.1.1), 30 hops max, 60 byte packets\n\
                1 1 gw.example (192.0.2.1) [AS65000] 2 2\n\
                2 * * *\n\
                3 11 one.one.one.one (1.1.1.1) [AS13335] 12 12\n";
    let result = TracerouteResult::from_output(text).unwrap();
    assert_eq!(result.header.max_hops, 30);
    assert_eq!(result.header.packet_size, 60);
    assert_eq!(result.hops.len(), 3);
    assert_eq!(result.hops[1].rtts, [None, None, None]);
    assert_eq!(
        result.hops[2].hosts[0],
        Some(Host::new(
            "one.one.one.one",
            Ip::V4(1, 1, 1, 1),
            Some(ASn(13335))
        ))
    );
}

#[test]
fn whole_output_bad_hop_line() {
    let text = "traceroute to one.one.one.one (1.1.1.1), 30 hops max, 60 byte packets\nbroken\n";
    assert_eq!(
        TracerouteResult::from_output(text).unwrap_err(),
        LookoutError::Parse(ParseSource::Hop, ParseErrorKind::MalformedNumber)
    );
}
