//! Tests of IP-literal parsing and canonical formatting.

use lookout::ip::Ip;

#[test]
fn ipv4_literals() {
    assert_eq!(Ip::from_str("1.1.1.1").unwrap(), Ip::V4(1, 1, 1, 1));
    assert_eq!(Ip::from_str("192.0.2.255").unwrap(), Ip::V4(192, 0, 2, 255));
    assert_eq!(Ip::from_str("0.0.0.0").unwrap(), Ip::V4(0, 0, 0, 0));
}

#[test]
fn ipv4_rejects() {
    assert!(Ip::from_str("256.1.1.1").is_none());
    assert!(Ip::from_str("01.1.1.1").is_none());
    assert!(Ip::from_str("1.1.1").is_none());
    assert!(Ip::from_str("1.1.1.1.1").is_none());
    assert!(Ip::from_str("1..1.1").is_none());
    assert!(Ip::from_str("").is_none());
    assert!(Ip::from_str("host.example").is_none());
}

#[test]
fn ipv6_literals() {
    assert_eq!(
        Ip::from_str("2001:db8:0:0:0:0:0:1").unwrap(),
        Ip::V6(0x2001, 0xdb8, 0, 0, 0, 0, 0, 1)
    );
    assert_eq!(
        Ip::from_str("2001:db8::1").unwrap(),
        Ip::V6(0x2001, 0xdb8, 0, 0, 0, 0, 0, 1)
    );
    assert_eq!(Ip::from_str("::").unwrap(), Ip::V6(0, 0, 0, 0, 0, 0, 0, 0));
    assert_eq!(Ip::from_str("::1").unwrap(), Ip::V6(0, 0, 0, 0, 0, 0, 0, 1));
    assert_eq!(Ip::from_str("fe80::").unwrap(), Ip::V6(0xfe80, 0, 0, 0, 0, 0, 0, 0));
    assert_eq!(
        Ip::from_str("fe80::1:2").unwrap(),
        Ip::V6(0xfe80, 0, 0, 0, 0, 0, 1, 2)
    );
    assert_eq!(
        Ip::from_str("A:B:C:D:E:F:10:11").unwrap(),
        Ip::V6(0xa, 0xb, 0xc, 0xd, 0xe, 0xf, 0x10, 0x11)
    );
}

#[test]
fn ipv6_rejects() {
    assert!(Ip::from_str(":::").is_none());
    assert!(Ip::from_str("1:2:3:4:5:6:7").is_none());
    assert!(Ip::from_str("1:2:3:4:5:6:7:8:9").is_none());
    assert!(Ip::from_str("1:2:3:4:5:6:7:8::").is_none());
    assert!(Ip::from_str("12345::").is_none());
    assert!(Ip::from_str("::g").is_none());
    assert!(Ip::from_str(":1:2:3:4:5:6:7").is_none());
    assert!(Ip::from_str("1:2:3::4:5::6").is_none());
}

#[test]
fn ip_text_round_trips() {
    let v4 = Ip::V4(100, 127, 1, 7);
    assert_eq!(v4.to_text(), "100.127.1.7");
    assert_eq!(Ip::from_str(&v4.to_text()).unwrap(), v4);

    let v6 = Ip::V6(0x2001, 0xdb8, 0, 0, 0xffff, 0, 0x1e, 1);
    assert_eq!(v6.to_text(), "2001:db8:0:0:ffff:0:1e:1");
    assert_eq!(Ip::from_str(&v6.to_text()).unwrap(), v6);
}
