//! Tests of AS-number parsing and formatting.

use lookout::asn::ASn;
use lookout::error::{LookoutError, ParseErrorKind, ParseSource};

#[test]
fn test_parse_asn() {
    assert_eq!(ASn::from_str("123").unwrap(), ASn(123));
    assert_eq!(ASn::from_str("AS123").unwrap(), ASn(123));
    assert_eq!(ASn::from_str("as123").unwrap(), ASn(123));
    assert!(ASn::from_str("AS").is_err());
    assert!(ASn::from_str("As123").is_err());
    assert!(ASn::from_str("").is_err());
}

#[test]
fn asn_range_edges() {
    assert_eq!(ASn::from_str("65535").unwrap(), ASn(65535));
    assert_eq!(ASn::from_str("AS65535").unwrap(), ASn(65535));
    assert_eq!(ASn::from_str("as0").unwrap(), ASn(0));
    assert!(ASn::from_str("65536").is_err());
    assert!(ASn::from_str("AS65536").is_err());
    assert!(ASn::from_str("99999999999999999999").is_err());
}

#[test]
fn asn_rejects_junk() {
    assert!(ASn::from_str("AS12a").is_err());
    assert!(ASn::from_str("aS123").is_err());
    assert!(ASn::from_str("-1").is_err());
    assert!(ASn::from_str(" 123").is_err());
}

#[test]
fn asn_error_kind() {
    assert_eq!(
        ASn::from_str("junk").unwrap_err(),
        LookoutError::Parse(ParseSource::Asn, ParseErrorKind::MalformedNumber)
    );
}

#[test]
fn asn_round_trip() {
    let a = ASn(13335);
    assert_eq!(a.to_text(), "AS13335");
    assert_eq!(ASn::from_str(&a.to_text()).unwrap(), a);
    let b = ASn::from(65535u16);
    assert_eq!(ASn::from_str(&b.to_text()).unwrap(), b);
}
