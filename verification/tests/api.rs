//! Tests of the request model, the dispatch mapping, and output decoding.

use lookout::api::{decode_output, Command, Params, State, Target};
use lookout::error::LookoutError;
use lookout::ip::Ip;

#[test]
fn dispatch_ping() {
    let params = Params {
        target: Some(Target::Ip(Ip::V4(1, 1, 1, 1))),
        command: Command::Ping,
        rawoutput: false,
    };
    let inv = params.invocation().unwrap();
    assert_eq!(inv.program, "ping");
    assert_eq!(inv.args, vec!["-c5".to_string(), "1.1.1.1".to_string()]);
}

#[test]
fn dispatch_traceroute() {
    let params = Params {
        target: Some(Target::Ip(Ip::V4(100, 127, 1, 7))),
        command: Command::Traceroute,
        rawoutput: false,
    };
    let inv = params.invocation().unwrap();
    assert_eq!(inv.program, "traceroute");
    assert_eq!(inv.args, vec!["-A".to_string(), "100.127.1.7".to_string()]);
}

#[test]
fn dispatch_mtr() {
    let params = Params {
        target: Some(Target::Ip(Ip::V6(0x2001, 0xdb8, 0, 0, 0, 0, 0, 1))),
        command: Command::Mtr,
        rawoutput: true,
    };
    let inv = params.invocation().unwrap();
    assert_eq!(inv.program, "mtr");
    assert_eq!(
        inv.args,
        vec!["-wenzc3".to_string(), "2001:db8:0:0:0:0:0:1".to_string()]
    );
}

#[test]
fn dispatch_skips_hostname_and_missing_target() {
    let hostname_only = Params {
        target: Some(Target::Host("rappet.de".to_string())),
        command: Command::Ping,
        rawoutput: false,
    };
    assert!(hostname_only.invocation().is_none());

    let no_target = Params {
        target: None,
        command: Command::Traceroute,
        rawoutput: false,
    };
    assert!(no_target.invocation().is_none());
}

#[test]
fn command_defaults_to_traceroute() {
    assert_eq!(Command::default(), Command::Traceroute);
    assert_eq!(Command::default().name(), "traceroute");
}

#[test]
fn params_default_is_bare_request() {
    let p = Params::default();
    assert!(p.target.is_none());
    assert_eq!(p.command, Command::Traceroute);
    assert!(!p.rawoutput);
    assert!(p.invocation().is_none());
}

#[test]
fn target_classification() {
    assert_eq!(Target::from_text("1.1.1.1"), Target::Ip(Ip::V4(1, 1, 1, 1)));
    assert_eq!(
        Target::from_text("::1"),
        Target::Ip(Ip::V6(0, 0, 0, 0, 0, 0, 0, 1))
    );
    assert_eq!(
        Target::from_text("rappet.de"),
        Target::Host("rappet.de".to_string())
    );
    assert_eq!(
        Target::from_text("256.1.1.1"),
        Target::Host("256.1.1.1".to_string())
    );
}

#[test]
fn decode_valid_output() {
    let text = "traceroute to one.one.one.one (1.1.1.1), 30 hops max, 60 byte packets\n";
    let decoded = decode_output(text.as_bytes().to_vec()).unwrap();
    assert_eq!(decoded, text);
}

#[test]
fn decode_invalid_output_is_an_error() {
    let bad = vec![0xffu8, 0xfe, 0x20];
    assert_eq!(decode_output(bad).unwrap_err(), LookoutError::Decode);
    let truncated = vec![0xe2u8, 0x82];
    assert_eq!(decode_output(truncated).unwrap_err(), LookoutError::Decode);
}

#[test]
fn state_is_empty() {
    let s = State::new();
    assert_eq!(s, State {});
}

#[test]
fn error_descriptions() {
    assert_eq!(LookoutError::Decode.describe(), "tool output was not valid text");
    assert_eq!(LookoutError::Exec.describe(), "could not run the external tool");
}
