//! The outcome codec: formatting, parsing, and their round trip.

use gddns::ddns::DdnsResult;
use gddns::ip::IpAddr;
use gddns::ip::format_ip;
use gddns::ip::parse_ip;

fn assert_round_trip(o: &DdnsResult) {
    let bytes = o.to_bytes();
    let back = DdnsResult::parse(&bytes).expect("canonical text must parse");
    assert!(back.value_eq(o));
}

#[test]
fn format_good_v4() {
    let o = DdnsResult::Good(IpAddr::V4(1, 2, 3, 4));
    assert_eq!(o.to_bytes(), b"good 1.2.3.4".to_vec());
}

#[test]
fn format_nochg_v6() {
    let o = DdnsResult::NoChg(IpAddr::V6(0x2001, 0xdb8, 0, 0, 0, 0, 0, 1));
    assert_eq!(o.to_bytes(), b"nochg 2001:db8:0:0:0:0:0:1".to_vec());
}

#[test]
fn round_trip_success_variants() {
    assert_round_trip(&DdnsResult::Good(IpAddr::V4(203, 0, 113, 9)));
    assert_round_trip(&DdnsResult::Good(IpAddr::V4(0, 0, 0, 0)));
    assert_round_trip(&DdnsResult::Good(IpAddr::V4(255, 255, 255, 255)));
    assert_round_trip(&DdnsResult::NoChg(IpAddr::V4(10, 0, 0, 1)));
    assert_round_trip(&DdnsResult::Good(IpAddr::V6(0, 0, 0, 0, 0, 0, 0, 1)));
    assert_round_trip(&DdnsResult::NoChg(IpAddr::V6(
        0x2001, 0xdb8, 0xffff, 0x1, 0x20, 0x300, 0x4000, 0xabcd,
    )));
}

#[test]
fn round_trip_fatal_codes() {
    for code in [
        &b"nohost"[..],
        b"badauth",
        b"notfqdn",
        b"badagent",
        b"!donator",
        b"conflict",
        b"abuse",
        b"clienterror",
        b"requesterror",
        b"parseerror",
    ] {
        let o = DdnsResult::FatalError(code.to_vec(), b"some detail text".to_vec());
        assert_round_trip(&o);
    }
}

#[test]
fn round_trip_retryable_codes() {
    for code in [&b"dnserr"[..], b"911", b"retryable"] {
        let o = DdnsResult::RetryableError(code.to_vec(), b"try again later".to_vec());
        assert_round_trip(&o);
    }
}

#[test]
fn round_trip_keeps_error_text_verbatim() {
    let o = DdnsResult::FatalError(b"badauth".to_vec(), b"user  pass : odd text!".to_vec());
    let bytes = o.to_bytes();
    assert_eq!(bytes, b"badauth user  pass : odd text!".to_vec());
    assert_round_trip(&o);
}

#[test]
fn round_trip_empty_error_text() {
    let o = DdnsResult::RetryableError(b"911".to_vec(), Vec::new());
    assert_eq!(o.to_bytes(), b"911 ".to_vec());
    assert_round_trip(&o);
}

#[test]
fn parse_rejects_unknown_code() {
    assert!(DdnsResult::parse(b"bogus something").is_none());
}

#[test]
fn parse_rejects_missing_space() {
    assert!(DdnsResult::parse(b"good").is_none());
    assert!(DdnsResult::parse(b"").is_none());
}

#[test]
fn parse_rejects_bad_address() {
    assert!(DdnsResult::parse(b"good 1.2.3").is_none());
    assert!(DdnsResult::parse(b"good 256.1.1.1").is_none());
    assert!(DdnsResult::parse(b"good 01.2.3.4").is_none());
    assert!(DdnsResult::parse(b"nochg not-an-address").is_none());
}

#[test]
fn parse_splits_on_first_space_only() {
    let parsed = DdnsResult::parse(b"badauth user pass wrong").unwrap();
    let expected = DdnsResult::FatalError(b"badauth".to_vec(), b"user pass wrong".to_vec());
    assert!(parsed.value_eq(&expected));
}

#[test]
fn address_codec_v4() {
    assert_eq!(format_ip(&IpAddr::V4(192, 168, 0, 1)), b"192.168.0.1".to_vec());
    assert_eq!(parse_ip(b"192.168.0.1"), Some(IpAddr::V4(192, 168, 0, 1)));
    assert_eq!(parse_ip(b"1.2.3.4.5"), None);
    assert_eq!(parse_ip(b"1..2.3"), None);
    assert_eq!(parse_ip(b""), None);
}

#[test]
fn address_codec_v6() {
    let ip = IpAddr::V6(0x2001, 0xdb8, 0, 0, 0, 0, 0, 1);
    assert_eq!(format_ip(&ip), b"2001:db8:0:0:0:0:0:1".to_vec());
    assert_eq!(parse_ip(b"2001:db8:0:0:0:0:0:1"), Some(ip));
    // Either case of hexadecimal digit is read.
    assert_eq!(parse_ip(b"2001:DB8:0:0:0:0:0:1"), Some(ip));
    assert_eq!(parse_ip(b"1:2:3:4:5:6:7"), None);
    assert_eq!(parse_ip(b"1:2:3:4:5:6:7:8:9"), None);
    assert_eq!(parse_ip(b"1:2:3:4:5:6:7:fffff"), None);
}

#[test]
fn address_codec_v6_compressed() {
    // One `::` stands for the missing all-zero groups.
    assert_eq!(parse_ip(b"::1"), Some(IpAddr::V6(0, 0, 0, 0, 0, 0, 0, 1)));
    assert_eq!(parse_ip(b"::"), Some(IpAddr::V6(0, 0, 0, 0, 0, 0, 0, 0)));
    assert_eq!(parse_ip(b"1::"), Some(IpAddr::V6(1, 0, 0, 0, 0, 0, 0, 0)));
    assert_eq!(
        parse_ip(b"2001:db8::1"),
        Some(IpAddr::V6(0x2001, 0xdb8, 0, 0, 0, 0, 0, 1))
    );
    assert_eq!(
        parse_ip(b"fe80::a:b:c"),
        Some(IpAddr::V6(0xfe80, 0, 0, 0, 0, 0xa, 0xb, 0xc))
    );
    assert_eq!(
        parse_ip(b"1:2:3:4:5:6:7::"),
        Some(IpAddr::V6(1, 2, 3, 4, 5, 6, 7, 0))
    );
    // The formatter still emits the full form, which reads back.
    let ip = parse_ip(b"2001:db8::1").unwrap();
    assert_eq!(format_ip(&ip), b"2001:db8:0:0:0:0:0:1".to_vec());
    assert_eq!(parse_ip(&format_ip(&ip)), Some(ip));
    // Malformed compressions are rejected.
    assert_eq!(parse_ip(b":::"), None);
    assert_eq!(parse_ip(b"1::2::3"), None);
    assert_eq!(parse_ip(b":1:2:3"), None);
    assert_eq!(parse_ip(b"1:2:3:"), None);
    assert_eq!(parse_ip(b"::1:2:3:4:5:6:7:8"), None);
    assert_eq!(parse_ip(b"1:2:3:4:5:6:7:8::"), None);
    assert_eq!(parse_ip(b"1::2:3:4:5:6:7:8"), None);
}
