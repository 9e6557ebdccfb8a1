use zenoh_protocol::error::DecodeError;
use zenoh_protocol::locator::{parse_decimal, Locator};
use zenoh_protocol::zint::{decode_zbuf, decode_zint, encode_zbuf, encode_zint};

fn zint_bytes(n: u64) -> Vec<u8> {
    let mut buf = Vec::new();
    encode_zint(&mut buf, n);
    buf
}

#[test]
fn zint_encoding_is_canonical() {
    assert_eq!(zint_bytes(0), vec![0x00]);
    assert_eq!(zint_bytes(1), vec![0x01]);
    assert_eq!(zint_bytes(127), vec![0x7f]);
    assert_eq!(zint_bytes(128), vec![0x80, 0x01]);
    assert_eq!(zint_bytes(300), vec![0xac, 0x02]);
    assert_eq!(
        zint_bytes(u64::MAX),
        vec![0xff, 0xff, 0xff, 0xff, 0xff, 0xff, 0xff, 0xff, 0xff, 0x01]
    );
}

#[test]
fn zint_round_trip() {
    for n in [0u64, 1, 127, 128, 300, 16384, u64::MAX / 2, u64::MAX] {
        let buf = zint_bytes(n);
        assert_eq!(decode_zint(&buf, 0), Ok((n, buf.len())));
    }
}

#[test]
fn zint_decode_rejects_empty_and_truncated() {
    assert_eq!(decode_zint(&[], 0), Err(DecodeError::MalformedFrame));
    assert_eq!(decode_zint(&[0x80], 0), Err(DecodeError::MalformedFrame));
    assert_eq!(
        decode_zint(&[0xff, 0xff, 0xff], 0),
        Err(DecodeError::MalformedFrame)
    );
}

#[test]
fn zint_decode_rejects_overlong_chain() {
    // Eleven continuation bytes exceed the integer's maximum width.
    let overlong = [0x80u8, 0x80, 0x80, 0x80, 0x80, 0x80, 0x80, 0x80, 0x80, 0x80, 0x01];
    assert_eq!(decode_zint(&overlong, 0), Err(DecodeError::MalformedFrame));
}

#[test]
fn zint_decode_rejects_overflow() {
    // Ten bytes whose value exceeds the 64-bit range.
    let too_big = [0xffu8, 0xff, 0xff, 0xff, 0xff, 0xff, 0xff, 0xff, 0xff, 0x7f];
    assert_eq!(decode_zint(&too_big, 0), Err(DecodeError::MalformedFrame));
}

#[test]
fn zbuf_round_trip() {
    let mut buf = Vec::new();
    encode_zbuf(&mut buf, b"hello");
    assert_eq!(buf, vec![0x05, b'h', b'e', b'l', b'l', b'o']);
    let (body, consumed) = decode_zbuf(&buf, 0).unwrap();
    assert_eq!(body, b"hello".to_vec());
    assert_eq!(consumed, 6);
}

#[test]
fn zbuf_decode_rejects_short_input() {
    // Announces five bytes but carries two.
    assert_eq!(
        decode_zbuf(&[0x05, 0x01, 0x02], 0),
        Err(DecodeError::MalformedFrame)
    );
}

#[test]
fn locator_parse_splits_protocol_and_address() {
    let loc = Locator::parse(b"tcp/127.0.0.1:7447").unwrap();
    assert_eq!(loc.protocol, b"tcp".to_vec());
    assert_eq!(loc.address, b"127.0.0.1:7447".to_vec());
}

#[test]
fn locator_parse_rejects_malformed_text() {
    assert!(Locator::parse(b"").is_none());
    assert!(Locator::parse(b"nope").is_none());
    assert!(Locator::parse(b"/127.0.0.1:7447").is_none());
    assert!(Locator::parse(b"tcp/").is_none());
}

#[test]
fn parse_decimal_reads_payload_sizes() {
    assert_eq!(parse_decimal(b"0"), Some(0));
    assert_eq!(parse_decimal(b"1024"), Some(1024));
    assert_eq!(parse_decimal(b"18446744073709551615"), Some(u64::MAX));
}

#[test]
fn parse_decimal_rejects_bad_input() {
    assert_eq!(parse_decimal(b""), None);
    assert_eq!(parse_decimal(b"12a"), None);
    assert_eq!(parse_decimal(b"+3"), None);
    assert_eq!(parse_decimal(b"18446744073709551616"), None);
}
