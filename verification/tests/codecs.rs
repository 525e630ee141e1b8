use classroom_backend::b64::{decode, encode_into};
use classroom_backend::datetime::{format_ts, parse_due_date};

fn encode(bytes: &[u8]) -> String {
    let input: Vec<u8> = bytes.to_vec();
    let mut out: Vec<u8> = Vec::new();
    encode_into(&input, &mut out);
    String::from_utf8(out).unwrap()
}

#[test]
fn base64url_known_vectors() {
    assert_eq!(encode(b""), "");
    assert_eq!(encode(b"M"), "TQ");
    assert_eq!(encode(b"Ma"), "TWE");
    assert_eq!(encode(b"Man"), "TWFu");
    assert_eq!(encode(b"Many hands make light work."), "TWFueSBoYW5kcyBtYWtlIGxpZ2h0IHdvcmsu");
    // the URL-safe alphabet uses '-' and '_'
    assert_eq!(encode(&[0xfb, 0xff]), "-_8");
}

#[test]
fn base64url_round_trip() {
    let samples: Vec<Vec<u8>> = vec![
        vec![],
        vec![0],
        vec![255],
        vec![1, 2, 3],
        vec![250, 251, 252, 253],
        b"{\"sub\":1,\"iat\":0,\"exp\":604800}".to_vec(),
    ];
    for sample in samples {
        let mut enc: Vec<u8> = Vec::new();
        encode_into(&sample, &mut enc);
        let dec = decode(&enc).unwrap();
        assert_eq!(dec, sample);
    }
}

#[test]
fn base64url_strict_reject() {
    // a single trailing character can never be produced
    assert!(decode(&b"TQA=".to_vec()).is_none()); // padding is not accepted
    assert!(decode(&b"T".to_vec()).is_none());
    // stray trailing bits are rejected: "TR" would decode 'M' plus one bit
    assert!(decode(&b"TR".to_vec()).is_none());
    // out-of-alphabet bytes are rejected
    assert!(decode(&b"T!".to_vec()).is_none());
}

#[test]
fn due_date_parses_to_utc_timestamp() {
    assert_eq!(parse_due_date(&"2025-06-07T14:30".to_string()), Some(1_749_306_600));
    assert_eq!(parse_due_date(&"1970-01-01T00:00".to_string()), Some(0));
    assert_eq!(parse_due_date(&"2000-01-01T00:00".to_string()), Some(946_684_800));
    assert_eq!(parse_due_date(&"2024-02-29T12:00".to_string()), Some(1_709_208_000));
}

#[test]
fn malformed_due_dates_rejected() {
    assert_eq!(parse_due_date(&"2023-02-29T00:00".to_string()), None); // not a leap year
    assert_eq!(parse_due_date(&"2025-13-01T00:00".to_string()), None); // no month 13
    assert_eq!(parse_due_date(&"2025-00-10T00:00".to_string()), None);
    assert_eq!(parse_due_date(&"2025-06-31T00:00".to_string()), None); // June has 30 days
    assert_eq!(parse_due_date(&"2025-06-07 14:30".to_string()), None); // missing 'T'
    assert_eq!(parse_due_date(&"2025-6-7T14:30".to_string()), None); // not zero-padded
    assert_eq!(parse_due_date(&"2025-06-07T24:00".to_string()), None);
    assert_eq!(parse_due_date(&"2025-06-07T14:60".to_string()), None);
    assert_eq!(parse_due_date(&"not a date".to_string()), None);
    assert_eq!(parse_due_date(&"".to_string()), None);
}

#[test]
fn timestamps_format_as_utc_display() {
    assert_eq!(format_ts(1_749_306_600), "2025-06-07 14:30:00 UTC");
    assert_eq!(format_ts(0), "1970-01-01 00:00:00 UTC");
    assert_eq!(format_ts(946_684_799), "1999-12-31 23:59:59 UTC");
    assert_eq!(format_ts(1_709_208_000), "2024-02-29 12:00:00 UTC");
}

#[test]
fn parse_then_format_round_trip() {
    let ts = parse_due_date(&"2031-08-15T06:45".to_string()).unwrap();
    assert_eq!(format_ts(ts), "2031-08-15 06:45:00 UTC");
}
