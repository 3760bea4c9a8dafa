use redisling::encoder::encode_frame;
use redisling::frame::Frame;
use redisling::parser::{parse_frame, ParseError};

fn b(s: &str) -> Vec<u8> {
    s.as_bytes().to_vec()
}

fn roundtrip(f: &Frame) {
    let bytes = encode_frame(f);
    let (parsed, used) = parse_frame(&bytes).expect("parse back");
    assert_eq!(used, bytes.len());
    assert_eq!(encode_frame(&parsed), bytes);
}

#[test]
fn simple_roundtrip() {
    roundtrip(&Frame::Simple(b("OK")));
    roundtrip(&Frame::Simple(b("")));
}

#[test]
fn error_roundtrip() {
    roundtrip(&Frame::Error(b("ERR something went wrong")));
}

#[test]
fn integer_roundtrip() {
    roundtrip(&Frame::Integer(0));
    roundtrip(&Frame::Integer(42));
    roundtrip(&Frame::Integer(-42));
    roundtrip(&Frame::Integer(i64::MAX));
    roundtrip(&Frame::Integer(i64::MIN));
}

#[test]
fn bulk_roundtrip_arbitrary_payloads() {
    roundtrip(&Frame::Bulk(b("hello")));
    roundtrip(&Frame::Bulk(b("")));
    roundtrip(&Frame::Bulk(b("with\r\ncrlf inside")));
    roundtrip(&Frame::Bulk(vec![0u8, 13, 10, 255, 13, 10]));
}

#[test]
fn null_roundtrip() {
    let bytes = encode_frame(&Frame::Null);
    assert_eq!(bytes, b("$-1\r\n"));
    roundtrip(&Frame::Null);
}

#[test]
fn array_roundtrip_nested() {
    roundtrip(&Frame::Array(vec![]));
    roundtrip(&Frame::Array(vec![
        Frame::Bulk(b("SET")),
        Frame::Bulk(b("k")),
        Frame::Bulk(b("v")),
    ]));
    roundtrip(&Frame::Array(vec![
        Frame::Integer(7),
        Frame::Array(vec![Frame::Simple(b("x")), Frame::Null]),
        Frame::Bulk(b("tail\r\n")),
    ]));
}

#[test]
fn every_strict_prefix_is_incomplete() {
    let frames = vec![
        Frame::Simple(b("PONG")),
        Frame::Integer(-105),
        Frame::Bulk(b("ab\r\ncd")),
        Frame::Null,
        Frame::Array(vec![Frame::Bulk(b("GET")), Frame::Bulk(b("k"))]),
    ];
    for f in &frames {
        let bytes = encode_frame(f);
        for cut in 0..bytes.len() {
            match parse_frame(&bytes[..cut]) {
                Err(ParseError::Incomplete) => {}
                other => panic!("prefix of length {} gave {:?}", cut, other),
            }
        }
    }
}

#[test]
fn parse_consumes_only_one_frame() {
    let mut bytes = encode_frame(&Frame::Simple(b("A")));
    let first_len = bytes.len();
    bytes.extend_from_slice(&encode_frame(&Frame::Integer(9)));
    let (f, used) = parse_frame(&bytes).unwrap();
    assert_eq!(used, first_len);
    assert_eq!(encode_frame(&f), encode_frame(&Frame::Simple(b("A"))));
}

#[test]
fn invalid_tag_is_invalid() {
    assert_eq!(parse_frame(b"?oops\r\n").unwrap_err(), ParseError::Invalid);
}

#[test]
fn bad_integer_line_is_invalid() {
    assert_eq!(parse_frame(b":12x\r\n").unwrap_err(), ParseError::Invalid);
    assert_eq!(parse_frame(b":\r\n").unwrap_err(), ParseError::Invalid);
    assert_eq!(parse_frame(b"$-2\r\n").unwrap_err(), ParseError::Invalid);
}

#[test]
fn bulk_requires_trailing_crlf() {
    assert_eq!(parse_frame(b"$2\r\nabXY").unwrap_err(), ParseError::Invalid);
    assert!(matches!(parse_frame(b"$2\r\nab"), Err(ParseError::Incomplete)));
}

#[test]
fn ping_wire_bytes() {
    let (f, used) = parse_frame(b"*1\r\n$4\r\nPING\r\n").unwrap();
    assert_eq!(used, 14);
    match &f {
        Frame::Array(items) => {
            assert_eq!(items.len(), 1);
            match &items[0] {
                Frame::Bulk(name) => assert_eq!(name, &b("PING")),
                other => panic!("unexpected element {:?}", other),
            }
        }
        other => panic!("unexpected frame {:?}", other),
    }
}
