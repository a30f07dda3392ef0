use std::borrow::Cow;

use kilodb::codec::{decode, Decoded};
use kilodb::reply::Reply;
use stream_resp::parser::Parser;
use stream_resp::resp::RespValue;

fn bulk(s: &str) -> RespValue<'static> {
    RespValue::BulkString(Some(Cow::Owned(s.to_string())))
}

fn parse_back(bytes: &[u8]) -> RespValue<'static> {
    let mut parser = Parser::new(8, 1 << 20);
    parser.read_buf(bytes);
    parser.try_parse().unwrap().unwrap()
}

#[test]
fn frames_written_by_stream_resp_decode() {
    let frame = RespValue::Array(Some(vec![bulk("SET"), bulk("key"), bulk("va\r\nlue")])).as_bytes();
    match decode(&frame) {
        Decoded::Frame(args, used) => {
            assert_eq!(args, vec![b"SET".to_vec(), b"key".to_vec(), b"va\r\nlue".to_vec()]);
            assert_eq!(used, frame.len());
        }
        _ => panic!("expected a frame"),
    }
    assert!(matches!(decode(&frame[..frame.len() - 1]), Decoded::Incomplete));
}

#[test]
fn replies_encode_as_stream_resp_does() {
    assert_eq!(
        Reply::Status("OK".to_string()).encode(),
        RespValue::SimpleString(Cow::Borrowed("OK")).as_bytes()
    );
    assert_eq!(
        Reply::Error("ERR unknown command".to_string()).encode(),
        RespValue::Error(Cow::Borrowed("ERR unknown command")).as_bytes()
    );
    assert_eq!(Reply::Integer(-7).encode(), RespValue::Integer(-7).as_bytes());
    assert_eq!(Reply::Bulk(None).encode(), RespValue::BulkString(None).as_bytes());
    assert_eq!(Reply::Bulk(Some("wörld".to_string())).encode(), bulk("wörld").as_bytes());
    assert_eq!(
        Reply::Array(vec![Some("a".to_string()), Some("bc".to_string())]).encode(),
        RespValue::Array(Some(vec![bulk("a"), bulk("bc")])).as_bytes()
    );
}

#[test]
fn replies_parse_back_with_stream_resp() {
    assert_eq!(parse_back(&Reply::Integer(42).encode()), RespValue::Integer(42));
    assert_eq!(parse_back(&Reply::Bulk(Some("hi".to_string())).encode()), bulk("hi"));
    assert_eq!(
        parse_back(&Reply::Array(vec![Some("x".to_string())]).encode()),
        RespValue::Array(Some(vec![bulk("x")]))
    );
}
