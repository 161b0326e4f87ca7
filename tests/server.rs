use redis::server::{get_reply, invalid_reply, set_reply};
use redis::{parse, Command, Value};

fn bulk(s: &str) -> Value {
    Value::Data(s.as_bytes().to_vec())
}

#[test]
fn get_request_is_recognised() {
    let req = Value::List(vec![bulk("GET"), bulk("k")]);
    assert_eq!(Command::from_request(&req), Command::GetKey(b"k".to_vec()));
}

#[test]
fn set_request_is_recognised() {
    let req = Value::List(vec![bulk("SET"), bulk("k"), bulk("v")]);
    assert_eq!(Command::from_request(&req), Command::SetKey(b"k".to_vec(), b"v".to_vec()));
}

#[test]
fn other_requests_are_invalid() {
    let cases = vec![
        Value::List(vec![bulk("GET")]),
        Value::List(vec![bulk("GET"), bulk("k"), bulk("x")]),
        Value::List(vec![bulk("SET"), bulk("k")]),
        Value::List(vec![bulk("get"), bulk("k")]),
        Value::List(vec![bulk("DEL"), bulk("k")]),
        Value::List(vec![bulk("GET"), Value::Int(1)]),
        Value::List(vec![]),
        bulk("GET"),
        Value::Nil,
    ];
    for req in cases {
        assert_eq!(Command::from_request(&req), Command::Invalid);
    }
}

#[test]
fn server_replies() {
    assert_eq!(get_reply(Some(b"abc")), b"*1\r\n$3\r\nabc\r\n".to_vec());
    assert_eq!(get_reply(None), b"$-1\r\n".to_vec());
    assert_eq!(set_reply(), b"+OK\r\n".to_vec());
    assert_eq!(invalid_reply(), b"-Invalid Command\r\n".to_vec());
}

#[test]
fn decoded_request_dispatches() {
    let (req, _) = parse(b"*3\r\n$3\r\nSET\r\n$1\r\nk\r\n$1\r\nv\r\n").unwrap();
    assert_eq!(Command::from_request(&req), Command::SetKey(b"k".to_vec(), b"v".to_vec()));
}
