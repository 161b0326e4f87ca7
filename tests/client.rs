use redis::{Client, DecodeResult, ReplyError, Value};

#[test]
fn get_request_bytes() {
    assert_eq!(Client::get_command("key"), b"*2\r\n$3\r\nGET\r\n$3\r\nkey\r\n".to_vec());
}

#[test]
fn set_request_bytes() {
    assert_eq!(
        Client::set_command("key", "Hello"),
        b"*3\r\n$3\r\nSET\r\n$3\r\nkey\r\n$5\r\nHello\r\n".to_vec()
    );
}

#[test]
fn incr_request_bytes() {
    assert_eq!(Client::incr_command("counter"), b"*2\r\n$4\r\nINCR\r\n$7\r\ncounter\r\n".to_vec());
}

#[test]
fn get_str_replies() {
    assert_eq!(Client::get_str(&Value::Nil), Ok(None));
    assert_eq!(Client::get_str(&Value::Int(-31)), Ok(Some(b"-31".to_vec())));
    assert_eq!(Client::get_str(&Value::Data(b"Hello".to_vec())), Ok(Some(b"Hello".to_vec())));
    assert_eq!(Client::get_str(&Value::Status(b"OK".to_vec())), Err(ReplyError::UnexpectedReply));
}

#[test]
fn incr_replies() {
    assert_eq!(Client::incr(&Value::Int(2)), Ok(2));
    assert_eq!(Client::incr(&Value::Nil), Err(ReplyError::UnexpectedReply));
}

#[test]
fn replies_arrive_in_pieces() {
    let mut c = Client::new();
    let (r, n) = c.read_reply(b"$5\r\nHel");
    assert_eq!(r, DecodeResult::NeedMore);
    assert_eq!(n, 7);
    let (r, n) = c.read_reply(b"lo\r\n:1\r\n");
    assert_eq!(r, DecodeResult::Finished(Value::Data(b"Hello".to_vec())));
    assert_eq!(n, 4);
    let (r, _) = c.read_reply(b":1\r\n");
    assert_eq!(r, DecodeResult::Finished(Value::Int(1)));
}
