use redis::writer::int_text;
use redis::{parse, CommandWriter, Value};

fn bytes_of(w: &CommandWriter) -> Vec<u8> {
    w.with_buf(|b| b.to_vec())
}

#[test]
fn set_command_bytes() {
    let mut w = CommandWriter::new();
    w.args(3).arg_str("SET").arg_str("k").arg_str("v");
    assert_eq!(bytes_of(&w), b"*3\r\n$3\r\nSET\r\n$1\r\nk\r\n$1\r\nv\r\n".to_vec());
}

#[test]
fn binary_argument() {
    let mut w = CommandWriter::new();
    w.arg_bin(&[0u8, 13, 10, 255]);
    assert_eq!(bytes_of(&w), vec![b'$', b'4', 13, 10, 0, 13, 10, 255, 13, 10]);
}

#[test]
fn long_lengths_have_all_digits() {
    let payload = vec![b'x'; 1234];
    let mut w = CommandWriter::new();
    w.args(10).arg_bin(&payload);
    let out = bytes_of(&w);
    assert!(out.starts_with(b"*10\r\n$1234\r\nxxx"));
    assert_eq!(out.len(), 5 + 7 + 1234 + 2);
}

#[test]
fn reply_encodings() {
    let mut w = CommandWriter::new();
    w.nil();
    w.status("OK");
    w.error("Invalid Command");
    w.integer(-17);
    w.integer(0);
    assert_eq!(
        w.into_bytes(),
        b"$-1\r\n+OK\r\n-Invalid Command\r\n:-17\r\n:0\r\n".to_vec()
    );
}

#[test]
fn extreme_integers() {
    let mut w = CommandWriter::new();
    w.integer(i64::MIN);
    w.integer(i64::MAX);
    assert_eq!(
        w.into_bytes(),
        b":-9223372036854775808\r\n:9223372036854775807\r\n".to_vec()
    );
}

#[test]
fn int_text_digits() {
    assert_eq!(int_text(0), b"0".to_vec());
    assert_eq!(int_text(907), b"907".to_vec());
    assert_eq!(int_text(-5), b"-5".to_vec());
}

fn sample() -> Value {
    Value::List(vec![
        Value::Nil,
        Value::Int(-99),
        Value::Data(b"bin\r\n\x00".to_vec()),
        Value::Data(vec![]),
        Value::List(vec![]),
        Value::List(vec![Value::Status(b"OK".to_vec()), Value::Error(b"ERR no".to_vec())]),
        Value::Int(i64::MIN),
    ])
}

#[test]
fn written_values_decode_to_themselves() {
    let v = sample();
    let mut w = CommandWriter::new();
    w.write_value(&v);
    let bytes = w.into_bytes();
    assert_eq!(parse(&bytes), Ok((sample(), bytes.len())));
}

#[test]
fn written_scalars_decode_to_themselves() {
    let values = vec![
        Value::Nil,
        Value::Int(12345),
        Value::Data(b"abc".to_vec()),
        Value::Status(b"PONG".to_vec()),
        Value::Error(b"ERR".to_vec()),
        Value::List(vec![]),
    ];
    for v in values {
        let mut w = CommandWriter::new();
        w.write_value(&v);
        let bytes = w.into_bytes();
        let (back, n) = parse(&bytes).unwrap();
        assert_eq!(back, v);
        assert_eq!(n, bytes.len());
    }
}
