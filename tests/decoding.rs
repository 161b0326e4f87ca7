use redis::{parse, DecodeError, DecodeResult, Decoder, Mode, ParseError, Value};

fn decode_all(bytes: &[u8]) -> (DecodeResult, usize) {
    let mut d = Decoder::new();
    d.decode_step(bytes)
}

fn finished(bytes: &[u8]) -> Value {
    match decode_all(bytes) {
        (DecodeResult::Finished(v), n) => {
            assert_eq!(n, bytes.len());
            v
        }
        other => panic!("not finished: {:?}", other),
    }
}

fn data(s: &str) -> Value {
    Value::Data(s.as_bytes().to_vec())
}

#[test]
fn integer_reply() {
    assert_eq!(finished(b":123\r\n"), Value::Int(123));
}

#[test]
fn bulk_string_reply() {
    assert_eq!(finished(b"$3\r\nabc\r\n"), data("abc"));
}

#[test]
fn array_of_integers() {
    assert_eq!(
        finished(b"*2\r\n:1\r\n:2\r\n"),
        Value::List(vec![Value::Int(1), Value::Int(2)])
    );
}

#[test]
fn array_split_inside_payload() {
    let mut d = Decoder::new();
    let (r1, n1) = d.decode_step(b"*1\r\n$3\r\na");
    assert_eq!(r1, DecodeResult::NeedMore);
    assert_eq!(n1, 9);
    let (r2, n2) = d.decode_step(b"bc\r\n");
    assert_eq!(r2, DecodeResult::Finished(Value::List(vec![data("abc")])));
    assert_eq!(n2, 4);
}

#[test]
fn null_bulk_is_nil() {
    assert_eq!(finished(b"$-1\r\n"), Value::Nil);
}

#[test]
fn short_payload_is_an_error_for_a_complete_buffer() {
    let bytes = b"*1\r\n$5\r\nabc\r\n";
    assert_eq!(parse(bytes), Err(ParseError::Truncated));
    // The resumable decoder cannot tell a short payload from one still in
    // transit: it waits for the rest.
    assert_eq!(decode_all(bytes), (DecodeResult::NeedMore, bytes.len()));
}

#[test]
fn empty_bulk_is_not_nil() {
    assert_eq!(finished(b"$0\r\n\r\n"), Value::Data(vec![]));
}

#[test]
fn empty_array_is_not_nil() {
    assert_eq!(finished(b"*0\r\n"), Value::List(vec![]));
}

#[test]
fn null_array_is_nil() {
    assert_eq!(finished(b"*-1\r\n"), Value::Nil);
}

#[test]
fn status_and_error_replies() {
    assert_eq!(finished(b"+OK\r\n"), Value::Status(b"OK".to_vec()));
    assert_eq!(finished(b"-ERR bad\r\n"), Value::Error(b"ERR bad".to_vec()));
    assert_eq!(finished(b"+\r\n"), Value::Status(vec![]));
}

#[test]
fn negative_and_extreme_integers() {
    assert_eq!(finished(b":-42\r\n"), Value::Int(-42));
    assert_eq!(finished(b":0\r\n"), Value::Int(0));
    assert_eq!(finished(b":9223372036854775807\r\n"), Value::Int(i64::MAX));
    assert_eq!(finished(b":-9223372036854775808\r\n"), Value::Int(i64::MIN));
}

#[test]
fn integer_overflow_is_an_error() {
    let (r, n) = decode_all(b":9223372036854775808\r\n");
    assert_eq!(r, DecodeResult::Error(DecodeError { byte: b'\n', mode: Mode::NeedNewline }));
    assert_eq!(n, 22);
    let (r, n) = decode_all(b":92233720368547758080\r\n");
    assert_eq!(r, DecodeResult::Error(DecodeError { byte: b'0', mode: Mode::Digits }));
    assert_eq!(n, 21);
}

#[test]
fn bare_newline_ends_a_number() {
    assert_eq!(finished(b":7\n"), Value::Int(7));
    assert_eq!(
        finished(b"*4\r\n$3\r\nabc\r\n:123\n:1\n$-1\n"),
        Value::List(vec![data("abc"), Value::Int(123), Value::Int(1), Value::Nil])
    );
}

#[test]
fn minus_after_digits_is_an_error() {
    let (r, n) = decode_all(b":1-2\r\n");
    assert_eq!(r, DecodeResult::Error(DecodeError { byte: b'-', mode: Mode::Digits }));
    assert_eq!(n, 3);
}

#[test]
fn negative_length_other_than_one_is_an_error() {
    let (r, _) = decode_all(b"$-2\r\n");
    assert!(matches!(r, DecodeResult::Error(_)));
    let (r, _) = decode_all(b"*-5\r\n");
    assert!(matches!(r, DecodeResult::Error(_)));
}

#[test]
fn payload_terminator_must_be_crlf() {
    let (r, n) = decode_all(b"$3\r\nabcX\r\n");
    assert_eq!(r, DecodeResult::Error(DecodeError { byte: b'X', mode: Mode::PayloadCr }));
    assert_eq!(n, 8);
    let (r, _) = decode_all(b"$3\r\nabc\rX");
    assert_eq!(r, DecodeResult::Error(DecodeError { byte: b'X', mode: Mode::PayloadLf }));
}

#[test]
fn unknown_type_byte_is_an_error() {
    let (r, n) = decode_all(b"?abc");
    assert_eq!(r, DecodeResult::Error(DecodeError { byte: b'?', mode: Mode::Start }));
    assert_eq!(n, 1);
}

#[test]
fn leading_blanks_are_skipped() {
    assert_eq!(finished(b"\r\n :5\r\n"), Value::Int(5));
}

#[test]
fn one_value_per_call_and_the_rest_is_left() {
    let bytes = b":1\r\n:2\r\n";
    let mut d = Decoder::new();
    let (r, n) = d.decode_step(bytes);
    assert_eq!(r, DecodeResult::Finished(Value::Int(1)));
    assert_eq!(n, 4);
    let (r, n2) = d.decode_step(&bytes[n..]);
    assert_eq!(r, DecodeResult::Finished(Value::Int(2)));
    assert_eq!(n2, 4);
}

#[test]
fn every_split_gives_the_same_value() {
    let inputs: Vec<&[u8]> = vec![
        b"*3\r\n$5\r\nhello\r\n:-1234\r\n*2\r\n+OK\r\n-ERR x\r\n",
        b"$10\r\n0123456789\r\n",
        b":9223372036854775807\r\n",
        b"*2\r\n*0\r\n$0\r\n\r\n",
    ];
    for bytes in inputs {
        let whole = finished(bytes);
        for cut in 0..=bytes.len() {
            let mut d = Decoder::new();
            let (r1, n1) = d.decode_step(&bytes[..cut]);
            if cut < bytes.len() {
                assert_eq!(r1, DecodeResult::NeedMore);
                assert_eq!(n1, cut);
                let (r2, n2) = d.decode_step(&bytes[cut..]);
                assert_eq!(r2, DecodeResult::Finished(whole_copy(&whole)));
                assert_eq!(n2, bytes.len() - cut);
            } else {
                assert_eq!(r1, DecodeResult::Finished(whole_copy(&whole)));
            }
        }
    }
}

#[test]
fn byte_at_a_time_gives_the_same_value() {
    let bytes = b"*2\r\n$3\r\nabc\r\n*1\r\n:42\r\n";
    let mut d = Decoder::new();
    for i in 0..bytes.len() - 1 {
        let (r, n) = d.decode_step(&bytes[i..i + 1]);
        assert_eq!(r, DecodeResult::NeedMore);
        assert_eq!(n, 1);
    }
    let (r, _) = d.decode_step(&bytes[bytes.len() - 1..]);
    assert_eq!(
        r,
        DecodeResult::Finished(Value::List(vec![data("abc"), Value::List(vec![Value::Int(42)])]))
    );
}

fn whole_copy(v: &Value) -> Value {
    match v {
        Value::Nil => Value::Nil,
        Value::Int(i) => Value::Int(*i),
        Value::Data(d) => Value::Data(d.clone()),
        Value::List(items) => Value::List(items.iter().map(whole_copy).collect()),
        Value::Error(t) => Value::Error(t.clone()),
        Value::Status(t) => Value::Status(t.clone()),
    }
}

#[test]
fn deep_nesting_decodes() {
    let depth: usize = 10_000;
    let mut bytes: Vec<u8> = Vec::new();
    for _ in 0..depth {
        bytes.extend_from_slice(b"*1\r\n");
    }
    bytes.extend_from_slice(b":7\r\n");
    let mut d = Decoder::new();
    let (r, n) = d.decode_step(&bytes);
    assert_eq!(n, bytes.len());
    let mut cur = match r {
        DecodeResult::Finished(v) => v,
        other => panic!("not finished: {:?}", other),
    };
    let mut levels: usize = 0;
    loop {
        match cur {
            Value::List(mut items) => {
                assert_eq!(items.len(), 1);
                levels += 1;
                cur = items.pop().unwrap();
            }
            other => {
                assert_eq!(other, Value::Int(7));
                break;
            }
        }
    }
    assert_eq!(levels, depth);
}

#[test]
fn parse_reports_what_it_took() {
    assert_eq!(parse(b":5\r\nrest"), Ok((Value::Int(5), 4)));
    assert_eq!(parse(b""), Err(ParseError::Truncated));
    assert!(matches!(parse(b"x"), Err(ParseError::Malformed(_))));
}
