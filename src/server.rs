use vstd::prelude::*;
use crate::client::{get_name, set_name};
use crate::value::{crlf, dec, encode, encode_bulk, Value, ValueView};
use crate::writer::CommandWriter;

verus! {

/// A request the example key-value server understands.
#[derive(PartialEq, Eq, Debug)]
pub enum Command {
    /// `GET key`
    GetKey(Vec<u8>),
    /// `SET key value`
    SetKey(Vec<u8>, Vec<u8>),
    /// Anything else.
    Invalid,
}

/// Whether `v` is the bulk string `name`.
pub open spec fn is_bulk(v: ValueView, name: Seq<u8>) -> bool {
    v matches ValueView::Data(b) && b == name
}

fn is_name(v: &Value, name: &[u8]) -> (r: bool)
    ensures
        r == is_bulk(v@, name@),
{
    match v {
        Value::Data(b) => {
            if b.len() != name.len() {
                assert(b@.len() != name@.len());
                return false;
            }
            let mut i: usize = 0;
            while i < b.len()
                invariant
                    i <= b@.len(),
                    b@.len() == name@.len(),
                    v@ == ValueView::Data(b@),
                    forall|j: int| 0 <= j < i ==> b@[j] == name@[j],
                decreases b@.len() - i,
            {
                if b[i] != name[i] {
                    assert(b@[i as int] != name@[i as int]);
                    assert(b@ != name@);
                    return false;
                }
                i = i + 1;
            }
            assert(b@ =~= name@);
            true
        },
        _ => false,
    }
}

impl Command {
    /// Reads a request: an array whose first item names the command and
    /// whose other items, all bulk strings, are its arguments.
    pub fn from_request(request: &Value) -> (r: Command)
        ensures
            match request@ {
                ValueView::List(items) => {
                    if items.len() == 2 && is_bulk(items[0], get_name()) && items[1] is Data {
                        r matches Command::GetKey(k) && k@ == items[1]->Data_0
                    } else if items.len() == 3 && is_bulk(items[0], set_name()) && items[1] is Data
                        && items[2] is Data {
                        r matches Command::SetKey(k, v) && k@ == items[1]->Data_0 && v@
                            == items[2]->Data_0
                    } else {
                        r is Invalid
                    }
                },
                _ => r is Invalid,
            },
    {
        match request {
            Value::List(items) => {
                let get: [u8; 3] = [71, 69, 84];
                let set: [u8; 3] = [83, 69, 84];
                assert(get@ == get_name());
                assert(set@ == set_name());
                assert(request@->List_0.len() == items@.len());
                if items.len() == 2 && is_name(&items[0], &get) {
                    assert(request@->List_0[0] == items@[0]@);
                    assert(request@->List_0[1] == items@[1]@);
                    match &items[1] {
                        Value::Data(k) => Command::GetKey(k.clone()),
                        _ => Command::Invalid,
                    }
                } else if items.len() == 3 && is_name(&items[0], &set) {
                    assert(request@->List_0[0] == items@[0]@);
                    assert(request@->List_0[1] == items@[1]@);
                    assert(request@->List_0[2] == items@[2]@);
                    match (&items[1], &items[2]) {
                        (Value::Data(k), Value::Data(v)) => Command::SetKey(k.clone(), v.clone()),
                        _ => Command::Invalid,
                    }
                } else {
                    proof {
                        if items@.len() == 2 {
                            assert(request@->List_0[0] == items@[0]@);
                        }
                        if items@.len() == 3 {
                            assert(request@->List_0[0] == items@[0]@);
                        }
                    }
                    Command::Invalid
                }
            },
            _ => Command::Invalid,
        }
    }
}

/// The reply to `GET`: the value as an array of one bulk string when the
/// key is present, the null bulk string when it is not.
pub fn get_reply(found: Option<&[u8]>) -> (r: Vec<u8>)
    ensures
        r@ == match found {
            Some(val) => seq![42u8] + dec(1) + crlf() + encode_bulk(val@),
            None => encode(ValueView::Nil),
        },
{
    let mut w = CommandWriter::new();
    match found {
        Some(val) => {
            w.args(1).arg_bin(val);
        },
        None => {
            w.nil();
        },
    }
    w.into_bytes()
}

/// The reply to `SET`: the status `OK`.
pub fn set_reply() -> (r: Vec<u8>)
    ensures
        r@ == encode(ValueView::Status(seq![79u8, 75u8])),
{
    let mut w = CommandWriter::new();
    let ok: [u8; 2] = [79, 75];
    w.status_bin(&ok);
    w.into_bytes()
}

/// The reply to anything else: the error `Invalid Command`.
pub fn invalid_reply() -> (r: Vec<u8>)
    ensures
        r@ == encode(ValueView::Error(invalid_command_text())),
{
    let mut w = CommandWriter::new();
    let text: [u8; 15] = [73, 110, 118, 97, 108, 105, 100, 32, 67, 111, 109, 109, 97, 110, 100];
    w.error_bin(&text);
    assert(text@ == invalid_command_text());
    w.into_bytes()
}

/// The bytes of `Invalid Command`.
pub open spec fn invalid_command_text() -> Seq<u8> {
    seq![73u8, 110u8, 118u8, 97u8, 108u8, 105u8, 100u8, 32u8, 67u8, 111u8, 109u8, 109u8, 97u8, 110u8, 100u8]
}

} // verus!
