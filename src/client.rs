use vstd::prelude::*;
use vstd::string::StringSliceAdditionalSpecFns;
use crate::decoder::{fresh, run, DecodeResult, Decoder, DecoderView, Step};
use crate::value::{crlf, dec, encode_bulk, sdec, Value, ValueView};
use crate::writer::CommandWriter;

verus! {

/// A reply of a type the command never answers with.
#[derive(Clone, Copy, PartialEq, Eq, Structural, Debug)]
pub enum ReplyError {
    UnexpectedReply,
}

/// The bytes of `GET`.
pub open spec fn get_name() -> Seq<u8> {
    seq![71u8, 69u8, 84u8]
}

/// The bytes of `SET`.
pub open spec fn set_name() -> Seq<u8> {
    seq![83u8, 69u8, 84u8]
}

/// The bytes of `INCR`.
pub open spec fn incr_name() -> Seq<u8> {
    seq![73u8, 78u8, 67u8, 82u8]
}

/// The multi-bulk request holding `args`, one bulk block each.
pub open spec fn request(args: Seq<Seq<u8>>) -> Seq<u8> {
    seq![42u8] + dec(args.len()) + crlf() + request_args(args, args.len() as int)
}

/// The bulk blocks of the first `n` arguments.
pub open spec fn request_args(args: Seq<Seq<u8>>, n: int) -> Seq<u8>
    decreases n,
{
    if n <= 0 || n > args.len() {
        Seq::empty()
    } else {
        request_args(args, n - 1) + encode_bulk(args[n - 1])
    }
}

/// The client side of one connection: it frames requests and keeps the
/// decoder that reads the replies arriving on that connection.
pub struct Client {
    decoder: Decoder,
}

impl Client {
    pub closed spec fn wf(&self) -> bool {
        self.decoder.wf()
    }

    /// The state of the reply decoder.
    pub closed spec fn reply_state(&self) -> DecoderView {
        self.decoder@
    }

    pub fn new() -> (r: Client)
        ensures
            r.wf(),
            r.reply_state() == fresh(Seq::empty()),
    {
        Client { decoder: Decoder::new() }
    }

    /// The request `GET key`.
    pub fn get_command(key: &str) -> (r: Vec<u8>)
        ensures
            r@ == request(seq![get_name(), key.spec_bytes()]),
    {
        let name: [u8; 3] = [71, 69, 84];
        let mut w = CommandWriter::new();
        w.args(2).arg_bin(&name).arg_str(key);
        proof {
            reveal_with_fuel(request_args, 3);
        }
        assert(name@ == get_name());
        w.into_bytes()
    }

    /// The request `SET key val`.
    pub fn set_command(key: &str, val: &str) -> (r: Vec<u8>)
        ensures
            r@ == request(seq![set_name(), key.spec_bytes(), val.spec_bytes()]),
    {
        let name: [u8; 3] = [83, 69, 84];
        let mut w = CommandWriter::new();
        w.args(3).arg_bin(&name).arg_str(key).arg_str(val);
        proof {
            reveal_with_fuel(request_args, 4);
        }
        assert(name@ == set_name());
        w.into_bytes()
    }

    /// The request `INCR key`.
    pub fn incr_command(key: &str) -> (r: Vec<u8>)
        ensures
            r@ == request(seq![incr_name(), key.spec_bytes()]),
    {
        let name: [u8; 4] = [73, 78, 67, 82];
        let mut w = CommandWriter::new();
        w.args(2).arg_bin(&name).arg_str(key);
        proof {
            reveal_with_fuel(request_args, 3);
        }
        assert(name@ == incr_name());
        w.into_bytes()
    }

    /// Feeds bytes received on the connection to the reply decoder.
    pub fn read_reply(&mut self, buf: &[u8]) -> (r: (DecodeResult, usize))
        requires
            old(self).wf(),
        ensures
            final(self).wf(),
            r.1 <= buf@.len(),
            match r.0 {
                DecodeResult::NeedMore => r.1 == buf@.len() && run(old(self).reply_state(), buf@)
                    == Step::More(final(self).reply_state()),
                DecodeResult::Finished(v) => 0 < r.1 && run(
                    old(self).reply_state(),
                    buf@.take(r.1 - 1),
                ) is More && run(old(self).reply_state(), buf@.take(r.1 as int))
                    == Step::Done(final(self).reply_state(), v@),
                DecodeResult::Error(e) => 0 < r.1 && run(
                    old(self).reply_state(),
                    buf@.take(r.1 - 1),
                ) == Step::More(final(self).reply_state()) && run(
                    old(self).reply_state(),
                    buf@.take(r.1 as int),
                ) is Fail && e.byte == buf@[r.1 - 1],
            },
    {
        self.decoder.decode_step(buf)
    }

    /// The value of a `GET` reply as text: none for a missing key, the
    /// decimal digits of an integer, the bytes of a bulk string.
    pub fn get_str(reply: &Value) -> (r: Result<Option<Vec<u8>>, ReplyError>)
        ensures
            match reply@ {
                ValueView::Nil => r == Ok::<Option<Vec<u8>>, ReplyError>(None),
                ValueView::Int(i) => r is Ok && r->Ok_0 is Some && r->Ok_0->Some_0@ == sdec(
                    i as int,
                ),
                ValueView::Data(b) => r is Ok && r->Ok_0 is Some && r->Ok_0->Some_0@ == b,
                _ => r == Err::<Option<Vec<u8>>, ReplyError>(ReplyError::UnexpectedReply),
            },
    {
        match reply {
            Value::Nil => Ok(None),
            Value::Int(i) => Ok(Some(crate::writer::int_text(*i))),
            Value::Data(b) => Ok(Some(b.clone())),
            _ => Err(ReplyError::UnexpectedReply),
        }
    }

    /// The counter's new value from an `INCR` reply.
    pub fn incr(reply: &Value) -> (r: Result<i64, ReplyError>)
        ensures
            match reply@ {
                ValueView::Int(i) => r == Ok::<i64, ReplyError>(i),
                _ => r == Err::<i64, ReplyError>(ReplyError::UnexpectedReply),
            },
    {
        match reply {
            Value::Int(i) => Ok(*i),
            _ => Err(ReplyError::UnexpectedReply),
        }
    }
}

} // verus!
