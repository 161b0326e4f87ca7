use vstd::prelude::*;
use vstd::string::StringSliceAdditionalSpecFns;
use crate::value::{crlf, dec, encode, encode_bulk, encode_items, sdec, Value, ValueView};

verus! {

/// Accumulates RESP encodings into an owned byte buffer; performs no I/O.
pub struct CommandWriter {
    buf: Vec<u8>,
}

impl View for CommandWriter {
    type V = Seq<u8>;

    closed spec fn view(&self) -> Seq<u8> {
        self.buf@
    }
}

/// The decimal text of `i`, with a leading `-` when negative.
pub fn int_text(i: i64) -> (r: Vec<u8>)
    ensures
        r@ == sdec(i as int),
{
    let mut w = CommandWriter::new();
    if i < 0 {
        w.write_byte(45);
        let mag: u64 = ((-1 - i) as u64) + 1;
        w.write_uint(mag);
    } else {
        w.write_uint(i as u64);
    }
    w.buf
}

impl CommandWriter {
    pub fn new() -> (r: CommandWriter)
        ensures
            r@ == Seq::<u8>::empty(),
    {
        CommandWriter { buf: Vec::new() }
    }

    /// Emits the multi-bulk header `*<n>\r\n` announcing `n` arguments.
    pub fn args(&mut self, n: usize) -> (r: &mut CommandWriter)
        ensures
            r@ == old(self)@ + seq![42u8] + dec(n as nat) + crlf(),
            *final(self) == *final(r),
    {
        self.write_byte(42);
        self.write_uint(n as u64);
        self.write_crnl();
        self
    }

    /// Emits one bulk argument `$<len>\r\n<bytes>\r\n`.
    pub fn arg_bin(&mut self, arg: &[u8]) -> (r: &mut CommandWriter)
        ensures
            r@ == old(self)@ + encode_bulk(arg@),
            *final(self) == *final(r),
    {
        self.write_byte(36);
        self.write_uint(arg.len() as u64);
        self.write_crnl();
        self.write(arg);
        self.write_crnl();
        self
    }

    /// Emits the null bulk string `$-1\r\n`.
    pub fn nil(&mut self)
        ensures
            final(self)@ == old(self)@ + encode(ValueView::Nil),
    {
        self.write_byte(36);
        self.write_byte(45);
        self.write_byte(49);
        self.write_crnl();
    }

    /// Emits one bulk argument holding the bytes of `arg`.
    pub fn arg_str(&mut self, arg: &str) -> (r: &mut CommandWriter)
        ensures
            r@ == old(self)@ + encode_bulk(arg.spec_bytes()),
            *final(self) == *final(r),
    {
        let bytes = arg.as_bytes();
        self.write_byte(36);
        self.write_uint(bytes.len() as u64);
        self.write_crnl();
        self.write(bytes);
        self.write_crnl();
        self
    }

    /// Emits the error reply `-<err>\r\n`.
    pub fn error(&mut self, err: &str)
        ensures
            final(self)@ == old(self)@ + seq![45u8] + err.spec_bytes() + crlf(),
    {
        self.write_byte(45);
        self.write_str(err);
        self.write_crnl();
    }

    /// Emits the status reply `+<status>\r\n`.
    pub fn status(&mut self, status: &str)
        ensures
            final(self)@ == old(self)@ + seq![43u8] + status.spec_bytes() + crlf(),
    {
        self.write_byte(43);
        self.write_str(status);
        self.write_crnl();
    }

    /// Emits the error reply `-<err>\r\n` from raw bytes.
    pub fn error_bin(&mut self, err: &[u8])
        ensures
            final(self)@ == old(self)@ + encode(ValueView::Error(err@)),
    {
        self.write_byte(45);
        self.write(err);
        self.write_crnl();
    }

    /// Emits the status reply `+<status>\r\n` from raw bytes.
    pub fn status_bin(&mut self, status: &[u8])
        ensures
            final(self)@ == old(self)@ + encode(ValueView::Status(status@)),
    {
        self.write_byte(43);
        self.write(status);
        self.write_crnl();
    }

    /// Emits the integer reply `:<i>\r\n`.
    pub fn integer(&mut self, i: i64)
        ensures
            final(self)@ == old(self)@ + encode(ValueView::Int(i)),
    {
        self.write_byte(58);
        if i < 0 {
            self.write_byte(45);
            let mag: u64 = ((-1 - i) as u64) + 1;
            self.write_uint(mag);
        } else {
            self.write_uint(i as u64);
        }
        self.write_crnl();
    }

    /// Emits the canonical encoding of `v`: arrays as multi-bulk headers
    /// followed by their items, `Nil` as `$-1\r\n`.
    pub fn write_value(&mut self, v: &Value)
        ensures
            final(self)@ == old(self)@ + encode(v@),
        decreases v,
    {
        match v {
            Value::Nil => self.nil(),
            Value::Int(i) => self.integer(*i),
            Value::Data(d) => {
                self.arg_bin(d.as_slice());
            },
            Value::List(items) => {
                let ghost start = self@;
                let ghost model = v@->List_0;
                self.args(items.len());
                let mut i: usize = 0;
                while i < items.len()
                    invariant
                        i <= items@.len(),
                        model.len() == items@.len(),
                        v@ == ValueView::List(model),
                        *v == Value::List(*items),
                        forall|j: int| 0 <= j < items@.len() ==> model[j] == #[trigger] items@[j]@,
                        self@ == start + seq![42u8] + dec(items@.len()) + crlf() + encode_items(
                            model,
                            i as int,
                        ),
                    decreases items@.len() - i,
                {
                    proof {
                        vstd::std_specs::vec::axiom_vec_index_decreases(*items, i as int);
                    }
                    self.write_value(&items[i]);
                    i = i + 1;
                }
            },
            Value::Error(t) => self.error_bin(t.as_slice()),
            Value::Status(t) => self.status_bin(t.as_slice()),
        }
    }

    fn write_crnl(&mut self)
        ensures
            final(self)@ == old(self)@ + crlf(),
    {
        self.write_byte(13);
        self.write_byte(10);
    }

    fn write_uint(&mut self, n: u64)
        ensures
            final(self)@ == old(self)@ + dec(n as nat),
        decreases n,
    {
        if n >= 10 {
            self.write_uint(n / 10);
        }
        self.write_byte(48 + (n % 10) as u8);
    }

    fn write_str(&mut self, s: &str)
        ensures
            final(self)@ == old(self)@ + s.spec_bytes(),
    {
        self.write(s.as_bytes());
    }

    fn write(&mut self, s: &[u8])
        ensures
            final(self)@ == old(self)@ + s@,
    {
        let ghost start = self.buf@;
        let mut i: usize = 0;
        while i < s.len()
            invariant
                i <= s@.len(),
                self.buf@ == start + s@.subrange(0, i as int),
            decreases s@.len() - i,
        {
            self.buf.push(s[i]);
            i = i + 1;
        }
        assert(s@.subrange(0, i as int) =~= s@);
    }

    fn write_byte(&mut self, b: u8)
        ensures
            final(self)@ == old(self)@.push(b),
    {
        self.buf.push(b);
    }

    /// The bytes written so far, ready to be sent.
    pub fn into_bytes(self) -> (r: Vec<u8>)
        ensures
            r@ == self@,
    {
        self.buf
    }

    /// Hands the bytes written so far to `f` and returns what it returns.
    pub fn with_buf<T, F: FnOnce(&[u8]) -> T>(&self, f: F) -> (r: T)
        requires
            forall|b: &[u8]| b@ == self@ ==> f.requires((b,)),
        ensures
            exists|b: &[u8]| b@ == self@ && f.ensures((b,), r),
    {
        f(self.buf.as_slice())
    }
}

} // verus!
