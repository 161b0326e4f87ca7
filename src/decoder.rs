use vstd::prelude::*;
use crate::value::{lemma_views_push, views, Value, ValueView};

verus! {

/// The largest magnitude a number token may reach: `2^63`, which admits
/// every `i64`, including `i64::MIN`.
pub const MAX_MAGNITUDE: u64 = 9223372036854775808;

/// Where the state machine stands between two bytes.
#[derive(Clone, Copy, PartialEq, Eq, Structural, Debug)]
pub enum Mode {
    /// Between values; blanks and line ends are skipped.
    Start,
    /// Expecting the first character of a number token.
    Number,
    /// Inside the digits of a number token.
    Digits,
    /// A number token ended with `\r` or a blank; `\n` must follow.
    NeedNewline,
    /// Copying the payload of a bulk string.
    Payload,
    /// The payload is complete; `\r` must follow.
    PayloadCr,
    /// The payload and `\r` are complete; `\n` must follow.
    PayloadLf,
    /// Copying the text of a status or error line.
    Line,
    /// The line's `\r` was read; `\n` must follow.
    LineLf,
}

/// Which element the current token belongs to.
#[derive(Clone, Copy, PartialEq, Eq, Structural, Debug)]
pub enum Kind {
    List,
    Data,
    Int,
    Status,
    Error,
}

/// One array that is still open: its declared length and the items
/// completed so far.
pub struct Frame {
    count: u64,
    items: Vec<Value>,
}

/// The model of an open array.
pub struct FrameView {
    pub count: nat,
    pub items: Seq<ValueView>,
}

impl View for Frame {
    type V = FrameView;

    closed spec fn view(&self) -> FrameView {
        FrameView { count: self.count as nat, items: views(self.items@) }
    }
}

/// The resumable state of an incremental RESP decoder, owned by one byte
/// stream and kept between calls.
pub struct Decoder {
    mode: Mode,
    kind: Kind,
    number: u64,
    negative: bool,
    size: u64,
    data: Vec<u8>,
    frames: Vec<Frame>,
}

/// The model of a decoder's state.
pub struct DecoderView {
    pub mode: Mode,
    pub kind: Kind,
    /// Magnitude of the number token read so far.
    pub number: nat,
    pub negative: bool,
    /// Declared length of the bulk string being copied.
    pub size: nat,
    /// Payload or line text copied so far.
    pub data: Seq<u8>,
    /// The open arrays, outermost first.
    pub frames: Seq<FrameView>,
}

/// The outcome of feeding bytes to a decoder state.
pub enum Step {
    /// More bytes are needed; the new state.
    More(DecoderView),
    /// A top-level value is complete; the new state and the value.
    Done(DecoderView, ValueView),
    /// The input is malformed.
    Fail,
}

impl View for Decoder {
    type V = DecoderView;

    closed spec fn view(&self) -> DecoderView {
        DecoderView {
            mode: self.mode,
            kind: self.kind,
            number: self.number as nat,
            negative: self.negative,
            size: self.size as nat,
            data: self.data@,
            frames: frame_views(self.frames@),
        }
    }
}

/// The models of the open arrays.
pub open spec fn frame_views(fs: Seq<Frame>) -> Seq<FrameView> {
    Seq::new(fs.len(), |i: int| fs[i]@)
}

/// The state between values, with the given arrays open.
pub open spec fn fresh(frames: Seq<FrameView>) -> DecoderView {
    DecoderView {
        mode: Mode::Start,
        kind: Kind::Int,
        number: 0,
        negative: false,
        size: 0,
        data: Seq::empty(),
        frames,
    }
}

pub open spec fn is_digit(b: u8) -> bool {
    48 <= b <= 57
}

/// The state after a type byte that opens a number token.
pub open spec fn begin_number(s: DecoderView, kind: Kind) -> DecoderView {
    DecoderView { mode: Mode::Number, kind, number: 0, negative: false, ..s }
}

/// Completing `v`: it is the result if no array is open; otherwise it joins
/// the innermost open array, which completes in turn once it is full.
pub open spec fn complete(frames: Seq<FrameView>, v: ValueView) -> Step
    decreases frames.len(),
{
    if frames.len() == 0 {
        Step::Done(fresh(frames), v)
    } else {
        let top = frames.last();
        let items = top.items.push(v);
        if items.len() >= top.count {
            complete(frames.drop_last(), ValueView::List(items))
        } else {
            Step::More(fresh(frames.drop_last().push(FrameView { count: top.count, items })))
        }
    }
}

/// What a complete number token means for the element it belongs to.
pub open spec fn number_done(s: DecoderView) -> Step {
    match s.kind {
        Kind::Int => {
            if !s.negative && s.number >= MAX_MAGNITUDE {
                Step::Fail
            } else {
                let i: int = if s.negative { -s.number } else { s.number as int };
                complete(s.frames, ValueView::Int(i as i64))
            }
        },
        Kind::Data => {
            if s.negative {
                if s.number == 1 {
                    complete(s.frames, ValueView::Nil)
                } else {
                    Step::Fail
                }
            } else {
                Step::More(
                    DecoderView {
                        mode: if s.number == 0 { Mode::PayloadCr } else { Mode::Payload },
                        size: s.number,
                        data: Seq::empty(),
                        ..s
                    },
                )
            }
        },
        Kind::List => {
            if s.negative {
                if s.number == 1 {
                    complete(s.frames, ValueView::Nil)
                } else {
                    Step::Fail
                }
            } else if s.number == 0 {
                complete(s.frames, ValueView::List(Seq::empty()))
            } else {
                Step::More(fresh(s.frames.push(FrameView { count: s.number, items: Seq::empty() })))
            }
        },
        _ => Step::Fail,
    }
}

/// One byte of input, in state `s`.
pub open spec fn step(s: DecoderView, b: u8) -> Step {
    match s.mode {
        Mode::Start => {
            if b == 13 || b == 10 || b == 32 {
                Step::More(s)
            } else if b == 42 {
                Step::More(begin_number(s, Kind::List))
            } else if b == 36 {
                Step::More(begin_number(s, Kind::Data))
            } else if b == 58 {
                Step::More(begin_number(s, Kind::Int))
            } else if b == 43 {
                Step::More(DecoderView { mode: Mode::Line, kind: Kind::Status, ..s })
            } else if b == 45 {
                Step::More(DecoderView { mode: Mode::Line, kind: Kind::Error, ..s })
            } else {
                Step::Fail
            }
        },
        Mode::Number | Mode::Digits => {
            if is_digit(b) {
                let n = s.number * 10 + (b - 48);
                if n > MAX_MAGNITUDE {
                    Step::Fail
                } else {
                    Step::More(DecoderView { mode: Mode::Digits, number: n as nat, ..s })
                }
            } else if b == 45 && s.mode == Mode::Number {
                Step::More(DecoderView { mode: Mode::Digits, negative: true, ..s })
            } else if b == 13 || b == 32 {
                Step::More(DecoderView { mode: Mode::NeedNewline, ..s })
            } else if b == 10 {
                number_done(s)
            } else {
                Step::Fail
            }
        },
        Mode::NeedNewline => {
            if b == 10 {
                number_done(s)
            } else {
                Step::Fail
            }
        },
        Mode::Payload => {
            let d = s.data.push(b);
            if d.len() >= s.size {
                Step::More(DecoderView { mode: Mode::PayloadCr, data: d, ..s })
            } else {
                Step::More(DecoderView { data: d, ..s })
            }
        },
        Mode::PayloadCr => {
            if b == 13 {
                Step::More(DecoderView { mode: Mode::PayloadLf, ..s })
            } else {
                Step::Fail
            }
        },
        Mode::PayloadLf => {
            if b == 10 {
                complete(s.frames, ValueView::Data(s.data))
            } else {
                Step::Fail
            }
        },
        Mode::Line => {
            if b == 13 {
                Step::More(DecoderView { mode: Mode::LineLf, ..s })
            } else if b == 10 {
                Step::Fail
            } else {
                Step::More(DecoderView { data: s.data.push(b), ..s })
            }
        },
        Mode::LineLf => {
            if b == 10 {
                if s.kind == Kind::Status {
                    complete(s.frames, ValueView::Status(s.data))
                } else {
                    complete(s.frames, ValueView::Error(s.data))
                }
            } else {
                Step::Fail
            }
        },
    }
}

/// Feeding `bs` to state `s`, one byte at a time, stopping at the first
/// completed value or malformed byte.
pub open spec fn run(s: DecoderView, bs: Seq<u8>) -> Step
    decreases bs.len(),
{
    if bs.len() == 0 {
        Step::More(s)
    } else {
        match run(s, bs.drop_last()) {
            Step::More(t) => step(t, bs.last()),
            r => r,
        }
    }
}

/// The outcome of one call of [`Decoder::decode_step`].
#[derive(PartialEq, Eq, Debug)]
pub enum DecodeResult {
    /// A complete top-level value.
    Finished(Value),
    /// Every byte was consumed without completing a value.
    NeedMore,
    /// A malformed byte; the decoder is left as it was before that byte.
    Error(DecodeError),
}

/// The byte that could not be decoded and the state it was met in.
#[derive(Clone, Copy, PartialEq, Eq, Structural, Debug)]
pub struct DecodeError {
    pub byte: u8,
    pub mode: Mode,
}

/// Feeding `a` and then `b` is feeding `a + b`: a decoder that needs
/// more after `a` ends in the same outcome on `b` as on the whole, and one
/// that finished or failed within `a` never sees `b`.
pub proof fn lemma_chunked_feed(s: DecoderView, a: Seq<u8>, b: Seq<u8>)
    ensures
        run(s, a + b) == match run(s, a) {
            Step::More(t) => run(t, b),
            r => r,
        },
    decreases b.len(),
{
    if b.len() == 0 {
        assert(a + b =~= a);
    } else {
        assert((a + b).drop_last() =~= a + b.drop_last());
        assert((a + b).last() == b.last());
        lemma_chunked_feed(s, a, b.drop_last());
    }
}

enum ByteOutcome {
    More,
    Done(Value),
    Fail,
}

proof fn lemma_frame_views_pop(fs: Seq<Frame>)
    requires
        fs.len() > 0,
    ensures
        frame_views(fs.drop_last()) == frame_views(fs).drop_last(),
        frame_views(fs).last() == fs.last()@,
{
    assert(frame_views(fs.drop_last()) =~= frame_views(fs).drop_last());
}

proof fn lemma_frame_views_push(fs: Seq<Frame>, f: Frame)
    ensures
        frame_views(fs.push(f)) == frame_views(fs).push(f@),
{
    assert(frame_views(fs.push(f)) =~= frame_views(fs).push(f@));
}

impl Decoder {
    /// The state's invariant: numbers within bounds, a payload still short
    /// of its declared size, and every open array short of its length.
    pub closed spec fn wf(&self) -> bool {
        &&& self.number <= MAX_MAGNITUDE
        &&& self.size <= MAX_MAGNITUDE
        &&& (self.mode == Mode::Payload ==> self.data@.len() < self.size)
        &&& forall|i: int|
            0 <= i < self.frames@.len() ==> #[trigger] self.frames@[i].items@.len()
                < self.frames@[i].count
    }

    /// A decoder positioned before the first value of a stream.
    pub fn new() -> (r: Decoder)
        ensures
            r.wf(),
            r@ == fresh(Seq::empty()),
    {
        let r = Decoder {
            mode: Mode::Start,
            kind: Kind::Int,
            number: 0,
            negative: false,
            size: 0,
            data: Vec::new(),
            frames: Vec::new(),
        };
        assert(r@.frames =~= Seq::<FrameView>::empty());
        r
    }

    fn begin_number(&mut self, kind: Kind)
        requires
            old(self).wf(),
        ensures
            final(self).wf(),
            final(self)@ == begin_number(old(self)@, kind),
    {
        self.mode = Mode::Number;
        self.kind = kind;
        self.number = 0;
        self.negative = false;
    }

    /// Consumes bytes of `buf` until one top-level value is complete, a
    /// malformed byte is met, or `buf` runs out. Returns the outcome and the
    /// number of bytes consumed; the bytes after those belong to the next
    /// call. Partial progress is kept in the decoder.
    pub fn decode_step(&mut self, buf: &[u8]) -> (r: (DecodeResult, usize))
        requires
            old(self).wf(),
        ensures
            final(self).wf(),
            r.1 <= buf@.len(),
            match r.0 {
                DecodeResult::NeedMore => r.1 == buf@.len() && run(old(self)@, buf@) == Step::More(
                    final(self)@,
                ),
                DecodeResult::Finished(v) => 0 < r.1 && run(
                    old(self)@,
                    buf@.take(r.1 - 1),
                ) is More && run(old(self)@, buf@.take(r.1 as int)) == Step::Done(
                    final(self)@,
                    v@,
                ),
                DecodeResult::Error(e) => 0 < r.1 && run(old(self)@, buf@.take(r.1 - 1))
                    == Step::More(final(self)@) && run(old(self)@, buf@.take(r.1 as int))
                    is Fail && e.byte == buf@[r.1 - 1] && e.mode == final(self)@.mode,
            },
    {
        let mut i: usize = 0;
        while i < buf.len()
            invariant
                self.wf(),
                i <= buf@.len(),
                run(old(self)@, buf@.take(i as int)) == Step::More(self@),
            decreases buf@.len() - i,
        {
            let b = buf[i];
            let ghost before = self@;
            assert(buf@.take(i + 1).drop_last() =~= buf@.take(i as int));
            assert(buf@.take(i + 1).last() == b);
            match self.step_byte(b) {
                ByteOutcome::More => {},
                ByteOutcome::Done(v) => {
                    return (DecodeResult::Finished(v), i + 1);
                },
                ByteOutcome::Fail => {
                    return (DecodeResult::Error(DecodeError { byte: b, mode: self.mode }), i + 1);
                },
            }
            i = i + 1;
        }
        assert(buf@.take(i as int) =~= buf@);
        (DecodeResult::NeedMore, i)
    }

    /// Acts on a complete number token according to its kind.
    fn number_done(&mut self) -> (r: ByteOutcome)
        requires
            old(self).wf(),
        ensures
            final(self).wf(),
            match r {
                ByteOutcome::More => number_done(old(self)@) == Step::More(final(self)@),
                ByteOutcome::Done(w) => number_done(old(self)@) == Step::Done(final(self)@, w@),
                ByteOutcome::Fail => number_done(old(self)@) == Step::Fail && *final(self)
                    == *old(self),
            },
    {
        match self.kind {
            Kind::Int => {
                if !self.negative && self.number >= MAX_MAGNITUDE {
                    ByteOutcome::Fail
                } else {
                    let i: i64 = if self.negative {
                        if self.number == 0 {
                            0
                        } else {
                            -1 - ((self.number - 1) as i64)
                        }
                    } else {
                        self.number as i64
                    };
                    self.complete(Value::Int(i))
                }
            },
            Kind::Data => {
                if self.negative {
                    if self.number == 1 {
                        self.complete(Value::Nil)
                    } else {
                        ByteOutcome::Fail
                    }
                } else {
                    self.mode = if self.number == 0 {
                        Mode::PayloadCr
                    } else {
                        Mode::Payload
                    };
                    self.size = self.number;
                    self.data = Vec::new();
                    ByteOutcome::More
                }
            },
            Kind::List => {
                if self.negative {
                    if self.number == 1 {
                        self.complete(Value::Nil)
                    } else {
                        ByteOutcome::Fail
                    }
                } else if self.number == 0 {
                    let w = Value::List(Vec::new());
                    assert(w@ == ValueView::List(Seq::empty())) by {
                        assert(w@->List_0 =~= Seq::<ValueView>::empty());
                    }
                    self.complete(w)
                } else {
                    let f = Frame { count: self.number, items: Vec::new() };
                    assert(f@.items =~= Seq::<ValueView>::empty());
                    proof {
                        lemma_frame_views_push(self.frames@, f);
                    }
                    let ghost fs = self.frames@;
                    self.frames.push(f);
                    assert forall|i: int| 0 <= i < self.frames@.len() implies #[trigger] self.frames@[i].items@.len()
                        < self.frames@[i].count by {
                        if i < fs.len() {
                            assert(self.frames@[i] == fs[i]);
                        }
                    }
                    self.mode = Mode::Start;
                    self.kind = Kind::Int;
                    self.number = 0;
                    self.negative = false;
                    self.size = 0;
                    self.data = Vec::new();
                    ByteOutcome::More
                }
            },
            _ => ByteOutcome::Fail,
        }
    }

    /// Feeds one byte to the state machine.
    fn step_byte(&mut self, b: u8) -> (r: ByteOutcome)
        requires
            old(self).wf(),
        ensures
            final(self).wf(),
            match r {
                ByteOutcome::More => step(old(self)@, b) == Step::More(final(self)@),
                ByteOutcome::Done(w) => step(old(self)@, b) == Step::Done(final(self)@, w@),
                ByteOutcome::Fail => step(old(self)@, b) == Step::Fail && *final(self) == *old(
                    self,
                ),
            },
    {
        match self.mode {
            Mode::Start => {
                if b == 13 || b == 10 || b == 32 {
                    ByteOutcome::More
                } else if b == 42 {
                    self.begin_number(Kind::List);
                    ByteOutcome::More
                } else if b == 36 {
                    self.begin_number(Kind::Data);
                    ByteOutcome::More
                } else if b == 58 {
                    self.begin_number(Kind::Int);
                    ByteOutcome::More
                } else if b == 43 {
                    self.mode = Mode::Line;
                    self.kind = Kind::Status;
                    ByteOutcome::More
                } else if b == 45 {
                    self.mode = Mode::Line;
                    self.kind = Kind::Error;
                    ByteOutcome::More
                } else {
                    ByteOutcome::Fail
                }
            },
            Mode::Number | Mode::Digits => {
                if 48 <= b && b <= 57 {
                    let d: u64 = (b - 48) as u64;
                    let n = self.number;
                    if n > (MAX_MAGNITUDE - d) / 10 {
                        assert(n * 10 + d > MAX_MAGNITUDE) by (nonlinear_arith)
                            requires
                                n > (MAX_MAGNITUDE - d) / 10,
                                d <= 9,
                        ;
                        ByteOutcome::Fail
                    } else {
                        assert(n * 10 + d <= MAX_MAGNITUDE) by (nonlinear_arith)
                            requires
                                n <= (MAX_MAGNITUDE - d) / 10,
                                d <= 9,
                        ;
                        self.number = n * 10 + d;
                        self.mode = Mode::Digits;
                        ByteOutcome::More
                    }
                } else if b == 45 && self.mode == Mode::Number {
                    self.negative = true;
                    self.mode = Mode::Digits;
                    ByteOutcome::More
                } else if b == 13 || b == 32 {
                    self.mode = Mode::NeedNewline;
                    ByteOutcome::More
                } else if b == 10 {
                    self.number_done()
                } else {
                    ByteOutcome::Fail
                }
            },
            Mode::NeedNewline => {
                if b == 10 {
                    self.number_done()
                } else {
                    ByteOutcome::Fail
                }
            },
            Mode::Payload => {
                self.data.push(b);
                if self.data.len() as u64 >= self.size {
                    self.mode = Mode::PayloadCr;
                }
                ByteOutcome::More
            },
            Mode::PayloadCr => {
                if b == 13 {
                    self.mode = Mode::PayloadLf;
                    ByteOutcome::More
                } else {
                    ByteOutcome::Fail
                }
            },
            Mode::PayloadLf => {
                if b == 10 {
                    let mut d: Vec<u8> = Vec::new();
                    core::mem::swap(&mut d, &mut self.data);
                    self.complete(Value::Data(d))
                } else {
                    ByteOutcome::Fail
                }
            },
            Mode::Line => {
                if b == 13 {
                    self.mode = Mode::LineLf;
                    ByteOutcome::More
                } else if b == 10 {
                    ByteOutcome::Fail
                } else {
                    self.data.push(b);
                    ByteOutcome::More
                }
            },
            Mode::LineLf => {
                if b == 10 {
                    let mut d: Vec<u8> = Vec::new();
                    core::mem::swap(&mut d, &mut self.data);
                    if self.kind == Kind::Status {
                        self.complete(Value::Status(d))
                    } else {
                        self.complete(Value::Error(d))
                    }
                } else {
                    ByteOutcome::Fail
                }
            },
        }
    }

    /// Hands a completed value to the innermost open array, closing arrays
    /// that become full, and returns the top-level value once there is one.
    fn complete(&mut self, value: Value) -> (r: ByteOutcome)
        requires
            old(self).wf(),
        ensures
            final(self).wf(),
            match r {
                ByteOutcome::More => complete(old(self)@.frames, value@) == Step::More(final(self)@),
                ByteOutcome::Done(w) => complete(old(self)@.frames, value@) == Step::Done(
                    final(self)@,
                    w@,
                ),
                ByteOutcome::Fail => false,
            },
    {
        let ghost goal = complete(self@.frames, value@);
        self.mode = Mode::Start;
        self.kind = Kind::Int;
        self.number = 0;
        self.negative = false;
        self.size = 0;
        self.data = Vec::new();
        let mut v = value;
        loop
            invariant
                self.wf(),
                self@ == fresh(self@.frames),
                goal == complete(self@.frames, v@),
                goal == complete(old(self)@.frames, value@),
            decreases self.frames@.len(),
        {
            let ghost fs = self.frames@;
            match self.frames.pop() {
                None => {
                    assert(self@.frames =~= Seq::<FrameView>::empty());
                    return ByteOutcome::Done(v);
                },
                Some(top) => {
                    proof {
                        lemma_frame_views_pop(fs);
                        assert(fs.last() == top);
                        lemma_views_push(top.items@, v);
                    }
                    let Frame { count, mut items } = top;
                    items.push(v);
                    if items.len() as u64 >= count {
                        let w = Value::List(items);
                        assert(w@ == ValueView::List(views(items@))) by {
                            assert(views(items@) =~= w@->List_0);
                        }
                        v = w;
                    } else {
                        let f = Frame { count, items };
                        proof {
                            lemma_frame_views_push(self.frames@, f);
                        }
                        self.frames.push(f);
                        assert forall|i: int| 0 <= i < self.frames@.len() implies #[trigger] self.frames@[i].items@.len()
                            < self.frames@[i].count by {
                            if i < fs.len() - 1 {
                                assert(self.frames@[i] == fs[i]);
                            }
                        }
                        return ByteOutcome::More;
                    }
                },
            }
        }
    }
}

} // verus!
