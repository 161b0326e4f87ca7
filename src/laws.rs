use vstd::prelude::*;
use crate::decoder::{
    begin_number, complete, fresh, lemma_chunked_feed, number_done, run, step, DecoderView,
    FrameView, Kind, Mode, Step, MAX_MAGNITUDE,
};
use crate::value::{crlf, dec, encode, encode_items, sdec, ValueView};

verus! {

broadcast use vstd::seq::axiom_seq_index_decreases;

/// Feeding one byte is one step.
proof fn lemma_run_one(s: DecoderView, b: u8)
    ensures
        run(s, seq![b]) == step(s, b),
{
    assert(seq![b].drop_last() =~= Seq::<u8>::empty());
    assert(run(s, Seq::<u8>::empty()) == Step::More(s));
}

/// The digits of `n` read from the start of a number token leave `n` as the
/// token's magnitude.
proof fn lemma_run_dec(s: DecoderView, n: nat)
    requires
        s.mode == Mode::Number || s.mode == Mode::Digits,
        s.number == 0,
        n <= MAX_MAGNITUDE,
    ensures
        run(s, dec(n)) == Step::More(DecoderView { mode: Mode::Digits, number: n, ..s }),
    decreases n,
{
    if n < 10 {
        lemma_run_one(s, (48 + n) as u8);
    } else {
        lemma_run_dec(s, n / 10);
        let d = dec(n);
        assert(d.drop_last() =~= dec(n / 10));
        assert(d.last() == (48 + n % 10) as u8);
    }
}

/// Feeding one more byte is one more step, unless the outcome is already
/// settled.
proof fn lemma_run_push(s: DecoderView, bs: Seq<u8>, b: u8)
    ensures
        run(s, bs.push(b)) == match run(s, bs) {
            Step::More(t) => step(t, b),
            r => r,
        },
{
    assert(bs.push(b).drop_last() =~= bs);
}

/// The line end after a number token completes the token.
proof fn lemma_run_number_end(s: DecoderView)
    requires
        s.mode == Mode::Digits,
    ensures
        run(s, crlf()) == number_done(DecoderView { mode: Mode::NeedNewline, ..s }),
{
    lemma_run_one(s, 13);
    lemma_run_push(s, seq![13u8], 10);
    assert(seq![13u8].push(10) =~= crlf());
}

/// A type byte, the digits of `n` and a line end, read between values.
proof fn lemma_run_header(frames: Seq<FrameView>, t: u8, kind: Kind, n: nat)
    requires
        n <= MAX_MAGNITUDE,
        (t == 42 && kind == Kind::List) || (t == 36 && kind == Kind::Data) || (t == 58 && kind
            == Kind::Int),
    ensures
        run(fresh(frames), seq![t] + dec(n) + crlf()) == number_done(
            DecoderView {
                mode: Mode::NeedNewline,
                kind,
                number: n,
                negative: false,
                ..fresh(frames)
            },
        ),
{
    let s0 = fresh(frames);
    let s1 = begin_number(s0, kind);
    lemma_run_one(s0, t);
    lemma_run_dec(s1, n);
    let s2 = DecoderView { mode: Mode::Digits, number: n, ..s1 };
    lemma_run_number_end(s2);
    lemma_chunked_feed(s0, seq![t], dec(n));
    lemma_chunked_feed(s0, seq![t] + dec(n), crlf());
}

/// Copying payload bytes while the declared size is not yet reached.
proof fn lemma_run_payload(s: DecoderView, p: Seq<u8>)
    requires
        s.mode == Mode::Payload,
        s.data.len() < s.size,
        s.data.len() + p.len() <= s.size,
    ensures
        run(s, p) == Step::More(
            DecoderView {
                mode: if s.data.len() + p.len() >= s.size {
                    Mode::PayloadCr
                } else {
                    Mode::Payload
                },
                data: s.data + p,
                ..s
            },
        ),
    decreases p.len(),
{
    if p.len() == 0 {
        assert(s.data + p =~= s.data);
    } else {
        lemma_run_payload(s, p.drop_last());
        assert(p.drop_last().push(p.last()) =~= p);
        lemma_run_push(s, p.drop_last(), p.last());
        assert((s.data + p.drop_last()).push(p.last()) =~= s.data + p);
    }
}

/// No carriage return or line feed in `t`.
pub open spec fn no_line_end(t: Seq<u8>) -> bool {
    forall|i: int| 0 <= i < t.len() ==> t[i] != 13 && t[i] != 10
}

/// Copying the text of a status or error line.
proof fn lemma_run_line(s: DecoderView, t: Seq<u8>)
    requires
        s.mode == Mode::Line,
        no_line_end(t),
    ensures
        run(s, t) == Step::More(DecoderView { data: s.data + t, ..s }),
    decreases t.len(),
{
    if t.len() == 0 {
        assert(s.data + t =~= s.data);
    } else {
        lemma_run_line(s, t.drop_last());
        assert(t.drop_last().push(t.last()) =~= t);
        lemma_run_push(s, t.drop_last(), t.last());
        assert((s.data + t.drop_last()).push(t.last()) =~= s.data + t);
    }
}

/// The values whose canonical encoding decodes back to them: bulk strings
/// and arrays no longer than a length token admits, and status and error
/// text without line ends.
pub open spec fn writable(v: ValueView) -> bool
    decreases v,
{
    match v {
        ValueView::Data(b) => b.len() <= MAX_MAGNITUDE,
        ValueView::List(items) => items.len() <= MAX_MAGNITUDE && forall|i: int|
            0 <= i < items.len() ==> writable(#[trigger] items[i]),
        ValueView::Error(t) => no_line_end(t),
        ValueView::Status(t) => no_line_end(t),
        _ => true,
    }
}

/// Between values, the encoding of `Nil` completes `Nil`.
proof fn lemma_decode_nil(frames: Seq<FrameView>)
    ensures
        run(fresh(frames), encode(ValueView::Nil)) == complete(frames, ValueView::Nil),
{
    let v = ValueView::Nil;
    let s0 = fresh(frames);
    let s1 = begin_number(s0, Kind::Data);
    let s2 = DecoderView { mode: Mode::Digits, negative: true, ..s1 };
    let s3 = DecoderView { mode: Mode::Digits, number: 1, ..s2 };
    lemma_run_one(s0, 36);
    lemma_run_push(s0, seq![36u8], 45);
    lemma_run_push(s0, seq![36u8, 45u8], 49);
    lemma_run_push(s0, seq![36u8, 45u8, 49u8], 13);
    lemma_run_push(s0, seq![36u8, 45u8, 49u8, 13u8], 10);
    assert(seq![36u8].push(45) =~= seq![36u8, 45u8]);
    assert(seq![36u8, 45u8].push(49) =~= seq![36u8, 45u8, 49u8]);
    assert(seq![36u8, 45u8, 49u8].push(13) =~= seq![36u8, 45u8, 49u8, 13u8]);
    assert(seq![36u8, 45u8, 49u8, 13u8].push(10) =~= encode(v));
}

/// Between values, the encoding of an integer completes it.
proof fn lemma_decode_int(frames: Seq<FrameView>, i: i64)
    ensures
        run(fresh(frames), encode(ValueView::Int(i))) == complete(frames, ValueView::Int(i)),
{
    let s0 = fresh(frames);
    let s1 = begin_number(s0, Kind::Int);
    lemma_run_one(s0, 58);
    if i < 0 {
        let m = (-i) as nat;
        let s2 = DecoderView { mode: Mode::Digits, negative: true, ..s1 };
        lemma_run_push(s0, seq![58u8], 45);
        assert(seq![58u8].push(45) =~= seq![58u8, 45u8]);
        lemma_run_dec(s2, m);
        lemma_chunked_feed(s0, seq![58u8, 45u8], dec(m));
        let s3 = DecoderView { mode: Mode::Digits, number: m, ..s2 };
        lemma_run_number_end(s3);
        lemma_chunked_feed(s0, seq![58u8, 45u8] + dec(m), crlf());
        assert(seq![58u8] + sdec(i as int) + crlf() =~= seq![58u8, 45u8] + dec(m) + crlf());
    } else {
        lemma_run_dec(s1, i as nat);
        lemma_chunked_feed(s0, seq![58u8], dec(i as nat));
        let s3 = DecoderView { mode: Mode::Digits, number: i as nat, ..s1 };
        lemma_run_number_end(s3);
        lemma_chunked_feed(s0, seq![58u8] + dec(i as nat), crlf());
    }
}

/// Between values, the encoding of a bulk string completes it.
proof fn lemma_decode_data(frames: Seq<FrameView>, b: Seq<u8>)
    requires
        b.len() <= MAX_MAGNITUDE,
    ensures
        run(fresh(frames), encode(ValueView::Data(b))) == complete(frames, ValueView::Data(b)),
{
    let s0 = fresh(frames);
    let n = b.len();
    lemma_run_header(frames, 36, Kind::Data, n);
    let h = seq![36u8] + dec(n) + crlf();
    let before_payload = DecoderView {
        mode: if n == 0 { Mode::PayloadCr } else { Mode::Payload },
        kind: Kind::Data,
        number: n,
        negative: false,
        size: n,
        data: Seq::empty(),
        frames,
    };
    let after_payload = DecoderView { mode: Mode::PayloadCr, data: b, ..before_payload };
    if n == 0 {
        assert(b =~= Seq::<u8>::empty());
        assert(run(before_payload, b) == Step::More(after_payload));
    } else {
        lemma_run_payload(before_payload, b);
        assert(before_payload.data + b =~= b);
    }
    lemma_chunked_feed(s0, h, b);
    lemma_run_one(after_payload, 13);
    lemma_run_push(after_payload, seq![13u8], 10);
    assert(seq![13u8].push(10) =~= crlf());
    lemma_chunked_feed(s0, h + b, crlf());
}

/// Between values, the encoding of an error reply completes it.
proof fn lemma_decode_error(frames: Seq<FrameView>, t: Seq<u8>)
    requires
        no_line_end(t),
    ensures
        run(fresh(frames), encode(ValueView::Error(t))) == complete(frames, ValueView::Error(t)),
{
    let s0 = fresh(frames);
    let s1 = DecoderView { mode: Mode::Line, kind: Kind::Error, ..s0 };
    let s2 = DecoderView { data: s0.data + t, ..s1 };
    lemma_run_one(s0, 45);
    lemma_run_line(s1, t);
    lemma_chunked_feed(s0, seq![45u8], t);
    lemma_run_one(s2, 13);
    lemma_run_push(s2, seq![13u8], 10);
    assert(seq![13u8].push(10) =~= crlf());
    assert(s0.data + t =~= t);
    lemma_chunked_feed(s0, seq![45u8] + t, crlf());
}

/// Between values, the encoding of a status reply completes it.
proof fn lemma_decode_status(frames: Seq<FrameView>, t: Seq<u8>)
    requires
        no_line_end(t),
    ensures
        run(fresh(frames), encode(ValueView::Status(t))) == complete(frames, ValueView::Status(t)),
{
    let s0 = fresh(frames);
    let s1 = DecoderView { mode: Mode::Line, kind: Kind::Status, ..s0 };
    let s2 = DecoderView { data: s0.data + t, ..s1 };
    lemma_run_one(s0, 43);
    lemma_run_line(s1, t);
    lemma_chunked_feed(s0, seq![43u8], t);
    lemma_run_one(s2, 13);
    lemma_run_push(s2, seq![13u8], 10);
    assert(seq![13u8].push(10) =~= crlf());
    assert(s0.data + t =~= t);
    lemma_chunked_feed(s0, seq![43u8] + t, crlf());
}

/// Between values, with any arrays open, the encoding of `v` completes `v`.
proof fn lemma_decode_encoded(frames: Seq<FrameView>, v: ValueView)
    requires
        writable(v),
    ensures
        run(fresh(frames), encode(v)) == complete(frames, v),
    decreases v,
{
    let s0 = fresh(frames);
    match v {
        ValueView::Nil => lemma_decode_nil(frames),
        ValueView::Int(i) => lemma_decode_int(frames, i),
        ValueView::Data(b) => lemma_decode_data(frames, b),
        ValueView::List(items) => {
            let n = items.len();
            lemma_run_header(frames, 42, Kind::List, n);
            let h = seq![42u8] + dec(n) + crlf();
            lemma_chunked_feed(s0, h, encode_items(items, n as int));
            if n == 0 {
                assert(items =~= Seq::<ValueView>::empty());
                assert(encode_items(items, 0) =~= Seq::<u8>::empty());
                assert(h + encode_items(items, 0) =~= h);
            } else {
                lemma_decode_items(frames, items, n as int);
            }
        },
        ValueView::Error(t) => lemma_decode_error(frames, t),
        ValueView::Status(t) => lemma_decode_status(frames, t),
    }
}

/// Inside a freshly opened array of `items.len()` items, the encodings of
/// the first `k` items fill it with those items, and the last one closes it.
proof fn lemma_decode_items(frames: Seq<FrameView>, items: Seq<ValueView>, k: int)
    requires
        0 <= k <= items.len(),
        0 < items.len() <= MAX_MAGNITUDE,
        forall|i: int| 0 <= i < items.len() ==> writable(#[trigger] items[i]),
    ensures
        run(
            fresh(frames.push(FrameView { count: items.len(), items: Seq::empty() })),
            encode_items(items, k),
        ) == if k < items.len() {
            Step::More(
                fresh(frames.push(FrameView { count: items.len(), items: items.take(k) })),
            )
        } else {
            complete(frames, ValueView::List(items))
        },
    decreases items, k,
{
    let n = items.len();
    let s0 = fresh(frames.push(FrameView { count: n, items: Seq::empty() }));
    if k == 0 {
        assert(encode_items(items, 0) =~= Seq::<u8>::empty());
        assert(items.take(0) =~= Seq::<ValueView>::empty());
    } else {
        lemma_decode_items(frames, items, k - 1);
        let fk = frames.push(FrameView { count: n, items: items.take(k - 1) });
        lemma_decode_encoded(fk, items[k - 1]);
        lemma_chunked_feed(s0, encode_items(items, k - 1), encode(items[k - 1]));
        assert(fk.drop_last() =~= frames);
        assert(items.take(k - 1).push(items[k - 1]) =~= items.take(k));
        if k == n {
            assert(items.take(k) =~= items);
        }
    }
}

/// Decoding the canonical encoding of a writable value, from a fresh
/// decoder, finishes with that value and leaves the decoder fresh.
pub proof fn lemma_round_trip(v: ValueView)
    requires
        writable(v),
    ensures
        run(fresh(Seq::empty()), encode(v)) == Step::Done(fresh(Seq::empty()), v),
{
    lemma_decode_encoded(Seq::empty(), v);
}

/// The chunks laid end to end.
pub open spec fn flatten(chunks: Seq<Seq<u8>>) -> Seq<u8>
    decreases chunks.len(),
{
    if chunks.len() == 0 {
        Seq::empty()
    } else {
        flatten(chunks.drop_last()) + chunks.last()
    }
}

/// Feeding the chunks one call at a time, each to the state the previous
/// call left, for as long as each call needs more.
pub open spec fn feed_chunks(s: DecoderView, chunks: Seq<Seq<u8>>) -> Step
    decreases chunks.len(),
{
    if chunks.len() == 0 {
        Step::More(s)
    } else {
        match feed_chunks(s, chunks.drop_last()) {
            Step::More(t) => run(t, chunks.last()),
            r => r,
        }
    }
}

/// However a byte sequence is cut into chunks, feeding the chunks one after
/// the other ends exactly as feeding the whole sequence at once.
pub proof fn lemma_any_partition(s: DecoderView, chunks: Seq<Seq<u8>>)
    ensures
        feed_chunks(s, chunks) == run(s, flatten(chunks)),
    decreases chunks.len(),
{
    if chunks.len() > 0 {
        lemma_any_partition(s, chunks.drop_last());
        lemma_chunked_feed(s, flatten(chunks.drop_last()), chunks.last());
    }
}

} // verus!
