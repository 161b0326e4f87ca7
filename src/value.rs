use vstd::prelude::*;

verus! {

broadcast use {
    vstd::std_specs::vec::axiom_vec_decreases_to_view,
    vstd::seq::axiom_seq_index_decreases,
};

/// A RESP value, as decoded from or encoded to the wire.
///
/// `Nil` stands for both null encodings (`$-1` and `*-1`); `Data` and
/// `List` may be empty and are then distinct from `Nil`. The text of an
/// `Error` or `Status` reply is kept as the bytes that were sent.
#[derive(PartialEq, Eq, Debug)]
pub enum Value {
    Nil,
    Int(i64),
    Data(Vec<u8>),
    List(Vec<Value>),
    Error(Vec<u8>),
    Status(Vec<u8>),
}

/// The mathematical model of a [`Value`].
pub enum ValueView {
    Nil,
    Int(i64),
    Data(Seq<u8>),
    List(Seq<ValueView>),
    Error(Seq<u8>),
    Status(Seq<u8>),
}

impl View for Value {
    type V = ValueView;

    open spec fn view(&self) -> ValueView
        decreases self,
    {
        match self {
            Value::Nil => ValueView::Nil,
            Value::Int(i) => ValueView::Int(*i),
            Value::Data(d) => ValueView::Data(d@),
            Value::List(items) => ValueView::List(
                Seq::new(items@.len(), |i: int| view_at(items@, i)),
            ),
            Value::Error(t) => ValueView::Error(t@),
            Value::Status(t) => ValueView::Status(t@),
        }
    }
}

/// The models of a sequence of values.
pub open spec fn views(items: Seq<Value>) -> Seq<ValueView> {
    Seq::new(items.len(), |i: int| view_at(items, i))
}

/// The model of the item at index `i`.
pub open spec fn view_at(items: Seq<Value>, i: int) -> ValueView
    decreases items,
{
    if 0 <= i < items.len() {
        items[i]@
    } else {
        ValueView::Nil
    }
}

pub proof fn lemma_views_push(items: Seq<Value>, v: Value)
    ensures
        views(items.push(v)) == views(items).push(v@),
{
    assert(views(items.push(v)) =~= views(items).push(v@));
}

pub open spec fn crlf() -> Seq<u8> {
    seq![13u8, 10u8]
}

/// Decimal ASCII digits of `n`, without leading zeros.
pub open spec fn dec(n: nat) -> Seq<u8>
    decreases n,
{
    if n < 10 {
        seq![(48 + n) as u8]
    } else {
        dec(n / 10).push((48 + n % 10) as u8)
    }
}

/// Decimal ASCII text of a signed integer, with a leading `-` when negative.
pub open spec fn sdec(i: int) -> Seq<u8> {
    if i < 0 {
        seq![45u8] + dec((-i) as nat)
    } else {
        dec(i as nat)
    }
}

/// The bulk-string block `$<len>\r\n<bytes>\r\n`.
pub open spec fn encode_bulk(b: Seq<u8>) -> Seq<u8> {
    seq![36u8] + dec(b.len()) + crlf() + b + crlf()
}

/// The canonical RESP encoding of a value.
pub open spec fn encode(v: ValueView) -> Seq<u8>
    decreases v,
{
    match v {
        ValueView::Nil => seq![36u8, 45u8, 49u8] + crlf(),
        ValueView::Int(i) => seq![58u8] + sdec(i as int) + crlf(),
        ValueView::Data(b) => encode_bulk(b),
        ValueView::List(items) => seq![42u8] + dec(items.len()) + crlf() + encode_items(
            items,
            items.len() as int,
        ),
        ValueView::Error(t) => seq![45u8] + t + crlf(),
        ValueView::Status(t) => seq![43u8] + t + crlf(),
    }
}

/// The encodings of the first `n` items, one after the other.
pub open spec fn encode_items(items: Seq<ValueView>, n: int) -> Seq<u8>
    decreases items, n,
{
    if n <= 0 || n > items.len() {
        Seq::empty()
    } else {
        encode_items(items, n - 1) + encode(items[n - 1])
    }
}

} // verus!
