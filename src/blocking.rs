use vstd::prelude::*;
use crate::decoder::{fresh, lemma_chunked_feed, run, DecodeError, DecodeResult, Decoder};
use crate::value::Value;

verus! {

/// Why a buffer did not hold one complete value.
#[derive(Clone, Copy, PartialEq, Eq, Structural, Debug)]
pub enum ParseError {
    /// The buffer ended inside the value.
    Truncated,
    /// A malformed byte.
    Malformed(DecodeError),
}

/// Decodes the one value at the start of `buf`, which must hold it whole.
/// Returns it with the number of bytes it took.
pub fn parse(buf: &[u8]) -> (r: Result<(Value, usize), ParseError>)
    ensures
        match r {
            Ok((v, k)) => 0 < k <= buf@.len() && run(fresh(Seq::empty()), buf@.take(k - 1)) is More
                && run(fresh(Seq::empty()), buf@.take(k as int)) is Done && run(
                fresh(Seq::empty()),
                buf@,
            ) == run(fresh(Seq::empty()), buf@.take(k as int)) && run(
                fresh(Seq::empty()),
                buf@,
            )->Done_1 == v@,
            Err(ParseError::Truncated) => run(fresh(Seq::empty()), buf@) is More,
            Err(ParseError::Malformed(e)) => run(fresh(Seq::empty()), buf@) is Fail,
        },
{
    let mut d = Decoder::new();
    let (res, k) = d.decode_step(buf);
    proof {
        assert(buf@.take(k as int) + buf@.skip(k as int) =~= buf@);
        lemma_chunked_feed(fresh(Seq::empty()), buf@.take(k as int), buf@.skip(k as int));
    }
    match res {
        DecodeResult::Finished(v) => {
            Ok((v, k))
        },
        DecodeResult::NeedMore => Err(ParseError::Truncated),
        DecodeResult::Error(e) => Err(ParseError::Malformed(e)),
    }
}

} // verus!
