//! Extraction: where a message begins and ends in a received byte stream.
//!
//! An extractor owns the partial message of its channel, with the time of the chunk
//! that supplied its first byte. It never interprets what a message means.

use vstd::prelude::*;

use crate::model::message::MessageBytes;
use crate::model::timing::ChunkTime;

pub mod delimiter;
pub mod fixed_length;
pub mod stream;

pub use delimiter::DelimiterExtractor;
pub use fixed_length::FixedLengthExtractor;
pub use stream::StreamExtractor;

verus! {

/// Splits a received byte stream into completed messages.
///
/// `push_chunk` is fed each chunk in receive order and gives every message that the
/// chunk completes. `finish` is called once at channel stop: an incomplete message is
/// discarded.
pub trait MessageExtractor {
    spec fn wf(&self) -> bool;

    fn push_chunk(&mut self, bytes: &[u8], at: ChunkTime) -> (r: Vec<MessageBytes>)
        requires
            old(self).wf(),
        ensures
            final(self).wf(),
    ;

    fn finish(&mut self) -> (r: Vec<MessageBytes>)
        requires
            old(self).wf(),
        ensures
            final(self).wf(),
            r@.len() == 0,
    ;
}

/// `s` ends with `mark`.
pub open spec fn ends_with(s: Seq<u8>, mark: Seq<u8>) -> bool {
    mark.len() <= s.len() && s.skip(s.len() - mark.len()) == mark
}

/// The shortest length above `n` of a beginning of `s` that ends with `mark`; `None`
/// where there is no such beginning.
pub open spec fn end_after(s: Seq<u8>, mark: Seq<u8>, n: int) -> Option<int>
    decreases s.len() - n,
{
    if n >= s.len() {
        None
    } else if ends_with(s.take(n + 1), mark) {
        Some(n + 1)
    } else {
        end_after(s, mark, n + 1)
    }
}

/// Where the first occurrence of `mark` in `s` ends.
pub open spec fn first_end(s: Seq<u8>, mark: Seq<u8>) -> Option<int> {
    end_after(s, mark, 0)
}

/// What the first occurrence is.
pub proof fn lemma_end_after(s: Seq<u8>, mark: Seq<u8>, n: int)
    requires
        0 <= n,
    ensures
        end_after(s, mark, n) matches Some(e) ==> n < e <= s.len() && ends_with(s.take(e), mark)
            && forall|k: int| n < k < e ==> !ends_with(#[trigger] s.take(k), mark),
        end_after(s, mark, n) is None ==> forall|k: int|
            n < k <= s.len() ==> !ends_with(#[trigger] s.take(k), mark),
    decreases s.len() - n,
{
    if n < s.len() && !ends_with(s.take(n + 1), mark) {
        lemma_end_after(s, mark, n + 1);
    }
}

/// Whatever is the first length to end with the mark is what `end_after` finds.
pub proof fn lemma_end_is(s: Seq<u8>, mark: Seq<u8>, n: int, e: int)
    requires
        0 <= n < e <= s.len(),
        ends_with(s.take(e), mark),
        forall|k: int| n < k < e ==> !ends_with(#[trigger] s.take(k), mark),
    ensures
        end_after(s, mark, n) == Some(e),
    decreases e - n,
{
    lemma_end_after(s, mark, n);
    match end_after(s, mark, n) {
        Some(f) => {
            if f < e {
                assert(!ends_with(s.take(f), mark));
            } else if e < f {
                assert(!ends_with(s.take(e), mark));
            }
        },
        None => {
            assert(!ends_with(s.take(e), mark));
        },
    }
}

/// Where nothing ends with the mark, `end_after` finds nothing.
pub proof fn lemma_no_end(s: Seq<u8>, mark: Seq<u8>, n: int)
    requires
        0 <= n,
        forall|k: int| n < k <= s.len() ==> !ends_with(#[trigger] s.take(k), mark),
    ensures
        end_after(s, mark, n) is None,
{
    lemma_end_after(s, mark, n);
    if end_after(s, mark, n) is Some {
        let e = end_after(s, mark, n)->0;
        assert(ends_with(s.take(e), mark));
    }
}

/// Whether `buf` ends with `mark`.
pub fn buffer_ends_with(buf: &Vec<u8>, mark: &Vec<u8>) -> (r: bool)
    ensures
        r == ends_with(buf@, mark@),
{
    if mark.len() > buf.len() {
        return false;
    }
    let start: usize = buf.len() - mark.len();
    let mut i: usize = 0;
    while i < mark.len()
        invariant
            i <= mark.len(),
            start + mark.len() == buf.len(),
            forall|j: int| 0 <= j < i ==> buf@[start + j] == #[trigger] mark@[j],
        decreases mark.len() - i,
    {
        if buf[start + i] != mark[i] {
            assert(buf@.skip(start as int)[i as int] != mark@[i as int]);
            return false;
        }
        i = i + 1;
    }
    assert(buf@.skip(start as int) =~= mark@);
    true
}

} // verus!
