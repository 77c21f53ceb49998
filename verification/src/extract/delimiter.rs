//! Extraction of messages that end with a delimiter.
//!
//! The delimiter is a sequence of arbitrary bytes and may straddle chunk boundaries.

use vstd::prelude::*;

use crate::extract::{
    buffer_ends_with, ends_with, first_end, lemma_end_after, lemma_end_is, lemma_no_end,
    MessageExtractor,
};
use crate::model::message::{frames_view, Frame, MessageBytes};
use crate::model::timing::ChunkTime;

verus! {

/// A stream cut after each delimiter: the complete pieces, delimiter included.
pub open spec fn pieces(s: Seq<u8>, delimiter: Seq<u8>) -> Seq<Seq<u8>>
    decreases s.len(),
{
    match first_end(s, delimiter) {
        Some(e) => if delimiter.len() > 0 && 0 < e <= s.len() {
            seq![s.take(e)] + pieces(s.skip(e), delimiter)
        } else {
            Seq::empty()
        },
        None => Seq::empty(),
    }
}

/// What is left of a stream behind its last delimiter.
pub open spec fn leftover(s: Seq<u8>, delimiter: Seq<u8>) -> Seq<u8>
    decreases s.len(),
{
    match first_end(s, delimiter) {
        Some(e) => if delimiter.len() > 0 && 0 < e <= s.len() {
            leftover(s.skip(e), delimiter)
        } else {
            s
        },
        None => s,
    }
}

/// All bytes of the pieces, in order.
pub open spec fn flat(parts: Seq<Seq<u8>>) -> Seq<u8>
    decreases parts.len(),
{
    if parts.len() == 0 {
        Seq::empty()
    } else {
        parts[0] + flat(parts.skip(1))
    }
}

/// Nothing is lost: the pieces and the leftover make up the stream.
pub proof fn law_pieces_cover(s: Seq<u8>, delimiter: Seq<u8>)
    ensures
        flat(pieces(s, delimiter)) + leftover(s, delimiter) == s,
    decreases s.len(),
{
    lemma_end_after(s, delimiter, 0);
    match first_end(s, delimiter) {
        Some(e) => if delimiter.len() > 0 {
            law_pieces_cover(s.skip(e), delimiter);
            let parts = pieces(s, delimiter);
            let tail = pieces(s.skip(e), delimiter);
            assert(parts.skip(1) =~= tail);
            assert(parts[0] == s.take(e));
            assert(flat(parts) + leftover(s, delimiter) =~= s.take(e) + (flat(tail) + leftover(
                s.skip(e),
                delimiter,
            )));
            assert(s.take(e) + s.skip(e) =~= s);
        } else {
            assert(flat(pieces(s, delimiter)) + leftover(s, delimiter) =~= s);
        },
        None => {
            assert(flat(pieces(s, delimiter)) + leftover(s, delimiter) =~= s);
        },
    }
}

/// Every piece ends with the delimiter, and with no earlier one.
pub proof fn law_pieces_are_minimal(s: Seq<u8>, delimiter: Seq<u8>)
    ensures
        forall|i: int|
            0 <= i < pieces(s, delimiter).len() ==> ends_with(
                #[trigger] pieces(s, delimiter)[i],
                delimiter,
            ) && first_end(pieces(s, delimiter)[i], delimiter) == Some(
                pieces(s, delimiter)[i].len() as int,
            ),
        delimiter.len() > 0 ==> first_end(leftover(s, delimiter), delimiter) is None,
    decreases s.len(),
{
    lemma_end_after(s, delimiter, 0);
    match first_end(s, delimiter) {
        Some(e) => if delimiter.len() > 0 {
            law_pieces_are_minimal(s.skip(e), delimiter);
            let parts = pieces(s, delimiter);
            let tail = pieces(s.skip(e), delimiter);
            let head = s.take(e);
            assert forall|k: int| 0 < k < e implies !ends_with(#[trigger] head.take(k), delimiter) by {
                assert(head.take(k) =~= s.take(k));
            }
            assert(head.take(e) =~= head);
            lemma_end_is(head, delimiter, 0, e);
            assert forall|i: int| 0 <= i < parts.len() implies ends_with(
                #[trigger] parts[i],
                delimiter,
            ) && first_end(parts[i], delimiter) == Some(parts[i].len() as int) by {
                if i > 0 {
                    assert(parts[i] == tail[i - 1]);
                }
            }
        },
        None => {},
    }
}

/// One more byte either completes the leftover or lengthens it.
pub proof fn law_push_byte(s: Seq<u8>, b: u8, delimiter: Seq<u8>)
    requires
        delimiter.len() > 0,
    ensures
        ({
            let grown = leftover(s, delimiter).push(b);
            if ends_with(grown, delimiter) {
                &&& pieces(s.push(b), delimiter) == pieces(s, delimiter).push(grown)
                &&& leftover(s.push(b), delimiter) == Seq::<u8>::empty()
            } else {
                &&& pieces(s.push(b), delimiter) == pieces(s, delimiter)
                &&& leftover(s.push(b), delimiter) == grown
            }
        }),
    decreases s.len(),
{
    let t = s.push(b);
    lemma_end_after(s, delimiter, 0);
    match first_end(s, delimiter) {
        Some(e) => {
            assert forall|k: int| 0 < k < e implies !ends_with(#[trigger] t.take(k), delimiter) by {
                assert(t.take(k) =~= s.take(k));
            }
            assert(t.take(e) =~= s.take(e));
            lemma_end_is(t, delimiter, 0, e);
            assert(t.skip(e) =~= s.skip(e).push(b));
            law_push_byte(s.skip(e), b, delimiter);
            let head = seq![s.take(e)];
            let grown = leftover(s, delimiter).push(b);
            if ends_with(grown, delimiter) {
                assert(head + pieces(s.skip(e), delimiter).push(grown) =~= (head + pieces(
                    s.skip(e),
                    delimiter,
                )).push(grown));
            }
        },
        None => {
            assert forall|k: int| 0 < k <= s.len() implies !ends_with(
                #[trigger] t.take(k),
                delimiter,
            ) by {
                assert(t.take(k) =~= s.take(k));
            }
            assert(t.take(t.len() as int) =~= t);
            if ends_with(t, delimiter) {
                lemma_end_is(t, delimiter, 0, t.len() as int);
                let none = Seq::<u8>::empty();
                assert(t.skip(t.len() as int) =~= none);
                assert(pieces(none, delimiter) =~= Seq::empty());
                assert(leftover(none, delimiter) == none);
                assert(seq![t] + pieces(none, delimiter) =~= pieces(s, delimiter).push(t));
            } else {
                assert forall|k: int| 0 < k <= t.len() implies !ends_with(
                    #[trigger] t.take(k),
                    delimiter,
                ) by {
                    if k == t.len() {
                        assert(t.take(k) =~= t);
                    }
                }
                lemma_no_end(t, delimiter, 0);
            }
        },
    }
}

/// A stream that arrives in two chunks has the pieces that it has as a whole.
pub proof fn law_chunks_do_not_matter(a: Seq<u8>, b: Seq<u8>, delimiter: Seq<u8>)
    requires
        delimiter.len() > 0,
    ensures
        pieces(a + b, delimiter) == pieces(a, delimiter) + pieces(
            leftover(a, delimiter) + b,
            delimiter,
        ),
        leftover(a + b, delimiter) == leftover(leftover(a, delimiter) + b, delimiter),
    decreases b.len(),
{
    let rest = leftover(a, delimiter);
    if b.len() == 0 {
        law_pieces_are_minimal(a, delimiter);
        assert(a + b =~= a);
        assert(rest + b =~= rest);
        assert(pieces(rest, delimiter) =~= Seq::empty());
        assert(pieces(a, delimiter) + pieces(rest, delimiter) =~= pieces(a, delimiter));
    } else {
        let front = b.drop_last();
        let c = b.last();
        law_chunks_do_not_matter(a, front, delimiter);
        assert(a + b =~= (a + front).push(c));
        assert(rest + b =~= (rest + front).push(c));
        law_push_byte(a + front, c, delimiter);
        law_push_byte(rest + front, c, delimiter);
        let grown = leftover(rest + front, delimiter).push(c);
        let p = pieces(a, delimiter);
        let q = pieces(rest + front, delimiter);
        assert(p + q.push(grown) =~= (p + q).push(grown));
    }
}

/// What is emitted of a piece.
pub open spec fn payload(piece: Seq<u8>, delimiter: Seq<u8>, include_delimiter: bool) -> Seq<u8> {
    if include_delimiter {
        piece
    } else {
        piece.take(piece.len() - delimiter.len())
    }
}

/// The messages of the pieces that a chunk completes. The first of them began in the
/// chunk of `first`; the others began, and all of them end, in this chunk.
pub open spec fn delimited(
    parts: Seq<Seq<u8>>,
    delimiter: Seq<u8>,
    include_delimiter: bool,
    first: ChunkTime,
    at: ChunkTime,
) -> Seq<Frame> {
    Seq::new(
        parts.len(),
        |i: int|
            Frame {
                bytes: payload(parts[i], delimiter, include_delimiter),
                first_chunk: if i == 0 {
                    first
                } else {
                    at
                },
                last_chunk: at,
            },
    )
}

/// Extracts messages that end with a fixed sequence of bytes.
///
/// Each delimiter ends a message, also where no byte precedes it: consecutive
/// delimiters yield empty messages. Where the delimiter is not included it is stripped
/// from the message. An empty delimiter never completes a message.
#[derive(Clone, Debug)]
pub struct DelimiterExtractor {
    delimiter: Vec<u8>,
    include_delimiter: bool,
    buf: Vec<u8>,
    pending_first_chunk: Option<ChunkTime>,
}

impl DelimiterExtractor {
    pub closed spec fn delimiter_spec(self) -> Seq<u8> {
        self.delimiter@
    }

    pub closed spec fn includes(self) -> bool {
        self.include_delimiter
    }

    /// The bytes of the message that is being received.
    pub closed spec fn partial(self) -> Seq<u8> {
        self.buf@
    }

    /// When the first byte of the message that is being received arrived.
    pub closed spec fn began(self) -> Option<ChunkTime> {
        self.pending_first_chunk
    }

    pub closed spec fn valid(self) -> bool {
        &&& self.buf@.len() > 0 ==> self.pending_first_chunk is Some
        &&& self.delimiter@.len() > 0 ==> first_end(self.buf@, self.delimiter@) is None
    }

    pub fn new(delimiter: Vec<u8>, include_delimiter: bool) -> (r: DelimiterExtractor)
        ensures
            r.wf(),
            r.delimiter_spec() == delimiter@,
            r.includes() == include_delimiter,
            r.partial() == Seq::<u8>::empty(),
            r.began() is None,
    {
        DelimiterExtractor {
            delimiter,
            include_delimiter,
            buf: Vec::new(),
            pending_first_chunk: None,
        }
    }

    /// Completes the message in the buffer; `last` is the time of its last byte.
    fn take_message(&mut self, last: ChunkTime) -> (r: MessageBytes)
        requires
            old(self).pending_first_chunk is Some,
            ends_with(old(self).buf@, old(self).delimiter@),
        ensures
            final(self).delimiter == old(self).delimiter,
            final(self).include_delimiter == old(self).include_delimiter,
            final(self).buf@ == Seq::<u8>::empty(),
            final(self).pending_first_chunk is None,
            r@ == (Frame {
                bytes: payload(
                    old(self).buf@,
                    old(self).delimiter@,
                    old(self).include_delimiter,
                ),
                first_chunk: old(self).pending_first_chunk->0,
                last_chunk: last,
            }),
    {
        let first: ChunkTime = match self.pending_first_chunk {
            Some(first) => first,
            None => last,
        };
        self.pending_first_chunk = None;
        let mut bytes: Vec<u8> = Vec::new();
        core::mem::swap(&mut bytes, &mut self.buf);
        if !self.include_delimiter {
            let payload_len: usize = bytes.len() - self.delimiter.len();
            bytes.truncate(payload_len);
            assert(bytes@ =~= payload(old(self).buf@, old(self).delimiter@, false));
        }
        MessageBytes { bytes, first_chunk: first, last_chunk: last }
    }
}

/// What a chunk that arrives at `at` makes of an extractor, and the messages that it
/// completes.
pub open spec fn pushed(
    before: DelimiterExtractor,
    bytes: Seq<u8>,
    at: ChunkTime,
    after: DelimiterExtractor,
    out: Seq<Frame>,
) -> bool {
    let received = before.partial() + bytes;
    let carried = before.partial().len() > 0;
    &&& after.delimiter_spec() == before.delimiter_spec()
    &&& after.includes() == before.includes()
    &&& out == delimited(
        pieces(received, before.delimiter_spec()),
        before.delimiter_spec(),
        before.includes(),
        if carried {
            before.began()->0
        } else {
            at
        },
        at,
    )
    &&& after.partial() == leftover(received, before.delimiter_spec())
    &&& after.partial().len() > 0 ==> after.began() == if carried && out.len() == 0 {
        before.began()
    } else {
        Some(at)
    }
}

impl MessageExtractor for DelimiterExtractor {
    closed spec fn wf(&self) -> bool {
        self.valid()
    }

    fn push_chunk(&mut self, bytes: &[u8], at: ChunkTime) -> (r: Vec<MessageBytes>)
        ensures
            pushed(*old(self), bytes@, at, *final(self), frames_view(r@)),
            final(self).delimiter_spec() == old(self).delimiter_spec(),
            final(self).includes() == old(self).includes(),
            frames_view(r@) == delimited(
                pieces(old(self).partial() + bytes@, old(self).delimiter_spec()),
                old(self).delimiter_spec(),
                old(self).includes(),
                if old(self).partial().len() > 0 {
                    old(self).began()->0
                } else {
                    at
                },
                at,
            ),
            final(self).partial() == leftover(
                old(self).partial() + bytes@,
                old(self).delimiter_spec(),
            ),
            final(self).partial().len() > 0 ==> final(self).began() == if old(
                self,
            ).partial().len() > 0 && frames_view(r@).len() == 0 {
                old(self).began()
            } else {
                Some(at)
            },
    {
        let mut out: Vec<MessageBytes> = Vec::new();
        let ghost start = self.buf@;
        let ghost d = self.delimiter@;
        let ghost first = if start.len() > 0 {
            self.pending_first_chunk->0
        } else {
            at
        };
        let ghost inc = self.include_delimiter;
        let mut i: usize = 0;
        proof {
            assert(start + bytes@.take(0) =~= start);
            if d.len() > 0 {
                assert(pieces(start, d) =~= Seq::empty());
            } else {
                assert(pieces(start, d) =~= Seq::empty());
            }
            assert(leftover(start, d) == start);
            assert(frames_view(out@) =~= delimited(pieces(start, d), d, inc, first, at));
        }
        while i < bytes.len()
            invariant
                i <= bytes.len(),
                self.valid(),
                self.delimiter@ == d,
                self.include_delimiter == inc,
                start == old(self).buf@,
                first == (if start.len() > 0 {
                    old(self).pending_first_chunk->0
                } else {
                    at
                }),
                frames_view(out@) == delimited(
                    pieces(start + bytes@.take(i as int), d),
                    d,
                    inc,
                    first,
                    at,
                ),
                self.buf@ == leftover(start + bytes@.take(i as int), d),
                self.buf@.len() > 0 ==> self.pending_first_chunk == (if start.len() > 0
                    && out@.len() == 0 {
                    old(self).pending_first_chunk
                } else {
                    Some(at)
                }),
                out@.len() == 0 && start.len() > 0 ==> self.buf@.len() > 0 && old(
                    self,
                ).pending_first_chunk is Some,
            decreases bytes.len() - i,
        {
            let b: u8 = bytes[i];
            let ghost done = start + bytes@.take(i as int);
            assert(start + bytes@.take(i + 1) =~= done.push(b));
            if self.buf.len() == 0 {
                self.pending_first_chunk = Some(at);
            }
            let ghost before = self.buf@;
            self.buf.push(b);
            let ghost grown = before.push(b);
            let ghost was = out@;
            proof {
                if d.len() > 0 {
                    law_push_byte(done, b, d);
                }
            }
            if self.delimiter.len() > 0 && buffer_ends_with(&self.buf, &self.delimiter) {
                out.push(self.take_message(at));
                proof {
                    let p = pieces(done, d);
                    assert(frames_view(out@) =~= frames_view(was).push(out@.last()@));
                    assert(frames_view(out@) =~= delimited(p.push(grown), d, inc, first, at));
                    lemma_no_end(Seq::empty(), d, 0);
                }
            } else {
                proof {
                    if d.len() > 0 {
                        law_pieces_are_minimal(done.push(b), d);
                    }
                }
            }
            i = i + 1;
        }
        assert(bytes@.take(i as int) =~= bytes@);
        out
    }

    fn finish(&mut self) -> (r: Vec<MessageBytes>)
        ensures
            final(self).delimiter_spec() == old(self).delimiter_spec(),
            final(self).includes() == old(self).includes(),
            final(self).partial() == Seq::<u8>::empty(),
            final(self).began() is None,
    {
        self.buf.clear();
        self.pending_first_chunk = None;
        assert(self.buf@ =~= Seq::empty());
        Vec::new()
    }
}

} // verus!
