//! Extraction of messages of a fixed length, optionally behind a synchronization marker.
//!
//! Without a marker, messages are collected back to back from the first byte on. With a
//! marker, bytes are ignored until the marker is seen; the marker itself is no part of
//! the message; after each message the search begins again. The marker may straddle
//! chunk boundaries.

use std::collections::VecDeque;

use vstd::prelude::*;

use crate::extract::{
    ends_with, first_end, lemma_end_after, lemma_end_is, lemma_no_end, MessageExtractor,
};
use crate::model::message::{frames_view, Frame, MessageBytes};
use crate::model::timing::ChunkTime;

verus! {

/// What has come out of a stream, and where it stands: whether a message is being
/// collected or the marker is being searched for, and the bytes received since that
/// began.
pub ghost struct Progress {
    pub messages: Seq<Seq<u8>>,
    pub collecting: bool,
    pub rest: Seq<u8>,
}

/// What comes out of the stream `s`. An empty marker is none.
pub open spec fn progress(collecting: bool, s: Seq<u8>, length: nat, marker: Seq<u8>) -> Progress
    decreases s.len(),
{
    if collecting {
        if length == 0 || s.len() < length {
            Progress { messages: Seq::empty(), collecting, rest: s }
        } else {
            let next = progress(marker.len() == 0, s.skip(length as int), length, marker);
            Progress { messages: seq![s.take(length as int)] + next.messages, ..next }
        }
    } else {
        match first_end(s, marker) {
            Some(e) => if 0 < e <= s.len() {
                progress(true, s.skip(e), length, marker)
            } else {
                Progress { messages: Seq::empty(), collecting, rest: s }
            },
            None => Progress { messages: Seq::empty(), collecting, rest: s },
        }
    }
}

/// One more byte.
pub open spec fn progress_byte(p: Progress, b: u8, length: nat, marker: Seq<u8>) -> Progress {
    let grown = p.rest.push(b);
    if p.collecting {
        if grown.len() == length {
            Progress {
                messages: p.messages.push(grown),
                collecting: marker.len() == 0,
                rest: Seq::empty(),
            }
        } else {
            Progress { rest: grown, ..p }
        }
    } else if ends_with(grown, marker) {
        Progress { collecting: true, rest: Seq::empty(), ..p }
    } else {
        Progress { rest: grown, ..p }
    }
}

/// A stream can be followed byte by byte.
pub proof fn law_follow_bytes(
    collecting: bool,
    s: Seq<u8>,
    b: u8,
    length: nat,
    marker: Seq<u8>,
)
    requires
        length > 0,
        collecting || marker.len() > 0,
    ensures
        progress(collecting, s.push(b), length, marker) == progress_byte(
            progress(collecting, s, length, marker),
            b,
            length,
            marker,
        ),
    decreases s.len(),
{
    let t = s.push(b);
    let none = Seq::<u8>::empty();
    assert(progress(true, none, length, marker) == (Progress {
        messages: Seq::empty(),
        collecting: true,
        rest: none,
    }));
    assert(first_end(none, marker) is None);
    assert(progress(false, none, length, marker) == (Progress {
        messages: Seq::empty(),
        collecting: false,
        rest: none,
    }));
    if collecting {
        if s.len() >= length {
            assert(t.take(length as int) =~= s.take(length as int));
            assert(t.skip(length as int) =~= s.skip(length as int).push(b));
            law_follow_bytes(marker.len() == 0, s.skip(length as int), b, length, marker);
            let head = seq![s.take(length as int)];
            let next = progress(marker.len() == 0, s.skip(length as int), length, marker);
            let grown = next.rest.push(b);
            assert(head + next.messages.push(grown) =~= (head + next.messages).push(grown));
        } else if t.len() == length {
            assert(t.take(length as int) =~= t);
            assert(t.skip(length as int) =~= none);
            assert(seq![t] + Seq::<Seq<u8>>::empty() =~= Seq::<Seq<u8>>::empty().push(t));
        }
    } else {
        lemma_end_after(s, marker, 0);
        match first_end(s, marker) {
            Some(e) => {
                assert forall|k: int| 0 < k < e implies !ends_with(#[trigger] t.take(k), marker) by {
                    assert(t.take(k) =~= s.take(k));
                }
                assert(t.take(e) =~= s.take(e));
                lemma_end_is(t, marker, 0, e);
                assert(t.skip(e) =~= s.skip(e).push(b));
                law_follow_bytes(true, s.skip(e), b, length, marker);
            },
            None => {
                assert forall|k: int| 0 < k <= s.len() implies !ends_with(
                    #[trigger] t.take(k),
                    marker,
                ) by {
                    assert(t.take(k) =~= s.take(k));
                }
                assert(t.take(t.len() as int) =~= t);
                if ends_with(t, marker) {
                    lemma_end_is(t, marker, 0, t.len() as int);
                    assert(t.skip(t.len() as int) =~= none);
                } else {
                    lemma_no_end(t, marker, 0);
                }
            },
        }
    }
}

/// The last `k` bytes of `s`, all of it where it is shorter.
pub open spec fn last_bytes(s: Seq<u8>, k: nat) -> Seq<u8> {
    if s.len() <= k {
        s
    } else {
        s.skip(s.len() - k)
    }
}

/// What has to be kept of a stream: all bytes of a message, but of a search no more than
/// the marker is long.
pub open spec fn remembered(p: Progress, marker: Seq<u8>) -> Seq<u8> {
    if p.collecting {
        p.rest
    } else {
        last_bytes(p.rest, marker.len())
    }
}

proof fn lemma_last_push(s: Seq<u8>, b: u8, k: nat)
    requires
        k > 0,
    ensures
        last_bytes(s.push(b), k) == last_bytes(last_bytes(s, k).push(b), k),
{
    assert(last_bytes(s.push(b), k) =~= last_bytes(last_bytes(s, k).push(b), k));
}

proof fn lemma_ends_by_window(s: Seq<u8>, marker: Seq<u8>)
    ensures
        ends_with(s, marker) == (last_bytes(s, marker.len()) == marker),
{
    if s.len() == marker.len() {
        assert(s.skip(0) =~= s);
    }
}

/// What is dropped while searching makes no difference to what comes out later.
pub proof fn law_window_is_enough(
    rest: Seq<u8>,
    more: Seq<u8>,
    length: nat,
    marker: Seq<u8>,
)
    requires
        length > 0,
        marker.len() > 0,
        first_end(rest, marker) is None,
    ensures
        ({
            let full = progress(false, rest + more, length, marker);
            let short = progress(false, last_bytes(rest, marker.len()) + more, length, marker);
            &&& full.messages == short.messages
            &&& full.collecting == short.collecting
            &&& remembered(full, marker) == remembered(short, marker)
        }),
    decreases more.len(),
{
    let k = marker.len();
    let w = last_bytes(rest, k);
    if more.len() == 0 {
        assert(rest + more =~= rest);
        assert(w + more =~= w);
        lemma_end_after(rest, marker, 0);
        if rest.len() > 0 {
            assert(rest.take(rest.len() as int) =~= rest);
            assert(!ends_with(rest.take(rest.len() as int), marker));
        }
        assert forall|j: int| 0 < j <= w.len() implies !ends_with(#[trigger] w.take(j), marker) by {
            if ends_with(w.take(j), marker) {
                assert(j == w.len());
                assert(w.take(j) =~= w);
                assert(w.skip(0) =~= w);
                lemma_ends_by_window(rest, marker);
                assert(w == marker);
            }
        }
        lemma_no_end(w, marker, 0);
    } else {
        let front = more.drop_last();
        let b = more.last();
        law_window_is_enough(rest, front, length, marker);
        assert(rest + more =~= (rest + front).push(b));
        assert(w + more =~= (w + front).push(b));
        law_follow_bytes(false, rest + front, b, length, marker);
        law_follow_bytes(false, w + front, b, length, marker);
        let full = progress(false, rest + front, length, marker);
        let short = progress(false, w + front, length, marker);
        if !full.collecting {
            lemma_last_push(full.rest, b, k);
            lemma_last_push(short.rest, b, k);
            lemma_ends_by_window(full.rest.push(b), marker);
            lemma_ends_by_window(short.rest.push(b), marker);
        }
    }
}

/// Nothing is searched for or collected that was already complete.
pub open spec fn settled(collecting: bool, s: Seq<u8>, length: nat, marker: Seq<u8>) -> bool {
    if collecting {
        length == 0 || s.len() < length
    } else {
        first_end(s, marker) is None
    }
}

/// What is left of a stream holds no message and no marker.
pub proof fn law_rest_is_settled(collecting: bool, s: Seq<u8>, length: nat, marker: Seq<u8>)
    requires
        collecting || marker.len() > 0,
    ensures
        ({
            let p = progress(collecting, s, length, marker);
            &&& settled(p.collecting, p.rest, length, marker)
            &&& p.collecting || marker.len() > 0
        }),
    decreases s.len(),
{
    if collecting {
        if length > 0 && s.len() >= length {
            law_rest_is_settled(marker.len() == 0, s.skip(length as int), length, marker);
        }
    } else {
        lemma_end_after(s, marker, 0);
        match first_end(s, marker) {
            Some(e) => {
                law_rest_is_settled(true, s.skip(e), length, marker);
            },
            None => {},
        }
    }
}

/// A stream that arrives in two chunks gives the messages that it gives as a whole, and
/// ends up in the same place.
pub proof fn law_chunks_do_not_matter(
    collecting: bool,
    a: Seq<u8>,
    b: Seq<u8>,
    length: nat,
    marker: Seq<u8>,
)
    requires
        length > 0,
        collecting || marker.len() > 0,
    ensures
        ({
            let first = progress(collecting, a, length, marker);
            let second = progress(
                first.collecting,
                remembered(first, marker) + b,
                length,
                marker,
            );
            let both = progress(collecting, a + b, length, marker);
            &&& both.messages == first.messages + second.messages
            &&& both.collecting == second.collecting
            &&& remembered(both, marker) == remembered(second, marker)
        }),
{
    let first = progress(collecting, a, length, marker);
    law_rest_is_settled(collecting, a, length, marker);
    lemma_chunks(collecting, a, b, length, marker);
    if !first.collecting {
        law_window_is_enough(first.rest, b, length, marker);
    }
}

proof fn lemma_chunks(collecting: bool, a: Seq<u8>, b: Seq<u8>, length: nat, marker: Seq<u8>)
    requires
        length > 0,
        collecting || marker.len() > 0,
    ensures
        ({
            let first = progress(collecting, a, length, marker);
            let second = progress(first.collecting, first.rest + b, length, marker);
            progress(collecting, a + b, length, marker) == (Progress {
                messages: first.messages + second.messages,
                ..second
            })
        }),
    decreases b.len(),
{
    let first = progress(collecting, a, length, marker);
    law_rest_is_settled(collecting, a, length, marker);
    if b.len() == 0 {
        assert(a + b =~= a);
        assert(first.rest + b =~= first.rest);
        assert(first.messages + Seq::<Seq<u8>>::empty() =~= first.messages);
    } else {
        let front = b.drop_last();
        let c = b.last();
        lemma_chunks(collecting, a, front, length, marker);
        assert(a + b =~= (a + front).push(c));
        assert(first.rest + b =~= (first.rest + front).push(c));
        law_follow_bytes(collecting, a + front, c, length, marker);
        law_follow_bytes(first.collecting, first.rest + front, c, length, marker);
        let second = progress(first.collecting, first.rest + front, length, marker);
        let grown = second.rest.push(c);
        assert(first.messages + second.messages.push(grown) =~= (first.messages
            + second.messages).push(grown));
    }
}

/// Every message has the configured length.
pub proof fn law_messages_have_the_length(
    collecting: bool,
    s: Seq<u8>,
    length: nat,
    marker: Seq<u8>,
)
    ensures
        forall|i: int|
            0 <= i < progress(collecting, s, length, marker).messages.len() ==> (
            #[trigger] progress(collecting, s, length, marker).messages[i]).len() == length,
    decreases s.len(),
{
    if collecting {
        if length > 0 && s.len() >= length {
            law_messages_have_the_length(
                marker.len() == 0,
                s.skip(length as int),
                length,
                marker,
            );
            let all = progress(collecting, s, length, marker).messages;
            let tail = progress(
                marker.len() == 0,
                s.skip(length as int),
                length,
                marker,
            ).messages;
            assert forall|i: int| 0 <= i < all.len() implies (#[trigger] all[i]).len() == length by {
                if i > 0 {
                    assert(all[i] == tail[i - 1]);
                }
            }
        }
    } else {
        lemma_end_after(s, marker, 0);
        match first_end(s, marker) {
            Some(e) => {
                law_messages_have_the_length(true, s.skip(e), length, marker);
                let all = progress(collecting, s, length, marker).messages;
                let tail = progress(true, s.skip(e), length, marker).messages;
                assert(all == tail);
                assert forall|i: int| 0 <= i < all.len() implies (#[trigger] all[i]).len()
                    == length by {
                    assert(tail[i].len() == length);
                }
            },
            None => {},
        }
    }
}

/// The messages that a chunk completes, with their times.
pub open spec fn collected(messages: Seq<Seq<u8>>, first: ChunkTime, at: ChunkTime) -> Seq<Frame> {
    Seq::new(
        messages.len(),
        |i: int|
            Frame {
                bytes: messages[i],
                first_chunk: if i == 0 {
                    first
                } else {
                    at
                },
                last_chunk: at,
            },
    )
}

#[derive(Clone, Copy, Debug, PartialEq, Eq, Structural)]
enum State {
    /// Looking for the marker.
    Searching,
    /// Accumulating the bytes of the current message.
    Collecting,
}

/// Extracts messages of a fixed length, optionally framed by a marker. A length of 0
/// never completes a message; an empty marker is none.
#[derive(Clone, Debug)]
pub struct FixedLengthExtractor {
    length: usize,
    sync_marker: Vec<u8>,
    state: State,
    /// The most recent bytes while searching.
    window: VecDeque<u8>,
    buf: Vec<u8>,
    pending_first_chunk: Option<ChunkTime>,
}

impl FixedLengthExtractor {
    pub closed spec fn length_spec(self) -> nat {
        self.length as nat
    }

    /// The marker, empty where there is none.
    pub closed spec fn marker_spec(self) -> Seq<u8> {
        self.sync_marker@
    }

    pub closed spec fn is_collecting(self) -> bool {
        self.state is Collecting
    }

    /// The bytes of the message that is being collected, or the most recent bytes of
    /// the search.
    pub closed spec fn pending(self) -> Seq<u8> {
        if self.state is Collecting {
            self.buf@
        } else {
            self.window@
        }
    }

    /// When the first byte of the message that is being collected arrived.
    pub closed spec fn began(self) -> Option<ChunkTime> {
        self.pending_first_chunk
    }

    pub closed spec fn valid(self) -> bool {
        &&& self.state is Searching ==> {
            &&& self.sync_marker@.len() > 0
            &&& self.window@.len() <= self.sync_marker@.len()
            &&& self.window@ != self.sync_marker@
        }
        &&& self.state is Collecting ==> {
            &&& self.length == 0 || self.buf@.len() < self.length
            &&& self.buf@.len() > 0 ==> self.pending_first_chunk is Some
            &&& self.window@.len() == 0
        }
        &&& self.state is Searching ==> self.buf@.len() == 0
    }

    pub fn new(length: usize, sync_marker: Option<Vec<u8>>) -> (r: FixedLengthExtractor)
        ensures
            r.wf(),
            r.length_spec() == length,
            r.marker_spec() == match sync_marker {
                Some(m) => m@,
                None => Seq::<u8>::empty(),
            },
            r.is_collecting() == (r.marker_spec().len() == 0),
            r.pending() == Seq::<u8>::empty(),
            r.began() is None,
    {
        let marker: Vec<u8> = match sync_marker {
            Some(m) => m,
            None => Vec::new(),
        };
        let state: State = if marker.len() > 0 {
            State::Searching
        } else {
            State::Collecting
        };
        FixedLengthExtractor {
            length,
            sync_marker: marker,
            state,
            window: VecDeque::new(),
            buf: Vec::new(),
            pending_first_chunk: None,
        }
    }

    /// Whether the window holds the marker.
    fn window_is_marker(&self) -> (r: bool)
        ensures
            r == (self.window@ == self.sync_marker@),
    {
        if self.window.len() != self.sync_marker.len() {
            return false;
        }
        let mut i: usize = 0;
        while i < self.sync_marker.len()
            invariant
                i <= self.sync_marker.len(),
                self.window@.len() == self.sync_marker@.len(),
                forall|j: int| 0 <= j < i ==> self.window@[j] == #[trigger] self.sync_marker@[j],
            decreases self.sync_marker.len() - i,
        {
            if self.window[i] != self.sync_marker[i] {
                return false;
            }
            i = i + 1;
        }
        assert(self.window@ =~= self.sync_marker@);
        true
    }
}

/// What a chunk that arrives at `at` makes of an extractor, and the messages that it
/// completes.
pub open spec fn pushed(
    before: FixedLengthExtractor,
    bytes: Seq<u8>,
    at: ChunkTime,
    after: FixedLengthExtractor,
    out: Seq<Frame>,
) -> bool {
    &&& after.length_spec() == before.length_spec()
    &&& after.marker_spec() == before.marker_spec()
    &&& before.length_spec() == 0 ==> {
        &&& out.len() == 0
        &&& after.is_collecting() == before.is_collecting()
        &&& after.pending() == before.pending()
        &&& after.began() == before.began()
    }
    &&& before.length_spec() > 0 ==> {
        let p = progress(
            before.is_collecting(),
            before.pending() + bytes,
            before.length_spec(),
            before.marker_spec(),
        );
        let carried = before.is_collecting() && before.pending().len() > 0;
        &&& out == collected(
            p.messages,
            if carried {
                before.began()->0
            } else {
                at
            },
            at,
        )
        &&& after.is_collecting() == p.collecting
        &&& after.pending() == remembered(p, before.marker_spec())
        &&& p.collecting && p.rest.len() > 0 ==> after.began() == if carried && p.messages.len()
            == 0 {
            before.began()
        } else {
            Some(at)
        }
    }
}

/// One chunk pushed into an extractor, with what came of it.
pub ghost struct Push {
    pub bytes: Seq<u8>,
    pub at: ChunkTime,
    pub after: FixedLengthExtractor,
    pub out: Seq<Frame>,
}

/// The chunk was pushed into `before`.
#[verifier::opaque]
pub open spec fn pushed_into(before: FixedLengthExtractor, push: Push) -> bool {
    pushed(before, push.bytes, push.at, push.after, push.out)
}

/// The extractor behind the first `i` chunks.
pub open spec fn stage(start: FixedLengthExtractor, pushes: Seq<Push>, i: int) -> FixedLengthExtractor {
    if i == 0 {
        start
    } else {
        pushes[i - 1].after
    }
}

/// The chunks were pushed one after the other, the first into `start`.
pub open spec fn pushed_in_turn(start: FixedLengthExtractor, pushes: Seq<Push>) -> bool {
    forall|i: int|
        0 <= i < pushes.len() ==> #[trigger] pushed_into(stage(start, pushes, i), pushes[i])
}

/// All bytes that were pushed.
pub open spec fn all_bytes(pushes: Seq<Push>) -> Seq<u8>
    decreases pushes.len(),
{
    if pushes.len() == 0 {
        Seq::empty()
    } else {
        all_bytes(pushes.drop_last()) + pushes.last().bytes
    }
}

/// All messages that came out, in order.
pub open spec fn all_messages(pushes: Seq<Push>) -> Seq<Frame>
    decreases pushes.len(),
{
    if pushes.len() == 0 {
        Seq::empty()
    } else {
        all_messages(pushes.drop_last()) + pushes.last().out
    }
}

/// When the chunk arrived that supplied byte `k` of the stream.
pub open spec fn arrival(pushes: Seq<Push>, k: int) -> ChunkTime
    recommends
        0 <= k < all_bytes(pushes).len(),
    decreases pushes.len(),
{
    if pushes.len() > 0 && k < all_bytes(pushes.drop_last()).len() {
        arrival(pushes.drop_last(), k)
    } else {
        pushes.last().at
    }
}

/// The message is the `i`-th run of `length` bytes of the stream.
pub open spec fn is_run(s: Seq<u8>, i: int, length: nat, message: Seq<u8>) -> bool {
    &&& 0 <= i * length
    &&& (i + 1) * length <= s.len()
    &&& message == s.subrange(i * length, (i + 1) * length)
}

/// Without a marker a stream is cut into messages from its first byte on: message `i` is
/// the `i`-th run of `length` bytes, and what is left is shorter.
pub proof fn law_without_marker(s: Seq<u8>, length: nat)
    requires
        length > 0,
    ensures
        ({
            let p = progress(true, s, length, Seq::empty());
            let n = s.len() as int / length as int;
            &&& p.collecting
            &&& p.messages.len() == n
            &&& 0 <= n * length <= s.len() < (n + 1) * length
            &&& p.rest == s.skip(n * length)
            &&& forall|i: int| 0 <= i < n ==> #[trigger] is_run(s, i, length, p.messages[i])
        }),
    decreases s.len(),
{
    let m = length as int;
    let p = progress(true, s, length, Seq::empty());
    let n = s.len() as int / m;
    vstd::arithmetic::div_mod::lemma_fundamental_div_mod(s.len() as int, m);
    assert(m * n == n * m) by (nonlinear_arith);
    assert((n + 1) * m == n * m + m) by (nonlinear_arith);
    if s.len() < length {
        vstd::arithmetic::div_mod::lemma_basic_div(s.len() as int, m);
        assert(n * m == 0) by (nonlinear_arith)
            requires
                n == 0,
        ;
        assert(s.skip(n * m) =~= s);
        assert(p.rest == s);
        assert(s.len() < (n + 1) * m);
    } else {
        let rest = s.skip(m);
        law_without_marker(rest, length);
        let q = progress(true, rest, length, Seq::empty());
        vstd::arithmetic::div_mod::lemma_div_minus_one(s.len() as int, m);
        assert(rest.len() as int / m == n - 1);
        assert((n - 1) * m == n * m - m) by (nonlinear_arith);
        assert(rest.skip((n - 1) * m) =~= s.skip(n * m));
        assert(p.messages == seq![s.take(m)] + q.messages);
        assert(p.messages.len() == n);
        assert(p.rest == s.skip(n * m));
        assert(0 <= n * m <= s.len() < (n + 1) * m);
        assert forall|i: int| 0 <= i < n implies #[trigger] is_run(s, i, length, p.messages[i]) by {
            if i == 0 {
                assert(i * m == 0 && (i + 1) * m == m) by (nonlinear_arith)
                    requires
                        i == 0,
                ;
                assert(s.take(m) =~= s.subrange(0, m));
            } else {
                assert(is_run(rest, i - 1, length, q.messages[i - 1]));
                assert(p.messages[i] == q.messages[i - 1]);
                assert((i - 1) * m == i * m - m) by (nonlinear_arith);
                assert((i - 1 + 1) * m == i * m);
                assert((i + 1) * m == i * m + m) by (nonlinear_arith);
                assert(rest.subrange((i - 1) * m, i * m) =~= s.subrange(i * m, (i + 1) * m));
            }
        }
    }
}

/// What holds of all messages so far, and of the place where the extractor stands.
#[verifier::opaque]
spec fn cut_in_turn(pushes: Seq<Push>, last: FixedLengthExtractor, length: nat) -> bool {
    let s = all_bytes(pushes);
    let n = s.len() as int / length as int;
    let out = all_messages(pushes);
    &&& last.length_spec() == length
    &&& last.marker_spec().len() == 0
    &&& last.is_collecting()
    &&& 0 <= n * length <= s.len() < (n + 1) * length
    &&& last.pending() == s.skip(n * length)
    &&& last.pending().len() > 0 ==> last.began() == Some(arrival(pushes, n * length))
    &&& out.len() == n
    &&& forall|i: int| 0 <= i < n ==> #[trigger] is_cut(pushes, i, length, out[i])
}

/// A message is the `i`-th run of `length` bytes of the stream, with the times of the
/// chunks that supplied its first and its last byte.
pub open spec fn is_cut(pushes: Seq<Push>, i: int, length: nat, message: Frame) -> bool {
    &&& is_run(all_bytes(pushes), i, length, message.bytes)
    &&& message.first_chunk == arrival(pushes, i * length)
    &&& message.last_chunk == arrival(pushes, (i + 1) * length - 1)
}

proof fn lemma_one_more_chunk(
    pushes: Seq<Push>,
    before: FixedLengthExtractor,
    length: nat,
)
    requires
        length > 0,
        pushes.len() > 0,
        cut_in_turn(pushes.drop_last(), before, length),
        pushed_into(before, pushes.last()),
    ensures
        cut_in_turn(pushes, pushes.last().after, length),
{
    reveal(cut_in_turn);
    reveal(pushed_into);
    let m = length as int;
    let front = pushes.drop_last();
    let push = pushes.last();
    let old_s = all_bytes(front);
    let s = all_bytes(pushes);
    let k = old_s.len() as int / m;
    let n = s.len() as int / m;
    let t = before.pending() + push.bytes;
    assert(before.marker_spec() =~= Seq::empty());
    let p = progress(true, t, length, Seq::empty());
    law_without_marker(t, length);
    assert(t =~= s.skip(k * m));
    let more = t.len() as int / m;
    vstd::arithmetic::div_mod::lemma_fundamental_div_mod(t.len() as int, m);
    let r = t.len() as int % m;
    assert(s.len() == (k + more) * m + r) by (nonlinear_arith)
        requires
            s.len() == k * m + t.len(),
            t.len() == m * more + r,
    ;
    vstd::arithmetic::div_mod::lemma_fundamental_div_mod_converse(
        s.len() as int,
        m,
        k + more,
        r,
    );
    assert(n == k + more);
    assert(n * m == k * m + more * m) by (nonlinear_arith)
        requires
            n == k + more,
    ;
    assert((n + 1) * m == n * m + m) by (nonlinear_arith);
    assert((k + 1) * m == k * m + m) by (nonlinear_arith);
    assert((more + 1) * m == more * m + m) by (nonlinear_arith);
    assert(p.rest =~= s.skip(n * m));
    let out = all_messages(pushes);
    let old_out = all_messages(front);
    assert forall|i: int| 0 <= i < n implies #[trigger] is_cut(pushes, i, length, out[i]) by {
        assert((i + 1) * m == i * m + m) by (nonlinear_arith);
        if i < k {
            assert(is_cut(front, i, length, old_out[i]));
            assert(out[i] == old_out[i]);
            assert(old_s.subrange(i * m, (i + 1) * m) =~= s.subrange(i * m, (i + 1) * m));
        } else {
            let j = i - k;
            assert(out[i] == push.out[j]);
            assert(is_run(t, j, length, p.messages[j]));
            assert(i * m == k * m + j * m) by (nonlinear_arith)
                requires
                    i == k + j,
            ;
            assert((j + 1) * m == j * m + m) by (nonlinear_arith);
            assert(j * m >= 0) by (nonlinear_arith)
                requires
                    j >= 0,
                    m > 0,
            ;
            assert(t.subrange(j * m, (j + 1) * m) =~= s.subrange(i * m, (i + 1) * m));
            if j > 0 {
                assert(j * m >= m) by (nonlinear_arith)
                    requires
                        j >= 1,
                        m > 0,
                ;
            }
        }
    }
    if more > 0 {
        assert(more * m >= m) by (nonlinear_arith)
            requires
                more >= 1,
                m > 0,
        ;
    }
}

/// Whatever chunks a stream arrives in, without a marker its messages are its runs of
/// `length` bytes, one after the other from the first byte on: as many as fit, and
/// nothing is skipped. Each carries the times of the chunks that supplied its first and
/// its last byte.
pub proof fn law_messages_are_runs_of_the_stream(
    start: FixedLengthExtractor,
    pushes: Seq<Push>,
)
    requires
        start.length_spec() > 0,
        start.marker_spec().len() == 0,
        start.is_collecting(),
        start.pending().len() == 0,
        pushed_in_turn(start, pushes),
    ensures
        ({
            let length = start.length_spec();
            let out = all_messages(pushes);
            &&& out.len() == all_bytes(pushes).len() / length
            &&& forall|i: int| 0 <= i < out.len() ==> #[trigger] is_cut(pushes, i, length, out[i])
        }),
{
    lemma_pushed_in_turn(start, pushes);
    reveal(cut_in_turn);
}

proof fn lemma_nothing_pushed(start: FixedLengthExtractor, pushes: Seq<Push>)
    requires
        pushes.len() == 0,
        start.length_spec() > 0,
        start.marker_spec().len() == 0,
        start.is_collecting(),
        start.pending().len() == 0,
    ensures
        cut_in_turn(pushes, start, start.length_spec()),
{
    reveal(cut_in_turn);
    let m = start.length_spec() as int;
    let n = all_bytes(pushes).len() as int / m;
    vstd::arithmetic::div_mod::lemma_basic_div(0, m);
    assert(n * m == 0 && (n + 1) * m == m) by (nonlinear_arith)
        requires
            n == 0,
    ;
    assert(start.pending() =~= all_bytes(pushes).skip(n * m));
}

proof fn lemma_pushed_in_turn(start: FixedLengthExtractor, pushes: Seq<Push>)
    requires
        start.length_spec() > 0,
        start.marker_spec().len() == 0,
        start.is_collecting(),
        start.pending().len() == 0,
        pushed_in_turn(start, pushes),
    ensures
        cut_in_turn(pushes, stage(start, pushes, pushes.len() as int), start.length_spec()),
    decreases pushes.len(),
{
    if pushes.len() == 0 {
        lemma_nothing_pushed(start, pushes);
    } else {
        let front = pushes.drop_last();
        let n = front.len() as int;
        assert(pushes[n] == pushes.last());
        assert(pushed_into(stage(start, pushes, n), pushes[n]));
        assert forall|i: int| 0 <= i < front.len() implies #[trigger] pushed_into(
            stage(start, front, i),
            front[i],
        ) by {
            assert(front[i] == pushes[i]);
            assert(stage(start, front, i) == stage(start, pushes, i));
            assert(pushed_into(stage(start, pushes, i), pushes[i]));
        }
        lemma_pushed_in_turn(start, front);
        assert(stage(start, front, n) == stage(start, pushes, n));
        lemma_one_more_chunk(pushes, stage(start, pushes, n), start.length_spec());
    }
}

impl MessageExtractor for FixedLengthExtractor {
    closed spec fn wf(&self) -> bool {
        self.valid()
    }

    fn push_chunk(&mut self, bytes: &[u8], at: ChunkTime) -> (r: Vec<MessageBytes>)
        ensures
            pushed(*old(self), bytes@, at, *final(self), frames_view(r@)),
    {
        let mut out: Vec<MessageBytes> = Vec::new();
        if self.length == 0 {
            return out;
        }
        let ghost start = self.pending();
        let ghost from = self.is_collecting();
        let ghost n = self.length as nat;
        let ghost m = self.sync_marker@;
        let ghost carried = from && start.len() > 0;
        let ghost first = if carried {
            self.pending_first_chunk->0
        } else {
            at
        };
        let mut i: usize = 0;
        proof {
            assert(start + bytes@.take(0) =~= start);
            if !from {
                assert forall|k: int| 0 < k <= start.len() implies !ends_with(
                    #[trigger] start.take(k),
                    m,
                ) by {
                    if ends_with(start.take(k), m) {
                        assert(k == start.len());
                        assert(start.take(k) =~= start);
                        assert(start.skip(0) =~= start);
                    }
                }
                lemma_no_end(start, m, 0);
            }
            assert(frames_view(out@) =~= collected(Seq::empty(), first, at));
        }
        while i < bytes.len()
            invariant
                i <= bytes.len(),
                self.valid(),
                self.length == n,
                n > 0,
                self.sync_marker@ == m,
                from || m.len() > 0,
                start == old(self).pending(),
                from == old(self).is_collecting(),
                carried == (from && start.len() > 0),
                carried ==> old(self).pending_first_chunk is Some,
                first == (if carried {
                    old(self).pending_first_chunk->0
                } else {
                    at
                }),
                ({
                    let p = progress(from, start + bytes@.take(i as int), n, m);
                    &&& frames_view(out@) == collected(p.messages, first, at)
                    &&& self.is_collecting() == p.collecting
                    &&& self.pending() == remembered(p, m)
                    &&& p.collecting && p.rest.len() > 0 ==> self.pending_first_chunk == (
                    if carried && p.messages.len() == 0 {
                        old(self).pending_first_chunk
                    } else {
                        Some(at)
                    })
                    &&& carried && p.messages.len() == 0 ==> p.collecting && p.rest.len() > 0
                }),
            decreases bytes.len() - i,
        {
            let b: u8 = bytes[i];
            let ghost done = start + bytes@.take(i as int);
            let ghost p = progress(from, done, n, m);
            proof {
                assert(start + bytes@.take(i + 1) =~= done.push(b));
                law_follow_bytes(from, done, b, n, m);
                law_rest_is_settled(from, done, n, m);
            }
            match self.state {
                State::Searching => {
                    proof {
                        lemma_last_push(p.rest, b, m.len());
                        lemma_ends_by_window(p.rest.push(b), m);
                    }
                    let ghost before = self.window@;
                    self.window.push_back(b);
                    if self.window.len() > self.sync_marker.len() {
                        let _ = self.window.pop_front();
                    }
                    assert(self.window@ =~= last_bytes(before.push(b), m.len()));
                    if self.window_is_marker() {
                        self.window.clear();
                        self.pending_first_chunk = None;
                        self.state = State::Collecting;
                        assert(self.buf@ =~= Seq::empty());
                    }
                },
                State::Collecting => {
                    let ghost before = self.buf@;
                    if self.buf.len() == 0 {
                        self.pending_first_chunk = Some(at);
                    }
                    self.buf.push(b);
                    if self.buf.len() == self.length {
                        let began: ChunkTime = match self.pending_first_chunk {
                            Some(t) => t,
                            None => at,
                        };
                        self.pending_first_chunk = None;
                        let mut message: Vec<u8> = Vec::new();
                        core::mem::swap(&mut message, &mut self.buf);
                        let ghost was = out@;
                        out.push(
                            MessageBytes { bytes: message, first_chunk: began, last_chunk: at },
                        );
                        proof {
                            assert(frames_view(out@) =~= frames_view(was).push(out@.last()@));
                            assert(frames_view(out@) =~= collected(
                                p.messages.push(before.push(b)),
                                first,
                                at,
                            ));
                        }
                        if self.sync_marker.len() > 0 {
                            self.state = State::Searching;
                            assert(self.window@ =~= Seq::empty());
                        } else {
                            assert(self.buf@ =~= Seq::empty());
                        }
                    }
                },
            }
            i = i + 1;
        }
        assert(bytes@.take(i as int) =~= bytes@);
        out
    }

    fn finish(&mut self) -> (r: Vec<MessageBytes>)
        ensures
            final(self).length_spec() == old(self).length_spec(),
            final(self).marker_spec() == old(self).marker_spec(),
            final(self).is_collecting() == old(self).is_collecting(),
            final(self).pending() == Seq::<u8>::empty(),
            final(self).began() is None,
    {
        self.buf.clear();
        self.window.clear();
        self.pending_first_chunk = None;
        assert(self.pending() =~= Seq::empty());
        Vec::new()
    }
}

} // verus!
