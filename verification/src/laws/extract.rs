//! How a received stream is cut into messages.

use vstd::prelude::*;

use crate::extract::delimiter::{
    delimited, flat, law_pieces_are_minimal, law_pieces_cover, leftover, pieces, pushed,
    DelimiterExtractor,
};
use crate::extract::fixed_length::{
    all_bytes, all_messages, law_chunks_do_not_matter, progress, pushed_in_turn, pushed_into,
    remembered, stage, FixedLengthExtractor, Progress, Push,
};
use crate::extract::{ends_with, first_end, lemma_end_after};
use crate::model::message::Frame;
use crate::model::timing::ChunkTime;

verus! {

/// `mark` stands in `s` at `k`.
pub open spec fn stands_at(s: Seq<u8>, mark: Seq<u8>, k: int) -> bool {
    0 <= k && k + mark.len() <= s.len() && s.subrange(k, k + mark.len()) == mark
}

/// `mark` stands nowhere in `s`.
pub open spec fn absent(s: Seq<u8>, mark: Seq<u8>) -> bool {
    forall|k: int| !#[trigger] stands_at(s, mark, k)
}

/// `mark` stands at the end of `s` and nowhere else in it.
pub open spec fn only_at_end(s: Seq<u8>, mark: Seq<u8>) -> bool {
    &&& stands_at(s, mark, s.len() - mark.len())
    &&& forall|k: int| #[trigger] stands_at(s, mark, k) ==> k == s.len() - mark.len()
}

proof fn lemma_stands(s: Seq<u8>, mark: Seq<u8>, k: int)
    requires
        stands_at(s, mark, k),
    ensures
        ends_with(s.take(k + mark.len()), mark),
{
    let t = s.take(k + mark.len());
    assert(t.skip(t.len() - mark.len()) =~= s.subrange(k, k + mark.len()));
}

proof fn lemma_no_end_absent(s: Seq<u8>, mark: Seq<u8>)
    requires
        mark.len() > 0,
        first_end(s, mark) is None,
    ensures
        absent(s, mark),
{
    lemma_end_after(s, mark, 0);
    assert forall|k: int| !#[trigger] stands_at(s, mark, k) by {
        if stands_at(s, mark, k) {
            lemma_stands(s, mark, k);
        }
    }
}

proof fn lemma_first_end_only(s: Seq<u8>, mark: Seq<u8>)
    requires
        mark.len() > 0,
        first_end(s, mark) == Some(s.len() as int),
    ensures
        only_at_end(s, mark),
{
    lemma_end_after(s, mark, 0);
    let n = s.len() as int;
    assert(s.take(n) =~= s);
    assert(s.skip(n - mark.len()) =~= s.subrange(n - mark.len(), n));
    assert forall|k: int| #[trigger] stands_at(s, mark, k) implies k == n - mark.len() by {
        lemma_stands(s, mark, k);
        assert(!(0 < k + mark.len() < n));
    }
}

/// A chunk, with the time of its arrival and what a delimiter extractor made of it.
pub ghost struct Fed {
    pub bytes: Seq<u8>,
    pub at: ChunkTime,
    pub after: DelimiterExtractor,
    pub out: Seq<Frame>,
}

/// The extractor behind the first `i` chunks.
pub open spec fn behind(start: DelimiterExtractor, feeds: Seq<Fed>, i: int) -> DelimiterExtractor {
    if i == 0 {
        start
    } else {
        feeds[i - 1].after
    }
}

/// The chunk was pushed into `before`.
#[verifier::opaque]
pub open spec fn fed_into(before: DelimiterExtractor, f: Fed) -> bool {
    pushed(before, f.bytes, f.at, f.after, f.out)
}

/// The chunks were pushed one after the other, the first into `start`.
pub open spec fn fed_in_turn(start: DelimiterExtractor, feeds: Seq<Fed>) -> bool {
    forall|i: int| 0 <= i < feeds.len() ==> #[trigger] fed_into(behind(start, feeds, i), feeds[i])
}

/// All bytes that arrived.
pub open spec fn received(feeds: Seq<Fed>) -> Seq<u8>
    decreases feeds.len(),
{
    if feeds.len() == 0 {
        Seq::empty()
    } else {
        received(feeds.drop_last()) + feeds.last().bytes
    }
}

/// All messages that came out, in order.
pub open spec fn emitted(feeds: Seq<Fed>) -> Seq<Frame>
    decreases feeds.len(),
{
    if feeds.len() == 0 {
        Seq::empty()
    } else {
        emitted(feeds.drop_last()) + feeds.last().out
    }
}

/// When the chunk arrived that supplied byte `k`.
pub open spec fn arrived(feeds: Seq<Fed>, k: int) -> ChunkTime
    decreases feeds.len(),
{
    if feeds.len() > 0 && k < received(feeds.drop_last()).len() {
        arrived(feeds.drop_last(), k)
    } else {
        feeds.last().at
    }
}

/// A message as it stood in the stream: with its delimiter.
pub open spec fn whole(message: Frame, delimiter: Seq<u8>, included: bool) -> Seq<u8> {
    if included {
        message.bytes
    } else {
        message.bytes + delimiter
    }
}

/// The messages as they stood in the stream, one after the other.
pub open spec fn restored(messages: Seq<Frame>, delimiter: Seq<u8>, included: bool) -> Seq<u8>
    decreases messages.len(),
{
    if messages.len() == 0 {
        Seq::empty()
    } else {
        restored(messages.drop_last(), delimiter, included) + whole(
            messages.last(),
            delimiter,
            included,
        )
    }
}

/// What holds of the messages so far: they and what is still being received make up the
/// stream, each holds the delimiter at its end only, and each has the times of the chunks
/// that supplied its first and its last byte.
pub open spec fn cut_at_delimiters(
    feeds: Seq<Fed>,
    rest: Seq<u8>,
    delimiter: Seq<u8>,
    included: bool,
) -> bool {
    let out = emitted(feeds);
    &&& restored(out, delimiter, included) + rest == received(feeds)
    &&& absent(rest, delimiter)
    &&& forall|i: int|
        0 <= i < out.len() ==> #[trigger] only_at_end(whole(out[i], delimiter, included), delimiter)
    &&& forall|i: int| 0 <= i < out.len() ==> #[trigger] is_timed(feeds, i, delimiter, included)
}

/// Message `i` has the times of the chunks that supplied its first and its last byte.
pub open spec fn is_timed(feeds: Seq<Fed>, i: int, delimiter: Seq<u8>, included: bool) -> bool {
    let out = emitted(feeds);
    let from = restored(out.subrange(0, i), delimiter, included).len() as int;
    let to = restored(out.subrange(0, i + 1), delimiter, included).len() as int;
    &&& out[i].first_chunk == arrived(feeds, from)
    &&& out[i].last_chunk == arrived(feeds, to - 1)
}

proof fn lemma_restored_concat(a: Seq<Frame>, b: Seq<Frame>, d: Seq<u8>, included: bool)
    ensures
        restored(a + b, d, included) == restored(a, d, included) + restored(b, d, included),
    decreases b.len(),
{
    if b.len() == 0 {
        assert(a + b =~= a);
        assert(restored(a, d, included) + restored(b, d, included) =~= restored(a, d, included));
    } else {
        lemma_restored_concat(a, b.drop_last(), d, included);
        assert((a + b).drop_last() =~= a + b.drop_last());
        let x = restored(a, d, included);
        let y = restored(b.drop_last(), d, included);
        let z = whole(b.last(), d, included);
        assert(x + y + z =~= x + (y + z));
    }
}

proof fn lemma_flat_push(parts: Seq<Seq<u8>>, part: Seq<u8>)
    ensures
        flat(parts.push(part)) == flat(parts) + part,
    decreases parts.len(),
{
    let all = parts.push(part);
    if parts.len() == 0 {
        assert(all.skip(1) =~= Seq::empty());
        assert(flat(all.skip(1)) =~= Seq::empty());
        assert(flat(all) =~= flat(parts) + part);
    } else {
        assert(all.skip(1) =~= parts.skip(1).push(part));
        lemma_flat_push(parts.skip(1), part);
        assert(flat(all) =~= flat(parts) + part);
    }
}

/// What the messages of some pieces restore to: the pieces.
proof fn lemma_restored_pieces(
    parts: Seq<Seq<u8>>,
    d: Seq<u8>,
    included: bool,
    first: ChunkTime,
    at: ChunkTime,
)
    requires
        forall|i: int| 0 <= i < parts.len() ==> ends_with(#[trigger] parts[i], d),
    ensures
        restored(delimited(parts, d, included, first, at), d, included) == flat(parts),
        forall|i: int|
            0 <= i < parts.len() ==> whole(
                #[trigger] delimited(parts, d, included, first, at)[i],
                d,
                included,
            ) == parts[i],
    decreases parts.len(),
{
    let out = delimited(parts, d, included, first, at);
    assert forall|i: int| 0 <= i < parts.len() implies whole(#[trigger] out[i], d, included)
        == parts[i] by {
        assert(ends_with(parts[i], d));
        let n = parts[i].len() - d.len();
        assert(parts[i].take(n) + parts[i].skip(n) =~= parts[i]);
    }
    if parts.len() > 0 {
        let front = parts.drop_last();
        assert forall|i: int| 0 <= i < front.len() implies ends_with(#[trigger] front[i], d) by {
            assert(front[i] == parts[i]);
        }
        lemma_restored_pieces(front, d, included, first, at);
        assert(out.drop_last() =~= delimited(front, d, included, first, at));
        lemma_flat_push(front, parts.last());
        assert(front.push(parts.last()) =~= parts);
        assert(out.last() == out[parts.len() - 1]);
    } else {
        assert(out =~= Seq::empty());
        assert(flat(parts) =~= Seq::empty());
    }
}

/// Where the extractor stands behind some chunks.
#[verifier::opaque]
spec fn stands(
    feeds: Seq<Fed>,
    e: DelimiterExtractor,
    delimiter: Seq<u8>,
    included: bool,
) -> bool {
    &&& e.delimiter_spec() == delimiter
    &&& e.includes() == included
    &&& cut_at_delimiters(feeds, e.partial(), delimiter, included)
    &&& first_end(e.partial(), delimiter) is None
    &&& e.partial().len() > 0 ==> e.began() == Some(
        arrived(feeds, received(feeds).len() - e.partial().len()),
    )
}

proof fn lemma_one_more(feeds: Seq<Fed>, before: DelimiterExtractor, d: Seq<u8>, included: bool)
    requires
        d.len() > 0,
        feeds.len() > 0,
        stands(feeds.drop_last(), before, d, included),
        fed_into(before, feeds.last()),
    ensures
        stands(feeds, feeds.last().after, d, included),
{
    reveal(stands);
    reveal(fed_into);
    let front = feeds.drop_last();
    let f = feeds.last();
    let old_s = received(front);
    let s = received(feeds);
    let carried = before.partial();
    let t = carried + f.bytes;
    let parts = pieces(t, d);
    let first = if carried.len() > 0 {
        before.began()->0
    } else {
        f.at
    };
    law_pieces_cover(t, d);
    law_pieces_are_minimal(t, d);
    lemma_restored_pieces(parts, d, included, first, f.at);
    let old_out = emitted(front);
    let out = emitted(feeds);
    lemma_restored_concat(old_out, f.out, d, included);
    let base = restored(old_out, d, included);
    assert(base + carried == old_s);
    let rest = leftover(t, d);
    assert(restored(out, d, included) + rest =~= s) by {
        assert(flat(parts) + rest == t);
        assert(base + (flat(parts) + rest) =~= base + flat(parts) + rest);
        assert(base + t =~= old_s + f.bytes);
    }
    lemma_no_end_absent(rest, d);
    assert forall|i: int| 0 <= i < out.len() implies #[trigger] only_at_end(
        whole(out[i], d, included),
        d,
    ) by {
        if i < old_out.len() {
            assert(out[i] == old_out[i]);
            assert(only_at_end(whole(old_out[i], d, included), d));
        } else {
            let j = i - old_out.len();
            assert(out[i] == f.out[j]);
            assert(whole(f.out[j], d, included) == parts[j]);
            lemma_first_end_only(parts[j], d);
        }
    }
    if parts.len() > 0 {
        assert(t.take(carried.len() as int) =~= carried);
        lemma_first_is_new(carried, t, d);
    }
    assert forall|i: int| 0 <= i < out.len() implies #[trigger] is_timed(feeds, i, d, included) by {
        if i < old_out.len() {
            assert(is_timed(front, i, d, included));
            assert(out.subrange(0, i) =~= old_out.subrange(0, i));
            assert(out.subrange(0, i + 1) =~= old_out.subrange(0, i + 1));
            lemma_restored_within(old_out, i + 1, d, included);
            lemma_restored_grows(old_out, i, d, included);
        } else {
            let j = i - old_out.len();
            lemma_new_message_is_timed(feeds, before, d, included, j, parts, first);
        }
    }
    if rest.len() > 0 {
        if parts.len() == 0 {
            assert(flat(parts) =~= Seq::empty());
            assert(rest =~= t);
            if carried.len() > 0 {
                assert(s.len() - rest.len() == old_s.len() - carried.len());
            }
        } else {
            lemma_flat_first(parts);
            assert(s.len() - rest.len() >= old_s.len());
        }
    }
}

proof fn lemma_flat_first(parts: Seq<Seq<u8>>)
    requires
        parts.len() > 0,
    ensures
        flat(parts).len() >= parts[0].len(),
{
}

/// The first piece is complete only with bytes that were not there before.
proof fn lemma_first_is_new(carried: Seq<u8>, t: Seq<u8>, d: Seq<u8>)
    requires
        d.len() > 0,
        first_end(carried, d) is None,
        carried.len() <= t.len(),
        t.take(carried.len() as int) == carried,
        pieces(t, d).len() > 0,
    ensures
        pieces(t, d)[0].len() > carried.len(),
{
    lemma_end_after(carried, d, 0);
    lemma_end_after(t, d, 0);
    let e = first_end(t, d)->0;
    assert(pieces(t, d)[0] == t.take(e));
    if e <= carried.len() {
        assert(t.take(e) =~= carried.take(e));
    }
}

proof fn lemma_restored_within(messages: Seq<Frame>, i: int, d: Seq<u8>, included: bool)
    requires
        0 <= i <= messages.len(),
    ensures
        restored(messages.subrange(0, i), d, included).len() <= restored(
            messages,
            d,
            included,
        ).len(),
{
    let a = messages.subrange(0, i);
    let b = messages.subrange(i, messages.len() as int);
    assert(a + b =~= messages);
    lemma_restored_concat(a, b, d, included);
}

proof fn lemma_restored_grows(messages: Seq<Frame>, i: int, d: Seq<u8>, included: bool)
    requires
        0 <= i < messages.len(),
        only_at_end(whole(messages[i], d, included), d),
        d.len() > 0,
    ensures
        restored(messages.subrange(0, i + 1), d, included).len() > restored(
            messages.subrange(0, i),
            d,
            included,
        ).len(),
{
    let a = messages.subrange(0, i + 1);
    assert(a.drop_last() =~= messages.subrange(0, i));
    assert(a.last() == messages[i]);
    assert(stands_at(
        whole(messages[i], d, included),
        d,
        whole(messages[i], d, included).len() - d.len(),
    ));
}

proof fn lemma_new_message_is_timed(
    feeds: Seq<Fed>,
    before: DelimiterExtractor,
    d: Seq<u8>,
    included: bool,
    j: int,
    parts: Seq<Seq<u8>>,
    first: ChunkTime,
)
    requires
        d.len() > 0,
        feeds.len() > 0,
        ({
            let front = feeds.drop_last();
            let f = feeds.last();
            let carried = before.partial();
            &&& parts == pieces(carried + f.bytes, d)
            &&& f.out == delimited(parts, d, included, first, f.at)
            &&& restored(emitted(front), d, included) + carried == received(front)
            &&& carried.len() > 0 ==> Some(first) == before.began() && before.began() == Some(
                arrived(front, received(front).len() - carried.len()),
            )
            &&& carried.len() == 0 ==> first == f.at
            &&& parts.len() > 0 ==> parts[0].len() > carried.len()
            &&& forall|i: int| 0 <= i < parts.len() ==> ends_with(#[trigger] parts[i], d)
        }),
        0 <= j < parts.len(),
    ensures
        is_timed(feeds, emitted(feeds.drop_last()).len() + j, d, included),
{
    let front = feeds.drop_last();
    let f = feeds.last();
    let carried = before.partial();
    let old_out = emitted(front);
    let out = emitted(feeds);
    let i = old_out.len() + j;
    let base = restored(old_out, d, included);
    let head = parts.subrange(0, j);
    assert(out.subrange(0, i) =~= old_out + delimited(head, d, included, first, f.at));
    assert(out.subrange(0, i + 1) =~= old_out + delimited(
        parts.subrange(0, j + 1),
        d,
        included,
        first,
        f.at,
    ));
    lemma_restored_concat(old_out, delimited(head, d, included, first, f.at), d, included);
    lemma_restored_concat(
        old_out,
        delimited(parts.subrange(0, j + 1), d, included, first, f.at),
        d,
        included,
    );
    lemma_restored_pieces(head, d, included, first, f.at);
    lemma_restored_pieces(parts.subrange(0, j + 1), d, included, first, f.at);
    let from = base.len() + flat(head).len();
    let to = base.len() + flat(parts.subrange(0, j + 1)).len();
    assert(parts.subrange(0, j + 1)[0] == parts[0]);
    lemma_flat_first(parts.subrange(0, j + 1));
    assert(to - 1 >= received(front).len());
    if j == 0 {
        assert(flat(head) =~= Seq::empty());
        if carried.len() > 0 {
            assert(from == received(front).len() - carried.len());
        }
    } else {
        assert(head[0] == parts[0]);
        lemma_flat_first(head);
        assert(from >= received(front).len());
    }
    assert(out[i as int] == f.out[j]);
}

proof fn lemma_nothing_fed(start: DelimiterExtractor, feeds: Seq<Fed>)
    requires
        feeds.len() == 0,
        start.delimiter_spec().len() > 0,
        start.partial().len() == 0,
    ensures
        stands(feeds, start, start.delimiter_spec(), start.includes()),
{
    reveal(stands);
    let d = start.delimiter_spec();
    assert(start.partial() =~= Seq::empty());
    assert(restored(emitted(feeds), d, start.includes()) + start.partial() =~= received(feeds));
    crate::extract::lemma_no_end(start.partial(), d, 0);
    lemma_no_end_absent(start.partial(), d);
}

proof fn lemma_fed_in_turn(start: DelimiterExtractor, feeds: Seq<Fed>)
    requires
        start.delimiter_spec().len() > 0,
        start.partial().len() == 0,
        fed_in_turn(start, feeds),
    ensures
        stands(
            feeds,
            behind(start, feeds, feeds.len() as int),
            start.delimiter_spec(),
            start.includes(),
        ),
    decreases feeds.len(),
{
    if feeds.len() == 0 {
        lemma_nothing_fed(start, feeds);
    } else {
        let front = feeds.drop_last();
        let n = front.len() as int;
        assert(feeds[n] == feeds.last());
        assert(fed_into(behind(start, feeds, n), feeds[n]));
        assert forall|i: int| 0 <= i < front.len() implies #[trigger] fed_into(
            behind(start, front, i),
            front[i],
        ) by {
            assert(front[i] == feeds[i]);
            assert(behind(start, front, i) == behind(start, feeds, i));
            assert(fed_into(behind(start, feeds, i), feeds[i]));
        }
        lemma_fed_in_turn(start, front);
        assert(behind(start, front, n) == behind(start, feeds, n));
        lemma_one_more(feeds, behind(start, feeds, n), start.delimiter_spec(), start.includes());
    }
}

/// Whatever chunks a stream arrives in, nothing of it is lost: the messages, each with its
/// delimiter, and what is still being received make up the stream byte for byte. Every
/// message ends at the first delimiter behind its beginning, and carries the times of the
/// chunks that supplied its first and its last byte.
pub proof fn law_delimited_messages_make_up_the_stream(
    start: DelimiterExtractor,
    feeds: Seq<Fed>,
)
    requires
        start.delimiter_spec().len() > 0,
        start.partial().len() == 0,
        fed_in_turn(start, feeds),
    ensures
        cut_at_delimiters(
            feeds,
            behind(start, feeds, feeds.len() as int).partial(),
            start.delimiter_spec(),
            start.includes(),
        ),
{
    lemma_fed_in_turn(start, feeds);
    reveal(stands);
}

/// One chunk: what was pending and the chunk are, byte for byte, the messages that come
/// out, each with its delimiter, and what is pending then.
pub proof fn law_a_chunk_is_its_messages_and_the_rest(
    before: DelimiterExtractor,
    bytes: Seq<u8>,
    at: ChunkTime,
    after: DelimiterExtractor,
    out: Seq<Frame>,
)
    requires
        pushed(before, bytes, at, after, out),
    ensures
        restored(out, before.delimiter_spec(), before.includes()) + after.partial()
            == before.partial() + bytes,
        before.delimiter_spec().len() == 0 ==> out.len() == 0,
{
    let t = before.partial() + bytes;
    let d = before.delimiter_spec();
    let first = if before.partial().len() > 0 {
        before.began()->0
    } else {
        at
    };
    law_pieces_cover(t, d);
    law_pieces_are_minimal(t, d);
    lemma_restored_pieces(pieces(t, d), d, before.includes(), first, at);
}

/// Frames behind markers, one after the other: each a gap, the marker and a message.
pub open spec fn framed(
    gaps: Seq<Seq<u8>>,
    marker: Seq<u8>,
    messages: Seq<Seq<u8>>,
) -> Seq<u8>
    decreases messages.len(),
{
    if messages.len() == 0 {
        Seq::empty()
    } else {
        gaps[0] + marker + messages[0] + framed(gaps.skip(1), marker, messages.skip(1))
    }
}

/// Behind each marker stand the bytes of a message, and the search for the next marker
/// begins behind them: the stream is gaps, markers and messages of the given length, then
/// what is still incomplete. No gap holds the marker, nor does the marker end earlier than
/// where it was found.
pub proof fn law_marked_messages_stand_behind_their_markers(
    s: Seq<u8>,
    length: nat,
    marker: Seq<u8>,
) -> (r: (Seq<Seq<u8>>, Seq<u8>))
    requires
        length > 0,
        marker.len() > 0,
    ensures
        ({
            let p = progress(false, s, length, marker);
            let (gaps, tail) = r;
            &&& gaps.len() == p.messages.len()
            &&& framed(gaps, marker, p.messages) + tail == s
            &&& forall|i: int|
                0 <= i < gaps.len() ==> #[trigger] only_at_end(gaps[i] + marker, marker)
            &&& forall|i: int| 0 <= i < p.messages.len() ==> (#[trigger] p.messages[i]).len()
                == length
            &&& !p.collecting ==> tail == p.rest && absent(tail, marker)
            &&& p.collecting ==> {
                &&& p.rest.len() < length
                &&& p.rest.len() <= tail.len()
                &&& tail.subrange(tail.len() - p.rest.len(), tail.len() as int) == p.rest
                &&& only_at_end(tail.subrange(0, tail.len() - p.rest.len()), marker)
            }
        }),
    decreases s.len(),
{
    let p = progress(false, s, length, marker);
    lemma_end_after(s, marker, 0);
    match first_end(s, marker) {
        None => {
            lemma_no_end_absent(s, marker);
            assert(framed(Seq::empty(), marker, p.messages) + s =~= s);
            (Seq::empty(), s)
        },
        Some(e) => {
            let head = s.take(e);
            let gap = head.take(e - marker.len());
            assert(gap + marker =~= head) by {
                assert(head.skip(e - marker.len()) =~= marker);
            }
            assert forall|k: int| 0 < k < e implies !ends_with(#[trigger] head.take(k), marker) by {
                assert(head.take(k) =~= s.take(k));
            }
            assert(head.take(e) =~= head);
            crate::extract::lemma_end_is(head, marker, 0, e);
            lemma_first_end_only(head, marker);
            let rest = s.skip(e);
            assert(p == progress(true, rest, length, marker));
            if rest.len() < length {
                assert(p == (Progress { messages: Seq::empty(), collecting: true, rest }));
                assert(framed(Seq::empty(), marker, p.messages) + s =~= s);
                assert(s.subrange(s.len() - rest.len(), s.len() as int) =~= rest);
                assert(s.subrange(0, s.len() - rest.len()) =~= head);
                (Seq::empty(), s)
            } else {
                let message = rest.take(length as int);
                let more = rest.skip(length as int);
                let (gaps, tail) = law_marked_messages_stand_behind_their_markers(
                    more,
                    length,
                    marker,
                );
                let q = progress(false, more, length, marker);
                assert(p.messages == seq![message] + q.messages);
                let all = seq![gap] + gaps;
                assert(all.skip(1) =~= gaps);
                assert(p.messages.skip(1) =~= q.messages);
                assert(framed(all, marker, p.messages) + tail =~= s) by {
                    assert(framed(all, marker, p.messages) == gap + marker + message + framed(
                        gaps,
                        marker,
                        q.messages,
                    ));
                    assert(gap + marker + message + framed(gaps, marker, q.messages) + tail
                        =~= head + (message + (framed(gaps, marker, q.messages) + tail)));
                    assert(head + (message + more) =~= s);
                }
                assert forall|i: int| 0 <= i < all.len() implies #[trigger] only_at_end(
                    all[i] + marker,
                    marker,
                ) by {
                    if i > 0 {
                        assert(all[i] == gaps[i - 1]);
                        assert(only_at_end(gaps[i - 1] + marker, marker));
                    }
                }
                assert forall|i: int| 0 <= i < p.messages.len() implies (
                #[trigger] p.messages[i]).len() == length by {
                    if i > 0 {
                        assert(p.messages[i] == q.messages[i - 1]);
                    }
                }
                (all, tail)
            }
        },
    }
}

/// The bytes of messages.
pub open spec fn contents(messages: Seq<Frame>) -> Seq<Seq<u8>> {
    messages.map_values(|m: Frame| m.bytes)
}

#[verifier::opaque]
spec fn follows(
    collecting: bool,
    pushes: Seq<Push>,
    e: FixedLengthExtractor,
    length: nat,
    marker: Seq<u8>,
) -> bool {
    let p = progress(collecting, all_bytes(pushes), length, marker);
    &&& e.length_spec() == length
    &&& e.marker_spec() == marker
    &&& contents(all_messages(pushes)) == p.messages
    &&& e.is_collecting() == p.collecting
    &&& e.pending() == remembered(p, marker)
}

proof fn lemma_follows(
    collecting: bool,
    pushes: Seq<Push>,
    before: FixedLengthExtractor,
    length: nat,
    marker: Seq<u8>,
)
    requires
        length > 0,
        collecting || marker.len() > 0,
        pushes.len() > 0,
        follows(collecting, pushes.drop_last(), before, length, marker),
        pushed_into(before, pushes.last()),
    ensures
        follows(collecting, pushes, pushes.last().after, length, marker),
{
    reveal(follows);
    reveal(pushed_into);
    let front = pushes.drop_last();
    let push = pushes.last();
    law_chunks_do_not_matter(collecting, all_bytes(front), push.bytes, length, marker);
    assert(contents(all_messages(pushes)) =~= contents(all_messages(front)) + contents(push.out));
    let q = progress(before.is_collecting(), before.pending() + push.bytes, length, marker);
    assert(contents(push.out) =~= q.messages);
}

proof fn lemma_none_pushed(start: FixedLengthExtractor, pushes: Seq<Push>)
    requires
        pushes.len() == 0,
        start.length_spec() > 0,
        start.is_collecting() == (start.marker_spec().len() == 0),
        start.pending().len() == 0,
    ensures
        follows(start.is_collecting(), pushes, start, start.length_spec(), start.marker_spec()),
{
    reveal(follows);
    let m = start.marker_spec();
    let none = Seq::<u8>::empty();
    assert(start.pending() =~= none);
    if m.len() > 0 {
        crate::extract::lemma_no_end(none, m, 0);
    }
    assert(contents(all_messages(pushes)) =~= Seq::empty());
}

proof fn lemma_pushes_follow(start: FixedLengthExtractor, pushes: Seq<Push>)
    requires
        start.length_spec() > 0,
        start.is_collecting() == (start.marker_spec().len() == 0),
        start.pending().len() == 0,
        pushed_in_turn(start, pushes),
    ensures
        follows(
            start.is_collecting(),
            pushes,
            stage(start, pushes, pushes.len() as int),
            start.length_spec(),
            start.marker_spec(),
        ),
    decreases pushes.len(),
{
    if pushes.len() == 0 {
        lemma_none_pushed(start, pushes);
    } else {
        let front = pushes.drop_last();
        let n = front.len() as int;
        assert(pushes[n] == pushes.last());
        assert(pushed_into(stage(start, pushes, n), pushes[n]));
        assert forall|i: int| 0 <= i < front.len() implies #[trigger] pushed_into(
            stage(start, front, i),
            front[i],
        ) by {
            assert(front[i] == pushes[i]);
            assert(stage(start, front, i) == stage(start, pushes, i));
            assert(pushed_into(stage(start, pushes, i), pushes[i]));
        }
        lemma_pushes_follow(start, front);
        assert(stage(start, front, n) == stage(start, pushes, n));
        lemma_follows(
            start.is_collecting(),
            pushes,
            stage(start, pushes, n),
            start.length_spec(),
            start.marker_spec(),
        );
    }
}

/// Whatever chunks a stream arrives in, with a marker its messages are the runs of bytes
/// behind the markers, from the first marker on; each search for a marker begins behind
/// the message before. What is left holds no further message.
pub proof fn law_marked_messages_of_a_stream(start: FixedLengthExtractor, pushes: Seq<Push>) -> (r: (
    Seq<Seq<u8>>,
    Seq<u8>,
))
    requires
        start.length_spec() > 0,
        start.marker_spec().len() > 0,
        !start.is_collecting(),
        start.pending().len() == 0,
        pushed_in_turn(start, pushes),
    ensures
        ({
            let messages = contents(all_messages(pushes));
            let marker = start.marker_spec();
            let (gaps, tail) = r;
            &&& gaps.len() == messages.len()
            &&& framed(gaps, marker, messages) + tail == all_bytes(pushes)
            &&& forall|i: int|
                0 <= i < gaps.len() ==> #[trigger] only_at_end(gaps[i] + marker, marker)
            &&& forall|i: int|
                0 <= i < messages.len() ==> (#[trigger] messages[i]).len() == start.length_spec()
            &&& absent(tail, marker) || exists|k: int|
                0 <= k < start.length_spec() && k <= tail.len() && #[trigger] only_at_end(
                    tail.subrange(0, tail.len() - k),
                    marker,
                )
        }),
{
    lemma_pushes_follow(start, pushes);
    reveal(follows);
    let r = law_marked_messages_stand_behind_their_markers(
        all_bytes(pushes),
        start.length_spec(),
        start.marker_spec(),
    );
    let p = progress(false, all_bytes(pushes), start.length_spec(), start.marker_spec());
    if p.collecting {
        assert(only_at_end(r.1.subrange(0, r.1.len() - p.rest.len()), start.marker_spec()));
    }
    r
}

/// Every message of fixed length is complete with the chunk at hand. The first one begins
/// with the chunk that began it, where one was being collected, and all others begin with
/// the chunk at hand.
pub proof fn law_fixed_length_messages_are_timed(
    before: FixedLengthExtractor,
    push: Push,
    i: int,
)
    requires
        pushed_into(before, push),
        before.length_spec() > 0,
        0 <= i < push.out.len(),
    ensures
        push.out[i].last_chunk == push.at,
        i > 0 || !before.is_collecting() || before.pending().len() == 0 ==> push.out[i].first_chunk
            == push.at,
        i == 0 && before.is_collecting() && before.pending().len() > 0 ==> push.out[i].first_chunk
            == before.began()->0,
{
    reveal(pushed_into);
}

} // verus!
