//! Bytes as editable text: control bytes, and bytes that are not UTF-8, are written as
//! `<XX>`.

use vstd::prelude::*;
use vstd::string::*;
use vstd::utf8::*;

use crate::decode::checksum::{digit_value, hex_value};
use crate::text::{hex_pair, push_hex_pair};
use crate::unicode::utf8_char;

verus! {

/// An escape: `<`, two hexadecimal digits in either case, `>`.
pub open spec fn is_escape(b: Seq<u8>) -> bool {
    &&& b.len() >= 4
    &&& b[0] == 60
    &&& digit_value(b[1]) is Some
    &&& digit_value(b[2]) is Some
    &&& b[3] == 62
}

/// The byte that an escape stands for.
pub open spec fn escape_value(b: Seq<u8>) -> u8 {
    (digit_value(b[1])->0 * 16 + digit_value(b[2])->0) as u8
}

/// What text says: each escape is a byte, everything else is itself.
pub open spec fn unescaped(b: Seq<u8>) -> Seq<u8>
    decreases b.len(),
{
    if b.len() == 0 {
        Seq::empty()
    } else if is_escape(b) {
        seq![escape_value(b)] + unescaped(b.skip(4))
    } else {
        seq![b[0]] + unescaped(b.skip(1))
    }
}

/// A control character.
pub open spec fn is_control(c: char) -> bool {
    c <= '\u{1F}' || c == '\u{7F}'
}

/// A byte as an escape.
pub open spec fn escape_of(b: u8) -> Seq<char> {
    seq!['<'] + hex_pair(b) + seq!['>']
}

/// Bytes as text: characters as themselves, but control characters, and bytes that begin
/// no character, as escapes.
pub open spec fn escaped(b: Seq<u8>) -> Seq<char>
    decreases b.len(),
{
    if b.len() == 0 {
        Seq::empty()
    } else if !valid_first_scalar(b) {
        escape_of(b[0]) + escaped(b.skip(1))
    } else {
        let c = decode_first_scalar(b) as char;
        let rest = escaped(b.skip(length_of_first_scalar(b)));
        if is_control(c) {
            escape_of(b[0]) + rest
        } else {
            seq![c] + rest
        }
    }
}

/// The bytes that text stands for, as an editor field takes it: an incomplete escape
/// stays as it is, so that the field is stable while one is being typed.
pub fn parse_escaped_bytes(text: &str) -> (r: Vec<u8>)
    ensures
        r@ == unescaped(encode_utf8(text@)),
{
    let bytes: &[u8] = text.as_bytes();
    let mut out: Vec<u8> = Vec::new();
    let mut i: usize = 0;
    assert(bytes@.skip(0) =~= bytes@);
    assert(out@ + unescaped(bytes@) =~= unescaped(bytes@));
    while i < bytes.len()
        invariant
            i <= bytes.len(),
            out@ + unescaped(bytes@.skip(i as int)) == unescaped(bytes@),
        decreases bytes.len() - i,
    {
        let ghost rest = bytes@.skip(i as int);
        let ghost before = out@;
        assert(rest[0] == bytes@[i as int]);
        let mut taken: bool = false;
        if bytes[i] == 60 && bytes.len() - i > 3 && bytes[i + 3] == 62 {
            assert(rest[1] == bytes@[i + 1] && rest[2] == bytes@[i + 2] && rest[3] == bytes@[i
                + 3]);
            match (hex_value(bytes[i + 1]), hex_value(bytes[i + 2])) {
                (Some(hi), Some(lo)) => {
                    out.push(hi * 16 + lo);
                    taken = true;
                    assert(is_escape(rest));
                    assert(rest.skip(4) =~= bytes@.skip(i + 4));
                    assert(out@ + unescaped(bytes@.skip(i + 4)) =~= before + unescaped(rest));
                    i = i + 4;
                },
                _ => {
                    assert(!is_escape(rest));
                },
            }
        } else {
            assert(!is_escape(rest));
        }
        if !taken {
            out.push(bytes[i]);
            assert(rest.skip(1) =~= bytes@.skip(i + 1));
            assert(out@ + unescaped(bytes@.skip(i + 1)) =~= before + unescaped(rest));
            i = i + 1;
        }
    }
    assert(out@ + unescaped(bytes@.skip(i as int)) =~= out@);
    out
}

fn push_escape(out: &mut String, b: u8)
    ensures
        final(out)@ == old(out)@ + escape_of(b),
{
    out.push('<');
    push_hex_pair(out, b);
    out.push('>');
    assert(out@ =~= old(out)@ + escape_of(b));
}

/// A control character is encoded by one byte.
proof fn lemma_control_is_one_byte(b: Seq<u8>)
    requires
        b.len() > 0,
        valid_first_scalar(b),
        is_control(decode_first_scalar(b) as char),
    ensures
        length_of_first_scalar(b) == 1,
        decode_first_scalar(b) == b[0],
        b[0] < 0x80,
{
    let point = decode_first_scalar(b);
    let b0 = b[0];
    assert(b0 < 0x80 ==> (b0 & 0x7F) == b0) by (bit_vector);
    assert(is_scalar(point)) by {
        crate::unicode::lemma_scalar_bound(b);
    }
    assert((point as char) as u32 == point);
}

/// Bytes as an editor field shows them.
pub fn format_escaped_bytes(bytes: &[u8]) -> (r: String)
    ensures
        r@ == escaped(bytes@),
{
    let mut out: String = String::new();
    let mut i: usize = 0;
    assert(bytes@.skip(0) =~= bytes@);
    assert(out@ + escaped(bytes@) =~= escaped(bytes@));
    while i < bytes.len()
        invariant
            i <= bytes.len(),
            out@ + escaped(bytes@.skip(i as int)) == escaped(bytes@),
        decreases bytes.len() - i,
    {
        let ghost rest = bytes@.skip(i as int);
        let ghost before = out@;
        assert(rest[0] == bytes@[i as int]);
        match utf8_char(bytes, i) {
            Some((c, n)) => {
                assert(rest.skip(n as int) =~= bytes@.skip(i + n));
                if c <= '\u{1F}' || c == '\u{7F}' {
                    push_escape(&mut out, bytes[i]);
                } else {
                    out.push(c);
                }
                assert(out@ + escaped(bytes@.skip(i + n)) =~= before + escaped(rest));
                i = i + n;
            },
            None => {
                push_escape(&mut out, bytes[i]);
                assert(rest.skip(1) =~= bytes@.skip(i + 1));
                assert(out@ + escaped(bytes@.skip(i + 1)) =~= before + escaped(rest));
                i = i + 1;
            },
        }
    }
    assert(out@ + escaped(bytes@.skip(i as int)) =~= out@);
    out
}

/// The bytes hold no escape of their own.
pub open spec fn no_literal_escape(b: Seq<u8>) -> bool {
    forall|i: int| 0 <= i < b.len() ==> !is_escape(#[trigger] b.skip(i))
}

/// The text of bytes, as bytes.
spec fn escaped_bytes(b: Seq<u8>) -> Seq<u8> {
    encode_utf8(escaped(b))
}

proof fn lemma_encode_concat(a: Seq<char>, b: Seq<char>)
    ensures
        encode_utf8(a + b) == encode_utf8(a) + encode_utf8(b),
    decreases a.len(),
{
    if a.len() == 0 {
        assert(a + b =~= b);
        assert(encode_utf8(a) + encode_utf8(b) =~= encode_utf8(b));
    } else {
        lemma_encode_concat(a.drop_first(), b);
        assert((a + b).drop_first() =~= a.drop_first() + b);
        assert(encode_utf8(a + b) =~= encode_utf8(a) + encode_utf8(b));
    }
}

/// An escape as bytes.
proof fn lemma_escape_bytes(b: u8)
    ensures
        encode_utf8(escape_of(b)).len() == 4,
        is_escape(encode_utf8(escape_of(b))),
        escape_value(encode_utf8(escape_of(b))) == b,
        encode_utf8(escape_of(b))[0] == 60,
{
    let t = escape_of(b);
    assert(t.len() == 4);
    assert(t[0] == '<' && t[3] == '>');
    assert(is_ascii_chars(t));
    is_ascii_chars_encode_utf8(t);
    assert(t[1] == hex_pair(b)[0] && t[2] == hex_pair(b)[1]);
    let e = encode_utf8(t);
    assert(e[0] == t[0] as u8 && e[1] == t[1] as u8 && e[2] == t[2] as u8 && e[3] == t[3] as u8);
}

/// A character that shows as itself is encoded as it was received.
proof fn lemma_char_bytes(b: Seq<u8>)
    requires
        b.len() > 0,
        valid_first_scalar(b),
    ensures
        encode_utf8(seq![decode_first_scalar(b) as char]) == b.take(length_of_first_scalar(b)),
{
    let n = length_of_first_scalar(b);
    let head = b.take(n);
    let c = decode_first_scalar(b) as char;
    assert(valid_first_scalar(head));
    assert(pop_first_scalar(head) =~= Seq::empty());
    assert(valid_utf8(pop_first_scalar(head)));
    assert(valid_utf8(head));
    decode_utf8_first_scalar(head);
    assert(decode_first_scalar(head) == decode_first_scalar(b));
    assert(take_first_scalar(head) =~= head);
    let one = seq![c];
    assert(one.drop_first() =~= Seq::empty());
    assert(encode_utf8(one.drop_first()) =~= Seq::empty());
    assert(encode_utf8(one) =~= encode_scalar(c as u32));
}

/// How the text of bytes begins: with an escape, or with the bytes of a character.
proof fn lemma_escaped_step(b: Seq<u8>)
    requires
        b.len() > 0,
    ensures
        ({
            let plain = valid_first_scalar(b) && !is_control(decode_first_scalar(b) as char);
            let n = length_of_first_scalar(b);
            if plain {
                &&& 1 <= n <= b.len()
                &&& escaped_bytes(b) == b.take(n) + escaped_bytes(b.skip(n))
                &&& n > 1 ==> b[0] >= 0x80
            } else {
                escaped_bytes(b) == encode_utf8(escape_of(b[0])) + escaped_bytes(b.skip(1))
            }
        }),
{
    if valid_first_scalar(b) {
        let c = decode_first_scalar(b) as char;
        let n = length_of_first_scalar(b);
        if is_control(c) {
            lemma_control_is_one_byte(b);
            lemma_encode_concat(escape_of(b[0]), escaped(b.skip(1)));
        } else {
            lemma_char_bytes(b);
            lemma_encode_concat(seq![c], escaped(b.skip(n)));
        }
    } else {
        lemma_encode_concat(escape_of(b[0]), escaped(b.skip(1)));
    }
}

/// Where the text of bytes begins with an ASCII byte other than `<`, so do the bytes.
proof fn lemma_escaped_ascii(b: Seq<u8>)
    requires
        escaped_bytes(b).len() > 0,
        escaped_bytes(b)[0] < 0x80,
        escaped_bytes(b)[0] != 60,
    ensures
        b.len() > 0,
        b[0] == escaped_bytes(b)[0],
        escaped_bytes(b) == seq![b[0]] + escaped_bytes(b.skip(1)),
{
    if b.len() == 0 {
        assert(escaped(b) =~= Seq::empty());
        assert(encode_utf8(escaped(b)) =~= Seq::empty());
    } else {
        lemma_escaped_step(b);
        let plain = valid_first_scalar(b) && !is_control(decode_first_scalar(b) as char);
        if plain {
            let n = length_of_first_scalar(b);
            assert(escaped_bytes(b)[0] == b[0]);
            assert(n == 1);
            assert(b.take(1) =~= seq![b[0]]);
        } else {
            lemma_escape_bytes(b[0]);
            assert(escaped_bytes(b)[0] == encode_utf8(escape_of(b[0]))[0]);
        }
    }
}

/// Bytes before any `<` are themselves.
proof fn lemma_unescaped_plain(x: Seq<u8>, y: Seq<u8>)
    requires
        forall|i: int| 0 <= i < x.len() ==> #[trigger] x[i] != 60,
    ensures
        unescaped(x + y) == x + unescaped(y),
    decreases x.len(),
{
    if x.len() == 0 {
        assert(x + y =~= y);
        assert(x + unescaped(y) =~= unescaped(y));
    } else {
        let rest = x.skip(1);
        assert forall|i: int| 0 <= i < rest.len() implies #[trigger] rest[i] != 60 by {
            assert(rest[i] == x[i + 1]);
        }
        lemma_unescaped_plain(rest, y);
        assert((x + y)[0] == x[0]);
        assert(x[0] != 60);
        assert((x + y).skip(1) =~= rest + y);
        assert(seq![x[0]] + (rest + unescaped(y)) =~= x + unescaped(y));
    }
}

/// Editing gives back what it shows: parsing the text of bytes gives the bytes, unless
/// they hold an escape of their own.
pub proof fn law_escape_round_trip(b: Seq<u8>)
    requires
        no_literal_escape(b),
    ensures
        unescaped(encode_utf8(escaped(b))) == b,
    decreases b.len(),
{
    if b.len() == 0 {
        assert(escaped(b) =~= Seq::empty());
        assert(encode_utf8(escaped(b)) =~= Seq::empty());
        assert(unescaped(Seq::empty()) =~= b);
    } else {
        lemma_escaped_step(b);
        let plain = valid_first_scalar(b) && !is_control(decode_first_scalar(b) as char);
        let n = if plain {
            length_of_first_scalar(b)
        } else {
            1
        };
        let rest = b.skip(n);
        assert(no_literal_escape(rest)) by {
            assert forall|i: int| 0 <= i < rest.len() implies !is_escape(#[trigger] rest.skip(i)) by {
                assert(rest.skip(i) =~= b.skip(i + n));
            }
        }
        law_escape_round_trip(rest);
        let f = escaped_bytes(b);
        let g = escaped_bytes(rest);
        if !plain {
            lemma_escape_bytes(b[0]);
            let e = encode_utf8(escape_of(b[0]));
            assert(f[0] == e[0] && f[1] == e[1] && f[2] == e[2] && f[3] == e[3]);
            assert(is_escape(f));
            assert(f.skip(4) =~= g);
            assert(seq![b[0]] + rest =~= b);
        } else if b[0] != 60 {
            let x = b.take(n);
            assert forall|i: int| 0 <= i < x.len() implies #[trigger] x[i] != 60 by {
                if i > 0 {
                    lemma_tail_bytes(b, i);
                }
            }
            lemma_unescaped_plain(x, g);
            assert(x + rest =~= b);
        } else {
            assert(n == 1);
            assert(f =~= seq![b[0]] + g);
            if is_escape(f) {
                assert(g[0] == f[1] && g[1] == f[2] && g[2] == f[3]);
                lemma_escaped_ascii(rest);
                let r1 = rest.skip(1);
                let g1 = escaped_bytes(r1);
                assert(g1[0] == g[1] && g1[1] == g[2]);
                lemma_escaped_ascii(r1);
                let r2 = r1.skip(1);
                let g2 = escaped_bytes(r2);
                assert(g2[0] == g1[1]);
                lemma_escaped_ascii(r2);
                assert(b[1] == rest[0] && b[2] == r1[0] && b[3] == r2[0]);
                assert(b.skip(0) =~= b);
                assert(is_escape(b));
                assert(!is_escape(b.skip(0)));
            }
            assert(f.skip(1) =~= g);
            assert(seq![b[0]] + rest =~= b);
        }
    }
}

/// The bytes inside a character are continuation bytes.
proof fn lemma_tail_bytes(b: Seq<u8>, i: int)
    requires
        b.len() > 0,
        valid_first_scalar(b),
        0 < i < length_of_first_scalar(b),
    ensures
        b[i] >= 0x80,
{
}

} // verus!
