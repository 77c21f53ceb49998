//! What a view shows of received bytes.

use vstd::prelude::*;

use crate::display::encoding::decoded;
use crate::display::paint::{
    char_text, control_token, hex_lead, paint, paint_item, pen_start, special, Item, Style,
};
use crate::display::render::{
    char_items, items_of, notes, span_items, AnnotationPlacement, DisplayView, Mark,
};
use crate::display::{CharacterRendering, DisplayEncoding};
use crate::laws::encoding::{chars_in, law_latin1_is_the_byte};
use crate::laws::text::{hex_alphabet, law_hex_pair_says_the_byte};

verus! {

/// No annotations.
pub open spec fn unmarked() -> spec_fn(int) -> Seq<Mark> {
    |offset: int| Seq::empty()
}

/// A byte in two uppercase hexadecimal digits.
pub open spec fn two_digits(b: u8) -> Seq<char> {
    seq![hex_alphabet()[(b / 16) as int], hex_alphabet()[(b % 16) as int]]
}

/// The bytes in two digits each, with a separator before every one but the first, or a
/// line feed where the number of bytes before it fills lines of `per_line` bytes.
pub open spec fn hex_dump(bytes: Seq<u8>, separator: Seq<char>, per_line: Option<int>) -> Seq<char>
    decreases bytes.len(),
{
    if bytes.len() == 0 {
        Seq::empty()
    } else {
        let front = bytes.drop_last();
        let between = if front.len() == 0 {
            Seq::empty()
        } else if per_line is Some && front.len() as int % per_line->0 == 0 {
            seq!['\n']
        } else {
            separator
        };
        hex_dump(front, separator, per_line) + between + two_digits(bytes.last())
    }
}

/// One glyph for each character, without annotations.
pub proof fn lemma_unmarked_items(chars: Seq<(char, int)>)
    ensures
        items_of(chars, unmarked()).len() == chars.len(),
        forall|i: int|
            0 <= i < chars.len() ==> #[trigger] items_of(chars, unmarked())[i] == Item::Glyph(
                chars[i].0,
            ),
    decreases chars.len(),
{
    if chars.len() > 0 {
        let front = chars.drop_last();
        lemma_unmarked_items(front);
        let items = items_of(chars, unmarked());
        let before = items_of(front, unmarked());
        lemma_one_glyph(chars.last().0);
        assert(items == before + char_items(chars.last().0, Seq::empty()));
        assert forall|i: int| 0 <= i < chars.len() implies #[trigger] items[i] == Item::Glyph(
            chars[i].0,
        ) by {
            if i < front.len() {
                assert(items[i] == before[i]);
                assert(front[i] == chars[i]);
            }
        }
    }
}

proof fn lemma_one_glyph(c: char)
    ensures
        char_items(c, Seq::empty()).len() == 1,
        char_items(c, Seq::empty())[0] == Item::Glyph(c),
{
    assert(notes(Seq::<Mark>::empty(), AnnotationPlacement::Before) =~= Seq::empty());
}

proof fn lemma_hex(style: Style, bytes: Seq<u8>, items: Seq<Item>)
    requires
        style.mode is Hex,
        style.per_line matches Some(k) ==> 0 < k <= usize::MAX,
        items.len() == bytes.len(),
        forall|i: int|
            0 <= i < items.len() ==> (#[trigger] items[i] matches Item::Glyph(c) && c as u32
                == bytes[i]),
    ensures
        ({
            let (text, pen) = paint(style, pen_start(), items);
            &&& text == hex_dump(bytes, style.separator, style.per_line)
            &&& pen.cells >= 0
            &&& pen.cells == 0 <==> bytes.len() == 0
            &&& bytes.len() > 0 && style.per_line is Some ==> pen.cells == (bytes.len() - 1)
                % style.per_line->0 + 1
        }),
    decreases items.len(),
{
    if items.len() > 0 {
        let front = items.drop_last();
        let less = bytes.drop_last();
        assert forall|i: int| 0 <= i < front.len() implies (#[trigger] front[i] matches Item::Glyph(
            c,
        ) && c as u32 == less[i]) by {
            assert(front[i] == items[i]);
        }
        lemma_hex(style, less, front);
        let (text, pen) = paint(style, pen_start(), front);
        assert(items.last() == items[items.len() - 1]);
        let c = items.last()->Glyph_0;
        let b = bytes.last();
        assert(c as u8 == b);
        law_hex_pair_says_the_byte(b);
        assert(crate::text::hex_pair(b) =~= two_digits(b));
        let (lead, cells) = hex_lead(style, pen.cells);
        if style.per_line is Some && less.len() > 0 {
            let k = style.per_line->0;
            lemma_cycle(less.len() as int, k);
        } else if style.per_line is Some {
            let k = style.per_line->0;
            vstd::arithmetic::div_mod::lemma_small_mod(0, k as nat);
        }
        assert(paint_item(style, pen, items.last()).0 == lead + two_digits(b));
        assert(text + (lead + two_digits(b)) =~= text + lead + two_digits(b));
    } else {
        assert(hex_dump(bytes, style.separator, style.per_line) =~= Seq::empty());
    }
}

/// How a count that begins again after `k` goes on.
proof fn lemma_cycle(n: int, k: int)
    requires
        n > 0,
        k > 0,
    ensures
        0 <= (n - 1) % k < k,
        (n - 1) % k + 1 == k <==> n % k == 0,
        (n - 1) % k + 1 < k ==> n % k == (n - 1) % k + 1,
{
    vstd::arithmetic::div_mod::lemma_fundamental_div_mod(n - 1, k);
    let q = (n - 1) / k;
    let r = (n - 1) % k;
    assert(k * q == q * k) by (nonlinear_arith);
    if r + 1 < k {
        vstd::arithmetic::div_mod::lemma_fundamental_div_mod_converse(n, k, q, r + 1);
    } else {
        assert(n == (q + 1) * k) by (nonlinear_arith)
            requires
                n - 1 == k * q + r,
                r + 1 == k,
        ;
        vstd::arithmetic::div_mod::lemma_fundamental_div_mod_converse(n, k, q + 1, 0);
    }
}

/// In Hex mode a view shows every byte in two uppercase hexadecimal digits, whatever its
/// encoding, with the separator between them and a line feed after each full line where
/// it wraps.
pub proof fn law_hex_shows_every_byte(view: DisplayView, bytes: Seq<u8>)
    requires
        view.mode is Hex,
    ensures
        view.shown(bytes, unmarked()) == hex_dump(
            bytes,
            view.hex_separator@,
            if view.wrapping is Wrap && view.hex_bytes_per_line > 0 {
                Some(view.hex_bytes_per_line as int)
            } else {
                None
            },
        ),
{
    let chars = decoded(bytes, DisplayEncoding::Latin1);
    law_latin1_is_the_byte(bytes);
    lemma_unmarked_items(chars);
    let items = span_items(bytes, view.units(), unmarked());
    assert(items =~= items_of(chars, unmarked()));
    assert forall|i: int| 0 <= i < items.len() implies (#[trigger] items[i] matches Item::Glyph(c)
        && c as u32 == bytes[i]) by {
        assert(items[i] == items_of(chars, unmarked())[i]);
        assert(chars[i].0 as u32 == bytes[i]);
    }
    lemma_hex(view.style(), bytes, items);
}

/// What a character looks like in Raw mode: control characters, the space and DEL are made
/// visible, all else is shown as it is.
pub open spec fn looks(rendering: CharacterRendering, c: char, text: Seq<char>) -> bool {
    let code = c as u32;
    if code > 32 && code != 127 {
        text == seq![c]
    } else {
        match rendering {
            CharacterRendering::Native => text == seq![c],
            CharacterRendering::Glyph => text.len() == 1 && text[0] as u32 == (if code == 127 {
                0x2421
            } else {
                0x2400 + code
            }),
            CharacterRendering::HexEscape => text == seq![
                '<',
                hex_alphabet()[(code / 16) as int],
                hex_alphabet()[(code % 16) as int],
                '>',
            ],
            CharacterRendering::Token => text.len() >= 4 && text[0] == '[' && text.last() == ']',
        }
    }
}

/// How Raw mode makes each character visible.
pub proof fn law_raw_makes_controls_visible(rendering: CharacterRendering, c: char)
    ensures
        looks(rendering, c, char_text(rendering, c)),
{
    if special(c) {
        if rendering is HexEscape {
            law_hex_pair_says_the_byte(c as u8);
            assert(char_text(rendering, c) =~= seq![
                '<',
                hex_alphabet()[(c as u32 / 16) as int],
                hex_alphabet()[(c as u32 % 16) as int],
                '>',
            ]);
        } else if rendering is Token {
            lemma_token_form(c);
        } else if rendering is Glyph {
            assert(char_text(rendering, c).len() == 1);
        }
    }
}

#[verifier::rlimit(60)]
proof fn lemma_token_form(c: char)
    requires
        special(c),
    ensures
        control_token(c).len() >= 4,
        control_token(c)[0] == '[',
        control_token(c).last() == ']',
{
    reveal_strlit("[NUL]");
    reveal_strlit("[SOH]");
    reveal_strlit("[STX]");
    reveal_strlit("[ETX]");
    reveal_strlit("[EOT]");
    reveal_strlit("[ENQ]");
    reveal_strlit("[ACK]");
    reveal_strlit("[BEL]");
    reveal_strlit("[BS]");
    reveal_strlit("[TAB]");
    reveal_strlit("[LF]");
    reveal_strlit("[VT]");
    reveal_strlit("[FF]");
    reveal_strlit("[CR]");
    reveal_strlit("[SO]");
    reveal_strlit("[SI]");
    reveal_strlit("[DLE]");
    reveal_strlit("[DC1]");
    reveal_strlit("[DC2]");
    reveal_strlit("[DC3]");
    reveal_strlit("[DC4]");
    reveal_strlit("[NAK]");
    reveal_strlit("[SYN]");
    reveal_strlit("[ETB]");
    reveal_strlit("[CAN]");
    reveal_strlit("[EM]");
    reveal_strlit("[SUB]");
    reveal_strlit("[ESC]");
    reveal_strlit("[FS]");
    reveal_strlit("[GS]");
    reveal_strlit("[RS]");
    reveal_strlit("[US]");
    reveal_strlit("[SP]");
    reveal_strlit("[DEL]");
}

/// What the characters look like, one after the other.
pub open spec fn look_alike(
    rendering: CharacterRendering,
    chars: Seq<char>,
    parts: Seq<Seq<char>>,
) -> bool {
    &&& parts.len() == chars.len()
    &&& forall|i: int| 0 <= i < chars.len() ==> looks(rendering, chars[i], #[trigger] parts[i])
}

/// In Raw mode without wrapping a view shows what the characters look like, one after the
/// other and nothing else.
pub proof fn law_raw_shows_every_character(view: DisplayView, bytes: Seq<u8>) -> (parts: Seq<
    Seq<char>,
>)
    requires
        view.mode is Raw,
        view.wrapping is NoWrap,
    ensures
        look_alike(view.character_rendering, chars_in(decoded(bytes, view.encoding)), parts),
        view.shown(bytes, unmarked()) == parts.flatten(),
{
    let chars = decoded(bytes, view.encoding);
    lemma_unmarked_items(chars);
    let items = span_items(bytes, view.units(), unmarked());
    assert(items =~= items_of(chars, unmarked()));
    lemma_raw_parts(view.style(), items, chars_in(chars))
}

proof fn lemma_raw_parts(style: Style, items: Seq<Item>, chars: Seq<char>) -> (parts: Seq<Seq<char>>)
    requires
        style.mode is Raw,
        style.width is None,
        items.len() == chars.len(),
        forall|i: int| 0 <= i < items.len() ==> #[trigger] items[i] == Item::Glyph(chars[i]),
    ensures
        look_alike(style.rendering, chars, parts),
        paint(style, pen_start(), items).0 == parts.flatten(),
    decreases items.len(),
{
    if items.len() == 0 {
        let parts = Seq::<Seq<char>>::empty();
        assert(parts.flatten() =~= Seq::empty());
        parts
    } else {
        let front = items.drop_last();
        let less = chars.drop_last();
        assert forall|i: int| 0 <= i < front.len() implies #[trigger] front[i] == Item::Glyph(
            less[i],
        ) by {
            assert(front[i] == items[i]);
        }
        let before = lemma_raw_parts(style, front, less);
        let c = chars.last();
        assert(items.last() == items[items.len() - 1]);
        law_raw_makes_controls_visible(style.rendering, c);
        let part = char_text(style.rendering, c);
        let parts = before.push(part);
        before.lemma_flatten_push(part);
        assert forall|i: int| 0 <= i < chars.len() implies looks(
            style.rendering,
            chars[i],
            #[trigger] parts[i],
        ) by {
            if i < less.len() {
                assert(parts[i] == before[i]);
                assert(less[i] == chars[i]);
            }
        }
        parts
    }
}

/// Two control characters never have the same name, and none has the name of the space or
/// of DEL.
#[verifier::rlimit(100)]
pub proof fn law_control_names_differ(a: char, b: char)
    requires
        a as u32 <= 32 || a as u32 == 127,
        b as u32 <= 32 || b as u32 == 127,
        char_text(CharacterRendering::Token, a) == char_text(CharacterRendering::Token, b),
    ensures
        a == b,
{
    lemma_token_key(a);
    lemma_token_key(b);
}

/// A number that tells control names apart: their second to fourth characters.
spec fn token_key(t: Seq<char>) -> (char, char, char) {
    (t[1], t[2], t[3])
}

/// What the names of the control characters begin with, behind the bracket.
spec fn key_table(code: u32) -> (char, char, char) {
    if code == 0 { ('N', 'U', 'L') }
    else if code == 1 { ('S', 'O', 'H') }
    else if code == 2 { ('S', 'T', 'X') }
    else if code == 3 { ('E', 'T', 'X') }
    else if code == 4 { ('E', 'O', 'T') }
    else if code == 5 { ('E', 'N', 'Q') }
    else if code == 6 { ('A', 'C', 'K') }
    else if code == 7 { ('B', 'E', 'L') }
    else if code == 8 { ('B', 'S', ']') }
    else if code == 9 { ('T', 'A', 'B') }
    else if code == 10 { ('L', 'F', ']') }
    else if code == 11 { ('V', 'T', ']') }
    else if code == 12 { ('F', 'F', ']') }
    else if code == 13 { ('C', 'R', ']') }
    else if code == 14 { ('S', 'O', ']') }
    else if code == 15 { ('S', 'I', ']') }
    else if code == 16 { ('D', 'L', 'E') }
    else if code == 17 { ('D', 'C', '1') }
    else if code == 18 { ('D', 'C', '2') }
    else if code == 19 { ('D', 'C', '3') }
    else if code == 20 { ('D', 'C', '4') }
    else if code == 21 { ('N', 'A', 'K') }
    else if code == 22 { ('S', 'Y', 'N') }
    else if code == 23 { ('E', 'T', 'B') }
    else if code == 24 { ('C', 'A', 'N') }
    else if code == 25 { ('E', 'M', ']') }
    else if code == 26 { ('S', 'U', 'B') }
    else if code == 27 { ('E', 'S', 'C') }
    else if code == 28 { ('F', 'S', ']') }
    else if code == 29 { ('G', 'S', ']') }
    else if code == 30 { ('R', 'S', ']') }
    else if code == 31 { ('U', 'S', ']') }
    else if code == 32 { ('S', 'P', ']') }
    else { ('D', 'E', 'L') }
}

#[verifier::rlimit(100)]
proof fn lemma_token_key(c: char)
    requires
        special(c),
    ensures
        token_key(control_token(c)) == key_table(c as u32),
{
    reveal_strlit("[NUL]");
    reveal_strlit("[SOH]");
    reveal_strlit("[STX]");
    reveal_strlit("[ETX]");
    reveal_strlit("[EOT]");
    reveal_strlit("[ENQ]");
    reveal_strlit("[ACK]");
    reveal_strlit("[BEL]");
    reveal_strlit("[BS]");
    reveal_strlit("[TAB]");
    reveal_strlit("[LF]");
    reveal_strlit("[VT]");
    reveal_strlit("[FF]");
    reveal_strlit("[CR]");
    reveal_strlit("[SO]");
    reveal_strlit("[SI]");
    reveal_strlit("[DLE]");
    reveal_strlit("[DC1]");
    reveal_strlit("[DC2]");
    reveal_strlit("[DC3]");
    reveal_strlit("[DC4]");
    reveal_strlit("[NAK]");
    reveal_strlit("[SYN]");
    reveal_strlit("[ETB]");
    reveal_strlit("[CAN]");
    reveal_strlit("[EM]");
    reveal_strlit("[SUB]");
    reveal_strlit("[ESC]");
    reveal_strlit("[FS]");
    reveal_strlit("[GS]");
    reveal_strlit("[RS]");
    reveal_strlit("[US]");
    reveal_strlit("[SP]");
    reveal_strlit("[DEL]");
}

} // verus!
