//! The text that characters and inline annotations are painted as, mode by mode.

use vstd::prelude::*;
use vstd::string::*;

use crate::display::{CharacterRendering, DisplayMode};
use crate::text::{chars_of, hex_pair, push_hex_pair};

verus! {

/// What a view shows, in order: a decoded character of the stream, or the text of an
/// annotation spliced between characters.
pub ghost enum Item {
    Glyph(char),
    Note(Seq<char>),
}

/// The settings that decide how items are painted. `width` and `per_line` are positive
/// where present.
pub ghost struct Style {
    pub mode: DisplayMode,
    pub rendering: CharacterRendering,
    pub width: Option<int>,
    pub per_line: Option<int>,
    pub separator: Seq<char>,
}

/// Where the output stands: the column past the last tab stop (Rendered), the number of
/// cells on the line (Hex), and the columns used on the line (Raw, counted only where there
/// is a width).
pub ghost struct Pen {
    pub col: int,
    pub cells: int,
    pub line: int,
}

/// The pen at the start of an output.
pub open spec fn pen_start() -> Pen {
    Pen { col: 0, cells: 0, line: 0 }
}

/// A count that stays at the machine's largest once it is reached.
pub open spec fn saturated(n: int) -> int {
    if n > usize::MAX {
        usize::MAX as int
    } else {
        n
    }
}

/// The end-of-line characters that an annotation may hold.
pub open spec fn is_break(c: char) -> bool {
    c == '\r' || c == '\n'
}

/// Control characters, the space and DEL: what the Token, Glyph and HexEscape
/// renderings make visible.
pub open spec fn special(c: char) -> bool {
    c as u32 <= 0x20 || c as u32 == 0x7F
}

/// The bracketed name of a control character, of the space or of DEL.
pub open spec fn control_token(c: char) -> Seq<char> {
    let cp = c as u32 as int;
    if cp == 0 { "[NUL]"@ }
    else if cp == 1 { "[SOH]"@ }
    else if cp == 2 { "[STX]"@ }
    else if cp == 3 { "[ETX]"@ }
    else if cp == 4 { "[EOT]"@ }
    else if cp == 5 { "[ENQ]"@ }
    else if cp == 6 { "[ACK]"@ }
    else if cp == 7 { "[BEL]"@ }
    else if cp == 8 { "[BS]"@ }
    else if cp == 9 { "[TAB]"@ }
    else if cp == 10 { "[LF]"@ }
    else if cp == 11 { "[VT]"@ }
    else if cp == 12 { "[FF]"@ }
    else if cp == 13 { "[CR]"@ }
    else if cp == 14 { "[SO]"@ }
    else if cp == 15 { "[SI]"@ }
    else if cp == 16 { "[DLE]"@ }
    else if cp == 17 { "[DC1]"@ }
    else if cp == 18 { "[DC2]"@ }
    else if cp == 19 { "[DC3]"@ }
    else if cp == 20 { "[DC4]"@ }
    else if cp == 21 { "[NAK]"@ }
    else if cp == 22 { "[SYN]"@ }
    else if cp == 23 { "[ETB]"@ }
    else if cp == 24 { "[CAN]"@ }
    else if cp == 25 { "[EM]"@ }
    else if cp == 26 { "[SUB]"@ }
    else if cp == 27 { "[ESC]"@ }
    else if cp == 28 { "[FS]"@ }
    else if cp == 29 { "[GS]"@ }
    else if cp == 30 { "[RS]"@ }
    else if cp == 31 { "[US]"@ }
    else if cp == 32 { "[SP]"@ }
    else { "[DEL]"@ }
}

/// The Unicode control picture of a control character, of the space or of DEL.
pub open spec fn control_picture(c: char) -> char {
    if c as u32 <= 0x20 {
        (0x2400 + c as u32) as u32 as char
    } else {
        '\u{2421}'
    }
}

/// What one character shows as in Raw mode.
pub open spec fn char_text(rendering: CharacterRendering, c: char) -> Seq<char> {
    if !special(c) {
        seq![c]
    } else {
        match rendering {
            CharacterRendering::Native => seq![c],
            CharacterRendering::Token => control_token(c),
            CharacterRendering::Glyph => seq![control_picture(c)],
            CharacterRendering::HexEscape => seq!['<'] + hex_pair(c as u8) + seq!['>'],
        }
    }
}

/// A Raw cell: kept whole, on a new line where it would not fit on the current one.
pub open spec fn raw_cell(style: Style, line: int, cell: Seq<char>) -> (Seq<char>, int) {
    if style.width is Some && line > 0 && line + cell.len() > style.width->0 {
        (seq!['\n'] + cell, saturated(cell.len() as int))
    } else {
        (cell, saturated(line + cell.len()))
    }
}

/// The index of the first end-of-line character, the length where there is none.
pub open spec fn break_at(t: Seq<char>) -> int
    decreases t.len(),
{
    if t.len() == 0 || is_break(t[0]) {
        0
    } else {
        1 + break_at(t.skip(1))
    }
}

/// A text with end-of-line characters: each piece between them is a cell, and each of
/// them starts a line.
pub open spec fn raw_lines(style: Style, line: int, t: Seq<char>) -> (Seq<char>, int)
    decreases t.len(),
{
    let i = break_at(t);
    let (piece, after) = if i == 0 {
        (Seq::empty(), line)
    } else {
        raw_cell(style, line, t.take(i))
    };
    if 0 <= i < t.len() {
        let (rest, end) = raw_lines(style, 0, t.skip(i + 1));
        (piece + seq![t[i]] + rest, end)
    } else {
        (piece, after)
    }
}

/// An annotation in Raw mode.
pub open spec fn raw_note(style: Style, line: int, t: Seq<char>) -> (Seq<char>, int) {
    if break_at(t) == t.len() {
        raw_cell(style, line, t)
    } else {
        raw_lines(style, line, t)
    }
}

/// What goes before a Hex cell, and the cells on the line once it is there.
pub open spec fn hex_lead(style: Style, cells: int) -> (Seq<char>, int) {
    if cells == 0 {
        (Seq::empty(), 1)
    } else if style.per_line is Some && cells >= style.per_line->0 {
        (seq!['\n'], 1)
    } else {
        (style.separator, saturated(cells + 1))
    }
}

/// The index of the last end-of-line character, -1 where there is none.
pub open spec fn last_break(t: Seq<char>) -> int
    decreases t.len(),
{
    if t.len() == 0 {
        -1
    } else if is_break(t.last()) {
        t.len() - 1
    } else {
        last_break(t.drop_last())
    }
}

/// The column that a character moves the pen to, on its own line.
pub open spec fn advance(col: int, c: char) -> int {
    if c == '\t' {
        0
    } else if special(c) && c != ' ' {
        col
    } else {
        (col + 1) % 8
    }
}

/// The column after all of `t`.
pub open spec fn advance_all(col: int, t: Seq<char>) -> int
    decreases t.len(),
{
    if t.len() == 0 {
        col
    } else {
        advance(advance_all(col, t.drop_last()), t.last())
    }
}

/// A run of spaces.
pub open spec fn spaces(n: int) -> Seq<char> {
    Seq::new(n as nat, |i: int| ' ')
}

/// One character in Rendered mode: terminal-style text.
pub open spec fn rendered_char(col: int, c: char) -> (Seq<char>, int) {
    if c == '\n' {
        (seq!['\n'], 0)
    } else if c == '\t' {
        (spaces(8 - col), 0)
    } else if special(c) && c != ' ' {
        (Seq::empty(), col)
    } else {
        (seq![c], (col + 1) % 8)
    }
}

/// What one item adds to the output, and the pen after it.
pub open spec fn paint_item(style: Style, pen: Pen, item: Item) -> (Seq<char>, Pen) {
    match style.mode {
        DisplayMode::Raw => {
            let (text, line) = match item {
                Item::Glyph(c) => raw_cell(style, pen.line, char_text(style.rendering, c)),
                Item::Note(t) => raw_note(style, pen.line, t),
            };
            (
                text,
                Pen {
                    line: if style.width is Some {
                        line
                    } else {
                        pen.line
                    },
                    ..pen
                },
            )
        },
        DisplayMode::Rendered => {
            let (text, col) = match item {
                Item::Glyph(c) => rendered_char(pen.col, c),
                Item::Note(t) => (
                    t,
                    if last_break(t) < 0 {
                        pen.col
                    } else {
                        advance_all(0, t.skip(last_break(t) + 1))
                    },
                ),
            };
            (text, Pen { col, ..pen })
        },
        DisplayMode::Hex => {
            let (lead, cells) = hex_lead(style, pen.cells);
            match item {
                Item::Glyph(c) => (lead + hex_pair(c as u8), Pen { cells, ..pen }),
                Item::Note(t) => (
                    lead + t,
                    Pen {
                        cells: if last_break(t) < 0 {
                            cells
                        } else if last_break(t) == t.len() - 1 {
                            0
                        } else {
                            1
                        },
                        ..pen
                    },
                ),
            }
        },
    }
}

/// What a run of items adds to the output, and the pen after it.
pub open spec fn paint(style: Style, pen: Pen, items: Seq<Item>) -> (Seq<char>, Pen)
    decreases items.len(),
{
    if items.len() == 0 {
        (Seq::empty(), pen)
    } else {
        let (text, p) = paint(style, pen, items.drop_last());
        let (more, q) = paint_item(style, p, items.last());
        (text + more, q)
    }
}

/// Painting two runs one after the other is painting them as one.
pub proof fn law_paint_concat(style: Style, pen: Pen, a: Seq<Item>, b: Seq<Item>)
    ensures
        paint(style, pen, a + b) == ({
            let (s, p) = paint(style, pen, a);
            let (t, q) = paint(style, p, b);
            (s + t, q)
        }),
    decreases b.len(),
{
    if b.len() == 0 {
        assert(a + b =~= a);
        let (s, p) = paint(style, pen, a);
        assert(s + Seq::<char>::empty() =~= s);
    } else {
        law_paint_concat(style, pen, a, b.drop_last());
        assert((a + b).drop_last() =~= a + b.drop_last());
        let (s, p) = paint(style, pen, a);
        let (t, q) = paint(style, p, b.drop_last());
        let (more, r) = paint_item(style, q, b.last());
        assert((s + t) + more =~= s + (t + more));
    }
}

/// Without a width no columns are counted.
pub proof fn lemma_line_unused(style: Style, pen: Pen, items: Seq<Item>)
    requires
        style.width is None,
    ensures
        paint(style, pen, items).1.line == pen.line,
    decreases items.len(),
{
    if items.len() > 0 {
        lemma_line_unused(style, pen, items.drop_last());
    }
}

/// The first end-of-line character stands where `break_at` says.
proof fn lemma_break_at(t: Seq<char>, n: int)
    requires
        0 <= n <= t.len(),
        forall|j: int| 0 <= j < n ==> !is_break(#[trigger] t[j]),
        n < t.len() ==> is_break(t[n]),
    ensures
        break_at(t) == n,
    decreases t.len(),
{
    if n > 0 {
        let rest = t.skip(1);
        assert forall|j: int| 0 <= j < n - 1 implies !is_break(#[trigger] rest[j]) by {
            assert(rest[j] == t[j + 1]);
        }
        lemma_break_at(rest, n - 1);
    }
}

/// The last end-of-line character stands where `last_break` says.
proof fn lemma_last_break(t: Seq<char>, n: int)
    requires
        -1 <= n < t.len(),
        n >= 0 ==> is_break(t[n]),
        forall|j: int| n < j < t.len() ==> !is_break(#[trigger] t[j]),
    ensures
        last_break(t) == n,
    decreases t.len(),
{
    if t.len() > 0 && n < t.len() - 1 {
        let front = t.drop_last();
        assert(!is_break(t[t.len() - 1]));
        assert forall|j: int| n < j < front.len() implies !is_break(#[trigger] front[j]) by {
            assert(front[j] == t[j]);
        }
        lemma_last_break(front, n);
    }
}

/// Whether `c` is a control character, the space or DEL.
pub fn is_special(c: char) -> (r: bool)
    ensures
        r == special(c),
{
    let cp: u32 = c as u32;
    cp <= 0x20 || cp == 0x7F
}

/// The bracketed name of a special character.
fn token_of(c: char) -> (r: &'static str)
    requires
        special(c),
    ensures
        r@ == control_token(c),
{
    let cp: u32 = c as u32;
    if cp == 0 { "[NUL]" }
    else if cp == 1 { "[SOH]" }
    else if cp == 2 { "[STX]" }
    else if cp == 3 { "[ETX]" }
    else if cp == 4 { "[EOT]" }
    else if cp == 5 { "[ENQ]" }
    else if cp == 6 { "[ACK]" }
    else if cp == 7 { "[BEL]" }
    else if cp == 8 { "[BS]" }
    else if cp == 9 { "[TAB]" }
    else if cp == 10 { "[LF]" }
    else if cp == 11 { "[VT]" }
    else if cp == 12 { "[FF]" }
    else if cp == 13 { "[CR]" }
    else if cp == 14 { "[SO]" }
    else if cp == 15 { "[SI]" }
    else if cp == 16 { "[DLE]" }
    else if cp == 17 { "[DC1]" }
    else if cp == 18 { "[DC2]" }
    else if cp == 19 { "[DC3]" }
    else if cp == 20 { "[DC4]" }
    else if cp == 21 { "[NAK]" }
    else if cp == 22 { "[SYN]" }
    else if cp == 23 { "[ETB]" }
    else if cp == 24 { "[CAN]" }
    else if cp == 25 { "[EM]" }
    else if cp == 26 { "[SUB]" }
    else if cp == 27 { "[ESC]" }
    else if cp == 28 { "[FS]" }
    else if cp == 29 { "[GS]" }
    else if cp == 30 { "[RS]" }
    else if cp == 31 { "[US]" }
    else if cp == 32 { "[SP]" }
    else { "[DEL]" }
}

/// An output under construction.
pub struct Painter<'a> {
    pub mode: DisplayMode,
    pub rendering: CharacterRendering,
    pub width: Option<usize>,
    pub per_line: Option<usize>,
    pub separator: &'a str,
    pub out: String,
    pub col: usize,
    pub cells: usize,
    pub line: usize,
}

/// A limit of 0 is no limit.
pub open spec fn limit(n: Option<usize>) -> Option<int> {
    if n is Some && n->0 > 0 {
        Some(n->0 as int)
    } else {
        None
    }
}

impl<'a> Painter<'a> {
    pub open spec fn style(self) -> Style {
        Style {
            mode: self.mode,
            rendering: self.rendering,
            width: limit(self.width),
            per_line: limit(self.per_line),
            separator: self.separator@,
        }
    }

    pub open spec fn pen(self) -> Pen {
        Pen { col: self.col as int, cells: self.cells as int, line: self.line as int }
    }

    /// The column is kept relative to the last tab stop.
    pub open spec fn wf(self) -> bool {
        self.col < 8
    }

    /// `self` after painting `item` is `next`.
    pub open spec fn painted(self, item: Item, next: Painter) -> bool {
        let (text, pen) = paint_item(self.style(), self.pen(), item);
        &&& next.wf()
        &&& next.style() == self.style()
        &&& next.out@ == self.out@ + text
        &&& next.pen() == pen
    }

    /// Accounts for a Raw cell of `len` columns, on a new line where it would not fit.
    fn start_cell(&mut self, len: usize)
        ensures
            final(self).style() == old(self).style(),
            final(self).col == old(self).col,
            final(self).cells == old(self).cells,
            forall|cell: Seq<char>|
                cell.len() == len ==> {
                    let (text, line) = #[trigger] raw_cell(old(self).style(), old(self).line as int, cell);
                    &&& final(self).line == line
                    &&& final(self).out@ + cell == old(self).out@ + text
                },
    {
        let wraps: bool = match self.width {
            Some(w) => w > 0 && self.line > 0 && (self.line > w || len > w - self.line),
            None => false,
        };
        if wraps {
            self.out.push('\n');
            self.line = len;
        } else {
            self.line = self.line.saturating_add(len);
        }
        proof {
            assert forall|cell: Seq<char>| cell.len() == len implies {
                let (text, line) = #[trigger] raw_cell(old(self).style(), old(self).line as int, cell);
                &&& self.line == line
                &&& self.out@ + cell == old(self).out@ + text
            } by {
                if wraps {
                    assert(self.out@ + cell =~= old(self).out@ + (seq!['\n'] + cell));
                }
            }
        }
    }

    /// Emits the piece `chars[from..to]` as one Raw cell.
    fn cell_chars(&mut self, chars: &Vec<char>, from: usize, to: usize)
        requires
            from <= to <= chars.len(),
        ensures
            final(self).style() == old(self).style(),
            final(self).col == old(self).col,
            final(self).cells == old(self).cells,
            ({
                let (text, line) = raw_cell(
                    old(self).style(),
                    old(self).line as int,
                    chars@.subrange(from as int, to as int),
                );
                &&& final(self).line == line
                &&& final(self).out@ == old(self).out@ + text
            }),
    {
        let ghost cell = chars@.subrange(from as int, to as int);
        self.start_cell(to - from);
        assert(raw_cell(old(self).style(), old(self).line as int, cell).1 == self.line);
        let ghost begun = *self;
        let mut i: usize = from;
        assert(self.out@ =~= begun.out@ + chars@.subrange(from as int, i as int));
        while i < to
            invariant
                from <= i <= to <= chars.len(),
                self.style() == begun.style(),
                self.col == begun.col,
                self.cells == begun.cells,
                self.line == begun.line,
                self.out@ == begun.out@ + chars@.subrange(from as int, i as int),
            decreases to - i,
        {
            self.out.push(chars[i]);
            i = i + 1;
            assert(chars@.subrange(from as int, i as int) =~= chars@.subrange(
                from as int,
                i - 1,
            ).push(chars@[i - 1]));
            assert(self.out@ =~= begun.out@ + chars@.subrange(from as int, i as int));
        }
    }

    /// Emits `text` as one Raw cell.
    fn cell_str(&mut self, text: &str)
        ensures
            final(self).style() == old(self).style(),
            final(self).col == old(self).col,
            final(self).cells == old(self).cells,
            ({
                let (more, line) = raw_cell(old(self).style(), old(self).line as int, text@);
                &&& final(self).line == line
                &&& final(self).out@ == old(self).out@ + more
            }),
    {
        self.start_cell(text.unicode_len());
        assert(raw_cell(old(self).style(), old(self).line as int, text@).1 == self.line);
        self.out.append(text);
    }

    /// Emits `c` as one Raw cell.
    fn cell_char(&mut self, c: char)
        ensures
            final(self).style() == old(self).style(),
            final(self).col == old(self).col,
            final(self).cells == old(self).cells,
            ({
                let (more, line) = raw_cell(old(self).style(), old(self).line as int, seq![c]);
                &&& final(self).line == line
                &&& final(self).out@ == old(self).out@ + more
            }),
    {
        self.start_cell(1);
        assert(raw_cell(old(self).style(), old(self).line as int, seq![c]).1 == self.line);
        let ghost before = self.out@;
        self.out.push(c);
        assert(self.out@ =~= before + seq![c]);
    }

    /// Emits one character of the stream in Raw mode.
    fn cell_rendered(&mut self, c: char)
        requires
            old(self).wf(),
        ensures
            final(self).style() == old(self).style(),
            final(self).col == old(self).col,
            final(self).cells == old(self).cells,
            ({
                let (more, line) = raw_cell(
                    old(self).style(),
                    old(self).line as int,
                    char_text(old(self).rendering, c),
                );
                &&& final(self).line == line
                &&& final(self).out@ == old(self).out@ + more
            }),
    {
        if !is_special(c) {
            self.cell_char(c);
            return;
        }
        match self.rendering {
            CharacterRendering::Native => self.cell_char(c),
            CharacterRendering::Token => self.cell_str(token_of(c)),
            CharacterRendering::Glyph => {
                let picture: char = if c as u32 <= 0x20 {
                    match char::from_u32(0x2400 + c as u32) {
                        Some(p) => {
                            proof {
                                vstd::utf8::char_u32_cast(p, (0x2400 + c as u32) as u32);
                            }
                            p
                        },
                        None => c,
                    }
                } else {
                    '\u{2421}'
                };
                self.cell_char(picture);
            },
            CharacterRendering::HexEscape => {
                let ghost cell = seq!['<'] + hex_pair(c as u8) + seq!['>'];
                self.start_cell(4);
                assert(cell.len() == 4);
                assert(raw_cell(old(self).style(), old(self).line as int, cell).1 == self.line);
                let ghost before = self.out@;
                self.out.push('<');
                push_hex_pair(&mut self.out, c as u8);
                self.out.push('>');
                assert(self.out@ =~= before + cell);
            },
        }
    }

    /// Emits an annotation in Raw mode: one cell where it is a single line; otherwise
    /// each end-of-line character starts a line and each piece between them is a cell.
    fn annotation(&mut self, text: &str)
        requires
            old(self).wf(),
        ensures
            final(self).style() == old(self).style(),
            final(self).col == old(self).col,
            final(self).cells == old(self).cells,
            ({
                let (more, line) = raw_note(old(self).style(), old(self).line as int, text@);
                &&& final(self).line == line
                &&& final(self).out@ == old(self).out@ + more
            }),
    {
        let chars: Vec<char> = chars_of(text);
        let n: usize = chars.len();
        let first: usize = next_break(&chars, 0);
        assert(chars@.skip(0) =~= chars@);
        if first == n {
            self.cell_str(text);
            return;
        }
        let ghost style = self.style();
        let ghost line0 = self.line as int;
        let ghost whole = raw_lines(style, line0, chars@);
        let mut start: usize = 0;
        assert(self.out@ + raw_lines(style, line0, chars@).0 =~= old(self).out@ + whole.0);
        loop
            invariant_except_break
                self.out@ + raw_lines(style, self.line as int, chars@.skip(start as int)).0
                    == old(self).out@ + whole.0,
                raw_lines(style, self.line as int, chars@.skip(start as int)).1 == whole.1,
            invariant
                start <= n,
                n == chars.len(),
                chars@ == text@,
                self.wf(),
                self.style() == style,
                old(self).style() == style,
                self.col == old(self).col,
                self.cells == old(self).cells,
            ensures
                self.out@ == old(self).out@ + whole.0,
                self.line == whole.1,
            decreases n - start,
        {
            let end: usize = next_break(&chars, start);
            let ghost rest = chars@.skip(start as int);
            let ghost i = end - start;
            assert(rest.take(i) =~= chars@.subrange(start as int, end as int));
            let ghost before = *self;
            if end > start {
                self.cell_chars(&chars, start, end);
            }
            let ghost (piece, after) = if i == 0 {
                (Seq::<char>::empty(), before.line as int)
            } else {
                raw_cell(style, before.line as int, rest.take(i))
            };
            assert(self.out@ =~= before.out@ + piece);
            if end >= n {
                assert(self.out@ =~= old(self).out@ + whole.0);
                break;
            }
            assert(rest[i] == chars@[end as int]);
            assert(rest.skip(i + 1) =~= chars@.skip(end + 1));
            self.out.push(chars[end]);
            self.line = 0;
            start = end + 1;
            proof {
                let (more, _) = raw_lines(style, 0, rest.skip(i + 1));
                assert(self.out@ + more =~= before.out@ + (piece + seq![rest[i]] + more));
            }
        }
    }

    /// Starts a Hex cell: a separator, or a new line once the line is full.
    fn start_hex_cell(&mut self)
        ensures
            final(self).style() == old(self).style(),
            final(self).col == old(self).col,
            final(self).line == old(self).line,
            ({
                let (lead, cells) = hex_lead(old(self).style(), old(self).cells as int);
                &&& final(self).cells == cells
                &&& final(self).out@ == old(self).out@ + lead
            }),
    {
        if self.cells > 0 {
            let full: bool = match self.per_line {
                Some(n) => n > 0 && self.cells >= n,
                None => false,
            };
            if full {
                self.out.push('\n');
                self.cells = 0;
                assert(self.out@ =~= old(self).out@ + seq!['\n']);
            } else {
                self.out.append(self.separator);
            }
        } else {
            assert(self.out@ =~= old(self).out@ + Seq::<char>::empty());
        }
        self.cells = self.cells.saturating_add(1);
    }

    /// Whether there is a width to count columns for.
    fn counts_columns(&self) -> (r: bool)
        ensures
            r == (self.style().width is Some),
    {
        match self.width {
            Some(w) => w > 0,
            None => false,
        }
    }

    /// Paints the text of an annotation.
    pub fn note(&mut self, text: &str)
        requires
            old(self).wf(),
        ensures
            old(self).painted(Item::Note(text@), *final(self)),
    {
        match self.mode {
            DisplayMode::Raw => {
                let line: usize = self.line;
                self.annotation(text);
                if !self.counts_columns() {
                    self.line = line;
                }
            },
            DisplayMode::Hex => {
                self.start_hex_cell();
                let ghost before = self.out@;
                self.out.append(text);
                let (found, tail) = tail_after_line_control(text);
                if found {
                    self.cells = if tail.len() > 0 {
                        1
                    } else {
                        0
                    };
                }
                assert(self.out@ =~= old(self).out@ + paint_item(
                    old(self).style(),
                    old(self).pen(),
                    Item::Note(text@),
                ).0);
            },
            DisplayMode::Rendered => {
                self.out.append(text);
                let (found, tail) = tail_after_line_control(text);
                if found {
                    self.col = 0;
                    let mut i: usize = 0;
                    assert(tail@.take(0) =~= Seq::empty());
                    while i < tail.len()
                        invariant
                            i <= tail.len(),
                            self.style() == old(self).style(),
                            self.cells == old(self).cells,
                            self.line == old(self).line,
                            self.out@ == old(self).out@ + text@,
                            self.col < 8,
                            self.col == advance_all(0, tail@.take(i as int)),
                        decreases tail.len() - i,
                    {
                        let c: char = tail[i];
                        if c == '\t' {
                            self.col = 0;
                        } else if is_special(c) && c != ' ' {
                        } else {
                            self.col = (self.col + 1) % 8;
                        }
                        i = i + 1;
                        assert(tail@.take(i as int).drop_last() =~= tail@.take(i - 1));
                    }
                    assert(tail@.take(i as int) =~= tail@);
                }
            },
        }
    }

    /// Paints one character of the stream.
    pub fn glyph(&mut self, c: char)
        requires
            old(self).wf(),
        ensures
            old(self).painted(Item::Glyph(c), *final(self)),
    {
        match self.mode {
            DisplayMode::Raw => {
                let line: usize = self.line;
                self.cell_rendered(c);
                if !self.counts_columns() {
                    self.line = line;
                }
            },
            DisplayMode::Hex => {
                self.start_hex_cell();
                let ghost before = self.out@;
                push_hex_pair(&mut self.out, c as u8);
                assert(self.out@ =~= old(self).out@ + paint_item(
                    old(self).style(),
                    old(self).pen(),
                    Item::Glyph(c),
                ).0);
            },
            DisplayMode::Rendered => {
                if c == '\n' {
                    self.out.push('\n');
                    self.col = 0;
                    assert(self.out@ =~= old(self).out@ + seq!['\n']);
                } else if c == '\t' {
                    let count: usize = 8 - self.col;
                    let mut i: usize = 0;
                    assert(self.out@ =~= old(self).out@ + spaces(0));
                    while i < count
                        invariant
                            i <= count,
                            self.style() == old(self).style(),
                            self.pen() == old(self).pen(),
                            self.out@ == old(self).out@ + spaces(i as int),
                        decreases count - i,
                    {
                        self.out.push(' ');
                        i = i + 1;
                        assert(self.out@ =~= old(self).out@ + spaces(i as int));
                    }
                    self.col = 0;
                } else if is_special(c) && c != ' ' {
                    assert(self.out@ =~= old(self).out@ + Seq::<char>::empty());
                } else {
                    self.out.push(c);
                    self.col = (self.col + 1) % 8;
                    assert(self.out@ =~= old(self).out@ + seq![c]);
                }
            },
        }
    }
}

/// The index of the first end-of-line character at or after `start`, the length where
/// there is none.
fn next_break(chars: &Vec<char>, start: usize) -> (r: usize)
    requires
        start <= chars.len(),
    ensures
        start <= r <= chars.len(),
        r - start == break_at(chars@.skip(start as int)),
{
    let mut i: usize = start;
    while i < chars.len() && chars[i] != '\r' && chars[i] != '\n'
        invariant
            start <= i <= chars.len(),
            forall|j: int| start <= j < i ==> !is_break(#[trigger] chars@[j]),
        decreases chars.len() - i,
    {
        i = i + 1;
    }
    proof {
        let rest = chars@.skip(start as int);
        assert forall|j: int| 0 <= j < i - start implies !is_break(#[trigger] rest[j]) by {
            assert(rest[j] == chars@[j + start]);
        }
        lemma_break_at(rest, i - start);
    }
    i
}

/// Whether `text` holds an end-of-line character, and the text after the last of them.
fn tail_after_line_control(text: &str) -> (r: (bool, Vec<char>))
    ensures
        r.0 == (last_break(text@) >= 0),
        r.0 ==> last_break(text@) < text@.len() && r.1@ == text@.skip(last_break(text@) + 1),
{
    let chars: Vec<char> = chars_of(text);
    let mut i: usize = chars.len();
    while i > 0 && chars[i - 1] != '\r' && chars[i - 1] != '\n'
        invariant
            i <= chars.len(),
            forall|j: int| i <= j < chars.len() ==> !is_break(#[trigger] chars@[j]),
        decreases i,
    {
        i = i - 1;
    }
    proof {
        lemma_last_break(chars@, i - 1);
    }
    if i == 0 {
        return (false, Vec::new());
    }
    let mut tail: Vec<char> = Vec::new();
    let mut j: usize = i;
    assert(chars@.subrange(i as int, i as int) =~= Seq::empty());
    while j < chars.len()
        invariant
            i <= j <= chars.len(),
            tail@ == chars@.subrange(i as int, j as int),
        decreases chars.len() - j,
    {
        tail.push(chars[j]);
        j = j + 1;
        assert(tail@ =~= chars@.subrange(i as int, j as int));
    }
    assert(tail@ =~= text@.skip(i as int));
    (true, tail)
}

} // verus!
