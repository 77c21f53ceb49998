//! Wrapping in Raw mode, over whole lines: what stands on each line, where lines break,
//! and that nothing but the breaks is added.

use vstd::prelude::*;

use crate::display::encoding::decoded;
use crate::display::paint::{
    break_at, char_text, control_picture, control_token, paint, paint_item, pen_start, raw_cell,
    raw_lines, special, Item, Pen, Style,
};
use crate::display::render::{
    char_items, items_of, law_offsets_grow, span_items, DisplayView, Mark,
};
use crate::display::{CharacterRendering, WrappingMode};
use crate::text::{hex_digit_of, hex_pair};

verus! {

/// What a Raw output is made of: cells, which are kept whole, and the end-of-line
/// characters that annotations hold.
pub ghost enum Piece {
    Cell(Seq<char>),
    Break(char),
}

/// How a line ends: as the text does or where it is wrapped, or by an end-of-line
/// character of an annotation.
pub ghost enum End {
    Open,
    Given(char),
}

/// One line of a Raw output.
pub ghost struct Line {
    pub cells: Seq<Seq<char>>,
    pub end: End,
}

/// The pieces that cells are.
pub open spec fn cell_pieces(cells: Seq<Seq<char>>) -> Seq<Piece> {
    cells.map_values(|c: Seq<char>| Piece::Cell(c))
}

impl Line {
    pub open spec fn text(self) -> Seq<char> {
        self.cells.flatten()
    }

    /// What ends the line where another one follows.
    pub open spec fn ending(self) -> char {
        match self.end {
            End::Given(c) => c,
            End::Open => '\n',
        }
    }

    pub open spec fn pieces(self) -> Seq<Piece> {
        match self.end {
            End::Given(c) => cell_pieces(self.cells).push(Piece::Break(c)),
            End::Open => cell_pieces(self.cells),
        }
    }
}

/// The end-of-line character of a text at `i`.
pub open spec fn break_piece(t: Seq<char>, i: int) -> Piece {
    Piece::Break(t[i])
}

/// The pieces of a text that holds end-of-line characters.
pub open spec fn line_pieces(t: Seq<char>) -> Seq<Piece>
    decreases t.len(),
{
    let i = break_at(t);
    let head = if i == 0 {
        Seq::empty()
    } else {
        seq![Piece::Cell(t.take(i))]
    };
    if 0 <= i < t.len() {
        head.push(break_piece(t, i)) + line_pieces(t.skip(i + 1))
    } else {
        head
    }
}

/// The pieces of an item: one cell, unless it is an annotation with end-of-line
/// characters.
pub open spec fn item_pieces(rendering: CharacterRendering, item: Item) -> Seq<Piece> {
    match item {
        Item::Glyph(c) => seq![Piece::Cell(char_text(rendering, c))],
        Item::Note(t) => if break_at(t) == t.len() {
            seq![Piece::Cell(t)]
        } else {
            line_pieces(t)
        },
    }
}

/// The pieces of a run of items.
pub open spec fn pieces_of(rendering: CharacterRendering, items: Seq<Item>) -> Seq<Piece>
    decreases items.len(),
{
    if items.len() == 0 {
        Seq::empty()
    } else {
        pieces_of(rendering, items.drop_last()) + item_pieces(rendering, items.last())
    }
}

/// One line with nothing on it.
pub open spec fn blank() -> Line {
    Line { cells: Seq::empty(), end: End::Open }
}

/// The lines with one more piece on them.
pub open spec fn filled_with(lines: Seq<Line>, piece: Piece, width: int) -> Seq<Line> {
    let last = lines.last();
    match piece {
        Piece::Cell(c) => if last.text().len() > 0 && last.text().len() + c.len() > width {
            lines.push(Line { cells: seq![c], end: End::Open })
        } else {
            lines.drop_last().push(Line { cells: last.cells.push(c), end: End::Open })
        },
        Piece::Break(c) => lines.drop_last().push(Line { end: End::Given(c), ..last }).push(blank()),
    }
}

/// The lines with a run of pieces on them.
pub open spec fn filled(lines: Seq<Line>, pieces: Seq<Piece>, width: int) -> Seq<Line>
    decreases pieces.len(),
{
    if pieces.len() == 0 {
        lines
    } else {
        filled_with(filled(lines, pieces.drop_last(), width), pieces.last(), width)
    }
}

/// The text of lines that others follow.
pub open spec fn ended_text(lines: Seq<Line>) -> Seq<char>
    decreases lines.len(),
{
    if lines.len() == 0 {
        Seq::empty()
    } else {
        ended_text(lines.drop_last()) + lines.last().text().push(lines.last().ending())
    }
}

/// The text of all lines, the last without an ending.
pub open spec fn lines_text(lines: Seq<Line>) -> Seq<char> {
    ended_text(lines.drop_last()) + lines.last().text()
}

/// All pieces on the lines, in order.
pub open spec fn pieces_on(lines: Seq<Line>) -> Seq<Piece>
    decreases lines.len(),
{
    if lines.len() == 0 {
        Seq::empty()
    } else {
        pieces_on(lines.drop_last()) + lines.last().pieces()
    }
}

/// A cell stands behind others on its line only where it fits within the width.
pub open spec fn fits(line: Line, width: int) -> bool {
    forall|k: int|
        0 < k < line.cells.len() ==> {
            let before = (#[trigger] line.cells.take(k)).flatten().len();
            before > 0 ==> before + line.cells[k].len() <= width
        }
}

/// The line holds something, and the first cell of the next one would not fit on it.
pub open spec fn is_full(line: Line, next: Line, width: int) -> bool {
    &&& line.text().len() > 0
    &&& next.cells.len() > 0
    &&& line.text().len() + next.cells[0].len() > width
}

/// The lines are broken where their text does not fit, and nowhere else.
pub open spec fn well_broken(lines: Seq<Line>, width: int) -> bool {
    &&& lines.len() > 0
    &&& lines.last().end is Open
    &&& forall|i: int| 0 <= i < lines.len() ==> #[trigger] fits(lines[i], width)
    &&& forall|i: int|
        0 <= i < lines.len() - 1 ==> (#[trigger] lines[i]).end is Given || is_full(
            lines[i],
            lines[i + 1],
            width,
        )
}

/// The text without its line feeds.
pub open spec fn without_line_feeds(t: Seq<char>) -> Seq<char> {
    t.filter(|c: char| c != '\n')
}

/// The annotations are texts that a machine can hold.
pub open spec fn notes_fit(items: Seq<Item>) -> bool {
    forall|i: int|
        0 <= i < items.len() ==> (#[trigger] items[i] matches Item::Note(t) ==> t.len()
            <= usize::MAX)
}

/// A style that wraps Raw text.
pub open spec fn wraps(style: Style, width: int) -> bool {
    style.mode is Raw && style.width == Some(width) && 0 < width <= usize::MAX
}

proof fn lemma_filled_concat(lines: Seq<Line>, a: Seq<Piece>, b: Seq<Piece>, width: int)
    ensures
        filled(lines, a + b, width) == filled(filled(lines, a, width), b, width),
    decreases b.len(),
{
    if b.len() == 0 {
        assert(a + b =~= a);
    } else {
        lemma_filled_concat(lines, a, b.drop_last(), width);
        assert((a + b).drop_last() =~= a + b.drop_last());
    }
}

proof fn lemma_filled_push(lines: Seq<Line>, pieces: Seq<Piece>, piece: Piece, width: int)
    ensures
        filled(lines, pieces.push(piece), width) == filled_with(
            filled(lines, pieces, width),
            piece,
            width,
        ),
{
    assert(pieces.push(piece).drop_last() =~= pieces);
}

proof fn lemma_filled_one(lines: Seq<Line>, piece: Piece, width: int)
    ensures
        filled(lines, seq![piece], width) == filled_with(lines, piece, width),
{
    assert(seq![piece].drop_last() =~= Seq::empty());
    reveal_with_fuel(filled, 2);
}

/// One more cell adds what `raw_cell` says.
proof fn lemma_cell(style: Style, lines: Seq<Line>, c: Seq<char>, width: int)
    requires
        wraps(style, width),
        lines.len() > 0,
        lines.last().end is Open,
        lines.last().text().len() <= usize::MAX,
        c.len() <= usize::MAX,
    ensures
        ({
            let next = filled_with(lines, Piece::Cell(c), width);
            let (text, line) = raw_cell(style, lines.last().text().len() as int, c);
            &&& next.len() > 0
            &&& next.last().end is Open
            &&& next.last().text().len() == line <= usize::MAX
            &&& lines_text(next) == lines_text(lines) + text
        }),
{
    let last = lines.last();
    let next = filled_with(lines, Piece::Cell(c), width);
    if last.text().len() > 0 && last.text().len() + c.len() > width {
        assert(next.drop_last() =~= lines);
        Seq::empty().lemma_flatten_push(c);
        assert(Seq::empty().push(c) =~= seq![c]);
        assert(next.last().text() =~= c);
        assert(lines_text(next) =~= lines_text(lines) + (seq!['\n'] + c));
    } else {
        assert(next.drop_last() =~= lines.drop_last());
        last.cells.lemma_flatten_push(c);
        assert(lines_text(next) =~= lines_text(lines) + c);
    }
}

/// An end-of-line character of an annotation adds itself.
proof fn lemma_break(lines: Seq<Line>, c: char, width: int)
    requires
        lines.len() > 0,
    ensures
        ({
            let next = filled_with(lines, Piece::Break(c), width);
            &&& next.len() > 0
            &&& next.last() == blank()
            &&& next.last().text().len() == 0
            &&& lines_text(next) == lines_text(lines) + seq![c]
        }),
{
    let last = lines.last();
    let next = filled_with(lines, Piece::Break(c), width);
    let ended = lines.drop_last().push(Line { end: End::Given(c), ..last });
    assert(next.drop_last() =~= ended);
    assert(ended.drop_last() =~= lines.drop_last());
    assert(lines_text(next) =~= lines_text(lines) + seq![c]);
}

proof fn lemma_break_in(t: Seq<char>)
    ensures
        0 <= break_at(t) <= t.len(),
    decreases t.len(),
{
    if t.len() > 0 {
        lemma_break_in(t.skip(1));
    }
}

/// The pieces of an annotation with end-of-line characters add what `raw_lines` says.
proof fn lemma_note_lines(style: Style, lines: Seq<Line>, t: Seq<char>, width: int)
    requires
        wraps(style, width),
        lines.len() > 0,
        lines.last().end is Open,
        lines.last().text().len() <= usize::MAX,
        t.len() <= usize::MAX,
    ensures
        ({
            let next = filled(lines, line_pieces(t), width);
            let (text, line) = raw_lines(style, lines.last().text().len() as int, t);
            &&& next.len() > 0
            &&& next.last().end is Open
            &&& next.last().text().len() == line <= usize::MAX
            &&& lines_text(next) == lines_text(lines) + text
        }),
    decreases t.len(),
{
    lemma_break_in(t);
    let i = break_at(t);
    let used = lines.last().text().len() as int;
    let head = if i == 0 {
        Seq::empty()
    } else {
        seq![Piece::Cell(t.take(i))]
    };
    let begun = filled(lines, head, width);
    if i == 0 {
        assert(lines_text(lines) + Seq::<char>::empty() =~= lines_text(lines));
    } else {
        lemma_filled_one(lines, Piece::Cell(t.take(i)), width);
        lemma_cell(style, lines, t.take(i), width);
    }
    let piece = if i == 0 {
        Seq::empty()
    } else {
        raw_cell(style, used, t.take(i)).0
    };
    assert(lines_text(begun) == lines_text(lines) + piece);
    if i < t.len() {
        let stop = break_piece(t, i);
        let broken = filled(lines, head.push(stop), width);
        lemma_filled_push(lines, head, stop, width);
        lemma_break(begun, t[i], width);
        let rest = t.skip(i + 1);
        lemma_note_lines(style, broken, rest, width);
        lemma_filled_concat(lines, head.push(stop), line_pieces(rest), width);
        let more = raw_lines(style, 0, rest).0;
        assert((lines_text(lines) + piece + seq![t[i]]) + more =~= lines_text(lines) + (piece
            + seq![t[i]] + more));
    }
}

/// The characters that Token, Glyph and HexEscape show a special character as: a few, and
/// none of them is a line feed.
proof fn lemma_char_text(rendering: CharacterRendering, c: char)
    ensures
        0 < char_text(rendering, c).len() <= 5,
        !(rendering is Native) ==> !char_text(rendering, c).contains('\n'),
{
    if special(c) {
        if rendering is Token {
            lemma_token(c);
        } else if rendering is Glyph {
            assert(control_picture(c) != '\n');
        } else if rendering is HexEscape {
            let b = c as u8;
            assert forall|d: int| 0 <= d < 16 implies #[trigger] hex_digit_of(d) != '\n' by {}
            assert(hex_digit_of(b as int / 16) != '\n');
            assert(hex_digit_of(b as int % 16) != '\n');
            assert(hex_pair(b) =~= seq![hex_digit_of(b as int / 16), hex_digit_of(b as int % 16)]);
        }
    }
}

#[verifier::rlimit(50)]
proof fn lemma_token(c: char)
    requires
        special(c),
    ensures
        0 < control_token(c).len() <= 5,
        !control_token(c).contains('\n'),
{
    reveal_strlit("[NUL]");
    reveal_strlit("[SOH]");
    reveal_strlit("[STX]");
    reveal_strlit("[ETX]");
    reveal_strlit("[EOT]");
    reveal_strlit("[ENQ]");
    reveal_strlit("[ACK]");
    reveal_strlit("[BEL]");
    reveal_strlit("[BS]");
    reveal_strlit("[TAB]");
    reveal_strlit("[LF]");
    reveal_strlit("[VT]");
    reveal_strlit("[FF]");
    reveal_strlit("[CR]");
    reveal_strlit("[SO]");
    reveal_strlit("[SI]");
    reveal_strlit("[DLE]");
    reveal_strlit("[DC1]");
    reveal_strlit("[DC2]");
    reveal_strlit("[DC3]");
    reveal_strlit("[DC4]");
    reveal_strlit("[NAK]");
    reveal_strlit("[SYN]");
    reveal_strlit("[ETB]");
    reveal_strlit("[CAN]");
    reveal_strlit("[EM]");
    reveal_strlit("[SUB]");
    reveal_strlit("[ESC]");
    reveal_strlit("[FS]");
    reveal_strlit("[GS]");
    reveal_strlit("[RS]");
    reveal_strlit("[US]");
    reveal_strlit("[SP]");
    reveal_strlit("[DEL]");
}

/// The pieces of an item add what painting it adds.
proof fn lemma_item(style: Style, lines: Seq<Line>, pen: Pen, item: Item, width: int)
    requires
        wraps(style, width),
        lines.len() > 0,
        lines.last().end is Open,
        lines.last().text().len() == pen.line <= usize::MAX,
        item matches Item::Note(t) ==> t.len() <= usize::MAX,
    ensures
        ({
            let next = filled(lines, item_pieces(style.rendering, item), width);
            let (text, p) = paint_item(style, pen, item);
            &&& next.len() > 0
            &&& next.last().end is Open
            &&& next.last().text().len() == p.line <= usize::MAX
            &&& lines_text(next) == lines_text(lines) + text
        }),
{
    match item {
        Item::Glyph(c) => {
            let cell = char_text(style.rendering, c);
            lemma_char_text(style.rendering, c);
            lemma_filled_one(lines, Piece::Cell(cell), width);
            lemma_cell(style, lines, cell, width);
        },
        Item::Note(t) => {
            if break_at(t) == t.len() {
                lemma_filled_one(lines, Piece::Cell(t), width);
                lemma_cell(style, lines, t, width);
            } else {
                lemma_note_lines(style, lines, t, width);
            }
        },
    }
}

proof fn lemma_items(style: Style, items: Seq<Item>, width: int)
    requires
        wraps(style, width),
        notes_fit(items),
    ensures
        ({
            let next = filled(seq![blank()], pieces_of(style.rendering, items), width);
            let (text, p) = paint(style, pen_start(), items);
            &&& next.len() > 0
            &&& next.last().end is Open
            &&& next.last().text().len() == p.line <= usize::MAX
            &&& lines_text(next) == text
        }),
    decreases items.len(),
{
    let start = seq![blank()];
    if items.len() == 0 {
        assert(start.drop_last() =~= Seq::empty());
        assert(lines_text(start) =~= Seq::empty());
    } else {
        let front = items.drop_last();
        assert forall|i: int| 0 <= i < front.len() implies (#[trigger] front[i] matches Item::Note(
            t,
        ) ==> t.len() <= usize::MAX) by {
            assert(front[i] == items[i]);
        }
        assert(items.last() == items[items.len() - 1]);
        lemma_items(style, front, width);
        let a = pieces_of(style.rendering, front);
        let b = item_pieces(style.rendering, items.last());
        lemma_filled_concat(start, a, b, width);
        lemma_item(
            style,
            filled(start, a, width),
            paint(style, pen_start(), front).1,
            items.last(),
            width,
        );
    }
}

/// However pieces are filled into lines, the lines are well broken and hold the pieces.
proof fn lemma_filled(pieces: Seq<Piece>, width: int)
    ensures
        well_broken(filled(seq![blank()], pieces, width), width),
        pieces_on(filled(seq![blank()], pieces, width)) == pieces,
    decreases pieces.len(),
{
    let start = seq![blank()];
    if pieces.len() == 0 {
        assert(start.drop_last() =~= Seq::empty());
        assert(blank().pieces() =~= Seq::empty());
        reveal_with_fuel(pieces_on, 2);
        assert(pieces_on(start) =~= pieces);
    } else {
        lemma_filled(pieces.drop_last(), width);
        let lines = filled(start, pieces.drop_last(), width);
        let next = filled(start, pieces, width);
        let last = lines.last();
        let n = lines.len() - 1;
        assert(last == lines[n]);
        assert(fits(lines[n], width));
        let front = pieces_on(lines.drop_last());
        assert(front + last.pieces() == pieces.drop_last());
        assert(pieces =~= pieces.drop_last().push(pieces.last()));
        match pieces.last() {
            Piece::Cell(c) => {
                if last.text().len() > 0 && last.text().len() + c.len() > width {
                    assert(next.drop_last() =~= lines);
                    assert(next.last().pieces() =~= seq![Piece::Cell(c)]);
                    assert(pieces_on(next) =~= pieces);
                    assert(is_full(next[n], next[n + 1], width));
                    assert forall|i: int| 0 <= i < next.len() implies #[trigger] fits(
                        next[i],
                        width,
                    ) by {
                        if i <= n {
                            assert(fits(lines[i], width));
                        }
                    }
                } else {
                    let cells = last.cells.push(c);
                    assert(next.drop_last() =~= lines.drop_last());
                    assert(next.last().pieces() =~= last.pieces().push(Piece::Cell(c)));
                    assert(front + last.pieces().push(Piece::Cell(c)) =~= (front
                        + last.pieces()).push(Piece::Cell(c)));
                    assert(pieces_on(next) =~= pieces);
                    assert forall|k: int| 0 < k < cells.len() implies {
                        let before = (#[trigger] cells.take(k)).flatten().len();
                        before > 0 ==> before + cells[k].len() <= width
                    } by {
                        assert(cells.take(k) =~= last.cells.take(k));
                        if k == last.cells.len() {
                            assert(last.cells.take(k) =~= last.cells);
                        }
                    }
                    assert(fits(next[n], width));
                    assert forall|i: int| 0 <= i < next.len() implies #[trigger] fits(
                        next[i],
                        width,
                    ) by {
                        if i < n {
                            assert(fits(lines[i], width));
                        }
                    }
                    assert forall|i: int| 0 <= i < next.len() - 1 implies (
                    #[trigger] next[i]).end is Given || is_full(next[i], next[i + 1], width) by {
                        assert(lines[i].end is Given || is_full(lines[i], lines[i + 1], width));
                    }
                }
            },
            Piece::Break(c) => {
                let ended = lines.drop_last().push(Line { end: End::Given(c), ..last });
                assert(next.drop_last() =~= ended);
                assert(ended.drop_last() =~= lines.drop_last());
                assert(blank().pieces() =~= Seq::empty());
                assert(ended.last().pieces() =~= last.pieces().push(Piece::Break(c)));
                assert(front + last.pieces().push(Piece::Break(c)) =~= (front
                    + last.pieces()).push(Piece::Break(c)));
                assert(pieces_on(ended) =~= pieces);
                assert(pieces_on(next) =~= pieces);
                assert forall|i: int| 0 <= i < next.len() implies #[trigger] fits(
                    next[i],
                    width,
                ) by {
                    if i <= n {
                        assert(fits(lines[i], width));
                    }
                }
                assert forall|i: int| 0 <= i < next.len() - 1 implies (
                #[trigger] next[i]).end is Given || is_full(next[i], next[i + 1], width) by {
                    if i < n {
                        assert(lines[i].end is Given || is_full(lines[i], lines[i + 1], width));
                    }
                }
            },
        }
    }
}

/// A view that wraps in Raw mode shows its cells on lines. No cell is split, none is left
/// out and none moves. Lines break where an annotation says so, and where the next cell
/// would not fit; a cell stands behind others on its line only where it fits.
pub proof fn law_raw_wrapping(
    view: DisplayView,
    bytes: Seq<u8>,
    marks: spec_fn(int) -> Seq<Mark>,
) -> (lines: Seq<Line>)
    requires
        view.mode is Raw,
        view.wrapping is Wrap,
        view.wrap_width is Some,
        view.wrap_width->0 > 0,
        notes_fit(span_items(bytes, view.units(), marks)),
    ensures
        pieces_on(lines) == pieces_of(
            view.character_rendering,
            span_items(bytes, view.units(), marks),
        ),
        well_broken(lines, view.wrap_width->0 as int),
        view.shown(bytes, marks) == lines_text(lines),
{
    let items = span_items(bytes, view.units(), marks);
    let width = view.wrap_width->0 as int;
    let pieces = pieces_of(view.character_rendering, items);
    lemma_items(view.style(), items, width);
    lemma_filled(pieces, width);
    filled(seq![blank()], pieces, width)
}

proof fn lemma_without_added(t: Seq<char>)
    ensures
        without_line_feeds(seq!['\n'] + t) == without_line_feeds(t),
{
    let keep = |c: char| c != '\n';
    Seq::filter_distributes_over_add(seq!['\n'], t, keep);
    reveal_with_fuel(Seq::filter, 2);
    assert(seq!['\n'].drop_last() =~= Seq::empty());
    assert(without_line_feeds(seq!['\n'] + t) =~= without_line_feeds(t));
}

proof fn lemma_without_concat(a: Seq<char>, b: Seq<char>)
    ensures
        without_line_feeds(a + b) == without_line_feeds(a) + without_line_feeds(b),
{
    Seq::filter_distributes_over_add(a, b, |c: char| c != '\n');
}

/// Lines without line feeds do not tell where the text was wrapped.
proof fn lemma_lines_without(a: Style, b: Style, m: int, n: int, t: Seq<char>)
    ensures
        without_line_feeds(raw_lines(a, m, t).0) == without_line_feeds(raw_lines(b, n, t).0),
    decreases t.len(),
{
    lemma_break_in(t);
    let i = break_at(t);
    let p = if i == 0 {
        Seq::empty()
    } else {
        raw_cell(a, m, t.take(i)).0
    };
    let q = if i == 0 {
        Seq::empty()
    } else {
        raw_cell(b, n, t.take(i)).0
    };
    lemma_without_added(t.take(i));
    if i < t.len() {
        let rest = t.skip(i + 1);
        lemma_lines_without(a, b, 0, 0, rest);
        let (r, _) = raw_lines(a, 0, rest);
        let (s, _) = raw_lines(b, 0, rest);
        lemma_without_concat(p, seq![t[i]]);
        lemma_without_concat(q, seq![t[i]]);
        lemma_without_concat(p + seq![t[i]], r);
        lemma_without_concat(q + seq![t[i]], s);
    }
}

proof fn lemma_items_without(a: Style, b: Style, items: Seq<Item>)
    requires
        a.mode is Raw,
        b.mode is Raw,
        a.rendering == b.rendering,
    ensures
        without_line_feeds(paint(a, pen_start(), items).0) == without_line_feeds(
            paint(b, pen_start(), items).0,
        ),
    decreases items.len(),
{
    if items.len() > 0 {
        let front = items.drop_last();
        lemma_items_without(a, b, front);
        let (s, p) = paint(a, pen_start(), front);
        let (t, q) = paint(b, pen_start(), front);
        let item = items.last();
        match item {
            Item::Glyph(c) => {
                lemma_without_added(char_text(a.rendering, c));
            },
            Item::Note(n) => {
                lemma_without_added(n);
                lemma_lines_without(a, b, p.line, q.line, n);
            },
        }
        lemma_without_concat(s, paint_item(a, p, item).0);
        lemma_without_concat(t, paint_item(b, q, item).0);
    }
}

/// A text without a line feed is its own text without line feeds.
proof fn lemma_nothing_to_remove(t: Seq<char>)
    requires
        !t.contains('\n'),
    ensures
        without_line_feeds(t) == t,
    decreases t.len(),
{
    reveal(Seq::filter);
    if t.len() > 0 {
        assert(t.contains(t.last()));
        assert forall|i: int| 0 <= i < t.drop_last().len() implies t.drop_last()[i] != '\n' by {
            assert(t.contains(t[i]));
        }
        lemma_nothing_to_remove(t.drop_last());
        assert(without_line_feeds(t) =~= t);
    } else {
        assert(without_line_feeds(t) =~= t);
    }
}

/// The items show no line feed of their own: control characters are made visible, and no
/// annotation holds one.
pub open spec fn shows_no_line_feed(rendering: CharacterRendering, items: Seq<Item>) -> bool {
    &&& !(rendering is Native)
    &&& forall|i: int|
        0 <= i < items.len() ==> (#[trigger] items[i] matches Item::Note(t) ==> !t.contains('\n'))
}

proof fn lemma_unwrapped(style: Style, pen: Pen, items: Seq<Item>)
    requires
        style.mode is Raw,
        style.width is None,
        shows_no_line_feed(style.rendering, items),
    ensures
        !paint(style, pen, items).0.contains('\n'),
    decreases items.len(),
{
    if items.len() > 0 {
        let front = items.drop_last();
        assert forall|i: int| 0 <= i < front.len() implies (#[trigger] front[i] matches Item::Note(
            t,
        ) ==> !t.contains('\n')) by {
            assert(front[i] == items[i]);
        }
        lemma_unwrapped(style, pen, front);
        let item = items.last();
        assert(item == items[items.len() - 1]);
        let (text, p) = paint(style, pen, front);
        let more = paint_item(style, p, item).0;
        match item {
            Item::Glyph(c) => {
                lemma_char_text(style.rendering, c);
            },
            Item::Note(t) => {
                if break_at(t) != t.len() {
                    lemma_lines_kept(style, p.line, t);
                }
            },
        }
        assert(!more.contains('\n'));
        assert forall|i: int| 0 <= i < (text + more).len() implies (text + more)[i] != '\n' by {
            if i < text.len() {
                assert(text.contains(text[i]));
            } else {
                assert(more.contains(more[i - text.len()]));
            }
        }
    }
}

/// Without a width an annotation shows as it is.
proof fn lemma_lines_kept(style: Style, line: int, t: Seq<char>)
    requires
        style.width is None,
    ensures
        raw_lines(style, line, t).0 == t,
    decreases t.len(),
{
    lemma_break_in(t);
    let i = break_at(t);
    if i < t.len() {
        lemma_lines_kept(style, 0, t.skip(i + 1));
        assert(t.take(i) + seq![t[i]] + t.skip(i + 1) =~= t);
        if i == 0 {
            assert(Seq::<char>::empty() + seq![t[i]] + t.skip(i + 1) =~= t);
        }
    } else {
        assert(t.take(i) =~= t);
    }
    assert(raw_lines(style, line, t).0 =~= t);
}

/// Wrapping in Raw mode adds line feeds and nothing else. Where the view shows none of its
/// own, taking them out gives the text without wrapping.
pub proof fn law_raw_wrapping_adds_line_feeds(
    view: DisplayView,
    bytes: Seq<u8>,
    marks: spec_fn(int) -> Seq<Mark>,
)
    requires
        view.mode is Raw,
    ensures
        ({
            let unwrapped = DisplayView { wrapping: WrappingMode::NoWrap, ..view };
            let items = span_items(bytes, view.units(), marks);
            &&& without_line_feeds(view.shown(bytes, marks)) == without_line_feeds(
                unwrapped.shown(bytes, marks),
            )
            &&& shows_no_line_feed(view.character_rendering, items) ==> without_line_feeds(
                view.shown(bytes, marks),
            ) == unwrapped.shown(bytes, marks)
        }),
{
    let unwrapped = DisplayView { wrapping: WrappingMode::NoWrap, ..view };
    let items = span_items(bytes, view.units(), marks);
    lemma_items_without(view.style(), unwrapped.style(), items);
    if shows_no_line_feed(view.character_rendering, items) {
        lemma_unwrapped(unwrapped.style(), pen_start(), items);
        lemma_nothing_to_remove(unwrapped.shown(bytes, marks));
    }
}

/// A line is no longer than the width, or is one cell that is.
pub open spec fn is_narrow(line: Line, width: int) -> bool {
    line.text().len() <= width || line.cells.len() == 1
}

/// Where every cell holds something, a line whose cells fit is within the width, or is one
/// cell.
proof fn lemma_fits_narrow(line: Line, width: int)
    requires
        fits(line, width),
        width > 0,
        forall|k: int| 0 <= k < line.cells.len() ==> (#[trigger] line.cells[k]).len() > 0,
    ensures
        is_narrow(line, width),
        line.cells.len() > 0 ==> line.text().len() > 0,
{
    let n = line.cells.len() as int;
    if n > 0 {
        let front = line.cells.take(n - 1);
        assert(front.push(line.cells[n - 1]) =~= line.cells);
        front.lemma_flatten_push(line.cells[n - 1]);
        if n > 1 {
            assert(front[0] == line.cells[0]);
            assert(front.flatten() == front[0] + front.drop_first().flatten());
            assert(line.cells.take(n - 1).flatten().len() > 0);
        }
    }
}

proof fn lemma_line_pieces(line: Line)
    ensures
        forall|k: int|
            0 <= k < line.cells.len() ==> #[trigger] line.pieces()[k] == Piece::Cell(line.cells[k]),
        line.end is Open ==> line.pieces().len() == line.cells.len(),
        line.end matches End::Given(c) ==> line.pieces().len() == line.cells.len() + 1
            && line.pieces().last() == Piece::Break(c),
{
    if let End::Given(c) = line.end {
        lemma_break_behind(cell_pieces(line.cells), c);
    }
}

proof fn lemma_break_behind(cells: Seq<Piece>, c: char)
    ensures
        cells.push(Piece::Break(c)).len() == cells.len() + 1,
        cells.push(Piece::Break(c)).last() == Piece::Break(c),
        forall|k: int|
            0 <= k < cells.len() ==> #[trigger] cells.push(Piece::Break(c))[k] == cells[k],
{
}

/// Pieces that are cells with something in them come from lines that no annotation ends.
proof fn lemma_cells_only(lines: Seq<Line>)
    requires
        forall|i: int|
            0 <= i < pieces_on(lines).len() ==> (#[trigger] pieces_on(lines)[i] matches Piece::Cell(
                c,
            ) && c.len() > 0),
    ensures
        forall|i: int| 0 <= i < lines.len() ==> (#[trigger] lines[i]).end is Open,
        forall|i: int, k: int|
            0 <= i < lines.len() && 0 <= k < lines[i].cells.len() ==> (
            #[trigger] lines[i].cells[k]).len() > 0,
    decreases lines.len(),
{
    if lines.len() > 0 {
        let front = lines.drop_last();
        let last = lines.last();
        let all = pieces_on(lines);
        let own = last.pieces();
        let n = pieces_on(front).len() as int;
        assert(all == pieces_on(front) + own);
        assert forall|i: int| 0 <= i < n implies (#[trigger] pieces_on(front)[i] matches Piece::Cell(
            c,
        ) && c.len() > 0) by {
            assert(all[i] == pieces_on(front)[i]);
        }
        assert forall|i: int| 0 <= i < own.len() implies (#[trigger] own[i] matches Piece::Cell(c)
            && c.len() > 0) by {
            assert(all[n + i] == own[i]);
        }
        lemma_cells_only(front);
        lemma_line_pieces(last);
        if last.end is Given {
            assert(own[own.len() - 1] is Break);
        }
        assert forall|k: int| 0 <= k < last.cells.len() implies (#[trigger] last.cells[k]).len()
            > 0 by {
            assert(own[k] == Piece::Cell(last.cells[k]));
        }
        assert forall|i: int| 0 <= i < lines.len() implies (#[trigger] lines[i]).end is Open by {
            if i < front.len() {
                assert(lines[i] == front[i]);
            }
        }
        assert forall|i: int, k: int|
            0 <= i < lines.len() && 0 <= k < lines[i].cells.len() implies (
        #[trigger] lines[i].cells[k]).len() > 0 by {
            if i < front.len() {
                assert(lines[i].cells[k] == front[i].cells[k]);
            }
        }
    }
}

/// What the characters show as, each a cell.
pub open spec fn char_cells(rendering: CharacterRendering, chars: Seq<(char, int)>) -> Seq<Piece> {
    cell_pieces(chars.map_values(|c: (char, int)| char_text(rendering, c.0)))
}

/// One more character is one more item, and one more cell.
proof fn lemma_plain_char(rendering: CharacterRendering, items: Seq<Item>, c: char)
    ensures
        ({
            let next = items + char_items(c, Seq::empty());
            &&& next.len() == items.len() + 1
            &&& forall|i: int| 0 <= i < items.len() ==> #[trigger] next[i] == items[i]
            &&& next[items.len() as int] == Item::Glyph(c)
            &&& pieces_of(rendering, next) == pieces_of(rendering, items).push(
                Piece::Cell(char_text(rendering, c)),
            )
        }),
{
    let next = items + char_items(c, Seq::empty());
    assert(next =~= items.push(Item::Glyph(c)));
    assert(next.drop_last() =~= items);
    assert(pieces_of(rendering, next) =~= pieces_of(rendering, items).push(
        Piece::Cell(char_text(rendering, c)),
    ));
}

/// Without annotations the items are characters.
proof fn lemma_plain_pieces(
    rendering: CharacterRendering,
    chars: Seq<(char, int)>,
    none: spec_fn(int) -> Seq<Mark>,
)
    requires
        forall|offset: int| (#[trigger] none(offset)) == Seq::<Mark>::empty(),
    ensures
        pieces_of(rendering, items_of(chars, none)) == char_cells(rendering, chars),
        forall|i: int|
            0 <= i < items_of(chars, none).len() ==> (#[trigger] items_of(chars, none)[i] is Glyph),
    decreases chars.len(),
{
    if chars.len() == 0 {
        assert(char_cells(rendering, chars) =~= Seq::empty());
    } else {
        let front = chars.drop_last();
        lemma_plain_pieces(rendering, front, none);
        let c = chars.last().0;
        let items = items_of(chars, none);
        lemma_plain_char(rendering, items_of(front, none), c);
        assert(char_cells(rendering, chars) =~= char_cells(rendering, front).push(
            Piece::Cell(char_text(rendering, c)),
        ));
        assert(pieces_of(rendering, items) =~= char_cells(rendering, chars));
        assert forall|i: int| 0 <= i < items.len() implies (#[trigger] items[i] is Glyph) by {
            if i < items.len() - 1 {
                assert(items[i] == items_of(front, none)[i]);
            }
        }
    }
}

/// Bytes without annotations: each character is a cell, every line is within the width
/// or is one cell that is wider, and a line ends only where the next cell would not fit.
pub proof fn law_raw_wrapping_of_bytes(view: DisplayView, bytes: Seq<u8>) -> (lines: Seq<Line>)
    requires
        view.mode is Raw,
        view.wrapping is Wrap,
        view.wrap_width is Some,
        view.wrap_width->0 > 0,
        bytes.len() > 0,
    ensures
        ({
            let width = view.wrap_width->0 as int;
            let none = |offset: int| Seq::<Mark>::empty();
            let unwrapped = DisplayView { wrapping: WrappingMode::NoWrap, ..view };
            let text = view.shown(bytes, none);
            &&& pieces_on(lines) == char_cells(
                view.character_rendering,
                decoded(bytes, view.encoding),
            )
            &&& text == lines_text(lines)
            &&& forall|i: int|
                0 <= i < lines.len() ==> {
                    &&& (#[trigger] lines[i]).end is Open
                    &&& lines[i].cells.len() > 0
                    &&& is_narrow(lines[i], width)
                    &&& i > 0 ==> lines[i - 1].text().len() + lines[i].cells[0].len() > width
                }
            &&& !(view.character_rendering is Native) ==> without_line_feeds(text)
                == unwrapped.shown(bytes, none)
        }),
{
    let width = view.wrap_width->0 as int;
    let none = |offset: int| Seq::<Mark>::empty();
    let chars = decoded(bytes, view.encoding);
    let rendering = view.character_rendering;
    let items = span_items(bytes, view.encoding, none);
    lemma_plain_pieces(rendering, chars, none);
    assert(items =~= items_of(chars, none));
    let lines = law_raw_wrapping(view, bytes, none);
    let pieces = char_cells(rendering, chars);
    law_offsets_grow(bytes, view.encoding, 0);
    assert forall|i: int| 0 <= i < pieces_on(lines).len() implies (
    #[trigger] pieces_on(lines)[i] matches Piece::Cell(c) && c.len() > 0) by {
        assert(pieces[i] == Piece::Cell(char_text(rendering, chars[i].0)));
        lemma_char_text(rendering, chars[i].0);
    }
    lemma_cells_only(lines);
    assert forall|i: int| 0 <= i < lines.len() implies {
        &&& (#[trigger] lines[i]).end is Open
        &&& lines[i].cells.len() > 0
        &&& is_narrow(lines[i], width)
        &&& i > 0 ==> lines[i - 1].text().len() + lines[i].cells[0].len() > width
    } by {
        assert(fits(lines[i], width));
        assert forall|k: int| 0 <= k < lines[i].cells.len() implies (
        #[trigger] lines[i].cells[k]).len() > 0 by {}
        lemma_fits_narrow(lines[i], width);
        if i > 0 {
            assert(lines[i - 1].end is Given || is_full(lines[i - 1], lines[i - 1 + 1], width));
        } else if lines.len() > 1 {
            assert(lines[0].end is Given || is_full(lines[0], lines[1], width));
            assert(lines[0].cells.len() > 0) by {
                if lines[0].cells.len() == 0 {
                    assert(lines[0].text().len() == 0);
                }
            }
        } else {
            assert(lines.drop_last() =~= Seq::empty());
            assert(pieces_on(lines.drop_last()) =~= Seq::empty());
            lemma_line_pieces(lines[0]);
            assert(pieces.len() > 0);
        }
    }
    law_raw_wrapping_adds_line_feeds(view, bytes, none);
    lines
}

} // verus!
