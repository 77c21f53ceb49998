//! Cutting text into rows of a fixed number of columns.

use vstd::prelude::*;
use vstd::string::*;

use crate::text::chars_of;

verus! {

/// One line cut into pieces of `w` characters, the last of them shorter or equal. An
/// empty line is one empty row.
pub open spec fn line_rows(line: Seq<char>, w: int) -> Seq<Seq<char>>
    decreases line.len(),
{
    if line.len() <= w || w <= 0 {
        seq![line]
    } else {
        seq![line.take(w)] + line_rows(line.skip(w), w)
    }
}

/// The index of the first LF, the length where there is none.
pub open spec fn newline_at(t: Seq<char>) -> int
    decreases t.len(),
{
    if t.len() == 0 || t[0] == '\n' {
        0
    } else {
        1 + newline_at(t.skip(1))
    }
}

/// The rows of a text: those of each of its lines, in order.
pub open spec fn text_rows(t: Seq<char>, w: int) -> Seq<Seq<char>>
    decreases t.len(),
{
    let i = newline_at(t);
    if 0 <= i < t.len() {
        line_rows(t.take(i), w) + text_rows(t.skip(i + 1), w)
    } else {
        line_rows(t, w)
    }
}

/// Rows with an LF between each two.
pub open spec fn joined(rows: Seq<Seq<char>>) -> Seq<char>
    decreases rows.len(),
{
    if rows.len() == 0 {
        Seq::empty()
    } else if rows.len() == 1 {
        rows[0]
    } else {
        joined(rows.drop_last()) + seq!['\n'] + rows.last()
    }
}

/// The rows once one more character has arrived.
pub open spec fn push_char(rows: Seq<Seq<char>>, c: char, w: int) -> Seq<Seq<char>> {
    if c == '\n' {
        rows.push(Seq::empty())
    } else if rows.last().len() < w {
        rows.drop_last().push(rows.last().push(c))
    } else {
        rows.push(seq![c])
    }
}

proof fn lemma_newline_at(t: Seq<char>)
    ensures
        0 <= newline_at(t) <= t.len(),
        newline_at(t) < t.len() ==> t[newline_at(t)] == '\n',
        forall|j: int| 0 <= j < newline_at(t) ==> #[trigger] t[j] != '\n',
    decreases t.len(),
{
    if t.len() > 0 && t[0] != '\n' {
        let rest = t.skip(1);
        lemma_newline_at(rest);
        assert forall|j: int| 0 <= j < newline_at(t) implies #[trigger] t[j] != '\n' by {
            if j > 0 {
                assert(rest[j - 1] == t[j]);
            }
        }
    }
}

proof fn lemma_newline_at_is(t: Seq<char>, n: int)
    requires
        0 <= n <= t.len(),
        n < t.len() ==> t[n] == '\n',
        forall|j: int| 0 <= j < n ==> #[trigger] t[j] != '\n',
    ensures
        newline_at(t) == n,
{
    lemma_newline_at(t);
}

proof fn lemma_line_rows(line: Seq<char>, w: int)
    requires
        w > 0,
        forall|j: int| 0 <= j < line.len() ==> #[trigger] line[j] != '\n',
    ensures
        line_rows(line, w).len() > 0,
        line_rows(line, w).last().len() <= w,
        forall|i: int, j: int|
            0 <= i < line_rows(line, w).len() && 0 <= j < line_rows(line, w)[i].len()
                ==> #[trigger] line_rows(line, w)[i][j] != '\n',
    decreases line.len(),
{
    if line.len() > w {
        let rest = line.skip(w);
        assert forall|j: int| 0 <= j < rest.len() implies #[trigger] rest[j] != '\n' by {
            assert(rest[j] == line[j + w]);
        }
        lemma_line_rows(rest, w);
        let tail = line_rows(rest, w);
        assert forall|i: int, j: int|
            0 <= i < line_rows(line, w).len() && 0 <= j < line_rows(line, w)[i].len() implies
            #[trigger] line_rows(line, w)[i][j] != '\n' by {
            if i > 0 {
                assert(line_rows(line, w)[i] == tail[i - 1]);
                assert(tail[i - 1][j] != '\n');
            } else {
                assert(line_rows(line, w)[0][j] == line[j]);
            }
        }
    } else {
        assert forall|i: int, j: int|
            0 <= i < line_rows(line, w).len() && 0 <= j < line_rows(line, w)[i].len() implies
            #[trigger] line_rows(line, w)[i][j] != '\n' by {
            assert(line_rows(line, w)[0][j] == line[j]);
        }
    }
}

proof fn lemma_line_rows_push(line: Seq<char>, c: char, w: int)
    requires
        w > 0,
        c != '\n',
        forall|j: int| 0 <= j < line.len() ==> #[trigger] line[j] != '\n',
    ensures
        line_rows(line.push(c), w) == push_char(line_rows(line, w), c, w),
    decreases line.len(),
{
    if line.len() < w {
        assert(line_rows(line, w).drop_last().push(line.push(c)) =~= seq![line.push(c)]);
    } else if line.len() == w {
        let long = line.push(c);
        assert(long.take(w) =~= line);
        assert(long.skip(w) =~= seq![c]);
        assert(line_rows(seq![c], w) == seq![seq![c]]);
        assert(line_rows(long, w) =~= line_rows(line, w).push(seq![c]));
    } else {
        let long = line.push(c);
        let rest = line.skip(w);
        assert(long.take(w) =~= line.take(w));
        assert(long.skip(w) =~= rest.push(c));
        assert forall|j: int| 0 <= j < rest.len() implies #[trigger] rest[j] != '\n' by {
            assert(rest[j] == line[j + w]);
        }
        lemma_line_rows(rest, w);
        lemma_line_rows_push(rest, c, w);
        let head = seq![line.take(w)];
        let tail = line_rows(rest, w);
        assert((head + tail).last() == tail.last());
        assert(head + push_char(tail, c, w) =~= push_char(head + tail, c, w));
    }
}

/// A text has at least one row, and its last row is short enough and holds no LF.
pub proof fn law_last_row_is_open(t: Seq<char>, w: int)
    requires
        w > 0,
    ensures
        text_rows(t, w).len() > 0,
        text_rows(t, w).last().len() <= w,
        forall|j: int| 0 <= j < text_rows(t, w).last().len() ==> #[trigger] text_rows(
            t,
            w,
        ).last()[j] != '\n',
    decreases t.len(),
{
    lemma_newline_at(t);
    let i = newline_at(t);
    if i < t.len() {
        law_last_row_is_open(t.skip(i + 1), w);
        let tail = text_rows(t.skip(i + 1), w);
        assert(text_rows(t, w).last() == tail.last());
    } else {
        lemma_line_rows(t, w);
        let rows = line_rows(t, w);
        assert forall|j: int| 0 <= j < rows.last().len() implies #[trigger] rows.last()[j] != '\n' by {
            assert(rows[rows.len() - 1][j] != '\n');
        }
    }
}

/// One more character changes the rows at their end only.
pub proof fn law_rows_push(t: Seq<char>, c: char, w: int)
    requires
        w > 0,
    ensures
        text_rows(t.push(c), w) == push_char(text_rows(t, w), c, w),
    decreases t.len(),
{
    lemma_newline_at(t);
    let i = newline_at(t);
    let long = t.push(c);
    if i < t.len() {
        assert(long[i] == t[i]);
        assert forall|j: int| 0 <= j < i implies #[trigger] long[j] != '\n' by {
            assert(long[j] == t[j]);
        }
        lemma_newline_at_is(long, i);
        assert(long.take(i) =~= t.take(i));
        assert(long.skip(i + 1) =~= t.skip(i + 1).push(c));
        law_rows_push(t.skip(i + 1), c, w);
        law_last_row_is_open(t.skip(i + 1), w);
        let head = line_rows(t.take(i), w);
        let tail = text_rows(t.skip(i + 1), w);
        assert((head + tail).last() == tail.last());
        assert(head + push_char(tail, c, w) =~= push_char(head + tail, c, w));
    } else if c == '\n' {
        assert forall|j: int| 0 <= j < i implies #[trigger] long[j] != '\n' by {
            assert(long[j] == t[j]);
        }
        lemma_newline_at_is(long, i);
        assert(long.take(i) =~= t);
        assert(long.skip(i + 1) =~= Seq::<char>::empty());
        let none = Seq::<char>::empty();
        assert(text_rows(none, w) == seq![none]);
        assert(line_rows(t, w) + seq![none] =~= line_rows(t, w).push(none));
    } else {
        assert forall|j: int| 0 <= j < long.len() implies #[trigger] long[j] != '\n' by {
            if j < t.len() {
                assert(long[j] == t[j]);
            }
        }
        lemma_newline_at_is(long, long.len() as int);
        lemma_line_rows_push(t, c, w);
    }
}

/// A short text without LF is one row.
proof fn lemma_single_row(t: Seq<char>, w: int)
    requires
        w > 0,
        t.len() <= w,
        forall|j: int| 0 <= j < t.len() ==> #[trigger] t[j] != '\n',
    ensures
        text_rows(t, w) == seq![t],
{
    lemma_newline_at_is(t, t.len() as int);
}

/// Text that arrives in two parts has the rows that it has as a whole: only the open
/// last row of the first part is cut anew, together with the second part.
pub proof fn law_rows_append(a: Seq<char>, b: Seq<char>, w: int)
    requires
        w > 0,
    ensures
        text_rows(a + b, w) == text_rows(a, w).drop_last() + text_rows(text_rows(a, w).last() + b, w),
    decreases b.len(),
{
    law_last_row_is_open(a, w);
    let rows = text_rows(a, w);
    let open = rows.last();
    if b.len() == 0 {
        assert(a + b =~= a);
        assert(open + b =~= open);
        lemma_single_row(open, w);
        assert(rows.drop_last() + seq![open] =~= rows);
    } else {
        let c = b.last();
        let front = b.drop_last();
        law_rows_append(a, front, w);
        assert(a + b =~= (a + front).push(c));
        assert(open + b =~= (open + front).push(c));
        law_rows_push(a + front, c, w);
        law_rows_push(open + front, c, w);
        law_last_row_is_open(open + front, w);
        let head = rows.drop_last();
        let tail = text_rows(open + front, w);
        assert((head + tail).last() == tail.last());
        assert(head + push_char(tail, c, w) =~= push_char(head + tail, c, w));
    }
}

/// What a list of strings holds.
pub open spec fn strings_view(v: Seq<String>) -> Seq<Seq<char>> {
    v.map_values(|s: String| s@)
}

/// The rows of `text`, `w` columns wide.
pub fn rows_of(text: &str, w: usize) -> (r: Vec<String>)
    requires
        w > 0,
    ensures
        strings_view(r@) == text_rows(text@, w as int),
{
    let chars: Vec<char> = chars_of(text);
    let mut rows: Vec<String> = Vec::new();
    let mut row: String = String::new();
    let mut len: usize = 0;
    let mut i: usize = 0;
    proof {
        assert(chars@.take(0) =~= Seq::empty());
        lemma_single_row(Seq::empty(), w as int);
        assert(strings_view(rows@).push(row@) =~= seq![Seq::<char>::empty()]);
    }
    while i < chars.len()
        invariant
            i <= chars.len(),
            w > 0,
            len == row@.len(),
            len <= w,
            strings_view(rows@).push(row@) == text_rows(chars@.take(i as int), w as int),
        decreases chars.len() - i,
    {
        let c: char = chars[i];
        let ghost before = strings_view(rows@).push(row@);
        proof {
            assert(before.drop_last() =~= strings_view(rows@));
            assert(chars@.take(i + 1) =~= chars@.take(i as int).push(c));
            law_rows_push(chars@.take(i as int), c, w as int);
        }
        if c == '\n' || len == w {
            let ghost old_rows = rows@;
            rows.push(row);
            assert(strings_view(rows@) =~= before);
            row = String::new();
            len = 0;
        }
        if c != '\n' {
            row.push(c);
            len = len + 1;
        }
        assert(row@ =~= push_char(before, c, w as int).last());
        assert(strings_view(rows@).push(row@) =~= push_char(before, c, w as int));
        i = i + 1;
    }
    assert(chars@.take(i as int) =~= text@);
    let ghost done = strings_view(rows@).push(row@);
    rows.push(row);
    assert(strings_view(rows@) =~= done);
    rows
}

/// A width of 0 is no width.
pub open spec fn wrapped(text: Seq<char>, width: Option<usize>) -> Seq<char> {
    if width is Some && width->0 > 0 {
        joined(text_rows(text, width->0 as int))
    } else {
        text
    }
}

/// Cuts each line of `text` to `width` characters.
pub fn wrap_lines(text: String, width: Option<usize>) -> (r: String)
    ensures
        r@ == wrapped(text@, width),
{
    let w: usize = match width {
        Some(w) => w,
        None => 0,
    };
    if w == 0 {
        return text;
    }
    let rows: Vec<String> = rows_of(text.as_str(), w);
    let ghost model = strings_view(rows@);
    let mut out: String = String::new();
    let mut i: usize = 0;
    assert(model.take(0) =~= Seq::empty());
    while i < rows.len()
        invariant
            i <= rows.len(),
            model == strings_view(rows@),
            out@ == joined(model.take(i as int)),
        decreases rows.len() - i,
    {
        let ghost before = out@;
        if i > 0 {
            out.push('\n');
        }
        out.append(rows[i].as_str());
        i = i + 1;
        proof {
            assert(model.take(i as int).drop_last() =~= model.take(i - 1));
            assert(model.take(i as int).last() == rows@[i - 1]@);
            if i == 1 {
                assert(out@ =~= rows@[0]@);
            } else {
                assert(out@ =~= before + seq!['\n'] + rows@[i - 1]@);
            }
        }
    }
    assert(model.take(i as int) =~= model);
    out
}

/// Splits rendered stream text into the rows of the viewer: each line is cut to
/// `wrap_cols` columns, but never to fewer than 8, so that every row is one visual line.
pub fn split_stream_rows(text: &str, wrap_cols: usize) -> (r: Vec<String>)
    ensures
        strings_view(r@) == text_rows(text@, row_width(wrap_cols)),
{
    let cols: usize = if wrap_cols < 8 {
        8
    } else {
        wrap_cols
    };
    rows_of(text, cols)
}

/// The width of the viewer's rows for a requested number of columns.
pub open spec fn row_width(wrap_cols: usize) -> int {
    if wrap_cols < 8 {
        8
    } else {
        wrap_cols as int
    }
}

} // verus!
