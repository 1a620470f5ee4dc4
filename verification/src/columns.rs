//! Display columns: how wide chars are shown, and which char a column shows.

use crate::buffer::{Buffer, BufferModel};
use crate::editor::{Editor, EditorModel};
use crate::lines::{
    clip, end_at, lemma_line_begin, line_begin, line_count, max, min, start_at,
};
use crate::search::at_most_max;
use crate::strings::{digit_count, lemma_decimal_len, decimal_string};
use crate::window::Rect;
use unicode_width::UnicodeWidthChar;
use vstd::prelude::*;

verus! {

/// The distance of tab stops.
pub const TAB_WIDTH: usize = 8;

/// The columns that `unicode_width::UnicodeWidthChar::width` gives a char; none
/// for a control char.
pub uninterp spec fn char_columns(c: char) -> Option<usize>;

/// Whether a char is printable ASCII.
pub open spec fn is_plain(c: char) -> bool {
    ' ' <= c && c <= '~'
}

/// `unicode_width::UnicodeWidthChar::width`. The result is named; for printable
/// ASCII it is one column.
#[verifier::external_body]
fn width_of(c: char) -> (n: Option<usize>)
    ensures
        n == char_columns(c),
        is_plain(c) ==> n == Some(1usize),
{
    c.width()
}

/// The columns that a char is shown in, wherever it stands: none for a control
/// char.
pub open spec fn char_width(c: char) -> int {
    if is_plain(c) {
        1
    } else {
        match char_columns(c) {
            Some(n) => n as int,
            None => 0,
        }
    }
}

/// The columns that a char is shown in, wherever it stands.
pub fn columns_for(c: char) -> (n: usize)
    ensures
        n == char_width(c),
{
    match width_of(c) {
        Some(n) => n,
        None => 0,
    }
}

/// The columns that a char takes at column `col`: a tab goes to the next tab
/// stop.
pub open spec fn glyph(c: char, col: int) -> int {
    if c == '\t' {
        TAB_WIDTH - col % (TAB_WIDTH as int)
    } else {
        char_width(c)
    }
}

/// The columns that a char takes at column `col`.
pub fn glyph_width(c: char, col: usize) -> (n: usize)
    ensures
        n == glyph(c, col as int),
{
    if c == '\t' {
        TAB_WIDTH - col % TAB_WIDTH
    } else {
        columns_for(c)
    }
}

/// The column after a char at column `col`.
pub open spec fn next_column(c: char, col: int) -> int {
    at_most_max(col + glyph(c, col))
}

/// The sum of two columns, at most the largest number.
pub(crate) fn column_sum(a: usize, b: usize) -> (r: usize)
    ensures
        r == at_most_max(a + b),
{
    if b <= usize::MAX - a {
        a + b
    } else {
        usize::MAX
    }
}

/// The column at which position `p` is shown, on a line that starts at `start`.
pub open spec fn column_from(t: Seq<char>, start: int, p: int) -> int
    decreases p - start,
{
    if p <= start {
        0
    } else {
        next_column(t[p - 1], column_from(t, start, p - 1))
    }
}

/// The column at which a position is shown on its line.
pub open spec fn shown_column(t: Seq<char>, p: int) -> int {
    column_from(t, start_at(t, clip(t, p)), p)
}

/// Display column of `point` accounting for tabs and wide glyphs.
pub fn display_col(buf: &Buffer, point: usize) -> (r: usize)
    requires
        point <= buf@.text.len(),
    ensures
        r == shown_column(buf@.text, point as int),
{
    let ls: usize = buf.line_start(point);
    let mut col: usize = 0;
    let mut i: usize = ls;
    while i < point
        invariant
            ls <= i <= point <= buf@.text.len(),
            col == column_from(buf@.text, ls as int, i as int),
        decreases point - i,
    {
        let ch = buf.rope.char(i);
        let w: usize = glyph_width(ch, col);
        col = column_sum(col, w);
        i = i + 1;
    }
    col
}

/// The first position from `i` on, below `end`, whose glyph reaches past column
/// `dcol`, when position `i` is shown at `col`; else `end`.
pub open spec fn covering(t: Seq<char>, i: int, end: int, col: int, dcol: int) -> int
    decreases end - i,
{
    if i >= end {
        end
    } else if next_column(t[i], col) > dcol {
        i
    } else {
        covering(t, i + 1, end, next_column(t[i], col), dcol)
    }
}

/// The position on a line whose glyph covers a column; the end of the line for
/// a column past it.
pub open spec fn position_at(t: Seq<char>, line: int, dcol: int) -> int {
    let start = line_begin(t, min(line, line_count(t) - 1));
    covering(t, start, end_at(t, start), 0, dcol)
}

/// Inverse of `display_col`: the char index on `line` whose glyph covers
/// display column `dcol` (end of line when past the text).
pub fn char_at_display_col(buf: &Buffer, line: usize, dcol: usize) -> (r: usize)
    ensures
        r == position_at(buf@.text, line as int, dcol as int),
        r <= buf@.text.len(),
{
    let ls: usize = buf.line_to_char(line);
    let le: usize = buf.line_end(ls);
    let ghost t = buf@.text;
    let mut col: usize = 0;
    let mut i: usize = ls;
    while i < le
        invariant
            ls <= i <= le <= buf@.text.len(),
            t == buf@.text,
            position_at(t, line as int, dcol as int) == covering(
                t,
                ls as int,
                le as int,
                0,
                dcol as int,
            ),
            covering(t, ls as int, le as int, 0, dcol as int) == covering(
                t,
                i as int,
                le as int,
                col as int,
                dcol as int,
            ),
        decreases le - i,
    {
        let ch = buf.rope.char(i);
        let w: usize = glyph_width(ch, col);
        let next: usize = column_sum(col, w);
        if next > dcol {
            return i;
        }
        col = next;
        i = i + 1;
    }
    le
}

/// The number of decimal digits of a number.
pub fn digits(n: usize) -> (r: usize)
    ensures
        r == digit_count(n as nat),
{
    proof {
        lemma_decimal_len(n as nat);
    }
    decimal_string(n).as_str().unicode_len()
}

/// The width of the line-number gutter, 0 without one: room for the number of
/// lines, two digits at least, and a space, but at most half the window.
pub open spec fn gutter_of(e: EditorModel, b: BufferModel, rect: Rect) -> int {
    if e.show_line_numbers {
        min(max(digit_count(line_count(b.text) as nat) as int, 2) + 1, rect.w as int / 2)
    } else {
        0
    }
}

/// Width of the line-number gutter for `buf` in `rect` (0 when the option is
/// off). Shared with the mouse coordinate mapping.
pub fn gutter_width(ed: &Editor, buf: &Buffer, rect: &Rect) -> (r: usize)
    ensures
        r == gutter_of(ed@, buf@, *rect),
        r <= rect.w / 2,
{
    if ed.show_line_numbers {
        let d: usize = digits(buf.len_lines());
        let half: usize = (rect.w / 2) as usize;
        if d > 2 {
            if d < half {
                d + 1
            } else {
                half
            }
        } else if half < 3 {
            half
        } else {
            3
        }
    } else {
        0
    }
}

// ---- laws ------------------------------------------------------------------

proof fn lemma_covering(t: Seq<char>, start: int, i: int, end: int, p: int)
    requires
        0 <= start <= i <= p < end <= t.len(),
        next_column(t[p], column_from(t, start, p)) > column_from(t, start, p),
        forall|k: int|
            start <= k < p ==> next_column(#[trigger] t[k], column_from(t, start, k))
                <= column_from(t, start, p),
    ensures
        covering(t, i, end, column_from(t, start, i), column_from(t, start, p)) == p,
    decreases p - i,
{
    if i < p {
        assert(next_column(t[i], column_from(t, start, i)) <= column_from(t, start, p));
        assert(column_from(t, start, i + 1) == next_column(t[i], column_from(t, start, i)));
        lemma_covering(t, start, i + 1, end, p);
    }
}

proof fn lemma_columns_grow(t: Seq<char>, start: int, j: int, k: int)
    requires
        start <= j <= k,
        0 <= column_from(t, start, j) <= usize::MAX,
    ensures
        column_from(t, start, j) <= column_from(t, start, k) <= usize::MAX,
    decreases k - j,
{
    if j < k {
        lemma_columns_grow(t, start, j, k - 1);
        let col = column_from(t, start, k - 1);
        let c = t[k - 1];
        assert(glyph(c, col) >= 0);
    }
}

/// A click on the first column of a char lands on that char: the position at
/// the column where a position is shown is that position, for every char that
/// takes room on a line that is not cut off by the largest number.
pub proof fn law_click_inverts_column(t: Seq<char>, p: int)
    requires
        0 <= p < end_at(t, p),
        p < t.len(),
    ensures
        (t[p] == '\t' || char_width(t[p]) > 0) && shown_column(t, p) < usize::MAX
            ==> position_at(t, crate::lines::line_of(t, p), shown_column(t, p)) == p,
{
    if (t[p] == '\t' || char_width(t[p]) > 0) && shown_column(t, p) < usize::MAX {
        lemma_click(t, p);
    }
}

proof fn lemma_click(t: Seq<char>, p: int)
    requires
        0 <= p < end_at(t, p),
        p < t.len(),
        t[p] == '\t' || char_width(t[p]) > 0,
        shown_column(t, p) < usize::MAX,
    ensures
        position_at(t, crate::lines::line_of(t, p), shown_column(t, p)) == p,
{
    crate::lines::lemma_line_around(t, p);
    crate::lines::lemma_line_ends(t, p);
    let start = start_at(t, p);
    let line = crate::lines::line_of(t, p);
    lemma_line_begin(t, line);
    assert(line_begin(t, line) == start);
    assert(end_at(t, start) == end_at(t, p));
    let col = column_from(t, start, p);
    lemma_columns_grow(t, start, start, p);
    assert(glyph(t[p], col) > 0);
    assert forall|k: int| start <= k < p implies next_column(
        #[trigger] t[k],
        column_from(t, start, k),
    ) <= col by {
        assert(column_from(t, start, k + 1) == next_column(t[k], column_from(t, start, k)));
        lemma_columns_grow(t, start, start, k + 1);
        lemma_columns_grow(t, start, k + 1, p);
    }
    lemma_covering(t, start, start, end_at(t, p), p);
}

} // verus!
