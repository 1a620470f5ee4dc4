//! What the screen shows.

use crate::assoc::lookup;
use crate::buffer::BufferModel;
use crate::buffers::lemma_map_leaves;
use crate::columns::{glyph, gutter_of, is_plain};
use crate::editor::{buf_index, has_buffer, lemma_buf_index, EditorModel};
use crate::faces::FaceColor;
use crate::input::{InputModel, PromptModel};
use crate::lines::{
    clip, end_at, lemma_line_around, lemma_line_begin, lemma_line_ends, line_begin, line_count,
    line_of, max, min, start_at,
};
use crate::render::{
    candidates_ops, chars_ops, color_at, colored, covered, cursor_at, echo_ops, ending_ops,
    first_shown, fits_in, fitted, gutter_text, highlight_ops, highlights, last_styled, line_column,
    line_ops, line_text, looks_same, mode_line_ops, plain_ops, region_span, shown_chars, span_list,
    span_on, style_at, style_ops, syntax_of, text_ops, total_columns, windows_fitted,
    without_line_ends, CharStyle, LineModel, OpModel, Pane,
};
use crate::strings::{decimal, repeated};
use crate::window::{leaf, Rect, Window, WindowId};
use vstd::prelude::*;

verus! {

/// How a char looks.
pub struct Look {
    pub fg: Option<FaceColor>,
    pub bg: Option<FaceColor>,
    pub reverse: bool,
    pub bold: bool,
    pub dim: bool,
}

/// Plain text.
pub open spec fn plain_look() -> Look {
    Look { fg: None, bg: None, reverse: false, bold: false, dim: false }
}

/// Plain text in a color.
pub open spec fn in_color(c: FaceColor) -> Look {
    Look { fg: Some(c), ..plain_look() }
}

/// Highlighted text: black on a color, or reverse video without one.
pub open spec fn highlighted(color: Option<FaceColor>) -> Look {
    match color {
        Some(c) => Look { bg: Some(c), ..in_color(FaceColor::Black) },
        None => Look { reverse: true, ..plain_look() },
    }
}

/// How a terminal prints after one more thing was done to it.
pub open spec fn look_after(l: Look, op: OpModel) -> Look {
    match op {
        OpModel::Foreground(c) => Look { fg: Some(c), ..l },
        OpModel::Background(c) => Look { bg: Some(c), ..l },
        OpModel::Reverse => Look { reverse: true, ..l },
        OpModel::Bold => Look { bold: true, ..l },
        OpModel::Dim => Look { dim: true, ..l },
        OpModel::ResetAttributes => Look { reverse: false, bold: false, dim: false, ..l },
        OpModel::ResetColors => Look { fg: None, bg: None, ..l },
        _ => l,
    }
}

/// How a terminal prints after a list of things was done to it.
pub open spec fn look_at_end(l: Look, ops: Seq<OpModel>) -> Look
    decreases ops.len(),
{
    if ops.len() == 0 {
        l
    } else {
        look_after(look_at_end(l, ops.drop_last()), ops.last())
    }
}

/// Some text, all of it in one look.
pub open spec fn all_in(s: Seq<char>, l: Look) -> Seq<(char, Look)> {
    Seq::new(s.len(), |i: int| (s[i], l))
}

/// The chars that a list of things prints, in order, and how each looks.
pub open spec fn shown(l: Look, ops: Seq<OpModel>) -> Seq<(char, Look)>
    decreases ops.len(),
{
    if ops.len() == 0 {
        Seq::empty()
    } else {
        let before = shown(l, ops.drop_last());
        match ops.last() {
            OpModel::Print(s) => before + all_in(s, look_at_end(l, ops.drop_last())),
            _ => before,
        }
    }
}

proof fn lemma_join(l: Look, a: Seq<OpModel>, b: Seq<OpModel>)
    ensures
        look_at_end(l, a + b) == look_at_end(look_at_end(l, a), b),
        shown(l, a + b) == shown(l, a) + shown(look_at_end(l, a), b),
    decreases b.len(),
{
    if b.len() == 0 {
        assert(a + b =~= a);
        assert(shown(l, a) + shown(look_at_end(l, a), b) =~= shown(l, a));
    } else {
        lemma_join(l, a, b.drop_last());
        assert((a + b).drop_last() =~= a + b.drop_last());
        assert((a + b).last() == b.last());
        assert(shown(l, a + b) =~= shown(l, a) + shown(look_at_end(l, a), b));
    }
}

proof fn lemma_one(l: Look, op: OpModel)
    ensures
        look_at_end(l, seq![op]) == look_after(l, op),
        shown(l, seq![op]) == (match op {
            OpModel::Print(s) => all_in(s, l),
            _ => Seq::empty(),
        }),
{
    let s = seq![op];
    assert(s.drop_last() =~= Seq::<OpModel>::empty());
    assert(look_at_end(l, s.drop_last()) == l);
    assert(shown(l, s.drop_last()) == Seq::<(char, Look)>::empty());
    if let OpModel::Print(x) = op {
        assert(Seq::<(char, Look)>::empty() + all_in(x, l) =~= all_in(x, l));
    }
}

proof fn lemma_two(l: Look, x: OpModel, y: OpModel)
    requires
        !(x is Print),
        !(y is Print),
    ensures
        look_at_end(l, seq![x, y]) == look_after(look_after(l, x), y),
        shown(l, seq![x, y]) == Seq::<(char, Look)>::empty(),
{
    lemma_one(l, x);
    lemma_one(look_after(l, x), y);
    lemma_join(l, seq![x], seq![y]);
    assert(seq![x] + seq![y] =~= seq![x, y]);
}

proof fn lemma_plain(l: Look)
    ensures
        look_at_end(l, plain_ops()) == plain_look(),
        shown(l, plain_ops()) == Seq::<(char, Look)>::empty(),
{
    lemma_two(l, OpModel::ResetAttributes, OpModel::ResetColors);
}

proof fn lemma_highlight(color: Option<FaceColor>)
    ensures
        look_at_end(plain_look(), highlight_ops(color)) == highlighted(color),
        shown(plain_look(), highlight_ops(color)) == Seq::<(char, Look)>::empty(),
{
    match color {
        Some(c) => lemma_two(
            plain_look(),
            OpModel::Background(c),
            OpModel::Foreground(FaceColor::Black),
        ),
        None => lemma_one(plain_look(), OpModel::Reverse),
    }
}

/// The first of some ranges that covers a column.
pub open spec fn first_over(s: Seq<(int, int, FaceColor)>, ci: int, i: int) -> bool {
    &&& 0 <= i < s.len()
    &&& s[i].0 <= ci < s[i].1
    &&& forall|j: int| 0 <= j < i ==> !((#[trigger] s[j]).0 <= ci < s[j].1)
}

/// How char `ci` of a line is to look: highlighted where a highlighted range covers
/// it, else in the color of the first colored range over it, else plain.
pub open spec fn look_of(l: LineModel, ci: int, highlight: Option<FaceColor>) -> Look {
    if exists|i: int| 0 <= i < l.ranges.len() && (#[trigger] l.ranges[i]).0 <= ci < l.ranges[i].1 {
        highlighted(highlight)
    } else if exists|i: int| #[trigger] first_over(l.syntax, ci, i) {
        in_color(l.syntax[choose|i: int| #[trigger] first_over(l.syntax, ci, i)].2)
    } else {
        plain_look()
    }
}

proof fn lemma_color_at(s: Seq<(int, int, FaceColor)>, ci: int, i: int)
    requires
        0 <= i <= s.len(),
        forall|j: int| 0 <= j < i ==> !((#[trigger] s[j]).0 <= ci < s[j].1),
    ensures
        match color_at(s, ci, i) {
            Some(c) => exists|k: int| #[trigger] first_over(s, ci, k) && s[k].2 == c,
            None => forall|k: int| 0 <= k < s.len() ==> !((#[trigger] s[k]).0 <= ci < s[k].1),
        },
    decreases s.len() - i,
{
    if i < s.len() {
        if s[i].0 <= ci < s[i].1 {
            assert(first_over(s, ci, i));
        } else {
            lemma_color_at(s, ci, i + 1);
        }
    }
}

proof fn lemma_look(l: LineModel, ci: int, highlight: Option<FaceColor>)
    requires
        0 <= ci,
    ensures
        look_of(l, ci, highlight) == (match style_at(l, ci) {
            CharStyle::Bg => highlighted(highlight),
            CharStyle::Fg => in_color(color_at(l.syntax, ci, 0)->0),
            CharStyle::Plain => plain_look(),
        }),
{
    lemma_color_at(l.syntax, ci, 0);
    if !covered(l.ranges, ci) {
        match color_at(l.syntax, ci, 0) {
            Some(c) => {
                let k = choose|k: int| #[trigger]
                    first_over(l.syntax, ci, k) && l.syntax[k].2 == c;
                let m = choose|m: int| #[trigger] first_over(l.syntax, ci, m);
                assert(first_over(l.syntax, ci, m));
                assert(k == m);
            },
            None => {},
        }
    }
}

/// The first `n` chars of a line as they are to be shown: each char in its look, a
/// tab as spaces up to the next multiple of the tab width.
pub open spec fn line_shown(l: LineModel, n: int, highlight: Option<FaceColor>) -> Seq<
    (char, Look),
>
    decreases n,
{
    if n <= 0 {
        Seq::empty()
    } else {
        let look = look_of(l, n - 1, highlight);
        let col = line_column(l.text, n - 1);
        line_shown(l, n - 1, highlight) + (if l.text[n - 1] == '\t' {
            all_in(repeated(' ', (8 - col % 8) as nat), look)
        } else {
            seq![(l.text[n - 1], look)]
        })
    }
}

/// The look that printing stands at before char `n`.
spec fn look_before(l: LineModel, n: int, highlight: Option<FaceColor>) -> Look {
    if n <= 0 {
        plain_look()
    } else {
        look_of(l, n - 1, highlight)
    }
}

proof fn lemma_style(l: LineModel, ci: int, highlight: Option<FaceColor>)
    requires
        0 <= ci,
    ensures
        look_at_end(look_before(l, ci, highlight), style_ops(l, ci, highlight)) == look_of(
            l,
            ci,
            highlight,
        ),
        shown(look_before(l, ci, highlight), style_ops(l, ci, highlight)) == Seq::<
            (char, Look),
        >::empty(),
{
    let before = look_before(l, ci, highlight);
    lemma_look(l, ci, highlight);
    if ci > 0 {
        lemma_look(l, ci - 1, highlight);
    }
    if !looks_same(l, ci) {
        let more = match style_at(l, ci) {
            CharStyle::Bg => highlight_ops(highlight),
            CharStyle::Fg => seq![OpModel::Foreground(color_at(l.syntax, ci, 0)->0)],
            CharStyle::Plain => Seq::empty(),
        };
        lemma_plain(before);
        lemma_join(before, plain_ops(), more);
        match style_at(l, ci) {
            CharStyle::Bg => lemma_highlight(highlight),
            CharStyle::Fg => lemma_one(
                plain_look(),
                OpModel::Foreground(color_at(l.syntax, ci, 0)->0),
            ),
            CharStyle::Plain => {},
        }
        assert(shown(before, style_ops(l, ci, highlight)) =~= Seq::<(char, Look)>::empty());
    }
}

proof fn lemma_chars(l: LineModel, n: int, highlight: Option<FaceColor>)
    requires
        0 <= n <= l.text.len(),
    ensures
        look_at_end(plain_look(), chars_ops(l, n, highlight)) == look_before(l, n, highlight),
        shown(plain_look(), chars_ops(l, n, highlight)) == line_shown(l, n, highlight),
    decreases n,
{
    if n > 0 {
        let a = chars_ops(l, n - 1, highlight);
        let b = style_ops(l, n - 1, highlight);
        let op = crate::render::char_op(l.text, n - 1);
        let look = look_of(l, n - 1, highlight);
        lemma_chars(l, n - 1, highlight);
        lemma_style(l, n - 1, highlight);
        lemma_join(plain_look(), a, b);
        lemma_join(plain_look(), a + b, seq![op]);
        lemma_one(look, op);
        if l.text[n - 1] != '\t' {
            assert(all_in(seq![l.text[n - 1]], look) =~= seq![(l.text[n - 1], look)]);
        }
        assert(shown(plain_look(), chars_ops(l, n, highlight)) =~= line_shown(l, n, highlight));
    }
}

proof fn lemma_fitting(t: Seq<char>, width: int, i: int)
    requires
        0 <= i <= t.len(),
        width > 0,
        line_column(t, i) <= width - 1,
    ensures
        i <= shown_chars(t, width, i) <= t.len(),
        line_column(t, shown_chars(t, width, i)) <= width - 1,
        shown_chars(t, width, i) < t.len() ==> line_column(t, shown_chars(t, width, i) + 1)
            > width - 1,
    decreases t.len() - i,
{
    if i < t.len() && fits_in(t, i, width) {
        lemma_fitting(t, width, i + 1);
    }
}

/// Whether a row shows the first `n` chars of a line, a `$` where that is not all of
/// it, and then plain spaces only.
pub open spec fn row_shows(
    row: Seq<(char, Look)>,
    l: LineModel,
    n: int,
    highlight: Option<FaceColor>,
) -> bool {
    exists|k: nat|
        row == line_shown(l, n, highlight) + (if n < l.text.len() {
            seq![('$', plain_look())]
        } else {
            Seq::empty()
        }) + #[trigger] all_in(repeated(' ', k), plain_look())
}

proof fn lemma_text(l: LineModel, width: int, highlight: Option<FaceColor>)
    requires
        width > 0,
    ensures
        ({
            let n = shown_chars(l.text, width, 0);
            &&& look_at_end(plain_look(), text_ops(l, width, highlight)) == look_before(
                l,
                last_styled(l.text, n) + 1,
                highlight,
            )
            &&& shown(plain_look(), text_ops(l, width, highlight)) == line_shown(l, n, highlight)
        }),
{
    let n = shown_chars(l.text, width, 0);
    lemma_fitting(l.text, width, 0);
    let chars = chars_ops(l, n, highlight);
    let more = if n < l.text.len() {
        style_ops(l, n, highlight)
    } else {
        Seq::empty()
    };
    lemma_chars(l, n, highlight);
    lemma_style(l, n, highlight);
    lemma_join(plain_look(), chars, more);
    assert(text_ops(l, width, highlight) == chars + more);
    assert(shown(look_before(l, n, highlight), more) =~= Seq::<(char, Look)>::empty());
    assert(line_shown(l, n, highlight) + Seq::<(char, Look)>::empty() =~= line_shown(
        l,
        n,
        highlight,
    ));
}

/// The number of spaces that fill a row up.
spec fn spaces_after(cut: bool, col: int, width: int) -> nat {
    let used = if cut {
        crate::search::at_most_max(col + 1)
    } else {
        col
    };
    if used < width {
        (width - used) as nat
    } else {
        0
    }
}

proof fn lemma_ending(at: Look, styled: bool, cut: bool, col: int, width: int)
    requires
        !styled ==> at == plain_look(),
    ensures
        look_at_end(at, ending_ops(styled, cut, col, width)) == plain_look(),
        shown(at, ending_ops(styled, cut, col, width)) == (if cut {
            seq![('$', plain_look())]
        } else {
            Seq::empty()
        }) + all_in(repeated(' ', spaces_after(cut, col, width)), plain_look()),
{
    let p = plain_look();
    let none = Seq::<(char, Look)>::empty();
    let k = spaces_after(cut, col, width);
    let e1 = if styled {
        plain_ops()
    } else {
        Seq::empty()
    };
    let e2 = if cut {
        seq![OpModel::Print("$"@)]
    } else {
        Seq::empty()
    };
    let e3 = if k > 0 {
        seq![OpModel::Print(repeated(' ', k))]
    } else {
        Seq::empty()
    };
    assert(ending_ops(styled, cut, col, width) == e1 + e2 + e3);
    lemma_plain(at);
    lemma_join(at, e1, e2);
    lemma_join(at, e1 + e2, e3);
    assert(look_at_end(at, e1) == p);
    assert(shown(at, e1) == none);
    let dollar = if cut {
        seq![('$', p)]
    } else {
        none
    };
    if cut {
        reveal_strlit("$");
        lemma_one(p, e2[0]);
        assert(all_in("$"@, p) =~= seq![('$', p)]);
    }
    assert(shown(p, e2) == dollar);
    assert(look_at_end(p, e2) == p);
    let spaces = all_in(repeated(' ', k), p);
    if k > 0 {
        lemma_one(p, e3[0]);
    } else {
        assert(spaces =~= none);
    }
    assert(shown(p, e3) == spaces);
    assert(look_at_end(p, e3) == p);
    assert(none + dollar =~= dollar);
}

/// A row begins at the left edge of its rectangle and shows as much of its line as
/// leaves the last column free, each char in its look, and a `$` where the line is cut;
/// behind it printing is plain again.
pub proof fn law_row_shows_line(
    l: LineModel,
    rect: Rect,
    row: int,
    highlight: Option<FaceColor>,
) -> (n: int)
    requires
        rect.w > 0,
    ensures
        0 <= n <= l.text.len(),
        line_column(l.text, n) < rect.w,
        n < l.text.len() ==> line_column(l.text, n + 1) >= rect.w,
        row_shows(shown(plain_look(), line_ops(l, rect, row, highlight)), l, n, highlight),
        look_at_end(plain_look(), line_ops(l, rect, row, highlight)) == plain_look(),
        line_ops(l, rect, row, highlight)[0] == OpModel::MoveTo(rect.x as int, rect.y + row),
{
    let w = rect.w as int;
    let t = l.text;
    let n = shown_chars(t, w, 0);
    lemma_fitting(t, w, 0);
    let cut = n < t.len();
    let col = line_column(t, n);
    let p = plain_look();
    let head = seq![OpModel::MoveTo(rect.x as int, rect.y + row)];
    let mid = text_ops(l, w, highlight);
    let last = last_styled(t, n);
    let styled = style_at(l, last) != CharStyle::Plain;
    let tail = ending_ops(styled, cut, col, w);
    let ops = line_ops(l, rect, row, highlight);
    assert(ops == head + mid + tail);
    lemma_one(p, head[0]);
    lemma_text(l, w, highlight);
    let at = look_before(l, last + 1, highlight);
    if last >= 0 {
        lemma_look(l, last, highlight);
    }
    lemma_ending(at, styled, cut, col, w);
    lemma_join(p, head, mid);
    lemma_join(p, head + mid, tail);
    let text = line_shown(l, n, highlight);
    let spaces = all_in(repeated(' ', spaces_after(cut, col, w)), p);
    let dollar = if cut {
        seq![('$', p)]
    } else {
        Seq::empty()
    };
    assert(shown(p, head) + text =~= text);
    assert(shown(p, ops) =~= text + dollar + spaces);
    assert(ops[0] == head[0]);
    n
}

/// Each char of a line stands in the column behind the one before it: printable ASCII
/// takes one column, and a tab ends at the next multiple of 8.
pub proof fn law_columns_advance(t: Seq<char>, i: int)
    requires
        0 <= i < t.len(),
    ensures
        line_column(t, 0) == 0,
        is_plain(t[i]) && line_column(t, i) < usize::MAX ==> line_column(t, i + 1) == line_column(
            t,
            i,
        ) + 1,
        t[i] == '\t' && line_column(t, i) + 8 < usize::MAX ==> {
            &&& line_column(t, i + 1) % 8 == 0
            &&& line_column(t, i) < line_column(t, i + 1) <= line_column(t, i) + 8
        },
{
    lemma_column_nat(t, i);
}

proof fn lemma_column_nat(t: Seq<char>, i: int)
    requires
        0 <= i <= t.len(),
    ensures
        0 <= line_column(t, i),
    decreases i,
{
    if i > 0 {
        lemma_column_nat(t, i - 1);
        assert(glyph(t[i - 1], line_column(t, i - 1)) >= 0);
    }
}

/// Whether a position lies in the active region, or in the rectangle between mark and
/// point while there is one.
pub open spec fn in_selection(e: EditorModel, b: BufferModel, point: int, p: int) -> bool {
    let t = b.text;
    if e.rect_mode {
        b.mark is Some && ({
            let m = clip(t, b.mark->0 as int);
            let (c, d) = (m - start_at(t, m), point - start_at(t, point));
            &&& line_of(t, min(m, point)) <= line_of(t, p) <= line_of(t, max(m, point))
            &&& min(c, d) <= p - start_at(t, p) < max(c, d)
        })
    } else {
        b.mark is Some && b.mark_active && (b.mark->0 <= p < point || point <= p < b.mark->0)
    }
}

/// Whether a position lies in a match, if there is one.
pub open spec fn within(m: Option<(usize, usize)>, p: int) -> bool {
    match m {
        Some((a, b)) => a <= p < b,
        None => false,
    }
}

/// Whether a position lies in the current match of a search or a query-replace.
pub open spec fn in_match(e: EditorModel, p: int) -> bool {
    match e.input {
        InputModel::ISearch(s) => within(s.current, p),
        InputModel::QueryReplace(s) => within(s.current, p),
        _ => false,
    }
}

/// Of a line those chars are highlighted that lie in the region, or the rectangle, or
/// the current match, and no others.
pub proof fn law_selection_highlighted(e: EditorModel, b: BufferModel, point: int, p: int)
    requires
        0 <= point <= b.text.len(),
        0 <= p < end_at(b.text, p),
        p < b.text.len(),
    ensures
        covered(
            highlights(e, b, point, line_of(b.text, p)),
            p - start_at(b.text, p),
        ) <==> in_selection(e, b, point, p) || in_match(e, p),
{
    let t = b.text;
    let line = line_of(t, p);
    lemma_line_around(t, p);
    lemma_line_begin(t, line);
    lemma_line_ends(t, p);
    let ls = line_begin(t, line);
    let le = end_at(t, ls);
    assert(le == end_at(t, p));
    let k = p - ls;
    let a = span_list(region_span(e, b, point, line));
    let m = span_list(crate::render::match_span(e, b, line));
    let h = highlights(e, b, point, line);
    assert(h == a + m);
    if b.mark is Some {
        lemma_line_around(t, clip(t, b.mark->0 as int));
    }
    lemma_line_around(t, point);
    let one = a.len() > 0 && a[0].0 <= k < a[0].1;
    let other = m.len() > 0 && m[0].0 <= k < m[0].1;
    assert(one <==> in_selection(e, b, point, p));
    assert(other <==> in_match(e, p));
    if one {
        assert(h[0] == a[0]);
    }
    if other {
        assert(h[a.len() as int] == m[0]);
    }
    if covered(h, k) {
        let i = choose|i: int| 0 <= i < h.len() && (#[trigger] h[i]).0 <= k < h[i].1;
        if i < a.len() {
            assert(h[i] == a[i]);
        } else {
            assert(h[i] == m[i - a.len()]);
        }
    }
}

/// Whether a span gives a position a color.
pub open spec fn colors(
    s: (int, int, Seq<char>),
    set: Seq<(Seq<char>, FaceColor)>,
    p: int,
) -> bool {
    s.0 <= p < s.1 && lookup(set, s.2) is Some
}

/// The color that the first of some spans gives a position, of those whose name has
/// one.
pub open spec fn first_color(
    spans: Seq<(int, int, Seq<char>)>,
    set: Seq<(Seq<char>, FaceColor)>,
    p: int,
) -> Option<FaceColor> {
    if exists|i: int| 0 <= i < spans.len() && colors(#[trigger] spans[i], set, p) {
        let i = choose|i: int|
            0 <= i < spans.len() && colors(#[trigger] spans[i], set, p) && forall|j: int|
                0 <= j < i ==> !colors(#[trigger] spans[j], set, p);
        lookup(set, spans[i].2)
    } else {
        None
    }
}

proof fn lemma_first_color(
    spans: Seq<(int, int, Seq<char>)>,
    set: Seq<(Seq<char>, FaceColor)>,
    p: int,
)
    requires
        spans.len() > 0,
    ensures
        first_color(spans, set, p) == (if first_color(spans.drop_last(), set, p) is Some {
            first_color(spans.drop_last(), set, p)
        } else if colors(spans.last(), set, p) {
            lookup(set, spans.last().2)
        } else {
            None
        }),
        first_color(Seq::empty(), set, p) is None,
    decreases spans.len(),
{
    let s = spans.drop_last();
    let n = s.len() as int;
    if s.len() > 0 {
        lemma_first_color(s, set, p);
    }
    lemma_least(s, set, p, n);
    lemma_least(spans, set, p, n + 1);
    if exists|i: int| 0 <= i < s.len() && colors(#[trigger] s[i], set, p) {
        let i = choose|i: int|
            0 <= i < s.len() && colors(#[trigger] s[i], set, p) && forall|j: int|
                0 <= j < i ==> !colors(#[trigger] s[j], set, p);
        let k = choose|i: int|
            0 <= i < spans.len() && colors(#[trigger] spans[i], set, p) && forall|j: int|
                0 <= j < i ==> !colors(#[trigger] spans[j], set, p);
        assert(spans[i] == s[i]);
        if k < i {
            assert(s[k] == spans[k]);
        }
        assert(i == k);
    } else if colors(spans.last(), set, p) {
        assert(spans[n] == spans.last());
        let k = choose|i: int|
            0 <= i < spans.len() && colors(#[trigger] spans[i], set, p) && forall|j: int|
                0 <= j < i ==> !colors(#[trigger] spans[j], set, p);
        if k < n {
            assert(s[k] == spans[k]);
        }
    } else {
        assert forall|i: int| 0 <= i < spans.len() implies !colors(#[trigger] spans[i], set, p) by {
            if i < n {
                assert(s[i] == spans[i]);
            }
        }
    }
}

proof fn lemma_least(
    spans: Seq<(int, int, Seq<char>)>,
    set: Seq<(Seq<char>, FaceColor)>,
    p: int,
    n: int,
)
    requires
        0 <= n <= spans.len(),
    ensures
        (exists|i: int| 0 <= i < n && colors(#[trigger] spans[i], set, p)) ==> exists|i: int|
            0 <= i < n && colors(#[trigger] spans[i], set, p) && forall|j: int|
                0 <= j < i ==> !colors(#[trigger] spans[j], set, p),
    decreases n,
{
    if n > 0 {
        lemma_least(spans, set, p, n - 1);
        if exists|i: int| 0 <= i < n && colors(#[trigger] spans[i], set, p) {
            if exists|i: int| 0 <= i < n - 1 && colors(#[trigger] spans[i], set, p) {
            } else {
                assert(colors(spans[n - 1], set, p));
            }
        }
    }
}

proof fn lemma_color_push(
    s: Seq<(int, int, FaceColor)>,
    t: Seq<(int, int, FaceColor)>,
    k: int,
    i: int,
)
    requires
        0 <= i <= s.len(),
    ensures
        color_at(s + t, k, i) == (if color_at(s, k, i) is Some {
            color_at(s, k, i)
        } else {
            color_at(t, k, 0)
        }),
    decreases s.len() - i,
{
    if i < s.len() {
        assert((s + t)[i] == s[i]);
        if !(s[i].0 <= k < s[i].1) {
            lemma_color_push(s, t, k, i + 1);
        }
    } else {
        lemma_color_shift(s, t, k, 0);
    }
}

proof fn lemma_color_shift(
    s: Seq<(int, int, FaceColor)>,
    t: Seq<(int, int, FaceColor)>,
    k: int,
    i: int,
)
    requires
        0 <= i <= t.len(),
    ensures
        color_at(s + t, k, s.len() + i) == color_at(t, k, i),
    decreases t.len() - i,
{
    if i < t.len() {
        assert((s + t)[s.len() + i] == t[i]);
        lemma_color_shift(s, t, k, i + 1);
    }
}

proof fn lemma_colored(
    spans: Seq<(int, int, Seq<char>)>,
    set: Seq<(Seq<char>, FaceColor)>,
    ls: int,
    le: int,
    p: int,
)
    requires
        ls <= p < le,
    ensures
        color_at(colored(spans, set, ls, le), p - ls, 0) == first_color(spans, set, p),
    decreases spans.len(),
{
    if spans.len() > 0 {
        let s = spans.drop_last();
        let last = spans.last();
        lemma_colored(s, set, ls, le, p);
        lemma_first_color(spans, set, p);
        let before = colored(s, set, ls, le);
        match (span_on(last.0, last.1, ls, le), lookup(set, last.2)) {
            (Some((a, b)), Some(c)) => {
                let x = seq![(a, b, c)];
                lemma_color_push(before, x, p - ls, 0);
                assert(before + x =~= before.push((a, b, c)));
                reveal_with_fuel(color_at, 2);
            },
            _ => {},
        }
    }
}

/// A char has the color of the first span over it whose name has one: of the spans that
/// the extension language placed, and only else of those of the syntax.
pub proof fn law_char_colored(e: EditorModel, b: BufferModel, p: int)
    requires
        0 <= p < end_at(b.text, p),
        p < b.text.len(),
    ensures
        color_at(syntax_of(b, e.faces, line_of(b.text, p)), p - start_at(b.text, p), 0) == (
        if first_color(b.face_spans, e.faces.syntax, p) is Some {
            first_color(b.face_spans, e.faces.syntax, p)
        } else if b.syntax is Some {
            first_color(b.syntax->0.spans, e.faces.syntax, p)
        } else {
            None
        }),
{
    let t = b.text;
    let line = line_of(t, p);
    lemma_line_around(t, p);
    lemma_line_begin(t, line);
    lemma_line_ends(t, p);
    let ls = line_begin(t, line);
    let le = end_at(t, ls);
    let a = colored(b.face_spans, e.faces.syntax, ls, le);
    lemma_colored(b.face_spans, e.faces.syntax, ls, le, p);
    match b.syntax {
        Some(s) => {
            lemma_colored(s.spans, e.faces.syntax, ls, le, p);
            lemma_color_push(a, colored(s.spans, e.faces.syntax, ls, le), p - ls, 0);
        },
        None => {
            assert(a + Seq::<(int, int, FaceColor)>::empty() =~= a);
        },
    }
}

/// The candidates stand in a row of lines right above the echo line, six of them at
/// most, one after the other as they are listed; the selected one is always among
/// them, and it alone is in reverse video.
pub proof fn law_candidates_shown(p: PromptModel, size: (u16, u16), rows: int) -> (first: int)
    requires
        0 <= p.selected,
        rows == min(p.completions.len() as int, 6),
        rows > 0,
        size.1 > rows,
    ensures
        ({
            let n = p.completions.len() as int;
            let sel = min(p.selected, n - 1);
            let ops = candidates_ops(p, size, rows, rows);
            &&& 0 <= first <= n - rows
            &&& first <= sel < first + rows
            &&& ops.len() == 4 * rows
            &&& forall|i: int|
                0 <= i < rows ==> candidate_at(
                    ops,
                    #[trigger] at_four(i),
                    size.1 - 1 - rows + i,
                    p.completions[first + i],
                    size.0 as int,
                    first + i == sel,
                )
        }),
{
    let n = p.completions.len() as int;
    let sel = min(p.selected, n - 1);
    let first = first_shown(n, rows, sel);
    lemma_candidates(p, size, rows, rows);
    first
}

/// Four times a number.
pub open spec fn at_four(i: int) -> int {
    4 * i
}

/// Whether a list of things holds, from index `i` on, what prints a candidate in a
/// screen line, cut off at a width, in reverse video if it is selected.
pub open spec fn candidate_at(
    ops: Seq<OpModel>,
    i: int,
    y: int,
    s: Seq<char>,
    width: int,
    selected: bool,
) -> bool {
    &&& ops[i] == OpModel::MoveTo(0, y)
    &&& ops[i + 1] == if selected {
        OpModel::Reverse
    } else {
        OpModel::ResetAttributes
    }
    &&& ops[i + 2] matches OpModel::Print(x) && cut_or_filled(x, s, width)
    &&& ops[i + 3] == OpModel::ResetAttributes
}

/// Whether a string begins with as much of another one as has room in a width, and
/// holds only spaces behind it.
pub open spec fn cut_or_filled(x: Seq<char>, s: Seq<char>, width: int) -> bool {
    let k = min(s.len() as int, width);
    &&& x.len() >= k
    &&& x.take(k) == s.take(k)
    &&& forall|i: int| k <= i < x.len() ==> #[trigger] x[i] == ' '
    &&& (forall|i: int| 0 <= i < k ==> is_plain(#[trigger] s[i])) ==> x.len() == width
}

proof fn lemma_ascii_columns(s: Seq<char>, n: int)
    requires
        0 <= n <= s.len(),
        n <= usize::MAX,
        forall|i: int| 0 <= i < n ==> is_plain(#[trigger] s[i]),
    ensures
        total_columns(s, n) == n,
    decreases n,
{
    if n > 0 {
        lemma_ascii_columns(s, n - 1);
    }
}

proof fn lemma_filled(s: Seq<char>, width: int)
    requires
        0 <= width <= u16::MAX,
    ensures
        cut_or_filled(crate::render::filled(s, width), s, width),
{
    let k = min(s.len() as int, width);
    let x = crate::render::filled(s, width);
    let cut = s.take(k);
    assert(x.take(k) =~= cut);
    if forall|i: int| 0 <= i < k ==> is_plain(#[trigger] s[i]) {
        assert forall|i: int| 0 <= i < cut.len() implies is_plain(#[trigger] cut[i]) by {
            assert(cut[i] == s[i]);
        }
        lemma_ascii_columns(cut, cut.len() as int);
    }
}

proof fn lemma_candidates(p: PromptModel, size: (u16, u16), rows: int, k: int)
    requires
        0 < rows <= p.completions.len(),
        0 <= k <= rows,
        size.1 > rows,
    ensures
        ({
            let n = p.completions.len() as int;
            let sel = min(p.selected, n - 1);
            let first = first_shown(n, rows, sel);
            let ops = candidates_ops(p, size, rows, k);
            &&& ops.len() == 4 * k
            &&& forall|i: int|
                0 <= i < k ==> candidate_at(
                    ops,
                    #[trigger] at_four(i),
                    size.1 - 1 - rows + i,
                    p.completions[first + i],
                    size.0 as int,
                    first + i == sel,
                )
        }),
    decreases k,
{
    if k > 0 {
        let n = p.completions.len() as int;
        let sel = min(p.selected, n - 1);
        let first = first_shown(n, rows, sel);
        lemma_candidates(p, size, rows, k - 1);
        let before = candidates_ops(p, size, rows, k - 1);
        let ops = candidates_ops(p, size, rows, k);
        lemma_filled(p.completions[first + k - 1], size.0 as int);
        assert forall|i: int| 0 <= i < k implies candidate_at(
            ops,
            #[trigger] at_four(i),
            size.1 - 1 - rows + i,
            p.completions[first + i],
            size.0 as int,
            first + i == sel,
        ) by {
            if i < k - 1 {
                assert(candidate_at(
                    before,
                    at_four(i),
                    size.1 - 1 - rows + i,
                    p.completions[first + i],
                    size.0 as int,
                    first + i == sel,
                ));
                assert(ops[4 * i] == before[4 * i]);
                assert(ops[4 * i + 1] == before[4 * i + 1]);
                assert(ops[4 * i + 2] == before[4 * i + 2]);
                assert(ops[4 * i + 3] == before[4 * i + 3]);
            }
        }
    }
}

/// The last line of the screen shows the prompt and what was entered while there is a
/// prompt, the state of a search or a query-replace while there is one, and else the
/// last message. At a prompt the cursor stands behind the chars before it, as far as
/// there is room.
pub proof fn law_echo_line(e: EditorModel)
    requires
        e.term_size.0 > 0,
        e.term_size.1 > 0,
    ensures
        echo_ops(e).len() == 2,
        echo_ops(e)[0] == OpModel::MoveTo(0, e.term_size.1 - 1),
        echo_ops(e)[1] is Print,
        match e.input {
            InputModel::Prompt(p) => {
                &&& cut_or_filled(echo_ops(e)[1]->Print_0, p.prompt + p.input, e.term_size.0 as int)
                &&& 0 <= p.cursor <= p.input.len() && p.prompt.len() + p.cursor <= usize::MAX && (
                forall|i: int| 0 <= i < p.prompt.len() ==> is_plain(#[trigger] p.prompt[i])) && (
                forall|i: int| 0 <= i < p.cursor ==> is_plain(#[trigger] p.input[i]))
                    ==> cursor_at(e) == Some(
                    (
                        min(p.prompt.len() + p.cursor, e.term_size.0 - 1),
                        e.term_size.1 - 1,
                    ),
                )
            },
            InputModel::ISearch(s) => cut_or_filled(
                echo_ops(e)[1]->Print_0,
                crate::search::isearch_text(s),
                e.term_size.0 as int,
            ),
            InputModel::QueryReplace(s) => cut_or_filled(
                echo_ops(e)[1]->Print_0,
                crate::search::replace_text(s),
                e.term_size.0 as int,
            ),
            _ => cut_or_filled(
                echo_ops(e)[1]->Print_0,
                if e.echo is Some {
                    e.echo->0
                } else {
                    Seq::empty()
                },
                e.term_size.0 as int,
            ),
        },
{
    lemma_filled(crate::render::echo_text(e), e.term_size.0 as int);
    if let InputModel::Prompt(p) = e.input {
        if 0 <= p.cursor <= p.input.len() && p.prompt.len() + p.cursor <= usize::MAX && (forall|
            i: int,
        |
            0 <= i < p.prompt.len() ==> is_plain(#[trigger] p.prompt[i])) && (forall|i: int|
            0 <= i < p.cursor ==> is_plain(#[trigger] p.input[i])) {
            let s = p.prompt + p.input.take(p.cursor);
            assert forall|i: int| 0 <= i < s.len() implies is_plain(#[trigger] s[i]) by {
                if i < p.prompt.len() {
                    assert(s[i] == p.prompt[i]);
                } else {
                    assert(s[i] == p.input[i - p.prompt.len()]);
                }
            }
            lemma_ascii_columns(s, s.len() as int);
        }
    }
}

/// Without a prompt the cursor stands where the char at point is printed: in its
/// screen line, behind the gutter, in the column that the chars before it on the line
/// take up; it is left hidden where that is not on screen.
pub proof fn law_cursor_at_point(e: EditorModel)
    requires
        !(e.input is Prompt),
        crate::editor::wf(e),
    ensures
        ({
            let id = e.windows.selected;
            let rect = crate::layout::rect_of(e, id);
            let b = crate::render::window_buf(e, id);
            let pane = crate::render::pane_of(e, id, rect);
            let p = pane.point;
            let ls = start_at(b.text, p);
            let row = line_of(b.text, p) - pane.top;
            let x = line_column(b.text.subrange(ls, p), p - ls) + gutter_of(e, b, rect);
            cursor_at(e) == if 0 <= row < crate::window::text_rows(rect) && x < rect.w {
                Some((rect.x + x, rect.y + row))
            } else {
                None
            }
        }),
{
    let id = e.windows.selected;
    let rect = crate::layout::rect_of(e, id);
    let b = crate::render::window_buf(e, id);
    let p = crate::render::pane_of(e, id, rect).point;
    lemma_line_around(b.text, p);
    lemma_same_column(b.text, start_at(b.text, p), p, p);
}

proof fn lemma_same_column(t: Seq<char>, start: int, p: int, q: int)
    requires
        0 <= start <= q <= p <= t.len(),
    ensures
        crate::columns::column_from(t, start, q) == line_column(t.subrange(start, p), q - start),
    decreases q - start,
{
    if q > start {
        lemma_same_column(t, start, p, q - 1);
        assert(t.subrange(start, p)[q - 1 - start] == t[q - 1]);
    }
}

/// A line is shown without the newline that ends it, and as it stands where it holds no
/// other; behind the last line nothing is shown.
pub proof fn law_line_text(t: Seq<char>, p: int)
    requires
        0 <= p <= t.len(),
    ensures
        ({
            let s = line_text(t, line_of(t, p));
            let end = end_at(t, p);
            &&& s == without_line_ends(t.subrange(start_at(t, p), end))
            &&& start_at(t, p) < end && t[end - 1] != '\n' ==> s == t.subrange(start_at(t, p), end)
            &&& start_at(t, p) == end ==> s.len() == 0
        }),
        line_text(t, line_count(t)) == Seq::<char>::empty(),
{
    lemma_line_around(t, p);
    lemma_line_ends(t, p);
    let ls = start_at(t, p);
    let next = line_begin(t, line_of(t, p) + 1);
    let end = end_at(t, p);
    let whole = t.subrange(ls, next);
    if end < next {
        assert(whole.last() == '\n');
        assert(whole.drop_last() =~= t.subrange(ls, end));
    } else {
        assert(whole =~= t.subrange(ls, end));
    }
    reveal_with_fuel(without_line_ends, 2);
}

/// The gutter shows the number of its line, counted from 1, at its right, with a space
/// behind it, and nothing beside lines that are not there.
pub proof fn law_gutter_numbers(t: Seq<char>, line: int, gutter: int)
    requires
        0 <= line,
        decimal((line + 1) as nat).len() < gutter,
    ensures
        ({
            let d = decimal((line + 1) as nat);
            let s = gutter_text(t, line, gutter);
            &&& s.len() == gutter
            &&& line < line_count(t) ==> s.subrange(gutter - 1 - d.len(), gutter - 1) == d
                && forall|i: int|
                0 <= i < gutter - 1 - d.len() || i == gutter - 1 ==> #[trigger] s[i] == ' '
            &&& line >= line_count(t) ==> forall|i: int| 0 <= i < gutter ==> #[trigger] s[i] == ' '
        }),
{
    reveal_strlit(" ");
    let d = decimal((line + 1) as nat);
    let s = gutter_text(t, line, gutter);
    if line < line_count(t) {
        assert(s.subrange(gutter - 1 - d.len(), gutter - 1) =~= d);
    }
}

/// The mode line says whether the buffer is read-only, changed or neither, its name, the
/// line of point counted from 1, its column counted from 0, and the mode, and goes on
/// with dashes; it stands in the last row of its window.
pub proof fn law_mode_line(e: EditorModel, b: BufferModel, p: Pane)
    requires
        p.rect.h > 0,
    ensures
        ({
            let ops = mode_line_ops(e.faces, b, p);
            let flag = if b.read_only {
                '%'
            } else if b.modified {
                '*'
            } else {
                '-'
            };
            let s = seq!['-', flag, flag, '-', ' '] + b.name + seq![' ', ' ', ' ', 'L'] + decimal(
                (line_of(b.text, p.point) + 1) as nat,
            ) + seq![' ', 'C'] + decimal((p.point - start_at(b.text, p.point)) as nat) + seq![
                ' ',
                ' ',
                '(',
            ] + b.mode_name + seq![')', ' '];
            let x = shown(plain_look(), ops);
            let look = if p.selected {
                highlighted(e.faces.mode_line)
            } else {
                Look { dim: true, ..plain_look() }
            };
            &&& ops[0] == OpModel::MoveTo(p.rect.x as int, p.rect.y + p.rect.h - 1)
            &&& x.len() == p.rect.w
            &&& forall|i: int|
                0 <= i < x.len() ==> #[trigger] x[i] == (
                    if i < s.len() {
                        s[i]
                    } else {
                        '-'
                    },
                    look,
                )
            &&& look_at_end(plain_look(), ops) == plain_look()
        }),
{
    let flag = if b.read_only {
        '%'
    } else if b.modified {
        '*'
    } else {
        '-'
    };
    let s = seq!['-', flag, flag, '-', ' '] + b.name + seq![' ', ' ', ' ', 'L'] + decimal(
        (line_of(b.text, p.point) + 1) as nat,
    ) + seq![' ', 'C'] + decimal((p.point - start_at(b.text, p.point)) as nat) + seq![
        ' ',
        ' ',
        '(',
    ] + b.mode_name + seq![')', ' '];
    reveal_strlit("-");
    reveal_strlit("%%");
    reveal_strlit("**");
    reveal_strlit("--");
    reveal_strlit("- ");
    reveal_strlit("   L");
    reveal_strlit(" C");
    reveal_strlit("  (");
    reveal_strlit(") ");
    assert("-"@ + (if b.read_only {
        "%%"@
    } else if b.modified {
        "**"@
    } else {
        "--"@
    }) + "- "@ =~= seq!['-', flag, flag, '-', ' ']);
    assert("   L"@ =~= seq![' ', ' ', ' ', 'L']);
    assert(" C"@ =~= seq![' ', 'C']);
    assert("  ("@ =~= seq![' ', ' ', '(']);
    assert(") "@ =~= seq![')', ' ']);
    assert(crate::render::mode_text(b, p.point) == s);
    let text = crate::render::dashed(s, p.rect.w as int);
    let pl = plain_look();
    let head = seq![
        OpModel::MoveTo(
            p.rect.x as int,
            p.rect.y + crate::lines::minus(p.rect.h as int, 1),
        ),
    ];
    let on = if p.selected {
        highlight_ops(e.faces.mode_line)
    } else {
        seq![OpModel::Dim]
    };
    let look = if p.selected {
        highlighted(e.faces.mode_line)
    } else {
        Look { dim: true, ..plain_look() }
    };
    let print = seq![OpModel::Print(text)];
    lemma_one(pl, head[0]);
    lemma_highlight(e.faces.mode_line);
    lemma_one(pl, OpModel::Dim);
    lemma_one(look, print[0]);
    lemma_plain(look);
    lemma_join(pl, head, on);
    lemma_join(pl, head + on, print);
    lemma_join(pl, head + on + print, plain_ops());
    assert(shown(pl, mode_line_ops(e.faces, b, p)) =~= all_in(text, look));
}

/// Before a frame is drawn, every window is brought into its buffer: point at most at its
/// end, and the top line at most its last one; what lay inside stays where it was.
pub proof fn law_windows_fitted(e: EditorModel, id: WindowId)
    requires
        crate::editor::wf(e),
        leaf(e.windows.root, id) is Some,
        e.buffers[buf_index(e.buffers, (leaf(e.windows.root, id)->0).buffer)].text.len()
            < usize::MAX,
    ensures
        ({
            let r = windows_fitted(e);
            let w = leaf(e.windows.root, id)->0;
            let v = leaf(r.windows.root, id);
            let t = e.buffers[buf_index(e.buffers, w.buffer)].text;
            let last = line_count(t) - 1;
            &&& r == (EditorModel { windows: r.windows, ..e })
            &&& v is Some && (v->0).buffer == w.buffer
            &&& (v->0).point == (if w.point <= t.len() {
                w.point as int
            } else {
                t.len() as int
            })
            &&& (v->0).top_line == (if w.top_line <= last {
                w.top_line as int
            } else {
                last
            })
        }),
{
    let f = fitted(e.buffers);
    assert forall|w: Window| (#[trigger] f(w)).id == w.id by {}
    lemma_map_leaves(e.windows.root, f);
    let w = leaf(e.windows.root, id)->0;
    lemma_buf_index(e.buffers, w.buffer);
    assert(has_buffer(e.buffers, w.buffer)) by {
        reveal(crate::editor::wf);
    }
    let t = e.buffers[buf_index(e.buffers, w.buffer)].text;
    lemma_line_around(t, 0);
}

} // verus!
