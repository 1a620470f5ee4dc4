//! Frame rendering: what is to be written to the terminal for one frame, with
//! the cursor hidden meanwhile. Every cell of every row is written, so nothing
//! has to be cleared.

use crate::assoc::lookup;
use crate::buffer::{region_of, Buffer, BufferId, BufferModel};
use crate::buffers::lemma_map_leaves;
use crate::columns::{
    char_width, column_sum, columns_for, display_col, glyph, glyph_width, gutter_of, gutter_width,
    next_column, shown_column,
};
use crate::dired::listing::{pad_left, padded_left};
use crate::editor::{
    buf_ids, buf_index, cur_buf, cur_point, cur_win, has_buffer, lemma_buf_index, lemma_cur,
    lemma_put, put, wf, Editor, EditorModel, MAX_COMPLETION_ROWS,
};
use crate::faces::{FaceColor, Faces, FacesModel};
use crate::input::{InputMode, InputModel, Prompt, PromptModel};
use crate::layout::{area_of, candidate_rows, height_of, rect_of};
use crate::lines::{
    clip, end_at, lemma_line_around, lemma_line_begin, line_begin, line_count, line_of, max, min,
    minus, start_at,
};
use crate::rect::{bounds, rectangle};
use crate::regexes::int_ranges;
use crate::rope::rope_slice;
use crate::search::{
    at_most_max, isearch_echo, isearch_text, query_replace_echo, replace_text,
};
use crate::seqs::models;
use crate::strings::{
    cat2, cat3, cat5, copy, decimal, decimal_string, from_chars, repeat, repeated, to_chars,
};
use crate::treesit::{brought_current, named_spans};
use crate::window::{
    fits, ids, index_from, leaf, lemma_placed_map, lemma_placed_order, map_leaves, placed,
    text_rows, Node, Rect, Window, WindowId, WindowTree,
};
use vstd::prelude::*;

verus! {

/// One thing to do to the terminal.
#[derive(Debug)]
pub enum DrawOp {
    HideCursor,
    ShowCursor,
    MoveTo(u16, u16),
    Print(String),
    Foreground(FaceColor),
    Background(FaceColor),
    Reverse,
    Bold,
    Dim,
    ResetAttributes,
    ResetColors,
}

/// One thing to do to the terminal.
pub enum OpModel {
    HideCursor,
    ShowCursor,
    MoveTo(int, int),
    Print(Seq<char>),
    Foreground(FaceColor),
    Background(FaceColor),
    Reverse,
    Bold,
    Dim,
    ResetAttributes,
    ResetColors,
}

impl View for DrawOp {
    type V = OpModel;

    open spec fn view(&self) -> OpModel {
        match self {
            DrawOp::HideCursor => OpModel::HideCursor,
            DrawOp::ShowCursor => OpModel::ShowCursor,
            DrawOp::MoveTo(x, y) => OpModel::MoveTo(*x as int, *y as int),
            DrawOp::Print(s) => OpModel::Print(s@),
            DrawOp::Foreground(c) => OpModel::Foreground(*c),
            DrawOp::Background(c) => OpModel::Background(*c),
            DrawOp::Reverse => OpModel::Reverse,
            DrawOp::Bold => OpModel::Bold,
            DrawOp::Dim => OpModel::Dim,
            DrawOp::ResetAttributes => OpModel::ResetAttributes,
            DrawOp::ResetColors => OpModel::ResetColors,
        }
    }
}

fn emit(out: &mut Vec<DrawOp>, op: DrawOp)
    ensures
        models(final(out)@) == models(old(out)@).push(op@),
{
    out.push(op);
    assert(models(out@) =~= models(old(out)@).push(op@));
}

// ---- styles ----------------------------------------------------------------

/// A background color with black text, or reverse video without one.
pub open spec fn highlight_ops(color: Option<FaceColor>) -> Seq<OpModel> {
    match color {
        Some(c) => seq![OpModel::Background(c), OpModel::Foreground(FaceColor::Black)],
        None => seq![OpModel::Reverse],
    }
}

/// Back to plain text.
pub open spec fn plain_ops() -> Seq<OpModel> {
    seq![OpModel::ResetAttributes, OpModel::ResetColors]
}

/// The color of gutter digits; without one, dim digits, bold ones on the line
/// of point.
pub open spec fn digit_ops(color: Option<FaceColor>, current: bool) -> Seq<OpModel> {
    match color {
        Some(c) => seq![OpModel::Foreground(c)],
        None => if current {
            seq![OpModel::Bold]
        } else {
            seq![OpModel::Dim]
        },
    }
}

fn set_highlight(out: &mut Vec<DrawOp>, color: Option<FaceColor>)
    ensures
        models(final(out)@) == models(old(out)@) + highlight_ops(color),
{
    match color {
        Some(c) => {
            emit(out, DrawOp::Background(c));
            emit(out, DrawOp::Foreground(FaceColor::Black));
        },
        None => emit(out, DrawOp::Reverse),
    }
    assert(models(out@) =~= models(old(out)@) + highlight_ops(color));
}

fn clear_highlight(out: &mut Vec<DrawOp>)
    ensures
        models(final(out)@) == models(old(out)@) + plain_ops(),
{
    emit(out, DrawOp::ResetAttributes);
    emit(out, DrawOp::ResetColors);
    assert(models(out@) =~= models(old(out)@) + plain_ops());
}

fn set_line_number_color(out: &mut Vec<DrawOp>, color: Option<FaceColor>, current: bool)
    ensures
        models(final(out)@) == models(old(out)@) + digit_ops(color, current),
{
    match color {
        Some(c) => emit(out, DrawOp::Foreground(c)),
        None => if current {
            emit(out, DrawOp::Bold);
        } else {
            emit(out, DrawOp::Dim);
        },
    }
    assert(models(out@) =~= models(old(out)@) + digit_ops(color, current));
}

// ---- preparing -------------------------------------------------------------

/// A window with point and scroll position inside its buffer.
pub open spec fn fitted(bs: Seq<BufferModel>) -> spec_fn(Window) -> Window {
    |w: Window|
        {
            let i = buf_index(bs, w.buffer);
            if i < bs.len() {
                let t = bs[i].text;
                Window {
                    point: clip(t, w.point as int) as usize,
                    top_line: min(w.top_line as int, line_count(t) - 1) as usize,
                    ..w
                }
            } else {
                w
            }
        }
}

/// The editor with all windows inside their buffers: buffers shrink under
/// windows that share them.
pub open spec fn windows_fitted(e: EditorModel) -> EditorModel {
    EditorModel {
        windows: WindowTree { root: map_leaves(e.windows.root, fitted(e.buffers)), ..e.windows },
        ..e
    }
}

fn index_in(buffers: &Vec<Buffer>, id: BufferId) -> (r: Option<usize>)
    ensures
        match r {
            Some(i) => i < buffers@.len() && i == buf_index(models(buffers@), id),
            None => buf_index(models(buffers@), id) >= buffers@.len(),
        },
{
    let ghost s = buf_ids(models(buffers@));
    let mut i: usize = 0;
    while i < buffers.len()
        invariant
            i <= buffers@.len(),
            s == buf_ids(models(buffers@)),
            index_from(s, id, 0) == index_from(s, id, i as int),
        decreases buffers@.len() - i,
    {
        assert(s[i as int] == buffers@[i as int]@.id);
        if buffers[i].id == id {
            return Some(i);
        }
        i = i + 1;
    }
    None
}

fn fit_in(node: &mut Node, buffers: &Vec<Buffer>)
    ensures
        *final(node) == map_leaves(*old(node), fitted(models(buffers@))),
    decreases *old(node),
{
    match node {
        Node::Leaf(w) => {
            if let Some(i) = index_in(buffers, w.buffer) {
                let n: usize = buffers[i].len_chars();
                let last: usize = buffers[i].len_lines() - 1;
                if w.point > n {
                    w.point = n;
                }
                if w.top_line > last {
                    w.top_line = last;
                }
            }
        },
        Node::Split { first, second, .. } => {
            fit_in(first, buffers);
            fit_in(second, buffers);
        },
    }
}

proof fn lemma_fitted_wf(e: EditorModel)
    requires
        wf(e),
    ensures
        wf(windows_fitted(e)),
{
    reveal(wf);
    assert forall|w: Window| (#[trigger] fitted(e.buffers)(w)).id == w.id by {}
    lemma_map_leaves(e.windows.root, fitted(e.buffers));
    let r = windows_fitted(e);
    assert(leaf(e.windows.root, e.windows.selected) is Some);
    assert(leaf(r.windows.root, r.windows.selected) is Some);
    assert forall|w: WindowId| (#[trigger] leaf(r.windows.root, w)) is Some implies has_buffer(
        r.buffers,
        leaf(r.windows.root, w)->0.buffer,
    ) by {
        assert(leaf(e.windows.root, w) is Some);
    }
}

/// Keep window points/scroll within buffer bounds.
pub fn clamp_windows(ed: &mut Editor)
    requires
        wf(old(ed)@),
    ensures
        final(ed)@ == windows_fitted(old(ed)@),
        wf(final(ed)@),
{
    let ghost e = ed@;
    fit_in(&mut ed.windows.root, &ed.buffers);
    proof {
        assert(ed@ =~= windows_fitted(e));
        lemma_fitted_wf(e);
    }
}

/// The top line of a window of some height that shows a line: the same if it
/// shows it already, else the nearest.
pub open spec fn top_showing(top: int, line: int, height: int) -> int {
    if line < top {
        line
    } else if line >= top + height {
        line + 1 - height
    } else {
        top
    }
}

/// The editor with the selected window scrolled so that point shows.
pub open spec fn point_shown(e: EditorModel) -> EditorModel {
    put(
        e,
        Window {
            point: cur_point(e) as usize,
            top_line: top_showing(
                cur_win(e).top_line as int,
                line_of(cur_buf(e).text, cur_point(e)),
                height_of(e),
            ) as usize,
            ..cur_win(e)
        },
        cur_buf(e),
    )
}

/// Scroll the selected window so point is on screen.
pub fn ensure_point_visible(ed: &mut Editor)
    requires
        wf(old(ed)@),
    ensures
        final(ed)@ == point_shown(old(ed)@),
        wf(final(ed)@),
{
    let height: usize = ed.selected_text_height();
    let (win, buf) = ed.cur();
    let line: usize = buf.char_to_line(win.point);
    if line < win.top_line {
        win.top_line = line;
    } else if line - win.top_line >= height {
        win.top_line = line - height + 1;
    }
}

// ---- highlights ------------------------------------------------------------

/// The columns of a line that a span of positions covers; none where it covers
/// none.
pub open spec fn span_on(start: int, end: int, ls: int, le: int) -> Option<(int, int)> {
    let s = max(start, ls);
    let e = min(end, le);
    if s < e {
        Some((s - ls, e - ls))
    } else {
        None
    }
}

/// The columns of line `line` that the active region or rectangle covers.
pub open spec fn region_span(e: EditorModel, b: BufferModel, point: int, line: int) -> Option<
    (int, int),
> {
    let t = b.text;
    let ls = line_begin(t, line);
    let le = end_at(t, ls);
    if e.rect_mode {
        match b.mark {
            Some(mark) => {
                let (l1, l2, left, right) = rectangle(t, clip(t, mark as int), point);
                let n = le - ls;
                if l1 <= line <= l2 && min(left, n) < min(right, n) {
                    Some((min(left, n), min(right, n)))
                } else {
                    None
                }
            },
            None => None,
        }
    } else {
        match region_of(b, point) {
            Some((start, end)) => span_on(start, end, ls, le),
            None => None,
        }
    }
}

/// The current match of an incremental search or a query-replace.
pub open spec fn current_match(e: EditorModel) -> Option<(usize, usize)> {
    match e.input {
        InputModel::ISearch(s) => s.current,
        InputModel::QueryReplace(s) => s.current,
        _ => None,
    }
}

/// The columns of line `line` that the current match covers.
pub open spec fn match_span(e: EditorModel, b: BufferModel, line: int) -> Option<(int, int)> {
    let ls = line_begin(b.text, line);
    match current_match(e) {
        Some(m) => span_on(m.0 as int, m.1 as int, ls, end_at(b.text, ls)),
        None => None,
    }
}

/// A span as a list.
pub open spec fn span_list(s: Option<(int, int)>) -> Seq<(int, int)> {
    match s {
        Some(r) => seq![r],
        None => Seq::empty(),
    }
}

/// The highlighted columns of a line: the region or rectangle, then the
/// current match.
pub open spec fn highlights(e: EditorModel, b: BufferModel, point: int, line: int) -> Seq<
    (int, int),
> {
    if line >= line_count(b.text) {
        Seq::empty()
    } else {
        span_list(region_span(e, b, point, line)) + span_list(match_span(e, b, line))
    }
}

fn push_span(out: &mut Vec<(usize, usize)>, start: usize, end: usize, ls: usize, le: usize)
    requires
        ls <= le,
    ensures
        int_ranges(final(out)@) == int_ranges(old(out)@) + span_list(
            span_on(start as int, end as int, ls as int, le as int),
        ),
{
    let s: usize = if start > ls {
        start
    } else {
        ls
    };
    let e: usize = if end < le {
        end
    } else {
        le
    };
    if s < e {
        out.push((s - ls, e - ls));
    }
    assert(int_ranges(out@) =~= int_ranges(old(out)@) + span_list(
        span_on(start as int, end as int, ls as int, le as int),
    ));
}

/// Char-column highlight ranges on `line_idx`: the active region (or
/// rectangle), and the current isearch/query-replace match.
pub fn highlight_ranges(ed: &Editor, buf: &Buffer, point: usize, line_idx: usize) -> (r: Vec<
    (usize, usize),
>)
    requires
        point <= buf@.text.len(),
    ensures
        int_ranges(r@) == highlights(ed@, buf@, point as int, line_idx as int),
{
    let ghost t = buf@.text;
    let mut out: Vec<(usize, usize)> = Vec::new();
    assert(int_ranges(out@) =~= Seq::<(int, int)>::empty());
    if line_idx >= buf.len_lines() {
        return out;
    }
    let ls: usize = buf.line_to_char(line_idx);
    let le: usize = buf.line_end(ls);
    if ed.rect_mode {
        if let Some(mark) = buf.mark {
            let n: usize = buf.len_chars();
            let mark: usize = if mark <= n {
                mark
            } else {
                n
            };
            let (l1, l2, left, right) = bounds(buf, mark, point);
            if line_idx >= l1 && line_idx <= l2 {
                let len: usize = le - ls;
                let a: usize = if left <= len {
                    left
                } else {
                    len
                };
                let b: usize = if right <= len {
                    right
                } else {
                    len
                };
                if a < b {
                    out.push((a, b));
                }
            }
        }
    } else if let Some((start, end)) = buf.region(point) {
        push_span(&mut out, start, end, ls, le);
    }
    assert(int_ranges(out@) =~= span_list(region_span(ed@, buf@, point as int, line_idx as int)));
    let m: Option<(usize, usize)> = match &ed.input {
        InputMode::ISearch(s) => s.current,
        InputMode::QueryReplace(s) => s.current,
        _ => None,
    };
    if let Some((start, end)) = m {
        push_span(&mut out, start, end, ls, le);
    }
    assert(int_ranges(out@) =~= highlights(ed@, buf@, point as int, line_idx as int));
    out
}

/// The colored columns of a line that a list of spans gives, in order: spans
/// without a color are left out.
pub open spec fn colored(
    spans: Seq<(int, int, Seq<char>)>,
    colors: Seq<(Seq<char>, FaceColor)>,
    ls: int,
    le: int,
) -> Seq<(int, int, FaceColor)>
    decreases spans.len(),
{
    if spans.len() == 0 {
        Seq::empty()
    } else {
        let before = colored(spans.drop_last(), colors, ls, le);
        let (start, end, name) = spans.last();
        match (span_on(start, end, ls, le), lookup(colors, name)) {
            (Some((a, b)), Some(c)) => before.push((a, b, c)),
            _ => before,
        }
    }
}

/// The colored columns of a line: spans placed by the extension language win
/// over syntax spans, so they come first.
pub open spec fn syntax_of(b: BufferModel, f: FacesModel, line: int) -> Seq<
    (int, int, FaceColor),
> {
    let ls = line_begin(b.text, line);
    let le = end_at(b.text, ls);
    if line >= line_count(b.text) {
        Seq::empty()
    } else {
        colored(b.face_spans, f.syntax, ls, le) + match b.syntax {
            Some(s) => colored(s.spans, f.syntax, ls, le),
            None => Seq::empty(),
        }
    }
}

/// Colored column ranges.
pub open spec fn color_ranges(s: Seq<(usize, usize, FaceColor)>) -> Seq<(int, int, FaceColor)> {
    Seq::new(s.len(), |i: int| (s[i].0 as int, s[i].1 as int, s[i].2))
}

fn push_colored(
    out: &mut Vec<(usize, usize, FaceColor)>,
    spans: &Vec<(usize, usize, String)>,
    faces: &Faces,
    ls: usize,
    le: usize,
)
    requires
        ls <= le,
    ensures
        color_ranges(final(out)@) == color_ranges(old(out)@) + colored(
            named_spans(spans@),
            faces@.syntax,
            ls as int,
            le as int,
        ),
{
    let ghost all = named_spans(spans@);
    let ghost base = color_ranges(out@);
    assert(all.take(0) =~= Seq::<(int, int, Seq<char>)>::empty());
    assert(base + Seq::<(int, int, FaceColor)>::empty() =~= base);
    for i in 0..spans.len()
        invariant
            ls <= le,
            all == named_spans(spans@),
            color_ranges(out@) == base + colored(
                all.take(i as int),
                faces@.syntax,
                ls as int,
                le as int,
            ),
    {
        assert(all.take(i + 1).drop_last() =~= all.take(i as int));
        assert(all.take(i + 1).last() == all[i as int]);
        let ghost before = color_ranges(out@);
        let start: usize = spans[i].0;
        let end: usize = spans[i].1;
        let s: usize = if start > ls {
            start
        } else {
            ls
        };
        let e: usize = if end < le {
            end
        } else {
            le
        };
        if s < e {
            if let Some(c) = faces.syntax.get(spans[i].2.as_str()) {
                out.push((s - ls, e - ls, *c));
                assert(color_ranges(out@) =~= before.push((s - ls, e - ls, *c)));
            }
        }
        assert(color_ranges(out@) =~= base + colored(
            all.take(i + 1),
            faces@.syntax,
            ls as int,
            le as int,
        ));
    }
    assert(all.take(all.len() as int) =~= all);
}

/// Char-column, per-token syntax-color ranges on `line_idx`. Names with no
/// configured color are skipped.
pub fn syntax_ranges(buf: &Buffer, faces: &Faces, line_idx: usize) -> (r: Vec<
    (usize, usize, FaceColor),
>)
    ensures
        color_ranges(r@) == syntax_of(buf@, faces@, line_idx as int),
{
    let mut out: Vec<(usize, usize, FaceColor)> = Vec::new();
    assert(color_ranges(out@) =~= Seq::<(int, int, FaceColor)>::empty());
    if line_idx >= buf.len_lines() {
        return out;
    }
    let ls: usize = buf.line_to_char(line_idx);
    let le: usize = buf.line_end(ls);
    push_colored(&mut out, &buf.face_spans, faces, ls, le);
    let ghost first = color_ranges(out@);
    assert(first =~= colored(named_spans(buf.face_spans@), faces@.syntax, ls as int, le as int));
    if let Some(s) = &buf.syntax {
        push_colored(&mut out, &s.spans, faces, ls, le);
    }
    assert(color_ranges(out@) =~= syntax_of(buf@, faces@, line_idx as int));
    out
}

// ---- one line of text ------------------------------------------------------

/// How a char of a line is shown: highlighted, colored, or plain. A highlight
/// wins over a color.
#[derive(Debug, Clone, Copy, PartialEq, Eq, Structural)]
pub enum CharStyle {
    Plain,
    Bg,
    Fg,
}

/// The color of column `ci`: that of the first range from index `i` on that
/// covers it.
pub open spec fn color_at(s: Seq<(int, int, FaceColor)>, ci: int, i: int) -> Option<FaceColor>
    decreases s.len() - i,
{
    if 0 <= i < s.len() {
        if s[i].0 <= ci < s[i].1 {
            Some(s[i].2)
        } else {
            color_at(s, ci, i + 1)
        }
    } else {
        None
    }
}

/// Whether a range covers column `ci`.
pub open spec fn covered(s: Seq<(int, int)>, ci: int) -> bool {
    exists|i: int| 0 <= i < s.len() && (#[trigger] s[i]).0 <= ci < s[i].1
}

/// What a line shows: its text, the highlighted columns and the colored ones.
pub struct LineModel {
    pub text: Seq<char>,
    pub ranges: Seq<(int, int)>,
    pub syntax: Seq<(int, int, FaceColor)>,
}

/// The style of char `ci` of a line; plain before the first.
pub open spec fn style_at(l: LineModel, ci: int) -> CharStyle {
    if ci < 0 {
        CharStyle::Plain
    } else if covered(l.ranges, ci) {
        CharStyle::Bg
    } else if color_at(l.syntax, ci, 0) is Some {
        CharStyle::Fg
    } else {
        CharStyle::Plain
    }
}

/// Whether char `ci` of a line looks like the one before it: the same style, and
/// the same color where it is colored.
pub open spec fn looks_same(l: LineModel, ci: int) -> bool {
    &&& style_at(l, ci) == style_at(l, ci - 1)
    &&& style_at(l, ci) == CharStyle::Fg ==> color_at(l.syntax, ci, 0) == color_at(
        l.syntax,
        ci - 1,
        0,
    )
}

/// What changes the style or the color before char `ci`, where it changes.
pub open spec fn style_ops(l: LineModel, ci: int, highlight: Option<FaceColor>) -> Seq<OpModel> {
    if looks_same(l, ci) {
        Seq::empty()
    } else {
        plain_ops() + match style_at(l, ci) {
            CharStyle::Bg => highlight_ops(highlight),
            CharStyle::Fg => seq![OpModel::Foreground(color_at(l.syntax, ci, 0)->0)],
            CharStyle::Plain => Seq::empty(),
        }
    }
}

/// The column of char `ci` of a line.
pub open spec fn line_column(t: Seq<char>, ci: int) -> int
    decreases ci,
{
    if ci <= 0 {
        0
    } else {
        next_column(t[ci - 1], line_column(t, ci - 1))
    }
}

/// Whether char `ci` still fits in a width, a column kept free for the
/// truncation mark; everything fits in a width of 0.
pub open spec fn fits_in(t: Seq<char>, ci: int, width: int) -> bool {
    width == 0 || line_column(t, ci + 1) <= width - 1
}

/// The number of chars of a line, from `i` on counted from 0, that fit in a
/// width.
pub open spec fn shown_chars(t: Seq<char>, width: int, i: int) -> int
    decreases t.len() - i,
{
    if 0 <= i < t.len() && fits_in(t, i, width) {
        shown_chars(t, width, i + 1)
    } else {
        i
    }
}

/// What prints char `ci` of a line: a tab as spaces.
pub open spec fn char_op(t: Seq<char>, ci: int) -> OpModel {
    OpModel::Print(
        if t[ci] == '\t' {
            repeated(' ', glyph('\t', line_column(t, ci)) as nat)
        } else {
            seq![t[ci]]
        },
    )
}

/// What prints the first `n` chars of a line.
pub open spec fn chars_ops(l: LineModel, n: int, highlight: Option<FaceColor>) -> Seq<OpModel>
    decreases n,
{
    if n <= 0 {
        Seq::empty()
    } else {
        chars_ops(l, n - 1, highlight) + style_ops(l, n - 1, highlight) + seq![
            char_op(l.text, n - 1),
        ]
    }
}

/// The last char whose style was set, when `n` chars of a line fit: the one
/// that no longer fits, if there is one.
pub open spec fn last_styled(t: Seq<char>, n: int) -> int {
    if n < t.len() {
        n
    } else {
        n - 1
    }
}

/// What prints the chars of a line that fit in a width: the style of the first
/// that does not is still set.
pub open spec fn text_ops(l: LineModel, width: int, highlight: Option<FaceColor>) -> Seq<OpModel> {
    let n = shown_chars(l.text, width, 0);
    chars_ops(l, n, highlight) + (if n < l.text.len() {
        style_ops(l, n, highlight)
    } else {
        Seq::empty()
    })
}

/// What ends a row: plain text again, `$` where the line was cut, and spaces up
/// to the width.
pub open spec fn ending_ops(styled: bool, cut: bool, col: int, width: int) -> Seq<OpModel> {
    let used = if cut {
        at_most_max(col + 1)
    } else {
        col
    };
    (if styled {
        plain_ops()
    } else {
        Seq::empty()
    }) + (if cut {
        seq![OpModel::Print("$"@)]
    } else {
        Seq::empty()
    }) + (if used < width {
        seq![OpModel::Print(repeated(' ', (width - used) as nat))]
    } else {
        Seq::empty()
    })
}

/// What prints a line into row `row` of a rectangle: tabs expanded, wide chars
/// accounted for, truncation marked with `$`, and the rest of the row filled
/// with spaces.
pub open spec fn line_ops(
    l: LineModel,
    rect: Rect,
    row: int,
    highlight: Option<FaceColor>,
) -> Seq<OpModel> {
    let n = shown_chars(l.text, rect.w as int, 0);
    seq![OpModel::MoveTo(rect.x as int, rect.y + row)] + text_ops(l, rect.w as int, highlight)
        + ending_ops(
        style_at(l, last_styled(l.text, n)) != CharStyle::Plain,
        n < l.text.len(),
        line_column(l.text, n),
        rect.w as int,
    )
}

fn find_color(s: &Vec<(usize, usize, FaceColor)>, ci: usize) -> (r: Option<FaceColor>)
    ensures
        r == color_at(color_ranges(s@), ci as int, 0),
{
    let ghost all = color_ranges(s@);
    let mut i: usize = 0;
    while i < s.len()
        invariant
            i <= s@.len(),
            all == color_ranges(s@),
            color_at(all, ci as int, 0) == color_at(all, ci as int, i as int),
        decreases s@.len() - i,
    {
        if ci >= s[i].0 && ci < s[i].1 {
            return Some(s[i].2);
        }
        i = i + 1;
    }
    None
}

fn is_covered(s: &Vec<(usize, usize)>, ci: usize) -> (b: bool)
    ensures
        b == covered(int_ranges(s@), ci as int),
{
    let ghost all = int_ranges(s@);
    let mut i: usize = 0;
    while i < s.len()
        invariant
            i <= s@.len(),
            all == int_ranges(s@),
            forall|k: int| 0 <= k < i ==> !((#[trigger] all[k]).0 <= ci < all[k].1),
        decreases s@.len() - i,
    {
        assert(all[i as int] == (s@[i as int].0 as int, s@[i as int].1 as int));
        if ci >= s[i].0 && ci < s[i].1 {
            return true;
        }
        i = i + 1;
    }
    false
}

/// What a line shows.
pub open spec fn line_model(
    text: Seq<char>,
    hl: Seq<(usize, usize)>,
    syntax: Seq<(usize, usize, FaceColor)>,
) -> LineModel {
    LineModel { text, ranges: int_ranges(hl), syntax: color_ranges(syntax) }
}

fn draw_style(
    out: &mut Vec<DrawOp>,
    ci: usize,
    shown: (CharStyle, Option<FaceColor>),
    hl: &Vec<(usize, usize)>,
    syntax: &Vec<(usize, usize, FaceColor)>,
    highlight: Option<FaceColor>,
    Ghost(text): Ghost<Seq<char>>,
) -> (now: (CharStyle, Option<FaceColor>))
    requires
        shown.0 == style_at(line_model(text, hl@, syntax@), ci - 1),
        ci > 0 ==> shown.1 == color_at(color_ranges(syntax@), ci - 1, 0),
    ensures
        now.0 == style_at(line_model(text, hl@, syntax@), ci as int),
        now.1 == color_at(color_ranges(syntax@), ci as int, 0),
        models(final(out)@) == models(old(out)@) + style_ops(
            line_model(text, hl@, syntax@),
            ci as int,
            highlight,
        ),
{
    let ghost l = line_model(text, hl@, syntax@);
    let ghost before = models(out@);
    let color = find_color(syntax, ci);
    let want = if is_covered(hl, ci) {
        CharStyle::Bg
    } else if color.is_some() {
        CharStyle::Fg
    } else {
        CharStyle::Plain
    };
    if want != shown.0 || (want == CharStyle::Fg && color != shown.1) {
        clear_highlight(out);
        match want {
            CharStyle::Bg => set_highlight(out, highlight),
            CharStyle::Fg => {
                if let Some(c) = color {
                    emit(out, DrawOp::Foreground(c));
                }
            },
            CharStyle::Plain => {},
        }
    }
    assert(models(out@) =~= before + style_ops(l, ci as int, highlight));
    (want, color)
}

fn draw_char(out: &mut Vec<DrawOp>, c: char, w: usize)
    ensures
        models(final(out)@) == models(old(out)@).push(
            OpModel::Print(
                if c == '\t' {
                    repeated(' ', w as nat)
                } else {
                    seq![c]
                },
            ),
        ),
{
    if c == '\t' {
        emit(out, DrawOp::Print(repeat(' ', w)));
    } else {
        let mut s = String::new();
        s.push(c);
        assert(s@ =~= seq![c]);
        emit(out, DrawOp::Print(s));
    }
}

fn draw_text(
    out: &mut Vec<DrawOp>,
    width: usize,
    text: &str,
    hl: &Vec<(usize, usize)>,
    syntax: &Vec<(usize, usize, FaceColor)>,
    highlight: Option<FaceColor>,
) -> (r: (bool, bool, usize))
    ensures
        ({
            let l = line_model(text@, hl@, syntax@);
            let n = shown_chars(text@, width as int, 0);
            &&& r.0 == (style_at(l, last_styled(text@, n)) != CharStyle::Plain)
            &&& r.1 == (n < text@.len())
            &&& r.2 == line_column(text@, n)
            &&& models(final(out)@) == models(old(out)@) + text_ops(l, width as int, highlight)
        }),
{
    let ghost l = line_model(text@, hl@, syntax@);
    let ghost base = models(out@);
    let v = to_chars(text);
    let mut col: usize = 0;
    let mut shown: (CharStyle, Option<FaceColor>) = (CharStyle::Plain, None);
    let mut ci: usize = 0;
    assert(base + chars_ops(l, 0, highlight) =~= base);
    while ci < v.len()
        invariant
            ci <= v@.len(),
            v@ == text@,
            l == line_model(text@, hl@, syntax@),
            base == models(old(out)@),
            col == line_column(text@, ci as int),
            shown.0 == style_at(l, ci - 1),
            ci > 0 ==> shown.1 == color_at(l.syntax, ci - 1, 0),
            shown_chars(text@, width as int, 0) == shown_chars(text@, width as int, ci as int),
            models(out@) == base + chars_ops(l, ci as int, highlight),
        decreases v@.len() - ci,
    {
        let now = draw_style(out, ci, shown, hl, syntax, highlight, Ghost(text@));
        let w: usize = glyph_width(v[ci], col);
        let next: usize = column_sum(col, w);
        if width > 0 && next > width - 1 {
            assert(models(out@) =~= base + text_ops(l, width as int, highlight));
            return (now.0 != CharStyle::Plain, true, col);
        }
        draw_char(out, v[ci], w);
        assert(models(out@) =~= base + chars_ops(l, ci + 1, highlight));
        shown = now;
        col = next;
        ci = ci + 1;
    }
    assert(text_ops(l, width as int, highlight) =~= chars_ops(l, ci as int, highlight));
    (shown.0 != CharStyle::Plain, false, col)
}

fn end_row(out: &mut Vec<DrawOp>, styled: bool, cut: bool, col: usize, width: usize)
    ensures
        models(final(out)@) == models(old(out)@) + ending_ops(
            styled,
            cut,
            col as int,
            width as int,
        ),
{
    if styled {
        clear_highlight(out);
    }
    if cut {
        emit(out, DrawOp::Print(copy("$")));
    }
    let used: usize = if cut {
        column_sum(col, 1)
    } else {
        col
    };
    if used < width {
        emit(out, DrawOp::Print(repeat(' ', width - used)));
    }
    assert(models(out@) =~= models(old(out)@) + ending_ops(
        styled,
        cut,
        col as int,
        width as int,
    ));
}

/// Print one buffer line into a window row: tabs expanded, wide chars accounted
/// for, truncation marked with `$`, region/search highlights reversed, tokens
/// colored.
pub fn draw_line(
    out: &mut Vec<DrawOp>,
    rect: &Rect,
    row: u16,
    text: &str,
    hl: &Vec<(usize, usize)>,
    syntax: &Vec<(usize, usize, FaceColor)>,
    faces: &Faces,
)
    requires
        rect.y + row <= u16::MAX,
    ensures
        models(final(out)@) == models(old(out)@) + line_ops(
            line_model(text@, hl@, syntax@),
            *rect,
            row as int,
            faces@.highlight,
        ),
{
    emit(out, DrawOp::MoveTo(rect.x, rect.y + row));
    let width: usize = rect.w as usize;
    let (styled, cut, col) = draw_text(out, width, text, hl, syntax, faces.highlight);
    end_row(out, styled, cut, col, width);
    proof {
        let l = line_model(text@, hl@, syntax@);
        lemma_join(
            models(old(out)@),
            OpModel::MoveTo(rect.x as int, rect.y + row),
            text_ops(l, width as int, faces@.highlight),
            ending_ops(styled, cut, col as int, width as int),
        );
    }
}

proof fn lemma_join(base: Seq<OpModel>, x: OpModel, a: Seq<OpModel>, b: Seq<OpModel>)
    ensures
        base.push(x) + a + b == base + (seq![x] + a + b),
{
    assert(base.push(x) + a + b =~= base + (seq![x] + a + b));
}

/// What is shown of a line leaves a column free in a width that is not 0.
proof fn lemma_shown_columns(t: Seq<char>, width: int, i: int)
    requires
        0 <= i <= t.len(),
        width > 0 ==> line_column(t, i) <= width - 1,
    ensures
        i <= shown_chars(t, width, i) <= t.len(),
        width > 0 ==> line_column(t, shown_chars(t, width, i)) <= width - 1,
        width == 0 ==> shown_chars(t, width, i) == t.len(),
    decreases t.len() - i,
{
    if i < t.len() && fits_in(t, i, width) {
        lemma_shown_columns(t, width, i + 1);
    }
}

/// The columns that printing one thing takes.
pub open spec fn op_columns(op: OpModel) -> int {
    match op {
        OpModel::Print(s) => total_columns(s, s.len() as int),
        _ => 0,
    }
}

/// The columns of the first `n` chars of a string, at most the largest number.
pub open spec fn total_columns(s: Seq<char>, n: int) -> int
    decreases n,
{
    if n <= 0 {
        0
    } else {
        at_most_max(total_columns(s, n - 1) + char_width(s[n - 1]))
    }
}

// ---- one window ------------------------------------------------------------

/// `s` without the newlines at its end.
pub open spec fn without_line_ends(s: Seq<char>) -> Seq<char>
    decreases s.len(),
{
    if s.len() > 0 && s.last() == '\n' {
        without_line_ends(s.drop_last())
    } else {
        s
    }
}

/// The text that a line shows; nothing past the last line.
pub open spec fn line_text(t: Seq<char>, line: int) -> Seq<char> {
    if line < line_count(t) {
        without_line_ends(t.subrange(line_begin(t, line), line_begin(t, line + 1)))
    } else {
        Seq::empty()
    }
}

/// What the gutter shows beside a line.
pub open spec fn gutter_text(t: Seq<char>, line: int, gutter: int) -> Seq<char> {
    if line < line_count(t) {
        pad_left(decimal((line + 1) as nat), gutter - 1) + " "@
    } else {
        repeated(' ', gutter as nat)
    }
}

/// What prints the gutter beside a line, if there is a gutter.
pub open spec fn gutter_ops(
    f: FacesModel,
    t: Seq<char>,
    point: int,
    rect: Rect,
    gutter: int,
    line: int,
    row: int,
) -> Seq<OpModel> {
    if gutter > 0 {
        seq![OpModel::MoveTo(rect.x as int, rect.y + row)] + (if line == line_of(t, point) {
            digit_ops(f.line_number_current, true)
        } else {
            digit_ops(f.line_number, false)
        }) + seq![OpModel::Print(gutter_text(t, line, gutter))] + plain_ops()
    } else {
        Seq::empty()
    }
}

/// The part of a window's rectangle beside the gutter.
pub open spec fn beside_gutter(rect: Rect, gutter: int) -> Rect {
    Rect { x: (rect.x + gutter) as u16, w: (rect.w - gutter) as u16, ..rect }
}

/// Where a window of the frame shows what.
pub struct Pane {
    pub rect: Rect,
    pub point: int,
    pub top: int,
    pub selected: bool,
}

/// What prints row `row` of a window.
pub open spec fn row_ops(e: EditorModel, b: BufferModel, p: Pane, row: int) -> Seq<OpModel> {
    let line = p.top + row;
    let gutter = gutter_of(e, b, p.rect);
    gutter_ops(e.faces, b.text, p.point, p.rect, gutter, line, row) + line_ops(
        LineModel {
            text: line_text(b.text, line),
            ranges: if p.selected {
                highlights(e, b, p.point, line)
            } else {
                Seq::empty()
            },
            syntax: syntax_of(b, e.faces, line),
        },
        beside_gutter(p.rect, gutter),
        row,
        e.faces.highlight,
    )
}

/// What prints the first `n` rows of a window.
pub open spec fn rows_ops(e: EditorModel, b: BufferModel, p: Pane, n: int) -> Seq<OpModel>
    decreases n,
{
    if n <= 0 {
        Seq::empty()
    } else {
        rows_ops(e, b, p, n - 1) + row_ops(e, b, p, n - 1)
    }
}

/// What the mode line says of a buffer.
pub open spec fn mode_text(b: BufferModel, point: int) -> Seq<char> {
    "-"@ + (if b.read_only {
        "%%"@
    } else if b.modified {
        "**"@
    } else {
        "--"@
    }) + "- "@ + b.name + "   L"@ + decimal((line_of(b.text, point) + 1) as nat) + " C"@ + decimal(
        (point - start_at(b.text, point)) as nat,
    ) + "  ("@ + b.mode_name + ") "@
}

/// `s` cut off at `width` chars, or filled up with dashes.
pub open spec fn dashed(s: Seq<char>, width: int) -> Seq<char> {
    if s.len() < width {
        s + repeated('-', (width - s.len()) as nat)
    } else {
        s.take(width)
    }
}

/// What prints the mode line of a window.
pub open spec fn mode_line_ops(f: FacesModel, b: BufferModel, p: Pane) -> Seq<OpModel> {
    seq![OpModel::MoveTo(p.rect.x as int, p.rect.y + minus(p.rect.h as int, 1))] + (if p.selected {
        highlight_ops(f.mode_line)
    } else {
        seq![OpModel::Dim]
    }) + seq![OpModel::Print(dashed(mode_text(b, p.point), p.rect.w as int))] + plain_ops()
}

/// What prints the first `n` rows of the divider left of a window.
pub open spec fn divider_ops(rect: Rect, n: int) -> Seq<OpModel>
    decreases n,
{
    if n <= 0 {
        Seq::empty()
    } else {
        divider_ops(rect, n - 1) + seq![
            OpModel::MoveTo(rect.x - 1, rect.y + n - 1),
            OpModel::Print("│"@),
        ]
    }
}

/// Where a window shows what.
pub open spec fn pane_of(e: EditorModel, id: WindowId, rect: Rect) -> Pane {
    let w = leaf(e.windows.root, id)->0;
    let t = window_buf(e, id).text;
    Pane {
        rect,
        point: clip(t, w.point as int),
        top: min(w.top_line as int, line_count(t) - 1),
        selected: id == e.windows.selected,
    }
}

/// The buffer of a window.
pub open spec fn window_buf(e: EditorModel, id: WindowId) -> BufferModel {
    e.buffers[buf_index(e.buffers, leaf(e.windows.root, id)->0.buffer)]
}

/// What prints a window: its rows, its mode line, and the divider left of it
/// unless it lies at the left edge.
pub open spec fn pane_ops(e: EditorModel, b: BufferModel, p: Pane) -> Seq<OpModel> {
    rows_ops(e, b, p, text_rows(p.rect)) + mode_line_ops(e.faces, b, p) + (if p.rect.x > 0 {
        divider_ops(p.rect, p.rect.h as int)
    } else {
        Seq::empty()
    })
}

/// What prints the first `n` windows of a layout.
pub open spec fn windows_ops(e: EditorModel, layout: Seq<(WindowId, Rect)>, n: int) -> Seq<OpModel>
    decreases n,
{
    if n <= 0 {
        Seq::empty()
    } else {
        windows_ops(e, layout, n - 1) + pane_ops(
            e,
            window_buf(e, layout[n - 1].0),
            pane_of(e, layout[n - 1].0, layout[n - 1].1),
        )
    }
}

fn trim_newlines(s: &str) -> (r: String)
    ensures
        r@ == without_line_ends(s@),
{
    let v = to_chars(s);
    let mut n: usize = v.len();
    assert(v@.take(n as int) =~= v@);
    while n > 0 && v[n - 1] == '\n'
        invariant
            n <= v@.len(),
            without_line_ends(v@) == without_line_ends(v@.take(n as int)),
        decreases n,
    {
        assert(v@.take(n as int).drop_last() =~= v@.take(n - 1));
        n = n - 1;
    }
    let r = from_chars(&v, 0, n);
    assert(r@ =~= v@.take(n as int));
    r
}

pub(crate) fn shown_line(buf: &Buffer, line: usize) -> (r: String)
    ensures
        r@ == line_text(buf@.text, line as int),
{
    if line < buf.len_lines() {
        proof {
            lemma_line_begin(buf@.text, line as int);
            lemma_line_begin(buf@.text, line + 1);
        }
        let start: usize = buf.rope.line_to_char(line);
        let end: usize = buf.rope.line_to_char(line + 1);
        let s = rope_slice(&buf.rope, start, end);
        trim_newlines(s.as_str())
    } else {
        let r = String::new();
        assert(r@ =~= Seq::<char>::empty());
        r
    }
}

fn draw_gutter(
    out: &mut Vec<DrawOp>,
    faces: &Faces,
    buf: &Buffer,
    pane: (Rect, usize),
    gutter: usize,
    line: Option<usize>,
    row: u16,
    Ghost(idx): Ghost<int>,
)
    requires
        pane.0.y + row <= u16::MAX,
        pane.1 <= buf@.text.len(),
        line == (if idx < line_count(buf@.text) {
            Some(idx as usize)
        } else {
            None
        }),
        0 <= idx,
    ensures
        models(final(out)@) == models(old(out)@) + gutter_ops(
            faces@,
            buf@.text,
            pane.1 as int,
            pane.0,
            gutter as int,
            idx,
            row as int,
        ),
{
    let rect = pane.0;
    if gutter > 0 {
        let point_line: usize = buf.char_to_line(pane.1);
        let _count: usize = buf.len_lines();
        emit(out, DrawOp::MoveTo(rect.x, rect.y + row));
        let mut current = false;
        let num = match line {
            Some(l) => {
                current = l == point_line;
                let d = decimal_string(l + 1);
                let p = padded_left(d.as_str(), gutter - 1);
                cat2(p.as_str(), " ")
            },
            None => repeat(' ', gutter),
        };
        assert(num@ == gutter_text(buf@.text, idx, gutter as int));
        if current {
            set_line_number_color(out, faces.line_number_current, true);
        } else {
            set_line_number_color(out, faces.line_number, false);
        }
        emit(out, DrawOp::Print(num));
        clear_highlight(out);
    }
    assert(models(out@) =~= models(old(out)@) + gutter_ops(
        faces@,
        buf@.text,
        pane.1 as int,
        pane.0,
        gutter as int,
        idx,
        row as int,
    ));
}

fn draw_row(
    ed: &Editor,
    out: &mut Vec<DrawOp>,
    buf: &Buffer,
    rect: Rect,
    point: usize,
    top: usize,
    selected: bool,
    row: u16,
)
    requires
        fits(rect),
        row < rect.h,
        point <= buf@.text.len(),
        top < line_count(buf@.text),
    ensures
        models(final(out)@) == models(old(out)@) + row_ops(
            ed@,
            buf@,
            Pane { rect, point: point as int, top: top as int, selected },
            row as int,
        ),
{
    let ghost p = Pane { rect, point: point as int, top: top as int, selected };
    let ghost idx = top + row;
    let count: usize = buf.len_lines();
    let gutter: usize = gutter_width(ed, buf, &rect);
    let text_rect = Rect {
        x: rect.x + gutter as u16,
        y: rect.y,
        w: rect.w - gutter as u16,
        h: rect.h,
    };
    let mut line: Option<usize> = None;
    let mut hl: Vec<(usize, usize)> = Vec::new();
    let mut syntax: Vec<(usize, usize, FaceColor)> = Vec::new();
    let mut text = String::new();
    assert(int_ranges(hl@) =~= Seq::<(int, int)>::empty());
    assert(color_ranges(syntax@) =~= Seq::<(int, int, FaceColor)>::empty());
    assert(text@ =~= Seq::<char>::empty());
    if (row as usize) < count - top {
        let l: usize = top + row as usize;
        line = Some(l);
        if selected {
            hl = highlight_ranges(ed, buf, point, l);
        }
        syntax = syntax_ranges(buf, &ed.faces, l);
        text = shown_line(buf, l);
    }
    draw_gutter(out, &ed.faces, buf, (rect, point), gutter, line, row, Ghost(idx));
    draw_line(out, &text_rect, row, text.as_str(), &hl, &syntax, &ed.faces);
    assert(models(out@) =~= models(old(out)@) + row_ops(ed@, buf@, p, row as int));
}

fn draw_rows(
    ed: &Editor,
    out: &mut Vec<DrawOp>,
    buf: &Buffer,
    rect: Rect,
    point: usize,
    top: usize,
    selected: bool,
)
    requires
        fits(rect),
        point <= buf@.text.len(),
        top < line_count(buf@.text),
    ensures
        models(final(out)@) == models(old(out)@) + rows_ops(
            ed@,
            buf@,
            Pane { rect, point: point as int, top: top as int, selected },
            text_rows(rect),
        ),
{
    let ghost p = Pane { rect, point: point as int, top: top as int, selected };
    let ghost base = models(out@);
    let n: u16 = if rect.h == 0 {
        0
    } else {
        rect.h - 1
    };
    let mut row: u16 = 0;
    assert(base + rows_ops(ed@, buf@, p, 0) =~= base);
    while row < n
        invariant
            row <= n,
            n == text_rows(rect),
            fits(rect),
            point <= buf@.text.len(),
            top < line_count(buf@.text),
            p == (Pane { rect, point: point as int, top: top as int, selected }),
            models(out@) == base + rows_ops(ed@, buf@, p, row as int),
        decreases n - row,
    {
        draw_row(ed, out, buf, rect, point, top, selected, row);
        assert(models(out@) =~= base + rows_ops(ed@, buf@, p, row + 1));
        row = row + 1;
    }
}

fn mode_string_of(buf: &Buffer, point: usize) -> (r: String)
    requires
        point <= buf@.text.len(),
    ensures
        r@ == mode_text(buf@, point as int),
{
    proof {
        lemma_line_around(buf@.text, point as int);
    }
    let line: usize = buf.char_to_line(point);
    let _count: usize = buf.len_lines();
    let col: usize = point - buf.line_start(point);
    let flags = if buf.read_only {
        "%%"
    } else if buf.modified {
        "**"
    } else {
        "--"
    };
    let a = cat3("-", flags, "- ");
    let l = decimal_string(line + 1);
    let c = decimal_string(col);
    let b = cat5(a.as_str(), buf.name.as_str(), "   L", l.as_str(), " C");
    let r = cat5(b.as_str(), c.as_str(), "  (", buf.mode_name.as_str(), ") ");
    assert(r@ =~= mode_text(buf@, point as int));
    r
}

fn dash_out(s: &str, width: usize) -> (r: String)
    ensures
        r@ == dashed(s@, width as int),
{
    let n: usize = s.unicode_len();
    if n < width {
        let fill = repeat('-', width - n);
        cat2(s, fill.as_str())
    } else {
        let v = to_chars(s);
        let r = from_chars(&v, 0, width);
        assert(r@ =~= s@.take(width as int));
        r
    }
}

fn draw_mode_line(
    out: &mut Vec<DrawOp>,
    rect: Rect,
    buf: &Buffer,
    point: usize,
    top: usize,
    selected: bool,
    faces: &Faces,
)
    requires
        fits(rect),
        point <= buf@.text.len(),
    ensures
        models(final(out)@) == models(old(out)@) + mode_line_ops(
            faces@,
            buf@,
            Pane { rect, point: point as int, top: top as int, selected },
        ),
{
    let ghost p = Pane { rect, point: point as int, top: top as int, selected };
    let last: u16 = if rect.h == 0 {
        0
    } else {
        rect.h - 1
    };
    let s = mode_string_of(buf, point);
    let line = dash_out(s.as_str(), rect.w as usize);
    emit(out, DrawOp::MoveTo(rect.x, rect.y + last));
    if selected {
        set_highlight(out, faces.mode_line);
    } else {
        emit(out, DrawOp::Dim);
    }
    emit(out, DrawOp::Print(line));
    clear_highlight(out);
    assert(models(out@) =~= models(old(out)@) + mode_line_ops(faces@, buf@, p));
}

fn draw_divider(out: &mut Vec<DrawOp>, rect: Rect)
    requires
        fits(rect),
        rect.x > 0,
    ensures
        models(final(out)@) == models(old(out)@) + divider_ops(rect, rect.h as int),
{
    let ghost base = models(out@);
    let mut row: u16 = 0;
    assert(base + divider_ops(rect, 0) =~= base);
    while row < rect.h
        invariant
            row <= rect.h,
            fits(rect),
            rect.x > 0,
            models(out@) == base + divider_ops(rect, row as int),
        decreases rect.h - row,
    {
        emit(out, DrawOp::MoveTo(rect.x - 1, rect.y + row));
        emit(out, DrawOp::Print(copy("│")));
        assert(models(out@) =~= base + divider_ops(rect, row + 1));
        row = row + 1;
    }
}

fn pane(ed: &Editor, id: WindowId) -> (r: (usize, usize, usize))
    requires
        wf(ed@),
        leaf(ed@.windows.root, id) is Some,
    ensures
        r.0 < ed.buffers@.len(),
        ed.buffers@[r.0 as int]@ == window_buf(ed@, id),
        forall|rect: Rect|
            #![trigger pane_of(ed@, id, rect)]
            r.1 == pane_of(ed@, id, rect).point && r.2 == pane_of(ed@, id, rect).top,
        r.1 <= window_buf(ed@, id).text.len(),
        r.2 < line_count(window_buf(ed@, id).text),
{
    proof {
        reveal(wf);
        lemma_buf_index(ed@.buffers, leaf(ed@.windows.root, id)->0.buffer);
    }
    let win = ed.windows.find(id).unwrap();
    let i: usize = ed.buffer_index(win.buffer).unwrap();
    let buf = &ed.buffers[i];
    let n: usize = buf.len_chars();
    let last: usize = buf.len_lines() - 1;
    let point: usize = if win.point < n {
        win.point
    } else {
        n
    };
    let top: usize = if win.top_line < last {
        win.top_line
    } else {
        last
    };
    (i, point, top)
}

fn draw_window(ed: &Editor, out: &mut Vec<DrawOp>, id: WindowId, rect: Rect)
    requires
        wf(ed@),
        leaf(ed@.windows.root, id) is Some,
        fits(rect),
    ensures
        models(final(out)@) == models(old(out)@) + pane_ops(
            ed@,
            window_buf(ed@, id),
            pane_of(ed@, id, rect),
        ),
{
    let (i, point, top) = pane(ed, id);
    let ghost p = pane_of(ed@, id, rect);
    let selected = id == ed.windows.selected;
    assert(p == (Pane { rect, point: point as int, top: top as int, selected }));
    let buf = &ed.buffers[i];
    draw_rows(ed, out, buf, rect, point, top, selected);
    draw_mode_line(out, rect, buf, point, top, selected, &ed.faces);
    if rect.x > 0 {
        draw_divider(out, rect);
    }
    assert(models(out@) =~= models(old(out)@) + pane_ops(ed@, buf@, p));
}

/// Each window of a layout fits where the whole does.
proof fn lemma_placed_fits(node: Node, rect: Rect)
    requires
        fits(rect),
    ensures
        placed(node, rect).len() == ids(node).len(),
        forall|i: int|
            0 <= i < ids(node).len() ==> (#[trigger] placed(node, rect)[i]).0 == ids(node)[i]
                && fits(placed(node, rect)[i].1),
    decreases node,
{
    lemma_placed_order(node, rect);
    match node {
        Node::Leaf(w) => {},
        Node::Split { dir, first, second } => {
            lemma_placed_fits(*first, crate::window::first_half(dir, rect));
            lemma_placed_fits(*second, crate::window::second_half(dir, rect));
        },
    }
}

fn draw_windows(ed: &Editor, out: &mut Vec<DrawOp>)
    requires
        wf(ed@),
    ensures
        models(final(out)@) == models(old(out)@) + windows_ops(
            ed@,
            placed(ed@.windows.root, area_of(ed@)),
            ids(ed@.windows.root).len() as int,
        ),
{
    let ghost base = models(out@);
    let area = ed.window_area();
    let all = ed.windows.layout(area);
    proof {
        lemma_placed_fits(ed@.windows.root, area);
    }
    let mut i: usize = 0;
    assert(base + windows_ops(ed@, all@, 0) =~= base);
    while i < all.len()
        invariant
            i <= all@.len(),
            wf(ed@),
            all@.len() == ids(ed@.windows.root).len(),
            forall|k: int|
                0 <= k < all@.len() ==> (#[trigger] all@[k]).0 == ids(ed@.windows.root)[k]
                    && fits(all@[k].1),
            models(out@) == base + windows_ops(ed@, all@, i as int),
        decreases all@.len() - i,
    {
        let (id, rect) = all[i];
        proof {
            assert(all@[i as int].0 == ids(ed@.windows.root)[i as int]);
            crate::window::lemma_leaf(ed@.windows.root, id);
        }
        draw_window(ed, out, id, rect);
        assert(models(out@) =~= base + windows_ops(ed@, all@, i + 1));
        i = i + 1;
    }
}

// ---- candidates, echo line and cursor --------------------------------------

/// `s` cut off at `width` chars, and filled up with spaces to `width` columns.
pub open spec fn filled(s: Seq<char>, width: int) -> Seq<char> {
    let cut = s.take(min(s.len() as int, width));
    cut + repeated(' ', minus(width, total_columns(cut, cut.len() as int)) as nat)
}

/// The first candidate that is shown of `len`, when `rows` are shown and `sel`
/// is selected: the selection stands in the middle, or nearer to an end of the
/// list.
pub open spec fn first_shown(len: int, rows: int, sel: int) -> int {
    min(minus(sel, rows / 2), len - rows)
}

/// What prints the first `n` candidate rows.
pub open spec fn candidates_ops(
    p: PromptModel,
    size: (u16, u16),
    rows: int,
    n: int,
) -> Seq<OpModel>
    decreases n,
{
    let sel = min(p.selected as int, p.completions.len() - 1);
    let at = first_shown(p.completions.len() as int, rows, sel) + n - 1;
    if n <= 0 {
        Seq::empty()
    } else {
        candidates_ops(p, size, rows, n - 1) + seq![
            OpModel::MoveTo(0, minus(size.1 as int, 1 + rows - (n - 1))),
            if at == sel {
                OpModel::Reverse
            } else {
                OpModel::ResetAttributes
            },
            OpModel::Print(filled(p.completions[at], size.0 as int)),
            OpModel::ResetAttributes,
        ]
    }
}

/// What prints the candidate rows, if there are any.
pub open spec fn completions_ops(e: EditorModel) -> Seq<OpModel> {
    match e.input {
        InputModel::Prompt(p) => candidates_ops(
            p,
            e.term_size,
            candidate_rows(e),
            candidate_rows(e),
        ),
        _ => Seq::empty(),
    }
}

/// What the echo line says.
pub open spec fn echo_text(e: EditorModel) -> Seq<char> {
    match e.input {
        InputModel::Prompt(p) => p.prompt + p.input,
        InputModel::ISearch(s) => isearch_text(s),
        InputModel::QueryReplace(s) => replace_text(s),
        _ => match e.echo {
            Some(s) => s,
            None => Seq::empty(),
        },
    }
}

/// What prints the echo line.
pub open spec fn echo_ops(e: EditorModel) -> Seq<OpModel> {
    seq![
        OpModel::MoveTo(0, minus(e.term_size.1 as int, 1)),
        OpModel::Print(filled(echo_text(e), e.term_size.0 as int)),
    ]
}

/// Where the cursor goes in the selected window; nowhere if point is not shown.
pub open spec fn window_cursor(e: EditorModel) -> Option<(int, int)> {
    let id = e.windows.selected;
    let rect = rect_of(e, id);
    let b = window_buf(e, id);
    let p = pane_of(e, id, rect);
    let line = line_of(b.text, p.point);
    let x = shown_column(b.text, p.point) + gutter_of(e, b, rect);
    if p.top <= line < p.top + text_rows(rect) && x < rect.w {
        Some((rect.x + x, rect.y + line - p.top))
    } else {
        None
    }
}

/// Where the cursor goes: to the prompt while there is one, else to point.
pub open spec fn cursor_at(e: EditorModel) -> Option<(int, int)> {
    match e.input {
        InputModel::Prompt(p) => {
            let s = p.prompt + p.input.take(min(p.cursor, p.input.len() as int));
            Some(
                (
                    min(
                        total_columns(s, s.len() as int),
                        minus(e.term_size.0 as int, 1),
                    ),
                    minus(e.term_size.1 as int, 1),
                ),
            )
        },
        _ => window_cursor(e),
    }
}

/// A frame: the windows, the candidates above the echo line, the echo line, and
/// the cursor.
pub open spec fn frame_ops(e: EditorModel) -> Seq<OpModel> {
    seq![OpModel::HideCursor] + windows_ops(
        e,
        placed(e.windows.root, area_of(e)),
        ids(e.windows.root).len() as int,
    ) + completions_ops(e) + echo_ops(e) + match cursor_at(e) {
        Some((x, y)) => seq![OpModel::MoveTo(x, y), OpModel::ShowCursor],
        None => Seq::empty(),
    }
}

fn columns_of(v: &Vec<char>, n: usize) -> (r: usize)
    requires
        n <= v@.len(),
    ensures
        r == total_columns(v@, n as int),
{
    let mut r: usize = 0;
    for i in 0..n
        invariant
            n <= v@.len(),
            r == total_columns(v@, i as int),
    {
        r = column_sum(r, columns_for(v[i]));
    }
    r
}

fn fill_line(s: &str, width: usize) -> (r: String)
    ensures
        r@ == filled(s@, width as int),
{
    let v = to_chars(s);
    let n: usize = if v.len() < width {
        v.len()
    } else {
        width
    };
    let cut = from_chars(&v, 0, n);
    assert(cut@ =~= s@.take(min(s@.len() as int, width as int)));
    let c = to_chars(cut.as_str());
    let used: usize = columns_of(&c, c.len());
    let pad: usize = if used < width {
        width - used
    } else {
        0
    };
    let fill = repeat(' ', pad);
    cat2(cut.as_str(), fill.as_str())
}

fn draw_candidates(out: &mut Vec<DrawOp>, p: &Prompt, size: (u16, u16), rows: usize)
    requires
        rows <= p@.completions.len(),
        rows <= MAX_COMPLETION_ROWS,
    ensures
        models(final(out)@) == models(old(out)@) + candidates_ops(p@, size, rows as int, rows as int),
{
    let ghost base = models(out@);
    assert(base + candidates_ops(p@, size, rows as int, 0) =~= base);
    if rows == 0 {
        return ;
    }
    let len: usize = p.completions.len();
    let sel: usize = if p.selected < len - 1 {
        p.selected
    } else {
        len - 1
    };
    let half: usize = rows / 2;
    let high: usize = if sel < half {
        0
    } else {
        sel - half
    };
    let start: usize = if high < len - rows {
        high
    } else {
        len - rows
    };
    let mut i: usize = 0;
    while i < rows
        invariant
            i <= rows <= len,
            rows <= MAX_COMPLETION_ROWS,
            len == p.completions@.len(),
            sel == min(p.selected as int, len - 1),
            start == first_shown(len as int, rows as int, sel as int),
            start <= len - rows,
            models(out@) == base + candidates_ops(p@, size, rows as int, i as int),
        decreases rows - i,
    {
        let below: u16 = 1 + (rows - i) as u16;
        let y: u16 = if size.1 < below {
            0
        } else {
            size.1 - below
        };
        let line = fill_line(p.completions[start + i].as_str(), size.0 as usize);
        emit(out, DrawOp::MoveTo(0, y));
        if start + i == sel {
            emit(out, DrawOp::Reverse);
        } else {
            emit(out, DrawOp::ResetAttributes);
        }
        emit(out, DrawOp::Print(line));
        emit(out, DrawOp::ResetAttributes);
        assert(p@.completions[start + i] == p.completions@[start + i]@);
        assert(models(out@) =~= base + candidates_ops(p@, size, rows as int, i + 1));
        i = i + 1;
    }
}

/// The candidate rows, directly above the echo line. The window layout shrank
/// by the same row count, so nothing here overdraws a window.
fn draw_completions(ed: &Editor, out: &mut Vec<DrawOp>)
    ensures
        models(final(out)@) == models(old(out)@) + completions_ops(ed@),
{
    match &ed.input {
        InputMode::Prompt(p) => {
            let rows: usize = ed.completion_rows() as usize;
            draw_candidates(out, p, ed.term_size, rows);
        },
        _ => {
            assert(models(out@) + completions_ops(ed@) =~= models(out@));
        },
    }
}

fn echo_of(ed: &Editor) -> (r: String)
    ensures
        r@ == echo_text(ed@),
{
    match &ed.input {
        InputMode::Prompt(p) => cat2(p.prompt.as_str(), p.input.as_str()),
        InputMode::ISearch(s) => isearch_echo(s),
        InputMode::QueryReplace(s) => query_replace_echo(s),
        _ => match &ed.echo {
            Some(s) => copy(s.as_str()),
            None => {
                let r = String::new();
                assert(r@ =~= Seq::<char>::empty());
                r
            },
        },
    }
}

fn draw_echo_line(ed: &Editor, out: &mut Vec<DrawOp>)
    ensures
        models(final(out)@) == models(old(out)@) + echo_ops(ed@),
{
    let content = echo_of(ed);
    let line = fill_line(content.as_str(), ed.term_size.0 as usize);
    let y: u16 = if ed.term_size.1 == 0 {
        0
    } else {
        ed.term_size.1 - 1
    };
    emit(out, DrawOp::MoveTo(0, y));
    emit(out, DrawOp::Print(line));
    assert(models(out@) =~= models(old(out)@) + echo_ops(ed@));
}

/// A cell.
pub open spec fn cell_model(c: Option<(u16, u16)>) -> Option<(int, int)> {
    match c {
        Some((x, y)) => Some((x as int, y as int)),
        None => None,
    }
}

proof fn lemma_rect_fits(s: Seq<(WindowId, Rect)>, id: WindowId, i: int)
    requires
        forall|k: int| 0 <= k < s.len() ==> fits((#[trigger] s[k]).1),
    ensures
        match crate::layout::rect_in(s, id, i) {
            Some(r) => fits(r),
            None => true,
        },
    decreases s.len() - i,
{
    if 0 <= i < s.len() && s[i].0 != id {
        lemma_rect_fits(s, id, i + 1);
    }
}

fn point_cursor(ed: &Editor) -> (r: Option<(u16, u16)>)
    requires
        wf(ed@),
    ensures
        cell_model(r) == window_cursor(ed@),
{
    proof {
        lemma_cur(ed@);
        let all = placed(ed@.windows.root, area_of(ed@));
        assert(fits(area_of(ed@)));
        lemma_placed_fits(ed@.windows.root, area_of(ed@));
        lemma_rect_fits(all, ed@.windows.selected, 0);
    }
    let id: WindowId = ed.windows.selected;
    let rect = ed.window_rect(id);
    let (i, point, top) = pane(ed, id);
    assert(pane_of(ed@, id, rect).point == point);
    let buf = &ed.buffers[i];
    let line: usize = buf.char_to_line(point);
    if line < top || line - top >= rect.text_height() {
        return None;
    }
    let gutter: usize = gutter_width(ed, buf, &rect);
    let col: usize = column_sum(display_col(buf, point), gutter);
    if col < rect.w as usize {
        Some((rect.x + col as u16, rect.y + (line - top) as u16))
    } else {
        None
    }
}

fn prompt_cursor(p: &Prompt, size: (u16, u16)) -> (r: (u16, u16))
    ensures
        ({
            let s = p@.prompt + p@.input.take(min(p@.cursor, p@.input.len() as int));
            &&& r.0 == min(total_columns(s, s.len() as int), minus(size.0 as int, 1))
            &&& r.1 == minus(size.1 as int, 1)
        }),
{
    let v = to_chars(p.input.as_str());
    let n: usize = if p.cursor < v.len() {
        p.cursor
    } else {
        v.len()
    };
    let before = from_chars(&v, 0, n);
    assert(before@ =~= p@.input.take(min(p@.cursor, p@.input.len() as int)));
    let s = cat2(p.prompt.as_str(), before.as_str());
    let c = to_chars(s.as_str());
    let col: usize = columns_of(&c, c.len());
    let last: u16 = if size.0 == 0 {
        0
    } else {
        size.0 - 1
    };
    let y: u16 = if size.1 == 0 {
        0
    } else {
        size.1 - 1
    };
    if col < last as usize {
        (col as u16, y)
    } else {
        (last, y)
    }
}

/// What a frame of the editor writes to the terminal.
pub fn frame(ed: &Editor) -> (r: Vec<DrawOp>)
    requires
        wf(ed@),
    ensures
        models(r@) == frame_ops(ed@),
{
    let mut out: Vec<DrawOp> = Vec::new();
    assert(models(out@) =~= Seq::<OpModel>::empty());
    emit(&mut out, DrawOp::HideCursor);
    draw_windows(ed, &mut out);
    draw_completions(ed, &mut out);
    draw_echo_line(ed, &mut out);
    let at = match &ed.input {
        InputMode::Prompt(p) => Some(prompt_cursor(p, ed.term_size)),
        _ => point_cursor(ed),
    };
    assert(cell_model(at) == cursor_at(ed@));
    if let Some((x, y)) = at {
        emit(&mut out, DrawOp::MoveTo(x, y));
        emit(&mut out, DrawOp::ShowCursor);
    }
    assert(models(out@) =~= frame_ops(ed@));
    out
}

// ---- a whole frame ---------------------------------------------------------

/// Whether a window of the frame shows the buffer with this id.
pub open spec fn visible(e: EditorModel, id: usize) -> bool {
    shown_before(e, id, ids(e.windows.root).len() as int)
}

/// Whether one of the first `n` windows shows the buffer with this id.
pub open spec fn shown_before(e: EditorModel, id: usize, n: int) -> bool {
    exists|k: int|
        0 <= k < n && (#[trigger] leaf(e.windows.root, ids(e.windows.root)[k]))->0.buffer == id
}

/// A buffer with its highlights brought up to date.
pub open spec fn resyntaxed(b: BufferModel) -> BufferModel {
    match b.syntax {
        Some(s) => BufferModel { syntax: Some(brought_current(s, b.text)), ..b },
        None => b,
    }
}

/// The editor with the highlights of its visible buffers brought up to date.
pub open spec fn rehighlighted(e: EditorModel) -> EditorModel {
    EditorModel {
        buffers: Seq::new(
            e.buffers.len(),
            |i: int|
                if visible(e, e.buffers[i].id) {
                    resyntaxed(e.buffers[i])
                } else {
                    e.buffers[i]
                },
        ),
        ..e
    }
}

fn rehighlight_buffer(buf: &mut Buffer)
    ensures
        final(buf)@ == resyntaxed(old(buf)@),
{
    if let Some(s) = &mut buf.syntax {
        s.ensure_current(&buf.rope);
    }
}

/// Rehighlight any visible buffer whose text changed since the last frame: at
/// most once per buffer per edit.
pub fn rehighlight(ed: &mut Editor)
    requires
        wf(old(ed)@),
    ensures
        final(ed)@ == rehighlighted(old(ed)@),
        wf(final(ed)@),
{
    let ghost e = ed@;
    let leaves = ed.windows.leaves();
    let mut k: usize = 0;
    assert(ed@ =~= EditorModel { buffers: ed@.buffers, ..e });
    while k < leaves.len()
        invariant
            k <= leaves@.len(),
            leaves@ == ids(e.windows.root),
            wf(e),
            ed@ == (EditorModel { buffers: ed@.buffers, ..e }),
            ed@.buffers.len() == e.buffers.len(),
            buf_ids(ed@.buffers) == buf_ids(e.buffers),
            forall|i: int|
                0 <= i < e.buffers.len() ==> if shown_before(
                    e,
                    (#[trigger] e.buffers[i]).id,
                    k as int,
                ) {
                    ed@.buffers[i] == resyntaxed(e.buffers[i])
                } else {
                    ed@.buffers[i] == e.buffers[i]
                },
        decreases leaves@.len() - k,
    {
        let id: WindowId = leaves[k];
        let ghost before = ed@.buffers;
        proof {
            reveal(wf);
            crate::window::lemma_leaf(e.windows.root, id);
            assert(leaves@.contains(id));
            lemma_buf_index(e.buffers, leaf(e.windows.root, id)->0.buffer);
        }
        let shown: BufferId = ed.windows.find(id).unwrap().buffer;
        let j: usize = index_in(&ed.buffers, shown).unwrap();
        rehighlight_buffer(&mut ed.buffers[j]);
        proof {
            let after = ed@.buffers;
            assert(e.buffers[j as int].id == shown);
            assert(after =~= before.update(j as int, after[j as int]));
            assert(buf_ids(after) =~= buf_ids(e.buffers));
            assert(ed@ =~= EditorModel { buffers: ed@.buffers, ..e });
            assert forall|i: int| 0 <= i < e.buffers.len() implies if shown_before(
                e,
                (#[trigger] e.buffers[i]).id,
                k + 1,
            ) {
                after[i] == resyntaxed(e.buffers[i])
            } else {
                after[i] == e.buffers[i]
            } by {
                let bid = e.buffers[i].id;
                if i == j {
                    assert(leaf(e.windows.root, ids(e.windows.root)[k as int])->0.buffer == bid);
                    assert(shown_before(e, bid, k + 1));
                } else {
                    assert(buf_ids(e.buffers)[i] == bid);
                    assert(buf_ids(e.buffers)[j as int] == shown);
                    assert(bid != shown);
                    if shown_before(e, bid, k + 1) {
                        let m = choose|m: int|
                            0 <= m < k + 1 && (#[trigger] leaf(
                                e.windows.root,
                                ids(e.windows.root)[m],
                            ))->0.buffer == bid;
                        assert(m != k);
                        assert(shown_before(e, bid, k as int));
                    }
                }
            }
        }
        k = k + 1;
    }
    proof {
        reveal(wf);
        let r = ed@;
        assert forall|i: int| 0 <= i < r.buffers.len() implies (#[trigger] r.buffers[i]).id
            < r.next_buffer_id by {
            assert(buf_ids(r.buffers)[i] == buf_ids(e.buffers)[i]);
            assert(e.buffers[i].id < e.next_buffer_id);
        }
        assert(r.buffers =~= rehighlighted(e).buffers);
    }
}

/// The editor ready to be drawn: windows inside their buffers, and point of the
/// selected one on screen.
pub open spec fn prepared(e: EditorModel) -> EditorModel {
    point_shown(windows_fitted(e))
}

/// Draw a frame: get the editor ready, bring the highlights of what is visible
/// up to date, and say what is to be written to the terminal.
pub fn draw(ed: &mut Editor) -> (r: Vec<DrawOp>)
    requires
        wf(old(ed)@),
    ensures
        final(ed)@ == rehighlighted(prepared(old(ed)@)),
        wf(final(ed)@),
        models(r@) == frame_ops(final(ed)@),
{
    clamp_windows(ed);
    ensure_point_visible(ed);
    rehighlight(ed);
    frame(ed)
}

// ---- laws ------------------------------------------------------------------

proof fn lemma_placed_with(node: Node, id: WindowId, w: Window, rect: Rect)
    requires
        w.id == id,
    ensures
        placed(crate::window::with_leaf(node, id, w), rect) == placed(node, rect),
    decreases node,
{
    match node {
        Node::Leaf(x) => {},
        Node::Split { dir, first, second } => {
            lemma_placed_with(*first, id, w, crate::window::first_half(dir, rect));
            lemma_placed_with(*second, id, w, crate::window::second_half(dir, rect));
        },
    }
}

/// Once the editor is ready to be drawn, the line of point is on screen.
pub proof fn law_point_on_screen(e: EditorModel)
    requires
        wf(e),
    ensures
        ({
            let p = prepared(e);
            let line = line_of(cur_buf(p).text, cur_point(p));
            cur_win(p).top_line <= line < cur_win(p).top_line + height_of(p)
        }),
{
    let m = windows_fitted(e);
    let f = fitted(e.buffers);
    assert forall|w: Window| (#[trigger] f(w)).id == w.id by {}
    lemma_fitted_wf(e);
    lemma_placed_map(e.windows.root, f, area_of(e));
    lemma_cur(m);
    let t = cur_buf(m).text;
    let w = Window {
        point: cur_point(m) as usize,
        top_line: top_showing(
            cur_win(m).top_line as int,
            line_of(t, cur_point(m)),
            height_of(m),
        ) as usize,
        ..cur_win(m)
    };
    lemma_put(m, w, cur_buf(m));
    let p = prepared(e);
    assert(p == put(m, w, cur_buf(m)));
    lemma_placed_with(m.windows.root, m.windows.selected, w, area_of(m));
    assert(area_of(p) == area_of(m));
    assert(height_of(p) == height_of(m));
    lemma_line_around(t, cur_point(m));
    assert(cur_win(p) == w);
    assert(cur_buf(p) == cur_buf(m));
    assert(cur_point(p) == cur_point(m));
    crate::lines::lemma_line_of_bound(t, cur_point(m));
    assert(line_of(t, cur_point(m)) <= cur_point(m) <= cur_win(m).point);
}

/// Printing some columns of spaces, each one column wide, takes that many.
proof fn lemma_spaces(k: int, n: int)
    requires
        0 <= n <= k <= usize::MAX,
    ensures
        total_columns(repeated(' ', k as nat), n) == n,
    decreases n,
{
    if n > 0 {
        lemma_spaces(k, n - 1);
    }
}

/// The columns that a list of things prints.
pub open spec fn printed_columns(ops: Seq<OpModel>) -> int
    decreases ops.len(),
{
    if ops.len() == 0 {
        0
    } else {
        printed_columns(ops.drop_last()) + op_columns(ops.last())
    }
}

proof fn lemma_printed_concat(a: Seq<OpModel>, b: Seq<OpModel>)
    ensures
        printed_columns(a + b) == printed_columns(a) + printed_columns(b),
    decreases b.len(),
{
    if b.len() == 0 {
        assert(a + b =~= a);
    } else {
        lemma_printed_concat(a, b.drop_last());
        assert((a + b).drop_last() =~= a + b.drop_last());
    }
}

proof fn lemma_printed_none(a: Seq<OpModel>)
    requires
        forall|i: int| 0 <= i < a.len() ==> !((#[trigger] a[i]) is Print),
    ensures
        printed_columns(a) == 0,
    decreases a.len(),
{
    if a.len() > 0 {
        lemma_printed_none(a.drop_last());
    }
}

proof fn lemma_printed_one(op: OpModel)
    ensures
        printed_columns(seq![op]) == op_columns(op),
{
    reveal_with_fuel(printed_columns, 2);
    assert(seq![op].drop_last() =~= Seq::<OpModel>::empty());
}

proof fn lemma_column_grows(t: Seq<char>, i: int)
    requires
        0 <= i < t.len(),
    ensures
        0 <= line_column(t, i) <= line_column(t, i + 1) <= usize::MAX,
    decreases i,
{
    if i > 0 {
        lemma_column_grows(t, i - 1);
    }
    assert(glyph(t[i], line_column(t, i)) >= 0);
}

proof fn lemma_printed_chars(l: LineModel, n: int, highlight: Option<FaceColor>)
    requires
        0 <= n <= l.text.len(),
        line_column(l.text, n) < usize::MAX,
    ensures
        printed_columns(chars_ops(l, n, highlight)) == line_column(l.text, n),
        line_column(l.text, n) >= 0,
    decreases n,
{
    if n > 0 {
        let t = l.text;
        lemma_column_grows(t, n - 1);
        lemma_printed_chars(l, n - 1, highlight);
        let a = chars_ops(l, n - 1, highlight);
        let b = style_ops(l, n - 1, highlight);
        let op = char_op(t, n - 1);
        lemma_printed_concat(a, b);
        lemma_printed_concat(a + b, seq![op]);
        lemma_printed_none(b);
        lemma_printed_one(op);
        let w = glyph(t[n - 1], line_column(t, n - 1));
        if t[n - 1] == '\t' {
            lemma_spaces(w, w);
        } else {
            let one = seq![t[n - 1]];
            reveal_with_fuel(total_columns, 2);
            assert(total_columns(one, 1) == at_most_max(char_width(t[n - 1])));
        }
    }
}

/// Printing a line fills exactly the width of its window, whatever the line
/// holds: nothing of what was there before is left, and nothing beside the window
/// is overwritten.
pub proof fn law_row_filled(l: LineModel, rect: Rect, row: int, highlight: Option<FaceColor>)
    requires
        rect.w > 0,
    ensures
        printed_columns(line_ops(l, rect, row, highlight)) == rect.w,
{
    let w = rect.w as int;
    let t = l.text;
    let n = shown_chars(t, w, 0);
    lemma_shown_columns(t, w, 0);
    let cut = n < t.len();
    let col = line_column(t, n);
    lemma_printed_chars(l, n, highlight);
    let head = seq![OpModel::MoveTo(rect.x as int, rect.y + row)];
    let mid = text_ops(l, w, highlight);
    let styled = style_at(l, last_styled(t, n)) != CharStyle::Plain;
    let tail = ending_ops(styled, cut, col, w);
    lemma_printed_one(head[0]);
    lemma_printed_concat(head, mid);
    lemma_printed_concat(head + mid, tail);
    let s = if cut {
        style_ops(l, n, highlight)
    } else {
        Seq::empty()
    };
    lemma_printed_concat(chars_ops(l, n, highlight), s);
    lemma_printed_none(s);
    let used = if cut {
        col + 1
    } else {
        col
    };
    let e1 = if styled {
        plain_ops()
    } else {
        Seq::empty()
    };
    let e2 = if cut {
        seq![OpModel::Print("$"@)]
    } else {
        Seq::empty()
    };
    let e3 = if used < w {
        seq![OpModel::Print(repeated(' ', (w - used) as nat))]
    } else {
        Seq::empty()
    };
    assert(tail == e1 + e2 + e3);
    lemma_printed_concat(e1, e2);
    lemma_printed_concat(e1 + e2, e3);
    lemma_printed_none(e1);
    if cut {
        reveal_strlit("$");
        reveal_with_fuel(total_columns, 2);
        assert("$"@ =~= seq!['$']);
        lemma_printed_one(e2[0]);
    }
    if used < w {
        lemma_spaces(w - used, w - used);
        lemma_printed_one(e3[0]);
    }
}

/// A mode line is as long as its window is wide.
pub proof fn law_mode_line_width(b: BufferModel, point: int, width: nat)
    ensures
        dashed(mode_text(b, point), width as int).len() == width,
{
}

} // verus!
