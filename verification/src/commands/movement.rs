//! Point motion and scrolling.

use crate::buffer::Buffer;
use crate::commands::basic::{count, times};
use crate::editor::{
    clamped, cur_buf, cur_point, cur_win, lemma_wf_same, moved, put, said, wf, Editor, EditorModel,
};
use crate::input::{KindModel, PromptKind};
use crate::layout::{asked, height_of};
use crate::lines::{clip, end_at, line_begin, line_count, line_of, max, min, minus, start_at};
use crate::window::Window;
use vstd::prelude::*;

verus! {

/// What `char::is_alphanumeric` gives.
pub uninterp spec fn is_alphanumeric(c: char) -> bool;

/// `char::is_alphanumeric`; its result is named, and nothing more is claimed
/// of it.
#[verifier::external_body]
fn is_word(c: char) -> (b: bool)
    ensures
        b == is_alphanumeric(c),
{
    c.is_alphanumeric()
}

// ---- words -----------------------------------------------------------------

/// The first position at or after `p` that holds no word char, or the end.
pub open spec fn skip_in_word(t: Seq<char>, p: int) -> int
    decreases t.len() - p,
{
    if 0 <= p < t.len() && is_alphanumeric(t[p]) {
        skip_in_word(t, p + 1)
    } else {
        p
    }
}

/// The first position at or after `p` that holds a word char, or the end.
pub open spec fn skip_to_word(t: Seq<char>, p: int) -> int
    decreases t.len() - p,
{
    if 0 <= p < t.len() && !is_alphanumeric(t[p]) {
        skip_to_word(t, p + 1)
    } else {
        p
    }
}

/// The end of the word at or after `p`.
pub open spec fn word_end(t: Seq<char>, p: int) -> int {
    skip_in_word(t, skip_to_word(t, p))
}

/// The last position at or before `p` with no word char before it.
pub open spec fn back_in_word(t: Seq<char>, p: int) -> int
    decreases p,
{
    if 0 < p <= t.len() && is_alphanumeric(t[p - 1]) {
        back_in_word(t, p - 1)
    } else {
        p
    }
}

/// The last position at or before `p` with a word char before it, or 0.
pub open spec fn back_to_word(t: Seq<char>, p: int) -> int
    decreases p,
{
    if 0 < p <= t.len() && !is_alphanumeric(t[p - 1]) {
        back_to_word(t, p - 1)
    } else {
        p
    }
}

/// The start of the word before `p`.
pub open spec fn word_start(t: Seq<char>, p: int) -> int {
    back_in_word(t, back_to_word(t, p))
}

/// The end of the `n`-th word after `p`.
pub open spec fn word_ends(t: Seq<char>, p: int, n: int) -> int
    decreases n,
{
    if n <= 0 {
        p
    } else {
        word_end(t, word_ends(t, p, n - 1))
    }
}

/// The start of the `n`-th word before `p`.
pub open spec fn word_starts(t: Seq<char>, p: int, n: int) -> int
    decreases n,
{
    if n <= 0 {
        p
    } else {
        word_start(t, word_starts(t, p, n - 1))
    }
}

/// Char index after skipping to the end of the next word.
pub fn word_end_after(buf: &Buffer, pos: usize) -> (r: usize)
    requires
        pos <= buf@.text.len(),
    ensures
        r == word_end(buf@.text, pos as int),
        pos <= r <= buf@.text.len(),
{
    let len: usize = buf.len_chars();
    let mut p: usize = pos;
    while p < len && !is_word(buf.rope.char(p))
        invariant
            pos <= p <= len,
            len == buf@.text.len(),
            skip_to_word(buf@.text, pos as int) == skip_to_word(buf@.text, p as int),
        decreases len - p,
    {
        p = p + 1;
    }
    let ghost q = p as int;
    while p < len && is_word(buf.rope.char(p))
        invariant
            pos <= p <= len,
            len == buf@.text.len(),
            skip_in_word(buf@.text, q) == skip_in_word(buf@.text, p as int),
        decreases len - p,
    {
        p = p + 1;
    }
    p
}

/// Char index of the start of the previous word.
pub fn word_start_before(buf: &Buffer, pos: usize) -> (r: usize)
    requires
        pos <= buf@.text.len(),
    ensures
        r == word_start(buf@.text, pos as int),
        r <= pos,
{
    let mut p: usize = pos;
    while p > 0 && !is_word(buf.rope.char(p - 1))
        invariant
            p <= pos <= buf@.text.len(),
            back_to_word(buf@.text, pos as int) == back_to_word(buf@.text, p as int),
        decreases p,
    {
        p = p - 1;
    }
    let ghost q = p as int;
    while p > 0 && is_word(buf.rope.char(p - 1))
        invariant
            p <= pos <= buf@.text.len(),
            back_in_word(buf@.text, q) == back_in_word(buf@.text, p as int),
        decreases p,
    {
        p = p - 1;
    }
    p
}

/// A word's end lies at or after the position, in the text; a word's start at
/// or before it.
pub proof fn law_word_bounds(t: Seq<char>, p: int)
    requires
        0 <= p <= t.len(),
    ensures
        p <= word_end(t, p) <= t.len(),
        0 <= word_start(t, p) <= p,
{
    lemma_skip_to_word(t, p);
    lemma_skip_in_word(t, skip_to_word(t, p));
    lemma_back_to_word(t, p);
    lemma_back_in_word(t, back_to_word(t, p));
}

proof fn lemma_skip_to_word(t: Seq<char>, p: int)
    requires
        0 <= p <= t.len(),
    ensures
        p <= skip_to_word(t, p) <= t.len(),
    decreases t.len() - p,
{
    if p < t.len() && !is_alphanumeric(t[p]) {
        lemma_skip_to_word(t, p + 1);
    }
}

proof fn lemma_skip_in_word(t: Seq<char>, p: int)
    requires
        0 <= p <= t.len(),
    ensures
        p <= skip_in_word(t, p) <= t.len(),
    decreases t.len() - p,
{
    if p < t.len() && is_alphanumeric(t[p]) {
        lemma_skip_in_word(t, p + 1);
    }
}

proof fn lemma_back_to_word(t: Seq<char>, p: int)
    requires
        0 <= p <= t.len(),
    ensures
        0 <= back_to_word(t, p) <= p,
    decreases p,
{
    if p > 0 && !is_alphanumeric(t[p - 1]) {
        lemma_back_to_word(t, p - 1);
    }
}

proof fn lemma_back_in_word(t: Seq<char>, p: int)
    requires
        0 <= p <= t.len(),
    ensures
        0 <= back_in_word(t, p) <= p,
    decreases p,
{
    if p > 0 && is_alphanumeric(t[p - 1]) {
        lemma_back_in_word(t, p - 1);
    }
}

// ---- motion ----------------------------------------------------------------

/// The editor after point moves forward by some chars.
pub open spec fn char_forward(e: EditorModel, n: Option<u32>) -> EditorModel {
    moved(e, clip(cur_buf(e).text, cur_point(e) + times(n)))
}

/// The editor after point moves backward by some chars.
pub open spec fn char_backward(e: EditorModel, n: Option<u32>) -> EditorModel {
    moved(e, minus(cur_point(e), times(n)))
}

pub fn forward_char(ed: &mut Editor, n: Option<u32>)
    requires
        wf(old(ed)@),
    ensures
        final(ed)@ == char_forward(old(ed)@, n),
        wf(final(ed)@),
{
    let k: usize = count(n) as usize;
    let (win, buf) = ed.cur();
    let len: usize = buf.len_chars();
    win.point = if k <= len - win.point {
        win.point + k
    } else {
        len
    };
}

pub fn backward_char(ed: &mut Editor, n: Option<u32>)
    requires
        wf(old(ed)@),
    ensures
        final(ed)@ == char_backward(old(ed)@, n),
        wf(final(ed)@),
{
    let k: usize = count(n) as usize;
    let (win, _buf) = ed.cur();
    win.point = if win.point >= k {
        win.point - k
    } else {
        0
    };
}

/// The column that line moves keep: that of the first of consecutive ones.
pub open spec fn goal_of(e: EditorModel) -> int {
    match e.goal_col {
        Some(g) => g as int,
        None => cur_point(e) - start_at(cur_buf(e).text, cur_point(e)),
    }
}

/// The position on line `line` at column `col`, or at the end of a shorter
/// line.
pub open spec fn at_column(t: Seq<char>, line: int, col: int) -> int {
    min(line_begin(t, line) + col, end_at(t, line_begin(t, line)))
}

/// The editor after point moves to line `line`, keeping the goal column.
pub open spec fn line_moved(e: EditorModel, line: int) -> EditorModel {
    EditorModel {
        goal_col: Some(goal_of(e) as usize),
        ..moved(e, at_column(cur_buf(e).text, line, goal_of(e)))
    }
}

/// The editor after point moves down by some lines, not below the last.
pub open spec fn line_down(e: EditorModel, n: Option<u32>) -> EditorModel {
    let t = cur_buf(e).text;
    line_moved(e, min(line_of(t, cur_point(e)) + times(n), line_count(t) - 1))
}

/// The editor after point moves up by some lines, not above the first.
pub open spec fn line_up(e: EditorModel, n: Option<u32>) -> EditorModel {
    line_moved(e, minus(line_of(cur_buf(e).text, cur_point(e)), times(n)))
}

/// The position at column `col` of line `line`.
pub(crate) fn column_on(buf: &Buffer, line: usize, col: usize) -> (r: usize)
    requires
        line < line_count(buf@.text),
    ensures
        r == at_column(buf@.text, line as int, col as int),
        r <= buf@.text.len(),
{
    let start: usize = buf.line_to_char(line);
    let end: usize = buf.line_end(start);
    if col <= end - start {
        start + col
    } else {
        end
    }
}

fn vertical_move(ed: &mut Editor, k: usize, down: bool)
    requires
        wf(old(ed)@),
    ensures
        ({
            let e = old(ed)@;
            let t = cur_buf(e).text;
            let line = line_of(t, cur_point(e));
            final(ed)@ == line_moved(
                e,
                if down {
                    min(line + k, line_count(t) - 1)
                } else {
                    minus(line, k as int)
                },
            )
        }),
        wf(final(ed)@),
{
    let ghost e = ed@;
    let goal_col: Option<usize> = ed.goal_col;
    let (win, buf) = ed.cur();
    let ghost t = buf@.text;
    // Consecutive line moves keep the column of the first one.
    let goal: usize = match goal_col {
        Some(g) => g,
        None => win.point - buf.line_start(win.point),
    };
    let lines: usize = buf.len_lines();
    let at: usize = buf.char_to_line(win.point);
    let line: usize = if down {
        if k <= lines - 1 - at {
            at + k
        } else {
            lines - 1
        }
    } else if at >= k {
        at - k
    } else {
        0
    };
    win.point = column_on(buf, line, goal);
    let ghost e1 = ed@;
    ed.goal_col = Some(goal);
    proof {
        lemma_wf_same(e1, ed@);
        assert(ed@ =~= line_moved(e, line as int));
    }
}

pub fn next_line(ed: &mut Editor, n: Option<u32>)
    requires
        wf(old(ed)@),
    ensures
        final(ed)@ == line_down(old(ed)@, n),
        wf(final(ed)@),
{
    vertical_move(ed, count(n) as usize, true);
}

pub fn previous_line(ed: &mut Editor, n: Option<u32>)
    requires
        wf(old(ed)@),
    ensures
        final(ed)@ == line_up(old(ed)@, n),
        wf(final(ed)@),
{
    vertical_move(ed, count(n) as usize, false);
}

/// The editor after point moves over some words; a count of 0 does nothing.
pub open spec fn word_forward(e: EditorModel, n: Option<u32>) -> EditorModel {
    if times(n) == 0 {
        e
    } else {
        moved(e, word_ends(cur_buf(e).text, cur_point(e), times(n)))
    }
}

/// The editor after point moves back over some words; a count of 0 does
/// nothing.
pub open spec fn word_backward(e: EditorModel, n: Option<u32>) -> EditorModel {
    if times(n) == 0 {
        e
    } else {
        moved(e, word_starts(cur_buf(e).text, cur_point(e), times(n)))
    }
}

pub fn forward_word(ed: &mut Editor, n: Option<u32>)
    requires
        wf(old(ed)@),
    ensures
        final(ed)@ == word_forward(old(ed)@, n),
        wf(final(ed)@),
{
    let k: u32 = count(n);
    if k == 0 {
        return ;
    }
    let (win, buf) = ed.cur();
    let from: usize = win.point;
    let mut p: usize = from;
    let mut i: u32 = 0;
    while i < k
        invariant
            i <= k,
            p <= buf@.text.len(),
            p == word_ends(buf@.text, from as int, i as int),
        decreases k - i,
    {
        p = word_end_after(buf, p);
        i = i + 1;
    }
    win.point = p;
}

pub fn backward_word(ed: &mut Editor, n: Option<u32>)
    requires
        wf(old(ed)@),
    ensures
        final(ed)@ == word_backward(old(ed)@, n),
        wf(final(ed)@),
{
    let k: u32 = count(n);
    if k == 0 {
        return ;
    }
    let (win, buf) = ed.cur();
    let from: usize = win.point;
    let mut p: usize = from;
    let mut i: u32 = 0;
    while i < k
        invariant
            i <= k,
            p <= buf@.text.len(),
            p == word_starts(buf@.text, from as int, i as int),
        decreases k - i,
    {
        p = word_start_before(buf, p);
        i = i + 1;
    }
    win.point = p;
}

pub fn beginning_of_line(ed: &mut Editor, _n: Option<u32>)
    requires
        wf(old(ed)@),
    ensures
        final(ed)@ == moved(old(ed)@, start_at(cur_buf(old(ed)@).text, cur_point(old(ed)@))),
        wf(final(ed)@),
{
    let (win, buf) = ed.cur();
    win.point = buf.line_start(win.point);
}

pub fn end_of_line(ed: &mut Editor, _n: Option<u32>)
    requires
        wf(old(ed)@),
    ensures
        final(ed)@ == moved(old(ed)@, end_at(cur_buf(old(ed)@).text, cur_point(old(ed)@))),
        wf(final(ed)@),
{
    let (win, buf) = ed.cur();
    win.point = buf.line_end(win.point);
}

pub fn beginning_of_buffer(ed: &mut Editor, _n: Option<u32>)
    requires
        wf(old(ed)@),
    ensures
        final(ed)@ == moved(old(ed)@, 0),
        wf(final(ed)@),
{
    let (win, _buf) = ed.cur();
    win.point = 0;
}

pub fn end_of_buffer(ed: &mut Editor, _n: Option<u32>)
    requires
        wf(old(ed)@),
    ensures
        final(ed)@ == moved(old(ed)@, cur_buf(old(ed)@).text.len() as int),
        wf(final(ed)@),
{
    let (win, buf) = ed.cur();
    win.point = buf.len_chars();
}

// ---- scrolling -------------------------------------------------------------

/// The lines that a screenful moves: two lines of context are kept.
pub open spec fn page_of(e: EditorModel) -> int {
    max(minus(height_of(e), 2), 1)
}

fn page(ed: &Editor) -> (n: usize)
    ensures
        n == page_of(ed@),
        n >= 1,
{
    let h: usize = ed.selected_text_height();
    if h > 3 {
        h - 2
    } else {
        1
    }
}

/// The selected window with another top line and point.
pub open spec fn scrolled(e: EditorModel, top: int, p: int) -> EditorModel {
    put(e, Window { top_line: top as usize, point: p as usize, ..cur_win(e) }, cur_buf(e))
}

/// The editor after one screen forward; point goes along where it would leave
/// the screen.
pub open spec fn screen_forward(e: EditorModel) -> EditorModel {
    let t = cur_buf(e).text;
    let last = line_count(t) - 1;
    let top = cur_win(e).top_line as int;
    if top >= last {
        said(clamped(e), "End of buffer"@)
    } else {
        let to = min(top + page_of(e), last);
        scrolled(
            e,
            to,
            if line_of(t, cur_point(e)) < to {
                line_begin(t, to)
            } else {
                cur_point(e)
            },
        )
    }
}

/// The editor after one screen backward; point goes along where it would
/// leave the screen.
pub open spec fn screen_backward(e: EditorModel) -> EditorModel {
    let t = cur_buf(e).text;
    let top = cur_win(e).top_line as int;
    if top == 0 {
        said(clamped(e), "Beginning of buffer"@)
    } else {
        let to = minus(top, page_of(e));
        scrolled(
            e,
            to,
            if line_of(t, cur_point(e)) >= to + height_of(e) {
                line_begin(t, min(to + height_of(e) - 1, line_count(t) - 1))
            } else {
                cur_point(e)
            },
        )
    }
}

pub fn scroll_up_command(ed: &mut Editor, _n: Option<u32>)
    requires
        wf(old(ed)@),
    ensures
        final(ed)@ == screen_forward(old(ed)@),
        wf(final(ed)@),
{
    let ghost e = ed@;
    let page: usize = page(ed);
    let (win, buf) = ed.cur();
    let max_top: usize = buf.len_lines() - 1;
    if win.top_line >= max_top {
        assert(ed@ == clamped(e));
        ed.message("End of buffer");
        return ;
    }
    win.top_line = if page <= max_top - win.top_line {
        win.top_line + page
    } else {
        max_top
    };
    let point_line: usize = buf.char_to_line(win.point);
    if point_line < win.top_line {
        win.point = buf.line_to_char(win.top_line);
    }
}

pub fn scroll_down_command(ed: &mut Editor, _n: Option<u32>)
    requires
        wf(old(ed)@),
    ensures
        final(ed)@ == screen_backward(old(ed)@),
        wf(final(ed)@),
{
    let ghost e = ed@;
    let page: usize = page(ed);
    let height: usize = ed.selected_text_height();
    let (win, buf) = ed.cur();
    if win.top_line == 0 {
        assert(ed@ == clamped(e));
        ed.message("Beginning of buffer");
        return ;
    }
    win.top_line = if win.top_line >= page {
        win.top_line - page
    } else {
        0
    };
    let point_line: usize = buf.char_to_line(win.point);
    if point_line >= win.top_line && point_line - win.top_line >= height {
        let last: usize = win.top_line + (height - 1);
        win.point = buf.line_to_char(last);
    }
}

/// The editor with the line of point in the middle of the screen.
pub open spec fn centered(e: EditorModel) -> EditorModel {
    scrolled(
        e,
        minus(line_of(cur_buf(e).text, cur_point(e)), height_of(e) / 2),
        cur_point(e),
    )
}

pub fn recenter(ed: &mut Editor, _n: Option<u32>)
    requires
        wf(old(ed)@),
    ensures
        final(ed)@ == centered(old(ed)@),
        wf(final(ed)@),
{
    let height: usize = ed.selected_text_height();
    let (win, buf) = ed.cur();
    let point_line: usize = buf.char_to_line(win.point);
    win.top_line = if point_line >= height / 2 {
        point_line - height / 2
    } else {
        0
    };
}

/// The editor with point at the start of line `n`, counted from 1.
pub open spec fn at_line(e: EditorModel, n: int) -> EditorModel {
    let t = cur_buf(e).text;
    moved(e, line_begin(t, min(max(n, 1), line_count(t)) - 1))
}

/// Move point to the start of a line, counted from 1; past the last line, to
/// the last.
pub fn goto_line(ed: &mut Editor, line: usize)
    requires
        wf(old(ed)@),
    ensures
        final(ed)@ == at_line(old(ed)@, line as int),
        wf(final(ed)@),
{
    let (win, buf) = ed.cur();
    let lines: usize = buf.len_lines();
    let line: usize = if line < 1 {
        1
    } else {
        line
    };
    let line: usize = if line < lines {
        line
    } else {
        lines
    };
    win.point = buf.line_to_char(line - 1);
}

/// The editor after goto-line: there with a number, else a prompt for one.
pub open spec fn line_asked(e: EditorModel, n: Option<u32>) -> EditorModel {
    match n {
        Some(k) => at_line(e, k as int),
        None => asked(e, KindModel::GotoLine, "Goto line: "@, Seq::empty()),
    }
}

pub fn goto_line_cmd(ed: &mut Editor, n: Option<u32>)
    requires
        wf(old(ed)@),
    ensures
        final(ed)@ == line_asked(old(ed)@, n),
        wf(final(ed)@),
{
    if let Some(k) = n {
        goto_line(ed, k as usize);
        return ;
    }
    ed.prompt(PromptKind::GotoLine, "Goto line: ");
}

} // verus!
