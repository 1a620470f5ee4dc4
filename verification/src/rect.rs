//! Rectangle mode: C-x SPC anchors a rectangle at point; movement extends it;
//! C-x r t replaces each line's slice of the rectangle with a string.

use crate::buffer::{inserted, removed, Buffer, BufferModel};
use crate::commands::basic::{check_editable, refused};
use crate::commands::ring::marked;
use crate::editor::{
    clamped, cur_buf, cur_point, edit_cur, lemma_wf_same, said, wf, Editor, EditorModel,
};
use crate::input::{KindModel, PromptKind};
use crate::layout::asked;
use crate::lines::{
    clip, end_at, lemma_line_of_monotone, line_begin, line_count, line_of, max, min, minus,
    start_at,
};
use crate::strings::{repeat, repeated};
use vstd::prelude::*;

verus! {

/// The editor after rectangle-mark-mode.
pub open spec fn rect_started(e: EditorModel) -> EditorModel {
    said(
        EditorModel { rect_mode: true, ..marked(e) },
        "Rectangle mark mode (C-x r t inserts text, C-g cancels)"@,
    )
}

pub fn rectangle_mark_mode(ed: &mut Editor, _n: Option<u32>)
    requires
        wf(old(ed)@),
    ensures
        final(ed)@ == rect_started(old(ed)@),
        wf(final(ed)@),
{
    let ghost e = ed@;
    let (win, buf) = ed.cur();
    buf.mark = Some(win.point);
    buf.mark_active = true;
    assert(ed@ == marked(e));
    ed.rect_mode = true;
    proof {
        lemma_wf_same(marked(e), ed@);
    }
    ed.message("Rectangle mark mode (C-x r t inserts text, C-g cancels)");
}

/// The editor after string-rectangle: a prompt for the text, where a rectangle
/// is selected.
pub open spec fn rect_asked(e: EditorModel) -> EditorModel {
    let b = cur_buf(e);
    if b.read_only {
        refused(e)
    } else if e.rect_mode && b.mark_active && b.mark is Some {
        asked(e, KindModel::RectInsert, "String rectangle: "@, Seq::empty())
    } else {
        said(e, "No rectangle selected (use C-x SPC first)"@)
    }
}

pub fn string_rectangle_cmd(ed: &mut Editor, _n: Option<u32>)
    requires
        wf(old(ed)@),
    ensures
        final(ed)@ == rect_asked(old(ed)@),
        wf(final(ed)@),
{
    if !check_editable(ed) {
        return ;
    }
    let buf = ed.cur_buffer();
    if !(ed.rect_mode && buf.mark_active && buf.mark.is_some()) {
        ed.message("No rectangle selected (use C-x SPC first)");
        return ;
    }
    ed.prompt(PromptKind::RectInsert, "String rectangle: ");
}

/// The column of a position.
pub open spec fn column(t: Seq<char>, p: int) -> int {
    clip(t, p) - start_at(t, clip(t, p))
}

/// The rectangle between two char positions: (first_line, last_line,
/// left_col, right_col), columns in chars.
pub open spec fn rectangle(t: Seq<char>, a: int, b: int) -> (int, int, int, int) {
    (
        line_of(t, clip(t, min(a, b))),
        line_of(t, clip(t, max(a, b))),
        min(column(t, a), column(t, b)),
        max(column(t, a), column(t, b)),
    )
}

/// The rectangle between two char positions: (first_line, last_line,
/// left_col, right_col), columns in chars.
pub fn bounds(buf: &Buffer, a: usize, b: usize) -> (r: (usize, usize, usize, usize))
    requires
        a <= buf@.text.len(),
        b <= buf@.text.len(),
    ensures
        (r.0 as int, r.1 as int, r.2 as int, r.3 as int) == rectangle(
            buf@.text,
            a as int,
            b as int,
        ),
        r.0 <= r.1 < line_count(buf@.text),
        r.2 <= r.3,
{
    let (start, end) = if a <= b {
        (a, b)
    } else {
        (b, a)
    };
    proof {
        lemma_line_of_monotone(buf@.text, start as int, end as int);
    }
    let l1: usize = buf.char_to_line(start);
    let l2: usize = buf.char_to_line(end);
    let c1: usize = start - buf.line_start(start);
    let c2: usize = end - buf.line_start(end);
    if c1 <= c2 {
        (l1, l2, c1, c2)
    } else {
        (l1, l2, c2, c1)
    }
}

/// The buffer with columns `left` to `right` of one line replaced by `text`; a
/// line shorter than `left` is padded out to it.
pub open spec fn rect_line(
    b: BufferModel,
    line: int,
    left: int,
    right: int,
    text: Seq<char>,
) -> BufferModel {
    let start = line_begin(b.text, min(line, line_count(b.text) - 1));
    let n = end_at(b.text, start) - start;
    inserted(
        removed(b, start + min(left, n), start + min(right, n)),
        start + min(left, n),
        repeated(' ', minus(left, n) as nat) + text,
    )
}

/// The buffer with columns `left` to `right` of the lines from `first` to
/// `last` replaced by `text`, the last line first.
pub open spec fn rect_lines(
    b: BufferModel,
    first: int,
    last: int,
    left: int,
    right: int,
    text: Seq<char>,
) -> BufferModel
    decreases last - first + 1,
{
    if last < first {
        b
    } else {
        rect_lines(rect_line(b, last, left, right, text), first, last - 1, left, right, text)
    }
}

/// The editor with the rectangle between mark and point replaced by `text` on
/// each line; without a mark only point is clamped.
pub open spec fn rect_replaced(e: EditorModel, text: Seq<char>) -> EditorModel {
    let b = cur_buf(e);
    match b.mark {
        Some(mark) => {
            let (l1, l2, left, right) = rectangle(
                b.text,
                clip(b.text, mark as int),
                cur_point(e),
            );
            let b1 = BufferModel {
                mark_active: false,
                ..rect_lines(b, l1, l2, left, right, text)
            };
            let start = line_begin(b1.text, min(l1, line_count(b1.text) - 1));
            EditorModel {
                rect_mode: false,
                ..edit_cur(e, clip(b1.text, start + left + text.len()), b1)
            }
        },
        None => clamped(e),
    }
}

proof fn lemma_rect_lines_id(
    b: BufferModel,
    first: int,
    last: int,
    left: int,
    right: int,
    text: Seq<char>,
)
    ensures
        rect_lines(b, first, last, left, right, text).id == b.id,
    decreases last - first + 1,
{
    if last >= first {
        lemma_rect_lines_id(
            rect_line(b, last, left, right, text),
            first,
            last - 1,
            left,
            right,
            text,
        );
    }
}

fn replace_in_line(buf: &mut Buffer, line: usize, left: usize, right: usize, text: &str)
    requires
        left <= right,
    ensures
        final(buf)@ == rect_line(old(buf)@, line as int, left as int, right as int, text@),
{
    let ls: usize = buf.line_to_char(line);
    let le: usize = buf.line_end(ls);
    let len: usize = le - ls;
    let a: usize = ls + if left <= len {
        left
    } else {
        len
    };
    let b: usize = ls + if right <= len {
        right
    } else {
        len
    };
    buf.remove(a, b);
    // Pad short lines out to the left column before inserting.
    let pad: usize = if left >= len {
        left - len
    } else {
        0
    };
    let mut insertion = repeat(' ', pad);
    insertion.push_str(text);
    buf.insert(a, insertion.as_str());
}

fn replace_in_lines(
    buf: &mut Buffer,
    l1: usize,
    l2: usize,
    left: usize,
    right: usize,
    text: &str,
)
    requires
        l1 <= l2,
        left <= right,
    ensures
        final(buf)@ == rect_lines(
            old(buf)@,
            l1 as int,
            l2 as int,
            left as int,
            right as int,
            text@,
        ),
        final(buf)@.id == old(buf)@.id,
{
    let ghost b0 = buf@;
    let ghost want = rect_lines(b0, l1 as int, l2 as int, left as int, right as int, text@);
    // Bottom-up so earlier char indices stay valid.
    let mut line: usize = l2;
    loop
        invariant_except_break
            l1 <= line,
            left <= right,
            want == rect_lines(buf@, l1 as int, line as int, left as int, right as int, text@),
        ensures
            buf@ == want,
        decreases line,
    {
        replace_in_line(buf, line, left, right, text);
        if line == l1 {
            assert(rect_lines(
                buf@,
                l1 as int,
                line - 1,
                left as int,
                right as int,
                text@,
            ) == buf@);
            break ;
        }
        line = line - 1;
    }
    proof {
        lemma_rect_lines_id(b0, l1 as int, l2 as int, left as int, right as int, text@);
    }
}

fn point_after(buf: &Buffer, line: usize, left: usize, text: &str) -> (p: usize)
    ensures
        p == clip(
            buf@.text,
            line_begin(buf@.text, min(line as int, line_count(buf@.text) - 1)) + left
                + text@.len(),
        ),
{
    let ls: usize = buf.line_to_char(line);
    let len: usize = buf.len_chars();
    let k: usize = text.unicode_len();
    if left <= len - ls && k <= len - ls - left {
        ls + left + k
    } else {
        len
    }
}

/// Replace the rectangle's slice on every line with `text`.
pub fn apply_string_rectangle(ed: &mut Editor, text: &str)
    requires
        wf(old(ed)@),
    ensures
        final(ed)@ == rect_replaced(old(ed)@, text@),
        wf(final(ed)@),
{
    let ghost e = ed@;
    let (win, buf) = ed.cur();
    let mark: usize = match buf.mark {
        Some(m) => m,
        None => {
            return ;
        },
    };
    let n: usize = buf.len_chars();
    let mark: usize = if mark <= n {
        mark
    } else {
        n
    };
    let (l1, l2, left, right) = bounds(buf, mark, win.point);
    replace_in_lines(buf, l1, l2, left, right, text);
    buf.mark_active = false;
    win.point = point_after(buf, l1, left, text);
    let ghost e1 = ed@;
    ed.rect_mode = false;
    proof {
        lemma_wf_same(e1, ed@);
        assert(ed@ =~= rect_replaced(e, text@));
    }
}

} // verus!
