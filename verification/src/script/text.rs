//! The current buffer: its text, point and mark.

use crate::buffer::{regenerated, removed, BufferModel};
use crate::commands::basic::{check_editable, insert_at_point, refused, typed};
use crate::commands::movement::{at_line, goto_line as go_to_line};
use crate::editor::{
    cur_buf, cur_point, cur_win, edit_cur, lemma_cur, moved, wf, with_buf, Editor, EditorModel,
};
use crate::lines::{line_count, line_of, max, min};
use crate::render::{line_text, shown_line};
use crate::strings::{copy, no_text, views};
use vstd::prelude::*;

verus! {

/// A position as the extension language's numbers hold it.
pub open spec fn int_of(n: int) -> int {
    if n <= isize::MAX {
        n
    } else {
        n - usize::MAX - 1
    }
}

/// A position as a number of the extension language.
pub fn to_int(n: usize) -> (r: isize)
    ensures
        r == int_of(n as int),
{
    if n <= isize::MAX as usize {
        n as isize
    } else {
        -((usize::MAX - n) as isize) - 1
    }
}

/// The position in a text that a number stands for: none before its start, and
/// none past its end.
pub open spec fn position_in(t: Seq<char>, n: int) -> int {
    min(max(n, 0), t.len() as int)
}

/// The position that a number stands for in a text of a length.
pub fn position_of(n: isize, len: usize) -> (r: usize)
    ensures
        r == min(max(n as int, 0), len as int),
{
    if n < 0 {
        0
    } else if (n as usize) < len {
        n as usize
    } else {
        len
    }
}

/// Insert text at point, which goes to its end.
pub fn insert_text(ed: &mut Editor, s: &str)
    requires
        wf(old(ed)@),
    ensures
        final(ed)@ == typed(old(ed)@, s@),
        wf(final(ed)@),
{
    if check_editable(ed) {
        insert_at_point(ed, s);
    }
}

/// Where a position goes when the chars from `a` to `b` are taken out.
pub open spec fn after_removal(p: int, a: int, b: int) -> int {
    if p > a {
        if p >= b {
            p - (b - a)
        } else {
            a
        }
    } else {
        p
    }
}

/// The editor after the chars between two positions, in either order, are taken
/// out of the current buffer.
pub open spec fn region_deleted(e: EditorModel, start: int, end: int) -> EditorModel {
    let t = cur_buf(e).text;
    let a = min(position_in(t, start), position_in(t, end));
    let b = max(position_in(t, start), position_in(t, end));
    if cur_buf(e).read_only {
        refused(e)
    } else {
        edit_cur(e, after_removal(cur_point(e), a, b), removed(cur_buf(e), a, b))
    }
}

/// Delete the chars between two positions: a normal, undoable edit.
pub fn delete_region(ed: &mut Editor, start: isize, end: isize)
    requires
        wf(old(ed)@),
    ensures
        final(ed)@ == region_deleted(old(ed)@, start as int, end as int),
        wf(final(ed)@),
{
    if !check_editable(ed) {
        return ;
    }
    let (win, buf) = ed.cur();
    let len: usize = buf.len_chars();
    let x: usize = position_of(start, len);
    let y: usize = position_of(end, len);
    let (a, b) = if x < y {
        (x, y)
    } else {
        (y, x)
    };
    buf.remove(a, b);
    if win.point > a {
        win.point = if win.point >= b {
            win.point - (b - a)
        } else {
            a
        };
    }
}

/// Point.
pub fn point(ed: &Editor) -> (r: isize)
    requires
        wf(ed@),
    ensures
        r == int_of(cur_win(ed@).point as int),
{
    proof {
        lemma_cur(ed@);
    }
    to_int(ed.windows.selected_ref().point)
}

/// Move point to a position, as far as it lies in the text.
pub fn goto_char(ed: &mut Editor, n: isize)
    requires
        wf(old(ed)@),
    ensures
        final(ed)@ == moved(old(ed)@, position_in(cur_buf(old(ed)@).text, n as int)),
        wf(final(ed)@),
{
    let (win, buf) = ed.cur();
    win.point = position_of(n, buf.len_chars());
}

/// Move point to the start of a line, counted from 1.
pub fn goto_line(ed: &mut Editor, n: isize)
    requires
        wf(old(ed)@),
    ensures
        final(ed)@ == at_line(old(ed)@, max(n as int, 1)),
        wf(final(ed)@),
{
    go_to_line(
        ed,
        if n < 1 {
            1
        } else {
            n as usize
        },
    );
}

/// The text of the current buffer.
pub fn buffer_string(ed: &Editor) -> (s: String)
    requires
        wf(ed@),
    ensures
        s@ == cur_buf(ed@).text,
{
    ed.cur_buffer().to_string_lossless()
}

/// The line of point, counted from 1.
pub fn line_number(ed: &Editor) -> (r: isize)
    requires
        wf(ed@),
    ensures
        r == int_of(line_of(cur_buf(ed@).text, cur_point(ed@)) + 1),
{
    proof {
        lemma_cur(ed@);
    }
    let point: usize = ed.windows.selected_ref().point;
    let buf = ed.cur_buffer();
    let _count: usize = buf.len_lines();
    to_int(buf.char_to_line(point) + 1)
}

/// The mark, or -1 without one.
pub fn mark(ed: &Editor) -> (r: isize)
    requires
        wf(ed@),
    ensures
        r == match cur_buf(ed@).mark {
            Some(m) => int_of(m as int),
            None => -1,
        },
{
    match ed.cur_buffer().mark {
        Some(m) => to_int(m),
        None => -1,
    }
}

/// Whether the region is live.
pub fn mark_active(ed: &Editor) -> (b: bool)
    requires
        wf(ed@),
    ensures
        b == cur_buf(ed@).mark_active,
{
    ed.cur_buffer().mark_active
}

/// The editor with the mark set and the region live.
pub open spec fn mark_set(e: EditorModel, n: int) -> EditorModel {
    with_buf(
        e,
        BufferModel {
            mark: Some(position_in(cur_buf(e).text, n) as usize),
            mark_active: true,
            ..cur_buf(e)
        },
    )
}

/// Set the mark, and make the region live.
pub fn set_mark(ed: &mut Editor, pos: isize)
    requires
        wf(old(ed)@),
    ensures
        final(ed)@ == mark_set(old(ed)@, pos as int),
        wf(final(ed)@),
{
    let buf = ed.cur_buffer_mut();
    let len: usize = buf.len_chars();
    buf.mark = Some(position_of(pos, len));
    buf.mark_active = true;
}

/// End the live region.
pub fn deactivate_mark(ed: &mut Editor)
    requires
        wf(old(ed)@),
    ensures
        final(ed)@ == with_buf(
            old(ed)@,
            BufferModel { mark_active: false, ..cur_buf(old(ed)@) },
        ),
        wf(final(ed)@),
{
    let buf = ed.cur_buffer_mut();
    buf.mark_active = false;
}

/// The char at an index of a text, as a string; empty outside the text.
pub open spec fn char_in(t: Seq<char>, i: int) -> Seq<char> {
    if 0 <= i < t.len() {
        seq![t[i]]
    } else {
        Seq::empty()
    }
}

fn one_char(c: char) -> (s: String)
    ensures
        s@ == seq![c],
{
    let mut s = String::new();
    s.push(c);
    assert(s@ =~= seq![c]);
    s
}

/// The char after point; empty at the end.
pub fn char_after(ed: &Editor) -> (s: String)
    requires
        wf(ed@),
    ensures
        s@ == char_in(cur_buf(ed@).text, cur_win(ed@).point as int),
{
    proof {
        lemma_cur(ed@);
    }
    let point: usize = ed.windows.selected_ref().point;
    let buf = ed.cur_buffer();
    if point < buf.len_chars() {
        one_char(buf.rope.char(point))
    } else {
        no_text()
    }
}

/// The char before point; empty at the start, and where point lies past the
/// end.
pub fn char_before(ed: &Editor) -> (s: String)
    requires
        wf(ed@),
    ensures
        s@ == char_in(cur_buf(ed@).text, cur_win(ed@).point - 1),
{
    proof {
        lemma_cur(ed@);
    }
    let point: usize = ed.windows.selected_ref().point;
    let buf = ed.cur_buffer();
    if point > 0 && point <= buf.len_chars() {
        one_char(buf.rope.char(point - 1))
    } else {
        no_text()
    }
}

/// The name of the current buffer.
pub fn current_buffer(ed: &Editor) -> (s: String)
    requires
        wf(ed@),
    ensures
        s@ == cur_buf(ed@).name,
{
    copy(ed.cur_buffer().name.as_str())
}

/// Whether the current buffer was changed.
pub fn buffer_modified(ed: &Editor) -> (b: bool)
    requires
        wf(ed@),
    ensures
        b == cur_buf(ed@).modified,
{
    ed.cur_buffer().modified
}

/// The path of the current buffer's file; empty without one.
pub fn buffer_file_name(ed: &Editor) -> (s: String)
    requires
        wf(ed@),
    ensures
        s@ == match cur_buf(ed@).path {
            Some(p) => p,
            None => Seq::empty(),
        },
{
    match &ed.cur_buffer().path {
        Some(p) => copy(p.as_str()),
        None => no_text(),
    }
}

/// Replace the whole text of the current buffer by generated text.
pub fn set_buffer_string(ed: &mut Editor, text: &str)
    requires
        wf(old(ed)@),
    ensures
        final(ed)@ == with_buf(old(ed)@, regenerated(cur_buf(old(ed)@), text@)),
        wf(final(ed)@),
{
    let buf = ed.cur_buffer_mut();
    buf.set_text(text);
}

/// Make the current buffer read-only, or not.
pub fn set_buffer_read_only(ed: &mut Editor, ro: bool)
    requires
        wf(old(ed)@),
    ensures
        final(ed)@ == with_buf(old(ed)@, BufferModel { read_only: ro, ..cur_buf(old(ed)@) }),
        wf(final(ed)@),
{
    let buf = ed.cur_buffer_mut();
    buf.read_only = ro;
}

/// The lines of a text, each without the newlines at its end.
pub open spec fn text_lines(t: Seq<char>) -> Seq<Seq<char>> {
    Seq::new(line_count(t) as nat, |i: int| line_text(t, i))
}

/// The lines of the current buffer.
pub fn buffer_lines(ed: &Editor) -> (r: Vec<String>)
    requires
        wf(ed@),
    ensures
        views(r@) == text_lines(cur_buf(ed@).text),
{
    let buf = ed.cur_buffer();
    let ghost t = buf@.text;
    let n: usize = buf.len_lines();
    let mut r: Vec<String> = Vec::new();
    let mut i: usize = 0;
    while i < n
        invariant
            i <= n,
            n == line_count(t),
            t == buf@.text,
            r@.len() == i,
            forall|k: int| 0 <= k < i ==> (#[trigger] r@[k])@ == line_text(t, k),
        decreases n - i,
    {
        r.push(shown_line(buf, i));
        i = i + 1;
    }
    assert(views(r@) =~= text_lines(t));
    r
}

} // verus!
