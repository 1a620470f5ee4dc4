//! Text-changing commands (other than the kill ring).

use crate::buffer::{can_undo, inserted, removed, undone, Buffer, BufferModel};
use crate::commands::basic::{
    check_editable, count, insert_at_point, refused, self_insert, times, typed,
};
use crate::commands::movement::{word_end, word_end_after};
use crate::editor::{
    at_point, clamped, cur_buf, cur_point, edit_cur, lemma_put, said, wf, Editor, EditorModel,
};
use crate::lines::{
    clip, end_at, lemma_line_around, lemma_line_ends, line_begin, line_count, line_of, max, minus,
    start_at,
};
use crate::rope::rope_slice;
use crate::strings::{repeat, repeated};
use crate::undo::{newest_group, reverted_point};
use vstd::prelude::*;

verus! {

/// Insert newlines at point, one at least.
pub fn newline(ed: &mut Editor, n: Option<u32>)
    requires
        wf(old(ed)@),
    ensures
        final(ed)@ == typed(old(ed)@, repeated('\n', max(times(n), 1) as nat)),
        wf(final(ed)@),
{
    let k: u32 = count(n);
    self_insert(
        ed,
        '\n',
        Some(
            if k > 1 {
                k
            } else {
                1
            },
        ),
    );
}

/// The editor after newlines are inserted after point.
pub open spec fn line_opened(e: EditorModel, n: Option<u32>) -> EditorModel {
    if cur_buf(e).read_only {
        refused(e)
    } else {
        edit_cur(
            e,
            cur_point(e),
            inserted(cur_buf(e), cur_point(e), repeated('\n', max(times(n), 1) as nat)),
        )
    }
}

/// C-o: insert a newline after point, leaving point (and the screen position
/// of the cursor) where it was.
pub fn open_line(ed: &mut Editor, n: Option<u32>)
    requires
        wf(old(ed)@),
    ensures
        final(ed)@ == line_opened(old(ed)@, n),
        wf(final(ed)@),
{
    if !check_editable(ed) {
        return ;
    }
    let k: u32 = count(n);
    let k: usize = if k > 1 {
        k as usize
    } else {
        1
    };
    let text = repeat('\n', k);
    let (win, buf) = ed.cur();
    buf.insert(win.point, text.as_str());
}

/// The editor after chars after point are deleted.
pub open spec fn deleted_forward(e: EditorModel, n: Option<u32>) -> EditorModel {
    let b = cur_buf(e);
    let p = cur_point(e);
    if b.read_only {
        refused(e)
    } else if p >= b.text.len() {
        said(clamped(e), "End of buffer"@)
    } else {
        edit_cur(e, p, removed(b, p, p + times(n)))
    }
}

pub fn delete_char(ed: &mut Editor, n: Option<u32>)
    requires
        wf(old(ed)@),
    ensures
        final(ed)@ == deleted_forward(old(ed)@, n),
        wf(final(ed)@),
{
    let ghost e = ed@;
    if !check_editable(ed) {
        return ;
    }
    let k: usize = count(n) as usize;
    let (win, buf) = ed.cur();
    let len: usize = buf.len_chars();
    if win.point >= len {
        assert(ed@ == clamped(e));
        ed.message("End of buffer");
        return ;
    }
    let end: usize = if k <= len - win.point {
        win.point + k
    } else {
        len
    };
    buf.remove(win.point, end);
}

/// The editor after chars before point are deleted.
pub open spec fn deleted_backward(e: EditorModel, n: Option<u32>) -> EditorModel {
    let b = cur_buf(e);
    let p = cur_point(e);
    if b.read_only {
        refused(e)
    } else if p == 0 {
        said(clamped(e), "Beginning of buffer"@)
    } else {
        edit_cur(e, minus(p, times(n)), removed(b, minus(p, times(n)), p))
    }
}

pub fn delete_backward_char(ed: &mut Editor, n: Option<u32>)
    requires
        wf(old(ed)@),
    ensures
        final(ed)@ == deleted_backward(old(ed)@, n),
        wf(final(ed)@),
{
    let ghost e = ed@;
    if !check_editable(ed) {
        return ;
    }
    let k: usize = count(n) as usize;
    let (win, buf) = ed.cur();
    if win.point == 0 {
        assert(ed@ == clamped(e));
        ed.message("Beginning of buffer");
        return ;
    }
    let start: usize = if win.point >= k {
        win.point - k
    } else {
        0
    };
    buf.remove(start, win.point);
    win.point = start;
}

// ---- indentation -----------------------------------------------------------

/// Whether a char is a space or a tab.
pub open spec fn is_blank(c: char) -> bool {
    c == ' ' || c == '\t'
}

/// The number of blanks in a row from position `p` on, below `end`.
pub open spec fn blanks(t: Seq<char>, p: int, end: int) -> int
    decreases end - p,
{
    if 0 <= p < end && end <= t.len() && is_blank(t[p]) {
        1 + blanks(t, p + 1, end)
    } else {
        0
    }
}

/// The indentation of the line that starts at `start`.
pub open spec fn indent(t: Seq<char>, start: int) -> int {
    blanks(t, start, end_at(t, start))
}

/// The indentation of the last line before `line` that holds more than blanks.
pub open spec fn indent_above(t: Seq<char>, line: int) -> Option<int>
    decreases line,
{
    if line <= 0 {
        None
    } else {
        let start = line_begin(t, line - 1);
        if start + indent(t, start) == end_at(t, start) {
            indent_above(t, line - 1)
        } else {
            Some(indent(t, start))
        }
    }
}

/// The indentation that a line gets: that of the line above where it is
/// deeper, else four columns more.
pub open spec fn indent_target(t: Seq<char>, p: int) -> int {
    let now = indent(t, start_at(t, p));
    match indent_above(t, line_of(t, p)) {
        Some(above) => if above > now {
            above
        } else {
            now + 4
        },
        None => now + 4,
    }
}

/// The editor after the current line is indented; point stays behind the
/// indentation.
pub open spec fn line_indented(e: EditorModel) -> EditorModel {
    let b = cur_buf(e);
    let p = cur_point(e);
    let start = start_at(b.text, p);
    let now = indent(b.text, start);
    let to = indent_target(b.text, p);
    if b.read_only {
        refused(e)
    } else {
        edit_cur(
            e,
            start + to + minus(p - start, now),
            inserted(removed(b, start, start + now), start, repeated(' ', to as nat)),
        )
    }
}

fn is_blank_char(c: char) -> (b: bool)
    ensures
        b == is_blank(c),
{
    c == ' ' || c == '\t'
}

/// Leading-whitespace length (in chars) of the line starting at `line_start`.
pub fn indent_of(buf: &Buffer, line_start: usize) -> (n: usize)
    requires
        line_start <= buf@.text.len(),
    ensures
        n == indent(buf@.text, line_start as int),
        line_start + n <= end_at(buf@.text, line_start as int),
        line_start + n <= usize::MAX,
{
    let end: usize = buf.line_end(line_start);
    let mut i: usize = line_start;
    while i < end && is_blank_char(buf.rope.char(i))
        invariant
            line_start <= i <= end <= buf@.text.len(),
            blanks(buf@.text, line_start as int, end as int) == (i - line_start) + blanks(
                buf@.text,
                i as int,
                end as int,
            ),
        decreases end - i,
    {
        i = i + 1;
    }
    i - line_start
}

fn find_indent_above(buf: &Buffer, line: usize) -> (r: Option<usize>)
    requires
        line < line_count(buf@.text),
    ensures
        match r {
            Some(n) => indent_above(buf@.text, line as int) == Some(n as int),
            None => indent_above(buf@.text, line as int) is None,
        },
{
    let mut l: usize = line;
    while l > 0
        invariant
            l <= line < line_count(buf@.text),
            indent_above(buf@.text, line as int) == indent_above(buf@.text, l as int),
        decreases l,
    {
        l = l - 1;
        let start: usize = buf.line_to_char(l);
        let n: usize = indent_of(buf, start);
        if start + n != buf.line_end(start) {
            return Some(n);
        }
    }
    None
}

/// Tab: indent-relative. Match the previous non-blank line's indentation; if
/// already there (or no previous line), step in by four spaces.
pub fn indent_line(ed: &mut Editor, _n: Option<u32>)
    requires
        wf(old(ed)@),
    ensures
        final(ed)@ == line_indented(old(ed)@),
        wf(final(ed)@),
{
    let ghost e = ed@;
    if !check_editable(ed) {
        return ;
    }
    let (win, buf) = ed.cur();
    let ghost b0 = buf@;
    let ghost t = buf@.text;
    let ghost p = win.point as int;
    let start: usize = buf.line_start(win.point);
    let now: usize = indent_of(buf, start);
    let line: usize = buf.char_to_line(win.point);
    let above: Option<usize> = find_indent_above(buf, line);
    let mut spaces = repeat(' ', now);
    spaces.push_str("    ");
    proof {
        reveal_strlit("    ");
        assert(spaces@ =~= repeated(' ', (now + 4) as nat));
    }
    if let Some(a) = above {
        if a > now {
            spaces = repeat(' ', a);
        }
    }
    assert(spaces@ == repeated(' ', indent_target(t, p) as nat));
    let target: usize = spaces.as_str().unicode_len();
    let offset: usize = win.point - start;
    buf.remove(start, start + now);
    buf.insert(start, spaces.as_str());
    proof {
        lemma_line_ends(t, p);
        lemma_line_around(t, p);
        crate::lines::lemma_line_of_bound(t, p);
    }
    let len: usize = buf.len_chars();
    let rest: usize = if offset >= now {
        offset - now
    } else {
        0
    };
    assert(buf@ == inserted(removed(b0, start as int, start + now), start as int, spaces@));
    assert(start + target + rest <= len);
    win.point = start + target + rest;
}

/// The editor after a newline at point and an indentation of the new line.
pub open spec fn newline_indented(e: EditorModel) -> EditorModel {
    if cur_buf(e).read_only {
        refused(e)
    } else {
        line_indented(
            edit_cur(e, cur_point(e) + 1, inserted(cur_buf(e), cur_point(e), seq!['\n'])),
        )
    }
}

pub fn newline_and_indent(ed: &mut Editor, _n: Option<u32>)
    requires
        wf(old(ed)@),
    ensures
        final(ed)@ == newline_indented(old(ed)@),
        wf(final(ed)@),
{
    if !check_editable(ed) {
        return ;
    }
    proof {
        reveal_strlit("\n");
        assert("\n"@ =~= seq!['\n']);
    }
    insert_at_point(ed, "\n");
    indent_line(ed, None);
}

/// The position before the blanks before `p`.
pub open spec fn before_blanks(t: Seq<char>, p: int) -> int
    decreases p,
{
    if 0 < p <= t.len() && is_blank(t[p - 1]) {
        before_blanks(t, p - 1)
    } else {
        p
    }
}

/// The position after the blanks from `p` on.
pub open spec fn after_blanks(t: Seq<char>, p: int) -> int
    decreases t.len() - p,
{
    if 0 <= p < t.len() && is_blank(t[p]) {
        after_blanks(t, p + 1)
    } else {
        p
    }
}

/// The editor without the blanks around point.
pub open spec fn blanks_deleted(e: EditorModel) -> EditorModel {
    let b = cur_buf(e);
    let p = cur_point(e);
    if b.read_only {
        refused(e)
    } else {
        edit_cur(
            e,
            before_blanks(b.text, p),
            removed(b, before_blanks(b.text, p), after_blanks(b.text, p)),
        )
    }
}

pub fn delete_horizontal_space(ed: &mut Editor, _n: Option<u32>)
    requires
        wf(old(ed)@),
    ensures
        final(ed)@ == blanks_deleted(old(ed)@),
        wf(final(ed)@),
{
    if !check_editable(ed) {
        return ;
    }
    let (win, buf) = ed.cur();
    let p: usize = win.point;
    let len: usize = buf.len_chars();
    let mut start: usize = p;
    while start > 0 && is_blank_char(buf.rope.char(start - 1))
        invariant
            start <= p <= buf@.text.len(),
            before_blanks(buf@.text, p as int) == before_blanks(buf@.text, start as int),
        decreases start,
    {
        start = start - 1;
    }
    let mut end: usize = p;
    while end < len && is_blank_char(buf.rope.char(end))
        invariant
            p <= end <= len,
            len == buf@.text.len(),
            after_blanks(buf@.text, p as int) == after_blanks(buf@.text, end as int),
        decreases len - end,
    {
        end = end + 1;
    }
    buf.remove(start, end);
    win.point = start;
}

// ---- transposing and case --------------------------------------------------

/// Whether point is at the end of a line or of the buffer.
pub open spec fn at_line_end(t: Seq<char>, p: int) -> bool {
    p >= t.len() || t[p] == '\n'
}

/// The buffer with the chars at `a` and `a + 1` swapped.
pub open spec fn swapped(b: BufferModel, a: int) -> BufferModel {
    inserted(removed(b, a, a + 2), a, seq![b.text[a + 1], b.text[a]])
}

/// The editor with the two chars around point swapped; at the end of a line,
/// the two chars before it.
pub open spec fn transposed(e: EditorModel) -> EditorModel {
    let b = cur_buf(e);
    let p = cur_point(e);
    let eol = at_line_end(b.text, p);
    if b.read_only {
        refused(e)
    } else if p == 0 || b.text.len() < 2 || (eol && p < 2) {
        said(clamped(e), "Cannot transpose here"@)
    } else if eol {
        edit_cur(e, p, swapped(b, p - 2))
    } else {
        edit_cur(e, p + 1, swapped(b, p - 1))
    }
}

pub fn transpose_chars(ed: &mut Editor, _n: Option<u32>)
    requires
        wf(old(ed)@),
    ensures
        final(ed)@ == transposed(old(ed)@),
        wf(final(ed)@),
{
    let ghost e = ed@;
    if !check_editable(ed) {
        return ;
    }
    let (win, buf) = ed.cur();
    let len: usize = buf.len_chars();
    if win.point == 0 || len < 2 {
        assert(ed@ == clamped(e));
        ed.message("Cannot transpose here");
        return ;
    }
    // At end of line/buffer, swap the two preceding chars; otherwise drag the
    // char before point over the one after it, advancing point.
    let at_eol = win.point >= len || buf.rope.char(win.point) == '\n';
    if at_eol && win.point < 2 {
        assert(ed@ == clamped(e));
        ed.message("Cannot transpose here");
        return ;
    }
    let a: usize = if at_eol {
        win.point - 2
    } else {
        win.point - 1
    };
    let ca = buf.rope.char(a);
    let cb = buf.rope.char(a + 1);
    let mut text = String::new();
    text.push(cb);
    text.push(ca);
    assert(text@ =~= seq![cb, ca]);
    buf.remove(a, a + 2);
    buf.insert(a, text.as_str());
    if !at_eol {
        win.point = a + 2;
    }
}

/// What `str::to_uppercase` gives.
pub uninterp spec fn uppercased(s: Seq<char>) -> Seq<char>;

/// What `str::to_lowercase` gives.
pub uninterp spec fn lowercased(s: Seq<char>) -> Seq<char>;

/// `str::to_uppercase`; its result is named, and nothing more is claimed of
/// it.
#[verifier::external_body]
fn to_upper(s: &str) -> (r: String)
    ensures
        r@ == uppercased(s@),
{
    s.to_uppercase()
}

/// `str::to_lowercase`; its result is named, and nothing more is claimed of
/// it.
#[verifier::external_body]
pub(crate) fn to_lower(s: &str) -> (r: String)
    ensures
        r@ == lowercased(s@),
{
    s.to_lowercase()
}

/// The text from point to the end of the word.
pub open spec fn rest_of_word(e: EditorModel) -> Seq<char> {
    cur_buf(e).text.subrange(cur_point(e), word_end(cur_buf(e).text, cur_point(e)))
}

/// The editor with the rest of the word replaced; point goes behind it. With
/// no word left only point is clamped.
pub open spec fn word_replaced(e: EditorModel, text: Seq<char>) -> EditorModel {
    let b = cur_buf(e);
    let p = cur_point(e);
    let end = word_end(b.text, p);
    if b.read_only {
        refused(e)
    } else if end == p {
        clamped(e)
    } else {
        edit_cur(e, p + text.len(), inserted(removed(b, p, end), p, text))
    }
}

/// Replace the text from point to the end of the word.
pub fn replace_word(ed: &mut Editor, text: &str)
    requires
        wf(old(ed)@),
    ensures
        final(ed)@ == word_replaced(old(ed)@, text@),
        wf(final(ed)@),
{
    let ghost e = ed@;
    if !check_editable(ed) {
        return ;
    }
    let (win, buf) = ed.cur();
    let start: usize = win.point;
    let end: usize = word_end_after(buf, start);
    if end == start {
        return ;
    }
    buf.remove(start, end);
    buf.insert(start, text);
    let k: usize = text.unicode_len();
    let len: usize = buf.len_chars();
    assert(start + k <= len);
    win.point = start + k;
}

fn word_at_point(ed: &mut Editor) -> (s: String)
    requires
        wf(old(ed)@),
    ensures
        s@ == rest_of_word(old(ed)@),
        final(ed)@ == clamped(old(ed)@),
        wf(final(ed)@),
{
    let (win, buf) = ed.cur();
    let end: usize = word_end_after(buf, win.point);
    rope_slice(&buf.rope, win.point, end)
}

proof fn lemma_clamped(e: EditorModel, text: Seq<char>)
    requires
        wf(e),
    ensures
        wf(clamped(e)),
        word_replaced(clamped(e), text) == word_replaced(e, text) || cur_buf(e).read_only,
        cur_buf(clamped(e)) == cur_buf(e),
{
    let w = at_point(e, cur_point(e));
    let b = cur_buf(e);
    lemma_put(e, w, b);
    let p = cur_point(e);
    let c = clamped(e);
    assert(cur_point(c) == p);
    let end = word_end(b.text, p);
    crate::editor::lemma_put_twice(
        e,
        w,
        b,
        at_point(e, p + text.len()),
        inserted(removed(b, p, end), p, text),
    );
    crate::editor::lemma_put_twice(e, w, b, at_point(e, p), b);
}

/// Uppercase from point to the end of the word.
pub fn upcase_word(ed: &mut Editor, _n: Option<u32>)
    requires
        wf(old(ed)@),
    ensures
        final(ed)@ == word_replaced(old(ed)@, uppercased(rest_of_word(old(ed)@))),
        wf(final(ed)@),
{
    let ghost e = ed@;
    if !check_editable(ed) {
        return ;
    }
    let word = word_at_point(ed);
    let text = to_upper(word.as_str());
    proof {
        lemma_clamped(e, text@);
    }
    replace_word(ed, text.as_str());
}

/// Lowercase from point to the end of the word.
pub fn downcase_word(ed: &mut Editor, _n: Option<u32>)
    requires
        wf(old(ed)@),
    ensures
        final(ed)@ == word_replaced(old(ed)@, lowercased(rest_of_word(old(ed)@))),
        wf(final(ed)@),
{
    let ghost e = ed@;
    if !check_editable(ed) {
        return ;
    }
    let word = word_at_point(ed);
    let text = to_lower(word.as_str());
    proof {
        lemma_clamped(e, text@);
    }
    replace_word(ed, text.as_str());
}

// ---- undo ------------------------------------------------------------------

/// The editor after one undo group is reverted.
pub open spec fn one_undone(e: EditorModel) -> EditorModel {
    let b = cur_buf(e);
    let to = reverted_point(newest_group(b.undo).last());
    said(edit_cur(e, clip(undone(b).text, to->0), undone(b)), "Undo!"@)
}

/// Whether there is something to undo.
pub open spec fn has_undo(e: EditorModel) -> bool {
    newest_group(cur_buf(e).undo).len() > 0
}

/// The editor after `n` undo groups are reverted, as far as there are any.
pub open spec fn undone_times(e: EditorModel, n: int) -> EditorModel
    decreases n,
{
    if n <= 0 {
        e
    } else if has_undo(e) {
        undone_times(one_undone(e), n - 1)
    } else {
        said(edit_cur(e, cur_point(e), undone(cur_buf(e))), "No further undo information"@)
    }
}

/// Whether each of the next `n` undo groups lies inside the text it reverts.
pub open spec fn can_undo_times(e: EditorModel, n: int) -> bool
    decreases n,
{
    n <= 0 || (can_undo(cur_buf(e)) && (has_undo(e) ==> can_undo_times(one_undone(e), n - 1)))
}

/// The editor after the undo command.
pub open spec fn undo_done(e: EditorModel, n: Option<u32>) -> EditorModel {
    if cur_buf(e).read_only {
        refused(e)
    } else {
        undone_times(e, times(n))
    }
}

/// Whether the undo command can be run.
pub open spec fn undo_ok(e: EditorModel, n: Option<u32>) -> bool {
    cur_buf(e).read_only || can_undo_times(e, times(n))
}

/// Undo the last change of the current buffer.
pub fn undo_cmd(ed: &mut Editor, n: Option<u32>)
    requires
        wf(old(ed)@),
        undo_ok(old(ed)@, n),
    ensures
        final(ed)@ == undo_done(old(ed)@, n),
        wf(final(ed)@),
{
    let ghost e = ed@;
    if !check_editable(ed) {
        return ;
    }
    let k: u32 = count(n);
    let mut i: u32 = 0;
    while i < k
        invariant
            i <= k,
            k == times(n),
            e == old(ed)@,
            !cur_buf(e).read_only,
            wf(ed@),
            undone_times(e, k as int) == undone_times(ed@, k - i),
            can_undo_times(ed@, k - i),
        decreases k - i,
    {
        let ghost now = ed@;
        let (win, buf) = ed.cur();
        match buf.undo_group() {
            Some(point) => {
                let len: usize = buf.len_chars();
                win.point = if point <= len {
                    point
                } else {
                    len
                };
                ed.message("Undo!");
                assert(ed@ == one_undone(now));
            },
            None => {
                ed.message("No further undo information");
                return ;
            },
        }
        i = i + 1;
    }
}

} // verus!
