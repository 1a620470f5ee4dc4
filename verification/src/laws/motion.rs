//! Where the commands that move point put it.

use crate::commands::movement::{
    at_column, back_in_word, back_to_word, goal_of, is_alphanumeric, law_word_bounds, scrolled,
    skip_in_word, skip_to_word, word_end, word_ends, word_start, word_starts,
};
use crate::commands::run::native_done;
use crate::editor::{at_point, cur_buf, cur_point, cur_win, lemma_cur, moved, put, wf, EditorModel};
use crate::input::{InputModel, KindModel};
use crate::laws::frame::{counted, lemma_put_here, only_here};
use crate::laws::table::{lemma_motion_commands, lemma_motion_far_commands, lemma_scroll_commands};
use crate::layout::height_of;
use crate::lines::{
    end_at, is_break, lemma_line_around, lemma_line_begin, lemma_line_ends, line_begin, line_count,
    line_of, max, min, start_at, starts_line,
};
use crate::minibuffer::completed;
use crate::native::NativeCmd;
use crate::strings::parse_decimal;
use crate::window::Window;
use vstd::prelude::*;

verus! {

/// Whether a command moved point to a position and did nothing else but note a
/// goal column.
pub open spec fn moves_to(e: EditorModel, r: EditorModel, p: int) -> bool {
    &&& r == (EditorModel { windows: r.windows, goal_col: r.goal_col, ..e })
    &&& only_here(e, r)
    &&& cur_win(r) == (Window { point: p as usize, ..cur_win(e) })
}

proof fn lemma_moved(e: EditorModel, p: int)
    requires
        wf(e),
    ensures
        wf(moved(e, p)),
        moves_to(e, moved(e, p), p),
{
    lemma_cur(e);
    lemma_put_here(e, at_point(e, p), cur_buf(e));
    let r = moved(e, p);
    assert(r.buffers =~= e.buffers);
    assert(r =~= EditorModel { windows: r.windows, goal_col: r.goal_col, ..e });
}

/// How often a command is done: the prefix argument, or once.
pub open spec fn often(n: Option<u32>) -> int {
    match n {
        Some(k) => k as int,
        None => 1,
    }
}

/// forward-char and backward-char go that many chars, but not past the ends.
pub proof fn law_char_motion(e: EditorModel, n: Option<u32>)
    requires
        wf(e),
        counted(e),
    ensures
        ({
            let p = cur_point(e);
            let len = cur_buf(e).text.len() as int;
            let f = native_done(e, NativeCmd::ForwardChar, n).0;
            let b = native_done(e, NativeCmd::BackwardChar, n).0;
            &&& moves_to(e, f, min(p + often(n), len))
            &&& moves_to(e, b, max(p - often(n), 0))
            &&& p + often(n) <= len ==> cur_point(
                native_done(f, NativeCmd::BackwardChar, n).0,
            ) == p
        }),
{
    lemma_motion_commands(e, n);
    let p = cur_point(e);
    let len = cur_buf(e).text.len() as int;
    lemma_moved(e, min(p + often(n), len));
    lemma_moved(e, max(p - often(n), 0));
    let f = native_done(e, NativeCmd::ForwardChar, n).0;
    lemma_motion_commands(f, n);
    if p + often(n) <= len {
        lemma_moved(f, p);
    }
}

/// The column that moves by lines keep: that of the first of them in a row.
pub open spec fn kept_column(e: EditorModel) -> int {
    match e.goal_col {
        Some(g) => g as int,
        None => cur_point(e) - line_begin(cur_buf(e).text, line_of(cur_buf(e).text, cur_point(e))),
    }
}

/// next-line and previous-line go that many lines, but not past the first or the
/// last, to the kept column or the end of a shorter line, and note that column.
pub proof fn law_line_motion(e: EditorModel, n: Option<u32>)
    requires
        wf(e),
        counted(e),
    ensures
        ({
            let t = cur_buf(e).text;
            let line = line_of(t, cur_point(e));
            let down = min(line + often(n), line_count(t) - 1);
            let up = max(line - often(n), 0);
            let col = kept_column(e);
            let d = native_done(e, NativeCmd::NextLine, n).0;
            let u = native_done(e, NativeCmd::PreviousLine, n).0;
            &&& moves_to(e, d, min(line_begin(t, down) + col, end_at(t, line_begin(t, down))))
            &&& moves_to(e, u, min(line_begin(t, up) + col, end_at(t, line_begin(t, up))))
            &&& d.goal_col == Some(col as usize)
            &&& u.goal_col == Some(col as usize)
        }),
{
    lemma_motion_commands(e, n);
    let t = cur_buf(e).text;
    let p = cur_point(e);
    lemma_line_around(t, p);
    assert(goal_of(e) == kept_column(e));
    let line = line_of(t, p);
    let down = min(line + often(n), line_count(t) - 1);
    let up = max(line - often(n), 0);
    lemma_moved(e, at_column(t, down, goal_of(e)));
    lemma_moved(e, at_column(t, up, goal_of(e)));
}

// ---- words -----------------------------------------------------------------

/// Whether word chars fill a text from `a` to `b`.
pub open spec fn all_word(t: Seq<char>, a: int, b: int) -> bool {
    forall|i: int| a <= i < b ==> is_alphanumeric(#[trigger] t[i])
}

/// Whether no word char stands in a text from `a` to `b`.
pub open spec fn no_word(t: Seq<char>, a: int, b: int) -> bool {
    forall|i: int| a <= i < b ==> !is_alphanumeric(#[trigger] t[i])
}

proof fn lemma_skip_to(t: Seq<char>, p: int)
    requires
        0 <= p <= t.len(),
    ensures
        p <= skip_to_word(t, p) <= t.len(),
        no_word(t, p, skip_to_word(t, p)),
        skip_to_word(t, p) < t.len() ==> is_alphanumeric(t[skip_to_word(t, p)]),
    decreases t.len() - p,
{
    if p < t.len() && !is_alphanumeric(t[p]) {
        lemma_skip_to(t, p + 1);
    }
}

proof fn lemma_skip_in(t: Seq<char>, p: int)
    requires
        0 <= p <= t.len(),
    ensures
        p <= skip_in_word(t, p) <= t.len(),
        all_word(t, p, skip_in_word(t, p)),
        skip_in_word(t, p) < t.len() ==> !is_alphanumeric(t[skip_in_word(t, p)]),
    decreases t.len() - p,
{
    if p < t.len() && is_alphanumeric(t[p]) {
        lemma_skip_in(t, p + 1);
    }
}

proof fn lemma_back_to(t: Seq<char>, p: int)
    requires
        0 <= p <= t.len(),
    ensures
        0 <= back_to_word(t, p) <= p,
        no_word(t, back_to_word(t, p), p),
        back_to_word(t, p) > 0 ==> is_alphanumeric(t[back_to_word(t, p) - 1]),
    decreases p,
{
    if p > 0 && !is_alphanumeric(t[p - 1]) {
        lemma_back_to(t, p - 1);
    }
}

proof fn lemma_back_in(t: Seq<char>, p: int)
    requires
        0 <= p <= t.len(),
    ensures
        0 <= back_in_word(t, p) <= p,
        all_word(t, back_in_word(t, p), p),
        back_in_word(t, p) > 0 ==> !is_alphanumeric(t[back_in_word(t, p) - 1]),
    decreases p,
{
    if p > 0 && is_alphanumeric(t[p - 1]) {
        lemma_back_in(t, p - 1);
    }
}

/// Whether `q` is the end of the next word from `p` on: no word char and then
/// only word chars stand between, and none stands at `q`; the end of the text
/// where there is no word.
pub open spec fn next_word_ends(t: Seq<char>, p: int, q: int) -> bool {
    exists|k: int|
        {
            &&& p <= k <= q <= t.len()
            &&& #[trigger] no_word(t, p, k)
            &&& all_word(t, k, q)
            &&& q < t.len() ==> !is_alphanumeric(t[q]) && k < q
        }
}

/// Whether `q` is the start of the word before `p`: only word chars and then no
/// word char stand between, and none stands before `q`; the start of the text
/// where there is no word.
pub open spec fn last_word_starts(t: Seq<char>, p: int, q: int) -> bool {
    exists|k: int|
        {
            &&& 0 <= q <= k <= p
            &&& #[trigger] no_word(t, k, p)
            &&& all_word(t, q, k)
            &&& q > 0 ==> !is_alphanumeric(t[q - 1]) && q < k
        }
}

proof fn lemma_word(t: Seq<char>, p: int)
    requires
        0 <= p <= t.len(),
    ensures
        next_word_ends(t, p, word_end(t, p)),
        last_word_starts(t, p, word_start(t, p)),
{
    lemma_skip_to(t, p);
    let k = skip_to_word(t, p);
    lemma_skip_in(t, k);
    assert(no_word(t, p, k));
    if k < t.len() {
        assert(skip_in_word(t, k) == skip_in_word(t, k + 1));
        lemma_skip_in(t, k + 1);
    }
    lemma_back_to(t, p);
    let j = back_to_word(t, p);
    lemma_back_in(t, j);
    assert(no_word(t, j, p));
    if j > 0 {
        assert(back_in_word(t, j) == back_in_word(t, j - 1));
        lemma_back_in(t, j - 1);
    }
}

/// forward-word goes to the end of the next word, and backward-word to the start
/// of the word before.
pub proof fn law_word_motion(e: EditorModel)
    requires
        wf(e),
        counted(e),
    ensures
        ({
            let t = cur_buf(e).text;
            let p = cur_point(e);
            let f = native_done(e, NativeCmd::ForwardWord, None).0;
            let b = native_done(e, NativeCmd::BackwardWord, None).0;
            &&& moves_to(e, f, cur_win(f).point as int)
            &&& next_word_ends(t, p, cur_win(f).point as int)
            &&& moves_to(e, b, cur_win(b).point as int)
            &&& last_word_starts(t, p, cur_win(b).point as int)
        }),
{
    lemma_motion_commands(e, None);
    let t = cur_buf(e).text;
    let p = cur_point(e);
    lemma_word(t, p);
    law_word_bounds(t, p);
    reveal_with_fuel(word_ends, 2);
    reveal_with_fuel(word_starts, 2);
    lemma_moved(e, word_end(t, p));
    lemma_moved(e, word_start(t, p));
}

proof fn lemma_words_in(t: Seq<char>, p: int, n: int)
    requires
        0 <= p <= t.len(),
    ensures
        0 <= word_ends(t, p, n) <= t.len(),
        0 <= word_starts(t, p, n) <= t.len(),
    decreases n,
{
    if n > 0 {
        lemma_words_in(t, p, n - 1);
        law_word_bounds(t, word_ends(t, p, n - 1));
        law_word_bounds(t, word_starts(t, p, n - 1));
    }
}

/// A count repeats a word motion: going `k` words and one more is going `k + 1`
/// words.
pub proof fn law_word_count(e: EditorModel, k: u32)
    requires
        wf(e),
        counted(e),
        k < u32::MAX,
    ensures
        ({
            let f = native_done(e, NativeCmd::ForwardWord, Some(k)).0;
            let b = native_done(e, NativeCmd::BackwardWord, Some(k)).0;
            &&& cur_point(native_done(f, NativeCmd::ForwardWord, None).0) == cur_point(
                native_done(e, NativeCmd::ForwardWord, Some((k + 1) as u32)).0,
            )
            &&& cur_point(native_done(b, NativeCmd::BackwardWord, None).0) == cur_point(
                native_done(e, NativeCmd::BackwardWord, Some((k + 1) as u32)).0,
            )
        }),
{
    let k1 = (k + 1) as u32;
    lemma_motion_commands(e, Some(k));
    lemma_motion_commands(e, Some(k1));
    let t = cur_buf(e).text;
    let p = cur_point(e);
    let f = native_done(e, NativeCmd::ForwardWord, Some(k)).0;
    let b = native_done(e, NativeCmd::BackwardWord, Some(k)).0;
    lemma_motion_commands(f, None);
    lemma_motion_commands(b, None);
    lemma_words_in(t, p, k as int);
    lemma_words_in(t, p, k1 as int);
    lemma_moved(e, word_ends(t, p, k as int));
    lemma_moved(e, word_ends(t, p, k1 as int));
    lemma_moved(e, word_starts(t, p, k as int));
    lemma_moved(e, word_starts(t, p, k1 as int));
    reveal_with_fuel(word_ends, 2);
    reveal_with_fuel(word_starts, 2);
    assert(cur_buf(f) == cur_buf(e));
    assert(cur_buf(b) == cur_buf(e));
    lemma_moved(f, word_end(t, cur_point(f)));
    lemma_moved(b, word_start(t, cur_point(b)));
}

// ---- ends ------------------------------------------------------------------

/// beginning-of-line goes to where the line of point starts, end-of-line to before
/// the newline that ends it, and the two commands for the buffer to its ends.
pub proof fn law_end_motion(e: EditorModel, n: Option<u32>)
    requires
        wf(e),
        counted(e),
    ensures
        ({
            let t = cur_buf(e).text;
            let p = cur_point(e);
            let a = native_done(e, NativeCmd::BeginningOfLine, n).0;
            let z = native_done(e, NativeCmd::EndOfLine, n).0;
            let q = cur_win(z).point as int;
            &&& moves_to(e, a, line_begin(t, line_of(t, p)))
            &&& moves_to(e, z, q)
            &&& p <= q <= t.len()
            &&& forall|i: int| p <= i < q ==> #[trigger] t[i] != '\n'
            &&& q == t.len() || t[q] == '\n' || (q > p && is_break(t[q - 1]))
            &&& moves_to(e, native_done(e, NativeCmd::BeginningOfBuffer, n).0, 0)
            &&& moves_to(e, native_done(e, NativeCmd::EndOfBuffer, n).0, t.len() as int)
        }),
{
    lemma_motion_far_commands(e, n);
    let t = cur_buf(e).text;
    let p = cur_point(e);
    lemma_line_around(t, p);
    lemma_line_ends(t, p);
    lemma_moved(e, start_at(t, p));
    lemma_moved(e, end_at(t, p));
    lemma_moved(e, 0);
    lemma_moved(e, t.len() as int);
    lemma_end(t, p);
}

proof fn lemma_end(t: Seq<char>, p: int)
    requires
        0 <= p <= t.len(),
    ensures
        p <= end_at(t, p) <= t.len(),
        forall|i: int| p <= i < end_at(t, p) ==> #[trigger] t[i] != '\n',
        end_at(t, p) == t.len() || t[end_at(t, p)] == '\n' || (end_at(t, p) > p && is_break(
            t[end_at(t, p) - 1],
        )),
{
    lemma_line_ends(t, p);
    lemma_line_around(t, p);
    let l = line_of(t, p);
    let q = end_at(t, p);
    let stop = line_begin(t, l + 1);
    lemma_line_begin(t, l);
    lemma_line_begin(t, l + 1);
    assert forall|i: int| p <= i < q implies #[trigger] t[i] != '\n' by {
        if t[i] == '\n' {
            assert(starts_line(t, i + 1));
            crate::lines::lemma_line_of_monotone(t, p, i);
            assert(line_of(t, i + 1) == line_of(t, i) + 1);
            assert(line_of(t, i + 1) >= l + 1);
            if i + 1 < stop {
                if l + 1 < line_count(t) {
                    assert(line_of(t, i + 1) < l + 1);
                } else {
                    crate::lines::lemma_line_of_monotone(t, i + 1, t.len() as int);
                }
            } else {
                assert(stop == i + 1);
                assert(t[stop - 1] == '\n');
                assert(q == stop - 1);
            }
        }
    }
    if q < t.len() && t[q] != '\n' {
        assert(q == stop);
        assert(l + 1 < line_count(t));
        assert(starts_line(t, stop));
    }
}

/// goto-line goes to the start of the line of that number, counted from 1: to the
/// first one for 0, and to the last one for numbers past it. Without a number it
/// asks for one.
pub proof fn law_goto_line(e: EditorModel, k: u32, input: Seq<char>)
    requires
        wf(e),
        counted(e),
        e.input is Normal,
    ensures
        ({
            let t = cur_buf(e).text;
            let r = native_done(e, NativeCmd::GotoLine, Some(k)).0;
            let asks = native_done(e, NativeCmd::GotoLine, None).0;
            &&& moves_to(e, r, line_begin(t, min(max(k - 1, 0), line_count(t) - 1)))
            &&& asks == (EditorModel { input: asks.input, ..e })
            &&& match asks.input {
                InputModel::Prompt(p) => p.kind == KindModel::GotoLine && p.input.len() == 0,
                _ => false,
            }
            &&& parse_decimal(crate::strings::trimmed(input)) == Some(k as nat) ==> completed(
                e,
                KindModel::GotoLine,
                input,
            ).0 == r
            &&& parse_decimal(crate::strings::trimmed(input)) is None ==> {
                let x = completed(e, KindModel::GotoLine, input).0;
                x == (EditorModel { echo: x.echo, ..e })
            }
        }),
{
    lemma_motion_far_commands(e, Some(k));
    lemma_motion_far_commands(e, None);
    let t = cur_buf(e).text;
    lemma_line_around(t, cur_point(e));
    lemma_moved(e, line_begin(t, min(max(k as int, 1), line_count(t)) - 1));
}

// ---- scrolling -------------------------------------------------------------

/// Whether a command scrolled the selected window to a line and put point at a
/// position, and did nothing else.
pub open spec fn scrolls_to(e: EditorModel, r: EditorModel, top: int, p: int) -> bool {
    &&& r == (EditorModel { windows: r.windows, ..e })
    &&& only_here(e, r)
    &&& cur_win(r) == (Window { top_line: top as usize, point: p as usize, ..cur_win(e) })
}

proof fn lemma_scrolled(e: EditorModel, top: int, p: int)
    requires
        wf(e),
    ensures
        scrolls_to(e, scrolled(e, top, p), top, p),
{
    lemma_cur(e);
    let w = Window { top_line: top as usize, point: p as usize, ..cur_win(e) };
    lemma_put_here(e, w, cur_buf(e));
    let r = scrolled(e, top, p);
    assert(r.buffers =~= e.buffers);
    assert(r =~= EditorModel { windows: r.windows, ..e });
}

/// C-v scrolls a window height less two lines forward, one line at least, but not
/// past the last line; point goes to the top line where it would be above it. At
/// the last line it only says so.
pub proof fn law_scrolls_forward(e: EditorModel, n: Option<u32>)
    requires
        wf(e),
        counted(e),
    ensures
        ({
            let t = cur_buf(e).text;
            let top = cur_win(e).top_line as int;
            let last = line_count(t) - 1;
            let page = max(height_of(e) - 2, 1);
            let to = min(top + page, last);
            let r = native_done(e, NativeCmd::ScrollUpCommand, n).0;
            let p = if line_of(t, cur_point(e)) < to {
                line_begin(t, to)
            } else {
                cur_point(e)
            };
            &&& top < last ==> scrolls_to(e, r, to, p)
            &&& top >= last ==> r.buffers == e.buffers && cur_win(r).top_line == top && cur_win(
                r,
            ).point == cur_point(e)
        }),
{
    lemma_scroll_commands(e, n);
    let t = cur_buf(e).text;
    let top = cur_win(e).top_line as int;
    let last = line_count(t) - 1;
    let page = max(height_of(e) - 2, 1);
    let to = min(top + page, last);
    let p = if line_of(t, cur_point(e)) < to {
        line_begin(t, to)
    } else {
        cur_point(e)
    };
    lemma_scrolled(e, to, p);
    lemma_moved(e, cur_point(e));
}

/// M-v scrolls the same number of lines backward, but not past the first line;
/// point goes to the last line on screen where it would be below it.
pub proof fn law_scrolls_backward(e: EditorModel, n: Option<u32>)
    requires
        wf(e),
        counted(e),
    ensures
        ({
            let t = cur_buf(e).text;
            let top = cur_win(e).top_line as int;
            let page = max(height_of(e) - 2, 1);
            let to = max(top - page, 0);
            let bottom = to + height_of(e) - 1;
            let r = native_done(e, NativeCmd::ScrollDownCommand, n).0;
            let p = if line_of(t, cur_point(e)) > bottom {
                line_begin(t, min(bottom, line_count(t) - 1))
            } else {
                cur_point(e)
            };
            &&& top > 0 ==> scrolls_to(e, r, to, p)
            &&& top == 0 ==> r.buffers == e.buffers && cur_win(r).top_line == 0 && cur_win(r).point
                == cur_point(e)
        }),
{
    lemma_scroll_commands(e, n);
    let t = cur_buf(e).text;
    let top = cur_win(e).top_line as int;
    let page = max(height_of(e) - 2, 1);
    let to = max(top - page, 0);
    let bottom = to + height_of(e) - 1;
    let p = if line_of(t, cur_point(e)) > bottom {
        line_begin(t, min(bottom, line_count(t) - 1))
    } else {
        cur_point(e)
    };
    lemma_scrolled(e, to, p);
    lemma_moved(e, cur_point(e));
}

/// C-l puts the line of point in the middle of the window, as far as there are
/// lines above it, and leaves point where it is.
pub proof fn law_recenters(e: EditorModel, n: Option<u32>)
    requires
        wf(e),
        counted(e),
    ensures
        scrolls_to(
            e,
            native_done(e, NativeCmd::Recenter, n).0,
            max(line_of(cur_buf(e).text, cur_point(e)) - height_of(e) / 2, 0),
            cur_point(e),
        ),
{
    lemma_scroll_commands(e, n);
    lemma_scrolled(
        e,
        max(line_of(cur_buf(e).text, cur_point(e)) - height_of(e) / 2, 0),
        cur_point(e),
    );
}

} // verus!
