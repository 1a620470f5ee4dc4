//! What the editing commands do to the text.

use crate::buffer::{inserted, removed, BufferModel};
use crate::commands::basic::{times, typed};
use crate::commands::editing::{
    after_blanks, before_blanks, blanks, indent, indent_above, indent_target, is_blank,
    line_indented, lowercased, swapped, uppercased,
};
use crate::commands::movement::{law_word_bounds, word_end};
use crate::commands::run::native_done;
use crate::dispatch::{boundary_set, chord_handled, in_typing, key_meaning, key_typed, keys_cleared};
use crate::editor::{
    at_point, cur_buf, cur_point, cur_win, edit_cur, lemma_cur, lemma_put, lemma_wf_same,
    lemma_with_buf, wf, EditorModel,
};
use crate::input::{prefix_value, ActionModel, PrefixArg};
use crate::keys::{inserts, Chord};
use crate::laws::frame::{counted, lemma_here_chain, lemma_here_same, lemma_put_here, only_here};
use crate::laws::motion::{next_word_ends, often};
use crate::laws::table::{
    lemma_delete_commands, lemma_edit_commands, lemma_kill_commands, lemma_search_commands,
    lemma_yank_commands,
};
use crate::lines::{
    end_at, lemma_line_around, lemma_line_begin, lemma_line_ends, line_begin, line_count, line_of,
    max, min,
};
use crate::native::NativeCmd;
use crate::strings::{is_digit, repeated};
use crate::undo::bounded;
use vstd::prelude::*;

verus! {

/// Whether the text from `a` to `b` of the current buffer was replaced by `x`, and
/// point put at `p`; all other text, all other buffers and windows, and the kill
/// ring stay.
pub open spec fn splices(
    e: EditorModel,
    r: EditorModel,
    a: int,
    b: int,
    x: Seq<char>,
    p: int,
) -> bool {
    let t = cur_buf(e).text;
    &&& 0 <= a <= b <= t.len()
    &&& cur_buf(r).text == t.take(a) + x + t.skip(b)
    &&& cur_win(r).point == p as usize
    &&& only_here(e, r)
    &&& r.kill_ring == e.kill_ring
    &&& a < b || x.len() > 0 ==> cur_buf(r).modified && !cur_buf(r).mark_active
}

proof fn lemma_splice(e: EditorModel, a: int, b: int, x: Seq<char>, p: int)
    requires
        wf(e),
        0 <= a <= b <= cur_buf(e).text.len(),
    ensures
        ({
            let r = edit_cur(e, p, inserted(removed(cur_buf(e), a, b), a, x));
            wf(r) && splices(e, r, a, b, x, p) && cur_buf(r).read_only == cur_buf(e).read_only
        }),
{
    let t = cur_buf(e).text;
    let c = removed(cur_buf(e), a, b);
    assert(c.text =~= t.take(a) + t.skip(b));
    let d = inserted(c, a, x);
    assert(d.text =~= t.take(a) + x + t.skip(b));
    lemma_put_here(e, at_point(e, p), d);
}

/// Whether a command does nothing in a read-only buffer but say so.
pub open spec fn is_editing(c: NativeCmd) -> bool {
    match c {
        NativeCmd::IndentLine => true,
        NativeCmd::Newline => true,
        NativeCmd::OpenLine => true,
        NativeCmd::NewlineAndIndent => true,
        NativeCmd::DeleteHorizontalSpace => true,
        NativeCmd::DeleteChar => true,
        NativeCmd::DeleteBackwardChar => true,
        NativeCmd::BackwardKillWord => true,
        NativeCmd::KillWord => true,
        NativeCmd::KillLine => true,
        NativeCmd::KillRegion => true,
        NativeCmd::Yank => true,
        NativeCmd::TransposeChars => true,
        NativeCmd::UpcaseWord => true,
        NativeCmd::DowncaseWord => true,
        NativeCmd::Undo => true,
        NativeCmd::StringRectangle => true,
        NativeCmd::QueryReplace => true,
        _ => false,
    }
}

/// A read-only buffer is not edited: every editing command only says that it is
/// read-only.
pub proof fn law_read_only_kept(e: EditorModel, c: NativeCmd, n: Option<u32>)
    requires
        cur_buf(e).read_only,
        is_editing(c),
    ensures
        native_done(e, c, n) == (
            EditorModel { echo: Some("Buffer is read-only"@), ..e },
            ActionModel::Nothing,
        ),
{
    lemma_edit_commands(e, n);
    lemma_delete_commands(e, n);
    lemma_kill_commands(e, n);
    lemma_yank_commands(e, n);
    lemma_search_commands(e, n);
}

// ---- inserting -------------------------------------------------------------

/// A printable key that is not bound puts its char in at point, as often as the
/// prefix argument says, and point behind it.
pub proof fn law_key_inserts(e: EditorModel, c: Chord)
    requires
        wf(e),
        e.input is Normal,
        e.pending.len() == 0,
        inserts(c) is Some,
        key_meaning(e, seq![c]) is Unbound,
        e.prefix == PrefixArg::Unset || !is_digit(inserts(c)->0),
        !cur_buf(e).read_only,
    ensures
        ({
            let (r, a) = chord_handled(e, c);
            let p = cur_point(e);
            let k = match e.prefix {
                PrefixArg::Unset => 1,
                PrefixArg::Universal => 4,
                PrefixArg::Num(n) => n as int,
            };
            &&& splices(
                e,
                r,
                p,
                p,
                Seq::new(k as nat, |i: int| inserts(c)->0),
                p + k,
            )
            &&& a is Nothing
            &&& r.prefix == PrefixArg::Unset
            &&& r.pending.len() == 0
        }),
{
    let e0 = EditorModel { echo: None, ..e };
    let ch = inserts(c)->0;
    let k = times(prefix_value(e.prefix));
    let x = repeated(ch, k as nat);
    assert(x =~= Seq::new(k as nat, |i: int| ch));
    assert(e0.pending.push(c) =~= seq![c]);
    assert(key_meaning(e0, seq![c]) == key_meaning(e, seq![c]));
    let e1 = keys_cleared(e0);
    let e2 = EditorModel { prefix: PrefixArg::Unset, goal_col: None, ..e1 };
    lemma_wf_same(e, e2);
    lemma_cur(e2);
    let b = BufferModel { undo: bounded(cur_buf(e2).undo), ..cur_buf(e2) };
    lemma_with_buf(e2, b);
    lemma_put_here(e2, cur_win(e2), b);
    let e3 = if in_typing(e1) {
        e2
    } else {
        boundary_set(e2)
    };
    let p = cur_point(e);
    assert(cur_point(e3) == p);
    assert(removed(cur_buf(e3), p, p) == cur_buf(e3));
    lemma_splice(e3, p, p, x, p + k);
    let r = chord_handled(e, c).0;
    assert(r == key_typed(e1, x));
    let f = typed(e3, x);
    assert(r == (EditorModel { last_command: Some("self-insert"@), ..f }));
    assert(only_here(e, e3));
    lemma_here_chain(e, e3, f);
    lemma_here_same(e, f, r);
}

/// newline puts newlines in at point and point behind them; open-line does the
/// same and leaves point. A count says how many, one at least.
pub proof fn law_newlines(e: EditorModel, n: Option<u32>)
    requires
        wf(e),
        !cur_buf(e).read_only,
    ensures
        ({
            let p = cur_point(e);
            let k = max(often(n), 1);
            let x = Seq::new(k as nat, |i: int| '\n');
            &&& splices(e, native_done(e, NativeCmd::Newline, n).0, p, p, x, p + k)
            &&& splices(e, native_done(e, NativeCmd::OpenLine, n).0, p, p, x, p)
        }),
{
    lemma_edit_commands(e, n);
    let p = cur_point(e);
    let k = max(often(n), 1);
    let x = repeated('\n', k as nat);
    assert(x =~= Seq::new(k as nat, |i: int| '\n'));
    assert(removed(cur_buf(e), p, p) == cur_buf(e));
    lemma_splice(e, p, p, x, p + k);
    lemma_splice(e, p, p, x, p);
}

// ---- deleting --------------------------------------------------------------

/// delete-char takes out that many chars behind point, delete-backward-char that
/// many before it, as far as there are any.
pub proof fn law_chars_deleted(e: EditorModel, n: Option<u32>)
    requires
        wf(e),
        counted(e),
        !cur_buf(e).read_only,
    ensures
        ({
            let p = cur_point(e);
            let len = cur_buf(e).text.len() as int;
            let a = max(p - often(n), 0);
            let b = min(p + often(n), len);
            &&& splices(e, native_done(e, NativeCmd::DeleteChar, n).0, p, b, Seq::empty(), p)
            &&& splices(e, native_done(e, NativeCmd::DeleteBackwardChar, n).0, a, p, Seq::empty(), a)
        }),
{
    lemma_delete_commands(e, n);
    lemma_forward(e, n);
    lemma_backward(e, n);
}

proof fn lemma_unchanged(e: EditorModel, r: EditorModel, p: int)
    requires
        wf(e),
        0 <= p <= cur_buf(e).text.len(),
        r.buffers == edit_cur(e, p, cur_buf(e)).buffers,
        r.windows == edit_cur(e, p, cur_buf(e)).windows,
        r.kill_ring == e.kill_ring,
    ensures
        splices(e, r, p, p, Seq::empty(), p),
{
    let t = cur_buf(e).text;
    lemma_put_here(e, at_point(e, p), cur_buf(e));
    assert(t.take(p) + Seq::<char>::empty() + t.skip(p) =~= t);
    lemma_here_same(e, edit_cur(e, p, cur_buf(e)), r);
}

proof fn lemma_forward(e: EditorModel, n: Option<u32>)
    requires
        wf(e),
        counted(e),
        !cur_buf(e).read_only,
    ensures
        splices(
            e,
            crate::commands::editing::deleted_forward(e, n),
            cur_point(e),
            min(cur_point(e) + often(n), cur_buf(e).text.len() as int),
            Seq::empty(),
            cur_point(e),
        ),
{
    let x = cur_buf(e);
    let p = cur_point(e);
    let b = min(p + often(n), x.text.len() as int);
    let r = crate::commands::editing::deleted_forward(e, n);
    if p == x.text.len() {
        lemma_unchanged(e, r, p);
    } else {
        lemma_splice(e, p, b, Seq::empty(), p);
        assert(removed(x, p, p + often(n)) == removed(x, p, b));
    }
}

proof fn lemma_backward(e: EditorModel, n: Option<u32>)
    requires
        wf(e),
        counted(e),
        !cur_buf(e).read_only,
    ensures
        splices(
            e,
            crate::commands::editing::deleted_backward(e, n),
            max(cur_point(e) - often(n), 0),
            cur_point(e),
            Seq::empty(),
            max(cur_point(e) - often(n), 0),
        ),
{
    let p = cur_point(e);
    let a = max(p - often(n), 0);
    let r = crate::commands::editing::deleted_backward(e, n);
    if p == 0 {
        lemma_unchanged(e, r, p);
    } else {
        lemma_splice(e, a, p, Seq::empty(), a);
    }
}

/// delete-horizontal-space takes out all blanks around point and nothing else.
pub proof fn law_blanks_deleted(e: EditorModel, n: Option<u32>)
    requires
        wf(e),
        counted(e),
        !cur_buf(e).read_only,
    ensures
        ({
            let t = cur_buf(e).text;
            let p = cur_point(e);
            let r = native_done(e, NativeCmd::DeleteHorizontalSpace, n).0;
            exists|a: int, b: int|
                {
                    &&& a <= p <= b
                    &&& #[trigger] splices(e, r, a, b, Seq::empty(), a)
                    &&& forall|i: int| a <= i < b ==> (#[trigger] t[i] == ' ' || t[i] == '\t')
                    &&& a > 0 ==> t[a - 1] != ' ' && t[a - 1] != '\t'
                    &&& b < t.len() ==> t[b] != ' ' && t[b] != '\t'
                }
        }),
{
    lemma_edit_commands(e, n);
    let t = cur_buf(e).text;
    let p = cur_point(e);
    let a = before_blanks(t, p);
    let b = after_blanks(t, p);
    lemma_before(t, p);
    lemma_after(t, p);
    lemma_splice(e, a, b, Seq::empty(), a);
    let r = native_done(e, NativeCmd::DeleteHorizontalSpace, n).0;
    assert(splices(e, r, a, b, Seq::empty(), a));
}

proof fn lemma_before(t: Seq<char>, p: int)
    requires
        0 <= p <= t.len(),
    ensures
        0 <= before_blanks(t, p) <= p,
        forall|i: int| before_blanks(t, p) <= i < p ==> is_blank(#[trigger] t[i]),
        before_blanks(t, p) > 0 ==> !is_blank(t[before_blanks(t, p) - 1]),
    decreases p,
{
    if p > 0 && is_blank(t[p - 1]) {
        lemma_before(t, p - 1);
    }
}

proof fn lemma_after(t: Seq<char>, p: int)
    requires
        0 <= p <= t.len(),
    ensures
        p <= after_blanks(t, p) <= t.len(),
        forall|i: int| p <= i < after_blanks(t, p) ==> is_blank(#[trigger] t[i]),
        after_blanks(t, p) < t.len() ==> !is_blank(t[after_blanks(t, p)]),
    decreases t.len() - p,
{
    if p < t.len() && is_blank(t[p]) {
        lemma_after(t, p + 1);
    }
}

// ---- transposing and case --------------------------------------------------

/// transpose-chars swaps the chars before and behind point, and point goes behind
/// both; at the end of a line or of the buffer it swaps the two before point, and
/// point stays. Where there are not two such chars nothing is swapped.
pub proof fn law_transposes(e: EditorModel, n: Option<u32>)
    requires
        wf(e),
        counted(e),
        !cur_buf(e).read_only,
    ensures
        ({
            let t = cur_buf(e).text;
            let p = cur_point(e);
            let r = native_done(e, NativeCmd::TransposeChars, n).0;
            let at_end = p == t.len() || t[p] == '\n';
            &&& !at_end && p > 0 ==> splices(
                e,
                r,
                p - 1,
                p + 1,
                seq![t[p], t[p - 1]],
                p + 1,
            )
            &&& at_end && p > 1 ==> splices(e, r, p - 2, p, seq![t[p - 1], t[p - 2]], p)
            &&& p == 0 || (at_end && p == 1) ==> cur_buf(r) == cur_buf(e) && only_here(e, r)
        }),
{
    lemma_delete_commands(e, n);
    let t = cur_buf(e).text;
    let p = cur_point(e);
    let at_end = p == t.len() || t[p] == '\n';
    lemma_put_here(e, at_point(e, p), cur_buf(e));
    if !at_end && p > 0 {
        lemma_splice(e, p - 1, p + 1, seq![t[p], t[p - 1]], p + 1);
    } else if at_end && p > 1 {
        lemma_splice(e, p - 2, p, seq![t[p - 1], t[p - 2]], p);
    }
}

/// upcase-word and downcase-word change the case of the text from point to the end
/// of the next word, put point behind it, and leave all other text.
pub proof fn law_changes_case(e: EditorModel, n: Option<u32>)
    requires
        wf(e),
        counted(e),
        !cur_buf(e).read_only,
    ensures
        ({
            let t = cur_buf(e).text;
            let p = cur_point(e);
            let u = native_done(e, NativeCmd::UpcaseWord, n).0;
            let l = native_done(e, NativeCmd::DowncaseWord, n).0;
            exists|q: int|
                {
                    &&& #[trigger] next_word_ends(t, p, q)
                    &&& p < q ==> {
                        let x = uppercased(t.subrange(p, q));
                        let y = lowercased(t.subrange(p, q));
                        &&& splices(e, u, p, q, x, p + x.len())
                        &&& splices(e, l, p, q, y, p + y.len())
                    }
                    &&& p == q ==> cur_buf(u) == cur_buf(e) && cur_buf(l) == cur_buf(e)
                }
        }),
{
    lemma_delete_commands(e, n);
    let t = cur_buf(e).text;
    let p = cur_point(e);
    let q = word_end(t, p);
    law_word_bounds(t, p);
    crate::laws::motion::law_word_motion(e);
    crate::laws::table::lemma_motion_commands(e, None);
    reveal_with_fuel(crate::commands::movement::word_ends, 2);
    lemma_put(e, at_point(e, q), cur_buf(e));
    assert(next_word_ends(t, p, q));
    if p < q {
        let x = uppercased(t.subrange(p, q));
        let y = lowercased(t.subrange(p, q));
        lemma_splice(e, p, q, x, p + x.len());
        lemma_splice(e, p, q, y, p + y.len());
    } else {
        lemma_put_here(e, at_point(e, p), cur_buf(e));
    }
}

// ---- indentation -----------------------------------------------------------

/// Whether the blanks at the start of line `l` end at position `q`.
pub open spec fn indented_to(t: Seq<char>, l: int, q: int) -> bool {
    let start = line_begin(t, l);
    &&& start <= q <= end_at(t, start)
    &&& forall|i: int| start <= i < q ==> (#[trigger] t[i] == ' ' || t[i] == '\t')
    &&& q < end_at(t, start) ==> t[q] != ' ' && t[q] != '\t'
}

/// Whether a line holds nothing but blanks.
pub open spec fn blank_line(t: Seq<char>, l: int) -> bool {
    indented_to(t, l, end_at(t, line_begin(t, l)))
}

proof fn lemma_blanks(t: Seq<char>, p: int, end: int)
    requires
        0 <= p <= end <= t.len(),
    ensures
        0 <= blanks(t, p, end) <= end - p,
        forall|i: int| p <= i < p + blanks(t, p, end) ==> is_blank(#[trigger] t[i]),
        p + blanks(t, p, end) < end ==> !is_blank(t[p + blanks(t, p, end)]),
    decreases end - p,
{
    if p < end && is_blank(t[p]) {
        lemma_blanks(t, p + 1, end);
    }
}

proof fn lemma_indented(t: Seq<char>, l: int)
    requires
        0 <= l < line_count(t),
    ensures
        indented_to(t, l, line_begin(t, l) + indent(t, line_begin(t, l))),
        forall|q: int| #[trigger]
            indented_to(t, l, q) ==> q == line_begin(t, l) + indent(t, line_begin(t, l)),
{
    let start = line_begin(t, l);
    lemma_line_begin(t, l);
    lemma_line_ends(t, start);
    lemma_blanks(t, start, end_at(t, start));
    let k = start + indent(t, start);
    assert forall|q: int| #[trigger] indented_to(t, l, q) implies q == k by {
        if q < k {
            assert(is_blank(t[q]));
        } else if q > k {
            assert(t[k] == ' ' || t[k] == '\t');
        }
    }
}

/// Whether the last line above line `l` that holds more than blanks is indented by
/// `k`.
pub open spec fn above_indented(t: Seq<char>, l: int, k: int) -> bool {
    exists|m: int|
        {
            &&& 0 <= m < l
            &&& !blank_line(t, m)
            &&& #[trigger] indented_to(t, m, line_begin(t, m) + k)
            &&& forall|j: int| m < j < l ==> #[trigger] blank_line(t, j)
        }
}

proof fn lemma_above(t: Seq<char>, l: int)
    requires
        0 <= l <= line_count(t),
    ensures
        match indent_above(t, l) {
            Some(k) => above_indented(t, l, k),
            None => forall|j: int| 0 <= j < l ==> #[trigger] blank_line(t, j),
        },
    decreases l,
{
    if l > 0 {
        lemma_indented(t, l - 1);
        lemma_line_begin(t, l - 1);
        lemma_line_ends(t, line_begin(t, l - 1));
        let start = line_begin(t, l - 1);
        if start + indent(t, start) == end_at(t, start) {
            assert(blank_line(t, l - 1));
            lemma_above(t, l - 1);
            if let Some(k) = indent_above(t, l - 1) {
                let m = choose|m: int|
                    {
                        &&& 0 <= m < l - 1
                        &&& !blank_line(t, m)
                        &&& #[trigger] indented_to(t, m, line_begin(t, m) + k)
                        &&& forall|j: int| m < j < l - 1 ==> #[trigger] blank_line(t, j)
                    };
                assert(indented_to(t, m, line_begin(t, m) + k));
            }
        } else {
            assert(!blank_line(t, l - 1)) by {
                if blank_line(t, l - 1) {
                    assert(indented_to(t, l - 1, end_at(t, start)));
                }
            }
            assert(indented_to(t, l - 1, line_begin(t, l - 1) + indent(t, start)));
        }
    }
}

/// Whether what stands before position `q` on the line of point was replaced by
/// `k` spaces. Point stays on its char, or goes behind the spaces where it was
/// before `q`.
pub open spec fn indents_by(e: EditorModel, r: EditorModel, q: int, k: int) -> bool {
    let start = line_begin(cur_buf(e).text, line_of(cur_buf(e).text, cur_point(e)));
    splices(
        e,
        r,
        start,
        q,
        Seq::new(k as nat, |i: int| ' '),
        start + k + max(cur_point(e) - q, 0),
    )
}

/// indent-line replaces the blanks at the start of the line by spaces: as many as
/// the last line above that holds more than blanks is indented by, where that is
/// more than now, else four more than now. Point stays on its char, or goes to the
/// first char of the line where it was among the blanks.
pub proof fn law_indents(e: EditorModel, n: Option<u32>)
    requires
        wf(e),
        counted(e),
        !cur_buf(e).read_only,
    ensures
        ({
            let t = cur_buf(e).text;
            let p = cur_point(e);
            let l = line_of(t, p);
            let start = line_begin(t, l);
            let r = native_done(e, NativeCmd::IndentLine, n).0;
            exists|q: int, k: int|
                {
                    &&& indented_to(t, l, q)
                    &&& k > q - start
                    &&& #[trigger] indents_by(e, r, q, k)
                    &&& above_indented(t, l, k) || k == q - start + 4
                    &&& forall|j: int| j > q - start && #[trigger] above_indented(t, l, j) ==> j
                        == k
                }
        }),
{
    lemma_edit_commands(e, n);
    let t = cur_buf(e).text;
    let p = cur_point(e);
    let l = line_of(t, p);
    lemma_line_around(t, p);
    lemma_line_ends(t, p);
    let start = line_begin(t, l);
    lemma_line_begin(t, l);
    lemma_line_ends(t, start);
    lemma_indented(t, l);
    lemma_above(t, l);
    let now = indent(t, start);
    let q = start + now;
    let k = indent_target(t, p);
    let x = repeated(' ', k as nat);
    assert(x =~= Seq::new(k as nat, |i: int| ' '));
    lemma_splice(e, start, q, x, start + k + max(p - q, 0));
    let r = native_done(e, NativeCmd::IndentLine, n).0;
    assert(r == line_indented(e));
    assert(r == edit_cur(e, start + k + max(p - q, 0), inserted(removed(cur_buf(e), start, q), start, x)));
    assert forall|j: int| j > now && #[trigger] above_indented(t, l, j) implies j == k by {
        lemma_above_one(t, l, j);
    }
    assert(indents_by(e, r, q, k));
}

proof fn lemma_above_one(t: Seq<char>, l: int, j: int)
    requires
        0 <= l < line_count(t),
        above_indented(t, l, j),
    ensures
        indent_above(t, l) == Some(j),
    decreases l,
{
    let m = choose|m: int|
        {
            &&& 0 <= m < l
            &&& !blank_line(t, m)
            &&& #[trigger] indented_to(t, m, line_begin(t, m) + j)
            &&& forall|i: int| m < i < l ==> #[trigger] blank_line(t, i)
        };
    lemma_indented(t, l - 1);
    let start = line_begin(t, l - 1);
    if m == l - 1 {
        if start + indent(t, start) == end_at(t, start) {
            assert(blank_line(t, m));
        }
    } else {
        assert(blank_line(t, l - 1));
        assert(indented_to(t, l - 1, end_at(t, start)));
        assert(above_indented(t, l - 1, j));
        lemma_above_one(t, l - 1, j);
    }
}

/// newline-and-indent is a newline and then an indentation of the new line.
pub proof fn law_newline_then_indent(e: EditorModel, n: Option<u32>)
    requires
        wf(e),
        !cur_buf(e).read_only,
    ensures
        native_done(e, NativeCmd::NewlineAndIndent, n).0 == native_done(
            native_done(e, NativeCmd::Newline, None).0,
            NativeCmd::IndentLine,
            n,
        ).0,
{
    lemma_edit_commands(e, n);
    lemma_edit_commands(e, None);
    let m = native_done(e, NativeCmd::Newline, None).0;
    lemma_edit_commands(m, n);
    assert(repeated('\n', 1) =~= seq!['\n']);
}

} // verus!
