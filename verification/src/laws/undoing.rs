//! What undo gives back.

use crate::buffer::{edited, inserted, law_undo_restores, removed, undone, BufferModel};
use crate::commands::basic::times;
use crate::commands::editing::{
    can_undo_times, line_indented, one_undone, undo_done, undo_ok, undone_times, word_replaced,
};
use crate::commands::movement::{law_word_bounds, word_end, word_start};
use crate::commands::ring::{killed, killed_back, words_killed, words_killed_back};
use crate::commands::run::native_done;
use crate::dispatch::boundary_set;
use crate::editor::{
    at_point, clamped, cur_buf, cur_point, edit_cur, lemma_put, lemma_wf_same, lemma_with_buf, wf,
    EditorModel,
};
use crate::input::KindModel;
use crate::laws::table::{
    lemma_delete_commands, lemma_edit_commands, lemma_kill_commands, lemma_yank_commands,
};
use crate::lines::{clip, end_at, lemma_line_around, lemma_line_ends, line_begin, start_at};
use crate::minibuffer::completed;
use crate::native::NativeCmd;
use crate::rect::{rect_line, rect_lines, rectangle};
use crate::strings::repeated;
use crate::undo::{
    all_in_text, bounded, changed_all, lemma_bounded_group, lemma_newest_nonempty, newest_group,
    recorded, recorded_all, reverted_point, Change,
};
use vstd::prelude::*;

verus! {

/// Whether a buffer came from another one by changes that lie in its text and are
/// all in its undo log.
pub open spec fn by_changes(b: BufferModel, c: BufferModel) -> bool {
    &&& c.id == b.id
    &&& c.read_only == b.read_only
    &&& exists|cs: Seq<Change>| #[trigger] logged(b, c, cs)
}

/// Whether a buffer came from another one by some changes that lie in its text and
/// are all in its undo log.
pub open spec fn logged(b: BufferModel, c: BufferModel, cs: Seq<Change>) -> bool {
    &&& all_in_text(b.text, cs)
    &&& c.text == changed_all(b.text, cs)
    &&& c.undo == b.undo + recorded_all(b.text, cs)
}

proof fn lemma_same(b: BufferModel, c: BufferModel)
    requires
        c.id == b.id,
        c.read_only == b.read_only,
        c.text == b.text,
        c.undo == b.undo,
    ensures
        by_changes(b, c),
{
    let none = Seq::<Change>::empty();
    assert(b.undo + recorded_all(b.text, none) =~= b.undo);
    assert(logged(b, c, none));
}

proof fn lemma_one(b: BufferModel, x: Change)
    requires
        crate::undo::in_text(b.text.len() as int, x),
    ensures
        by_changes(b, edited(b, x)),
{
    let cs = seq![x];
    assert(cs.drop_last() =~= Seq::<Change>::empty());
    assert(changed_all(b.text, cs.drop_last()) == b.text);
    reveal_with_fuel(all_in_text, 2);
    reveal_with_fuel(changed_all, 2);
    reveal_with_fuel(recorded_all, 2);
    assert(b.undo + recorded_all(b.text, cs) =~= b.undo.push(recorded(b.text, x)));
    assert(logged(b, edited(b, x), cs));
}

proof fn lemma_append(t: Seq<char>, a: Seq<Change>, b: Seq<Change>)
    ensures
        changed_all(t, a + b) == changed_all(changed_all(t, a), b),
        recorded_all(t, a + b) == recorded_all(t, a) + recorded_all(changed_all(t, a), b),
        all_in_text(t, a) && all_in_text(changed_all(t, a), b) ==> all_in_text(t, a + b),
    decreases b.len(),
{
    let u = changed_all(t, a);
    if b.len() == 0 {
        assert(a + b =~= a);
        assert(recorded_all(t, a) + recorded_all(u, b) =~= recorded_all(t, a));
    } else {
        lemma_append(t, a, b.drop_last());
        assert((a + b).drop_last() =~= a + b.drop_last());
        assert((a + b).last() == b.last());
        assert(recorded_all(t, a + b) =~= recorded_all(t, a) + recorded_all(u, b));
    }
}

proof fn lemma_chain(b: BufferModel, c: BufferModel, d: BufferModel)
    requires
        by_changes(b, c),
        by_changes(c, d),
    ensures
        by_changes(b, d),
{
    let x = choose|x: Seq<Change>| #[trigger] logged(b, c, x);
    let y = choose|y: Seq<Change>| #[trigger] logged(c, d, y);
    lemma_append(b.text, x, y);
    assert(d.undo =~= b.undo + recorded_all(b.text, x + y));
    assert(logged(b, d, x + y));
}

proof fn lemma_inserted(b: BufferModel, at: int, x: Seq<char>)
    requires
        0 <= at,
    ensures
        by_changes(b, inserted(b, at, x)),
{
    if x.len() == 0 {
        lemma_same(b, b);
    } else {
        lemma_one(b, Change::Insert { at: clip(b.text, at), text: x });
    }
}

proof fn lemma_removed(b: BufferModel, p: int, q: int)
    requires
        0 <= p,
    ensures
        by_changes(b, removed(b, p, q)),
{
    if p < clip(b.text, q) {
        lemma_one(b, Change::Remove { from: p, to: clip(b.text, q) });
    } else {
        lemma_same(b, b);
    }
}

proof fn lemma_spliced(b: BufferModel, p: int, q: int, x: Seq<char>)
    requires
        0 <= p,
    ensures
        by_changes(b, inserted(removed(b, p, q), p, x)),
{
    lemma_removed(b, p, q);
    lemma_inserted(removed(b, p, q), p, x);
    lemma_chain(b, removed(b, p, q), inserted(removed(b, p, q), p, x));
}

/// Whether an editor came from another one by logged changes of the current buffer.
spec fn changes(e: EditorModel, r: EditorModel) -> bool {
    wf(r) && by_changes(cur_buf(e), cur_buf(r))
}

proof fn lemma_put_changes(e: EditorModel, p: int, b: BufferModel)
    requires
        wf(e),
        by_changes(cur_buf(e), b),
    ensures
        changes(e, edit_cur(e, p, b)),
        cur_buf(edit_cur(e, p, b)) == b,
{
    lemma_put(e, at_point(e, p), b);
}

proof fn lemma_kept(e: EditorModel, r: EditorModel)
    requires
        wf(e),
        r.buffers == e.buffers,
        r.windows == e.windows,
        r.recency == e.recency,
        r.next_buffer_id == e.next_buffer_id,
    ensures
        changes(e, r),
        cur_buf(r) == cur_buf(e),
{
    lemma_wf_same(e, r);
    lemma_same(cur_buf(e), cur_buf(r));
}

proof fn lemma_clamped(e: EditorModel)
    requires
        wf(e),
    ensures
        changes(e, clamped(e)),
        cur_buf(clamped(e)) == cur_buf(e),
{
    lemma_same(cur_buf(e), cur_buf(e));
    lemma_put_changes(e, cur_point(e), cur_buf(e));
}

proof fn lemma_words(e: EditorModel, n: int, join: bool)
    requires
        wf(e),
    ensures
        changes(e, words_killed(e, n, join)),
    decreases n,
{
    let b = cur_buf(e);
    let p = cur_point(e);
    law_word_bounds(b.text, p);
    let end = word_end(b.text, p);
    if n <= 0 {
        lemma_kept(e, e);
    } else if end == p {
        lemma_clamped(e);
    } else {
        lemma_removed(b, p, end);
        lemma_put_changes(e, p, removed(b, p, end));
        let f = edit_cur(e, p, removed(b, p, end));
        let g = killed(f, crate::buffer::part(b.text, p, end), join);
        lemma_kept(f, g);
        lemma_words(g, n - 1, true);
        lemma_chain(b, cur_buf(g), cur_buf(words_killed(g, n - 1, true)));
    }
}

proof fn lemma_words_back(e: EditorModel, n: int, join: bool)
    requires
        wf(e),
    ensures
        changes(e, words_killed_back(e, n, join)),
    decreases n,
{
    let b = cur_buf(e);
    let p = cur_point(e);
    law_word_bounds(b.text, p);
    let start = word_start(b.text, p);
    if n <= 0 {
        lemma_kept(e, e);
    } else if start == p {
        lemma_clamped(e);
    } else {
        lemma_removed(b, start, p);
        lemma_put_changes(e, start, removed(b, start, p));
        let f = edit_cur(e, start, removed(b, start, p));
        let g = killed_back(f, crate::buffer::part(b.text, start, p), join);
        lemma_kept(f, g);
        lemma_words_back(g, n - 1, true);
        lemma_chain(b, cur_buf(g), cur_buf(words_killed_back(g, n - 1, true)));
    }
}

/// Whether a command changes the text of the current buffer.
pub open spec fn is_change(c: NativeCmd) -> bool {
    match c {
        NativeCmd::IndentLine => true,
        NativeCmd::Newline => true,
        NativeCmd::OpenLine => true,
        NativeCmd::NewlineAndIndent => true,
        NativeCmd::DeleteHorizontalSpace => true,
        NativeCmd::DeleteChar => true,
        NativeCmd::DeleteBackwardChar => true,
        NativeCmd::BackwardKillWord => true,
        NativeCmd::KillWord => true,
        NativeCmd::KillLine => true,
        NativeCmd::KillRegion => true,
        NativeCmd::Yank => true,
        NativeCmd::YankPop => true,
        NativeCmd::TransposeChars => true,
        NativeCmd::UpcaseWord => true,
        NativeCmd::DowncaseWord => true,
        _ => false,
    }
}

proof fn lemma_edits(e: EditorModel, c: NativeCmd, n: Option<u32>)
    requires
        wf(e),
        !cur_buf(e).read_only,
        c == NativeCmd::IndentLine || c == NativeCmd::Newline || c == NativeCmd::OpenLine || c
            == NativeCmd::NewlineAndIndent || c == NativeCmd::DeleteHorizontalSpace,
    ensures
        changes(e, native_done(e, c, n).0),
{
    lemma_edit_commands(e, n);
    let b = cur_buf(e);
    let t = b.text;
    let p = cur_point(e);
    match c {
        NativeCmd::IndentLine => {
            lemma_indent(e);
        },
        NativeCmd::NewlineAndIndent => {
            let x = inserted(b, p, seq!['\n']);
            lemma_inserted(b, p, seq!['\n']);
            lemma_put_changes(e, p + 1, x);
            let m = edit_cur(e, p + 1, x);
            lemma_indent(m);
            lemma_chain(b, x, cur_buf(line_indented(m)));
        },
        NativeCmd::DeleteHorizontalSpace => {
            let a = crate::commands::editing::before_blanks(t, p);
            lemma_before_bound(t, p);
            lemma_removed(b, a, crate::commands::editing::after_blanks(t, p));
            lemma_put_changes(
                e,
                a,
                removed(b, a, crate::commands::editing::after_blanks(t, p)),
            );
        },
        _ => {
            let x = repeated('\n', crate::lines::max(times(n), 1) as nat);
            lemma_inserted(b, p, x);
            lemma_put_changes(e, p + x.len(), inserted(b, p, x));
            lemma_put_changes(e, p, inserted(b, p, x));
        },
    }
}

proof fn lemma_before_bound(t: Seq<char>, p: int)
    requires
        0 <= p,
    ensures
        0 <= crate::commands::editing::before_blanks(t, p),
    decreases p,
{
    if 0 < p <= t.len() && crate::commands::editing::is_blank(t[p - 1]) {
        lemma_before_bound(t, p - 1);
    }
}

proof fn lemma_indent(e: EditorModel)
    requires
        wf(e),
    ensures
        changes(e, line_indented(e)),
{
    let b = cur_buf(e);
    let t = b.text;
    let p = cur_point(e);
    if b.read_only {
        lemma_kept(e, line_indented(e));
    } else {
        lemma_line_around(t, p);
        let start = start_at(t, p);
        let now = crate::commands::editing::indent(t, start);
        let to = crate::commands::editing::indent_target(t, p);
        let x = repeated(' ', to as nat);
        lemma_spliced(b, start, start + now, x);
        lemma_put_changes(
            e,
            start + to + crate::lines::minus(p - start, now),
            inserted(removed(b, start, start + now), start, x),
        );
    }
}

proof fn lemma_deletes(e: EditorModel, c: NativeCmd, n: Option<u32>)
    requires
        wf(e),
        !cur_buf(e).read_only,
        c == NativeCmd::DeleteChar || c == NativeCmd::DeleteBackwardChar || c
            == NativeCmd::TransposeChars || c == NativeCmd::UpcaseWord || c
            == NativeCmd::DowncaseWord,
    ensures
        changes(e, native_done(e, c, n).0),
{
    lemma_delete_commands(e, n);
    let b = cur_buf(e);
    let t = b.text;
    let p = cur_point(e);
    lemma_clamped(e);
    let r = native_done(e, c, n).0;
    match c {
        NativeCmd::DeleteChar => {
            lemma_removed(b, p, p + times(n));
            lemma_put_changes(e, p, removed(b, p, p + times(n)));
            if p >= t.len() {
                lemma_kept(clamped(e), r);
                lemma_chain(b, cur_buf(clamped(e)), cur_buf(r));
            }
        },
        NativeCmd::DeleteBackwardChar => {
            let a = crate::lines::minus(p, times(n));
            lemma_removed(b, a, p);
            lemma_put_changes(e, a, removed(b, a, p));
            if p == 0 {
                lemma_kept(clamped(e), r);
                lemma_chain(b, cur_buf(clamped(e)), cur_buf(r));
            }
        },
        NativeCmd::TransposeChars => {
            let eol = crate::commands::editing::at_line_end(t, p);
            if p == 0 || t.len() < 2 || (eol && p < 2) {
                lemma_kept(clamped(e), r);
                lemma_chain(b, cur_buf(clamped(e)), cur_buf(r));
            } else if eol {
                lemma_spliced(b, p - 2, p, seq![t[p - 1], t[p - 2]]);
                lemma_put_changes(e, p, crate::commands::editing::swapped(b, p - 2));
            } else {
                lemma_spliced(b, p - 1, p + 1, seq![t[p], t[p - 1]]);
                lemma_put_changes(e, p + 1, crate::commands::editing::swapped(b, p - 1));
            }
        },
        NativeCmd::UpcaseWord => {
            lemma_word(
                e,
                crate::commands::editing::uppercased(crate::commands::editing::rest_of_word(e)),
            );
        },
        _ => {
            lemma_word(
                e,
                crate::commands::editing::lowercased(crate::commands::editing::rest_of_word(e)),
            );
        },
    }
}

proof fn lemma_word(e: EditorModel, x: Seq<char>)
    requires
        wf(e),
        !cur_buf(e).read_only,
    ensures
        changes(e, word_replaced(e, x)),
{
    let b = cur_buf(e);
    let p = cur_point(e);
    let end = word_end(b.text, p);
    if end == p {
        lemma_clamped(e);
    } else {
        lemma_spliced(b, p, end, x);
        lemma_put_changes(e, p + x.len(), inserted(removed(b, p, end), p, x));
    }
}

proof fn lemma_kills(e: EditorModel, c: NativeCmd, n: Option<u32>)
    requires
        wf(e),
        !cur_buf(e).read_only,
        c == NativeCmd::BackwardKillWord || c == NativeCmd::KillWord || c == NativeCmd::KillLine
            || c == NativeCmd::KillRegion,
    ensures
        changes(e, native_done(e, c, n).0),
{
    lemma_kill_commands(e, n);
    let b = cur_buf(e);
    let t = b.text;
    let p = cur_point(e);
    let join = crate::commands::ring::after_kill(e);
    lemma_clamped(e);
    let r = native_done(e, c, n).0;
    match c {
        NativeCmd::BackwardKillWord => {
            lemma_words_back(e, times(n), join);
        },
        NativeCmd::KillWord => {
            lemma_words(e, times(n), join);
        },
        NativeCmd::KillLine => {
            if p >= t.len() {
                lemma_kept(clamped(e), r);
                lemma_chain(b, cur_buf(clamped(e)), cur_buf(r));
            } else {
                let end = crate::commands::ring::kill_end(t, p);
                lemma_removed(b, p, end);
                lemma_put_changes(e, p, removed(b, p, end));
                lemma_kept(edit_cur(e, p, removed(b, p, end)), r);
            }
        },
        _ => {
            match crate::buffer::region_of(b, p) {
                Some((start, end)) => {
                    lemma_removed(b, start, end);
                    lemma_put_changes(e, start, removed(b, start, end));
                    lemma_kept(edit_cur(e, start, removed(b, start, end)), r);
                },
                None => {
                    lemma_kept(clamped(e), r);
                    lemma_chain(b, cur_buf(clamped(e)), cur_buf(r));
                },
            }
        },
    }
}

proof fn lemma_yanks(e: EditorModel, c: NativeCmd, n: Option<u32>)
    requires
        wf(e),
        !cur_buf(e).read_only,
        c == NativeCmd::Yank || c == NativeCmd::YankPop,
    ensures
        changes(e, native_done(e, c, n).0),
{
    lemma_yank_commands(e, n);
    let b = cur_buf(e);
    let p = cur_point(e);
    let r = native_done(e, c, n).0;
    if c == NativeCmd::Yank {
        let e1 = EditorModel {
            kill_ring: crate::killring::RingModel { turned: 0, ..e.kill_ring },
            ..e
        };
        lemma_kept(e, e1);
        match crate::killring::yanked(e1.kill_ring) {
            Some(x) => {
                lemma_inserted(b, p, x);
                lemma_put_changes(e1, p + x.len(), inserted(b, p, x));
                lemma_kept(edit_cur(e1, p + x.len(), inserted(b, p, x)), r);
            },
            None => {
                lemma_kept(e, r);
            },
        }
    } else {
        let e1 = EditorModel { kill_ring: crate::killring::rotated(e.kill_ring), ..e };
        lemma_kept(e, e1);
        match (e.last_yank, crate::killring::yanked(e1.kill_ring)) {
            (Some((start, end)), Some(x)) => {
                if !crate::commands::ring::after_yank(e) {
                    lemma_kept(e, r);
                } else {
                    let y = inserted(removed(b, start as int, end as int), start as int, x);
                    lemma_spliced(b, start as int, end as int, x);
                    lemma_put_changes(e1, start + x.len(), y);
                    lemma_kept(edit_cur(e1, start + x.len(), y), r);
                }
            },
            _ => {
                lemma_kept(e, r);
            },
        }
    }
}

proof fn lemma_changed(e: EditorModel, c: NativeCmd, n: Option<u32>)
    requires
        wf(e),
        !cur_buf(e).read_only,
        is_change(c),
    ensures
        changes(e, native_done(e, c, n).0),
{
    match c {
        NativeCmd::IndentLine => lemma_edits(e, c, n),
        NativeCmd::Newline => lemma_edits(e, c, n),
        NativeCmd::OpenLine => lemma_edits(e, c, n),
        NativeCmd::NewlineAndIndent => lemma_edits(e, c, n),
        NativeCmd::DeleteHorizontalSpace => lemma_edits(e, c, n),
        NativeCmd::DeleteChar => lemma_deletes(e, c, n),
        NativeCmd::DeleteBackwardChar => lemma_deletes(e, c, n),
        NativeCmd::TransposeChars => lemma_deletes(e, c, n),
        NativeCmd::UpcaseWord => lemma_deletes(e, c, n),
        NativeCmd::DowncaseWord => lemma_deletes(e, c, n),
        NativeCmd::Yank => lemma_yanks(e, c, n),
        NativeCmd::YankPop => lemma_yanks(e, c, n),
        _ => lemma_kills(e, c, n),
    }
}

proof fn lemma_undo_once(b: BufferModel, r: EditorModel)
    requires
        wf(r),
        by_changes(BufferModel { undo: bounded(b.undo), ..b }, cur_buf(r)),
        cur_buf(r).text != b.text,
        !cur_buf(r).read_only,
    ensures
        undo_ok(boundary_set(r), None),
        cur_buf(undo_done(boundary_set(r), None)).text == b.text,
{
    let b0 = BufferModel { undo: bounded(b.undo), ..b };
    let b1 = cur_buf(r);
    let cs = choose|cs: Seq<Change>| #[trigger] logged(b0, b1, cs);
    assert(cs.len() > 0) by {
        if cs.len() == 0 {
            assert(b1.text == b0.text);
        }
    }
    law_undo_restores(b, cs);
    let end = crate::buffer::edited_all(b0, cs);
    lemma_edited_same(b0, cs);
    assert(end.text == b1.text);
    assert(end.undo == b1.undo);
    crate::undo::lemma_recorded_no_boundary(b.text, cs);
    assert(b1.undo.last() == recorded_all(b.text, cs)[cs.len() - 1]);
    lemma_bounded_group(b1.undo);
    lemma_newest_nonempty(b1.undo);
    let b2 = BufferModel { undo: bounded(b1.undo), ..b1 };
    lemma_with_buf(r, b2);
    let m = boundary_set(r);
    assert(undone(b2).text == b.text);
    let to = reverted_point(newest_group(b2.undo).last());
    lemma_put(m, at_point(m, clip(undone(b2).text, to->0)), undone(b2));
    assert(undone_times(one_undone(m), 0) == one_undone(m));
    assert(can_undo_times(one_undone(m), 0));
}

proof fn lemma_edited_same(b: BufferModel, cs: Seq<Change>)
    ensures
        crate::buffer::edited_all(b, cs).text == changed_all(b.text, cs),
        crate::buffer::edited_all(b, cs).undo == b.undo + recorded_all(b.text, cs),
    decreases cs.len(),
{
    if cs.len() > 0 {
        lemma_edited_same(b, cs.drop_last());
        assert(crate::buffer::edited_all(b, cs).undo =~= b.undo + recorded_all(b.text, cs));
    } else {
        assert(b.undo + recorded_all(b.text, cs) =~= b.undo);
    }
}

/// One undo takes back one command: after any command that changed the text, with
/// any count, the undo command can be run and gives back the text from before.
pub proof fn law_undo_takes_back_command(e: EditorModel, c: NativeCmd, n: Option<u32>)
    requires
        wf(e),
        !cur_buf(e).read_only,
        is_change(c),
    ensures
        ({
            let r = native_done(boundary_set(e), c, n).0;
            cur_buf(r).text != cur_buf(e).text ==> {
                &&& undo_ok(boundary_set(r), None)
                &&& cur_buf(native_done(boundary_set(r), NativeCmd::Undo, None).0).text == cur_buf(
                    e,
                ).text
            }
        }),
{
    let b = cur_buf(e);
    let b0 = BufferModel { undo: bounded(b.undo), ..b };
    lemma_with_buf(e, b0);
    let m = boundary_set(e);
    lemma_changed(m, c, n);
    let r = native_done(m, c, n).0;
    lemma_yank_commands(boundary_set(r), None);
    if cur_buf(r).text != b.text {
        lemma_undo_once(b, r);
    }
}

proof fn lemma_rect_changes(
    b: BufferModel,
    first: int,
    last: int,
    left: int,
    right: int,
    x: Seq<char>,
)
    requires
        0 <= left,
        0 <= right,
    ensures
        by_changes(b, rect_lines(b, first, last, left, right, x)),
        rect_lines(b, first, last, left, right, x).read_only == b.read_only,
    decreases last - first + 1,
{
    if last < first {
        lemma_same(b, b);
    } else {
        let l = crate::lines::min(last, crate::lines::line_count(b.text) - 1);
        let start = line_begin(b.text, l);
        lemma_begin(b.text, l);
        let c = rect_line(b, last, left, right, x);
        let n = end_at(b.text, start) - start;
        lemma_spliced(
            b,
            start + crate::lines::min(left, n),
            start + crate::lines::min(right, n),
            repeated(' ', crate::lines::minus(left, n) as nat) + x,
        );
        lemma_rect_changes(c, first, last - 1, left, right, x);
        lemma_chain(b, c, rect_lines(b, first, last, left, right, x));
    }
}

proof fn lemma_begin(t: Seq<char>, l: int)
    ensures
        0 <= line_begin(t, l) <= t.len(),
        l < crate::lines::line_count(t) ==> line_begin(t, l) <= end_at(t, line_begin(t, l)),
{
    if l >= 0 {
        crate::lines::lemma_line_begin(t, l);
    } else {
        lemma_line_around(t, 0);
        assert(line_begin(t, l) == 0) by {
            if t.len() > 0 {
                assert(crate::lines::line_of(t, 0) >= l);
            }
        }
    }
    lemma_line_ends(t, line_begin(t, l));
}

/// A rectangle replaced, whatever it held, is taken back by one undo.
pub proof fn law_undo_takes_back_rectangle(e: EditorModel, x: Seq<char>)
    requires
        wf(e),
        !cur_buf(e).read_only,
        cur_buf(e).mark is Some,
    ensures
        ({
            let r = completed(boundary_set(e), KindModel::RectInsert, x).0;
            cur_buf(r).text != cur_buf(e).text ==> {
                &&& undo_ok(boundary_set(r), None)
                &&& cur_buf(native_done(boundary_set(r), NativeCmd::Undo, None).0).text == cur_buf(
                    e,
                ).text
            }
        }),
{
    let b = cur_buf(e);
    let t = b.text;
    let b0 = BufferModel { undo: bounded(b.undo), ..b };
    lemma_with_buf(e, b0);
    let m = boundary_set(e);
    let p = cur_point(m);
    let a = clip(t, b.mark->0 as int);
    lemma_line_around(t, a);
    lemma_line_around(t, p);
    let (l1, l2, left, right) = rectangle(t, a, p);
    lemma_rect_changes(b0, l1, l2, left, right, x);
    let c = rect_lines(b0, l1, l2, left, right, x);
    let d = BufferModel { mark_active: false, ..c };
    lemma_same(c, d);
    lemma_chain(b0, c, d);
    let start = line_begin(
        d.text,
        crate::lines::min(l1, crate::lines::line_count(d.text) - 1),
    );
    let q = clip(d.text, start + left + x.len());
    lemma_put_changes(m, q, d);
    let r = completed(m, KindModel::RectInsert, x).0;
    lemma_wf_same(edit_cur(m, q, d), r);
    assert(cur_buf(r) == d);
    lemma_yank_commands(boundary_set(r), None);
    if cur_buf(r).text != t {
        lemma_undo_once(b, r);
    }
}

/// Undoing one insertion puts point where the text was put in, and undoing one removal puts
/// it behind the text that is back.
pub proof fn law_undo_moves_point(e: EditorModel, r: EditorModel, x: Change)
    requires
        wf(e),
        wf(r),
        !cur_buf(r).read_only,
        cur_buf(r).text.len() <= usize::MAX,
        cur_buf(e).text.len() <= usize::MAX,
        crate::undo::in_text(cur_buf(e).text.len() as int, x),
        cur_buf(r) == edited(cur_buf(boundary_set(e)), x),
    ensures
        ({
            let u = native_done(boundary_set(r), NativeCmd::Undo, None).0;
            &&& cur_buf(u).text == cur_buf(e).text
            &&& match x {
                Change::Insert { at, text } => cur_point(u) == at,
                Change::Remove { from, to } => cur_point(u) == to,
            }
        }),
{
    let b = cur_buf(e);
    let b0 = BufferModel { undo: bounded(b.undo), ..b };
    lemma_with_buf(e, b0);
    let b1 = cur_buf(r);
    let cs = seq![x];
    assert(cs.drop_last() =~= Seq::<Change>::empty());
    assert(changed_all(b.text, cs.drop_last()) == b.text);
    reveal_with_fuel(all_in_text, 2);
    reveal_with_fuel(changed_all, 2);
    reveal_with_fuel(recorded_all, 2);
    reveal_with_fuel(crate::buffer::edited_all, 2);
    let added = recorded_all(b.text, cs);
    assert(added =~= seq![recorded(b.text, x)]);
    law_undo_restores(b, cs);
    assert(crate::buffer::edited_all(b0, cs) == b1);
    assert(b1.undo =~= bounded(b.undo) + added);
    crate::undo::law_group_is_changes(bounded(b.undo), added);
    assert(added.reverse() =~= added);
    assert(newest_group(b1.undo) == added);
    lemma_bounded_group(b1.undo);
    let b2 = BufferModel { undo: bounded(b1.undo), ..b1 };
    lemma_with_buf(r, b2);
    let m = boundary_set(r);
    lemma_yank_commands(m, None);
    assert(cur_buf(m) == b2);
    assert(newest_group(b2.undo) == added);
    assert(undone(b2).text == b.text);
    let to = reverted_point(added.last());
    let q = clip(undone(b2).text, to->0);
    lemma_put(m, at_point(m, q), undone(b2));
    assert(undone_times(one_undone(m), 0) == one_undone(m));
    let u = one_undone(m);
    lemma_wf_same(edit_cur(m, q, undone(b2)), u);
    assert(undo_done(m, None) == u);
}

} // verus!
