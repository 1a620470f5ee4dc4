//! What every command shares: its count, the read-only guard, quitting and
//! self-insertion.

use crate::buffer::{inserted, BufferModel};
use crate::editor::{
    at_point, cur_buf, cur_point, edit_cur, lemma_put, lemma_wf_same, moved, said, wf, with_buf,
    Editor, EditorModel,
};
use crate::input::{InputMode, InputModel, PrefixArg};
use crate::lines::clip;
use crate::strings::{repeat, repeated};
use vstd::prelude::*;

verus! {

/// How often a command is done: the prefix argument, or once.
pub open spec fn times(n: Option<u32>) -> int {
    match n {
        Some(k) => k as int,
        None => 1,
    }
}

/// How often a command is done.
pub fn count(n: Option<u32>) -> (r: u32)
    ensures
        r == times(n),
{
    match n {
        Some(k) => k,
        None => 1,
    }
}

/// The message of a command that cannot change a read-only buffer.
pub open spec fn refused(e: EditorModel) -> EditorModel {
    said(e, "Buffer is read-only"@)
}

/// Guard for editing commands: false (with a message) on read-only buffers.
pub fn check_editable(ed: &mut Editor) -> (b: bool)
    requires
        wf(old(ed)@),
    ensures
        b == !cur_buf(old(ed)@).read_only,
        final(ed)@ == if b {
            old(ed)@
        } else {
            refused(old(ed)@)
        },
        wf(final(ed)@),
{
    if ed.cur_buffer().read_only {
        ed.message("Buffer is read-only");
        false
    } else {
        true
    }
}

/// The editor after C-g.
pub open spec fn quit_all(e: EditorModel) -> EditorModel {
    let e1 = match e.input {
        InputModel::ISearch(s) => moved(e, clip(cur_buf(e).text, s.origin as int)),
        _ => e,
    };
    said(
        EditorModel {
            pending: Seq::empty(),
            prefix: PrefixArg::Unset,
            input: InputModel::Normal,
            rect_mode: false,
            goal_col: None,
            ..with_buf(e1, BufferModel { mark_active: false, ..cur_buf(e) })
        },
        "Quit"@,
    )
}

/// C-g: cancel whatever is in progress. An incremental search goes back to
/// where it began.
pub fn keyboard_quit(ed: &mut Editor, _n: Option<u32>)
    requires
        wf(old(ed)@),
    ensures
        final(ed)@ == quit_all(old(ed)@),
        wf(final(ed)@),
{
    let ghost e = ed@;
    let origin: Option<usize> = match &ed.input {
        InputMode::ISearch(s) => Some(s.origin),
        _ => None,
    };
    if let Some(p) = origin {
        proof {
            lemma_put(e, at_point(e, clip(cur_buf(e).text, p as int)), cur_buf(e));
        }
        let (win, buf) = ed.cur();
        let n: usize = buf.len_chars();
        win.point = if p <= n {
            p
        } else {
            n
        };
        assert(ed@ == moved(e, clip(cur_buf(e).text, p as int)));
    }
    let ghost e1 = ed@;
    assert(cur_buf(e1) == cur_buf(e));
    let buf = ed.cur_buffer_mut();
    buf.mark_active = false;
    let ghost e2 = ed@;
    assert(e2 == with_buf(e1, BufferModel { mark_active: false, ..cur_buf(e) }));
    ed.pending = Vec::new();
    ed.prefix = PrefixArg::Unset;
    ed.input = InputMode::Normal;
    ed.rect_mode = false;
    ed.goal_col = None;
    proof {
        assert(ed.pending@ =~= Seq::empty());
        lemma_wf_same(e2, ed@);
    }
    ed.message("Quit");
    assert(ed@ =~= quit_all(e));
}

/// The editor after text is inserted at point, which goes to its end.
pub open spec fn typed(e: EditorModel, text: Seq<char>) -> EditorModel {
    if cur_buf(e).read_only {
        refused(e)
    } else {
        edit_cur(e, cur_point(e) + text.len(), inserted(cur_buf(e), cur_point(e), text))
    }
}

/// Insert `c` (`n` times) at point: the fallback for unbound printable keys
/// and the implementation of `C-u n char`.
pub fn self_insert(ed: &mut Editor, c: char, n: Option<u32>)
    requires
        wf(old(ed)@),
    ensures
        final(ed)@ == typed(old(ed)@, repeated(c, times(n) as nat)),
        wf(final(ed)@),
{
    if !check_editable(ed) {
        return ;
    }
    let k: u32 = count(n);
    let text = repeat(c, k as usize);
    insert_at_point(ed, text.as_str());
}

/// Insert text at point and move past it.
pub(crate) fn insert_at_point(ed: &mut Editor, text: &str)
    requires
        wf(old(ed)@),
    ensures
        final(ed)@ == edit_cur(
            old(ed)@,
            cur_point(old(ed)@) + text@.len(),
            inserted(cur_buf(old(ed)@), cur_point(old(ed)@), text@),
        ),
        wf(final(ed)@),
{
    let k: usize = text.unicode_len();
    let (win, buf) = ed.cur();
    buf.insert(win.point, text);
    let n: usize = buf.len_chars();
    assert(win.point + k <= n);
    win.point = win.point + k;
}

} // verus!
