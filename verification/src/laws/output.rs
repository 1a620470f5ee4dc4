//! Where generated output is shown.

use crate::buffer::{fresh, BufferModel};
use crate::buffers::{lemma_shown, lemma_with_buffer, name_index, remembered, shown, with_buffer};
use crate::commands::run::native_done;
use crate::commands::windows::{lemma_window_next, lemma_window_split, window_next, window_split};
use crate::dired::files::{
    lemma_with_buffer_at, output_in, output_shown, shell_text, with_buffer_at,
};
use crate::dired::ops::other_window_made;
use crate::editor::{
    buf_ids, buf_index, cur_buf, cur_index, cur_win, has_buffer, lemma_buf_index, lemma_cur, wf,
    EditorModel,
};
use crate::laws::table::lemma_window_commands;
use crate::laws::windows::law_window_splits;
use crate::layout::area_of;
use crate::lines::clip;
use crate::native::NativeCmd;
use crate::strings::trimmed;
use crate::window::{
    ids, index_from, leaf, lemma_index_from, lemma_leaf, lemma_with_leaf, SplitDir, Window,
};
use vstd::prelude::*;

verus! {

proof fn lemma_named(bs: Seq<BufferModel>, name: Seq<char>, i: int)
    requires
        0 <= i <= bs.len(),
    ensures
        i <= name_index(bs, name, i) <= bs.len(),
        name_index(bs, name, i) < bs.len() ==> bs[name_index(bs, name, i)].name == name,
    decreases bs.len() - i,
{
    if i < bs.len() && bs[i].name != name {
        lemma_named(bs, name, i + 1);
    }
}

/// Whether a buffer holds some output.
spec fn holds_output(b: BufferModel, name: Seq<char>, text: Seq<char>) -> bool {
    b.name == name && b.text == text && b.read_only
}

proof fn lemma_output_in(e: EditorModel, name: Seq<char>, text: Seq<char>)
    requires
        wf(e),
        e.next_buffer_id < usize::MAX,
    ensures
        ({
            let (r, id) = output_in(e, name, text);
            &&& wf(r)
            &&& r.windows == e.windows
            &&& has_buffer(r.buffers, id)
            &&& holds_output(r.buffers[buf_index(r.buffers, id)], name, text)
            &&& r.buffers.len() >= e.buffers.len()
            &&& forall|k: int|
                0 <= k < e.buffers.len() && e.buffers[k].name != name ==> #[trigger] r.buffers[k]
                    == e.buffers[k]
        }),
{
    lemma_named(e.buffers, name, 0);
    let i = name_index(e.buffers, name, 0);
    let (r, id) = output_in(e, name, text);
    if i < e.buffers.len() {
        let b = BufferModel { text, modified: false, read_only: true, ..e.buffers[i] };
        lemma_with_buffer_at(e, i, b);
        assert(r == with_buffer_at(e, i, b));
        assert(buf_ids(r.buffers)[i] == id);
        assert(buf_ids(r.buffers).contains(id));
        lemma_buf_index(r.buffers, id);
        let k = buf_index(r.buffers, id);
        assert(k == i) by {
            reveal(wf);
            assert(buf_ids(r.buffers)[k] == id);
        }
    } else {
        let b = BufferModel { read_only: true, ..fresh(e.next_buffer_id, name, text) };
        lemma_with_buffer(e, b);
        assert(r == with_buffer(e, b));
    }
}

proof fn lemma_next_is_other(e: EditorModel)
    requires
        wf(e),
        ids(e.windows.root).len() > 1,
    ensures
        wf(window_next(e)),
        window_next(e).windows.selected != e.windows.selected,
        window_next(e).windows.root == e.windows.root,
        window_next(e).buffers == e.buffers,
{
    lemma_window_next(e);
    reveal(wf);
    let t = e.windows;
    let s = ids(t.root);
    lemma_leaf(t.root, t.selected);
    lemma_index_from(s, t.selected, 0);
    let i = index_from(s, t.selected, 0);
    assert(s[s.index_of(t.selected)] == t.selected);
    assert(i < s.len());
    let k = (i + 1) % (s.len() as int);
    assert(0 <= k < s.len() && k != i) by (nonlinear_arith)
        requires
            k == (i + 1) % (s.len() as int),
            0 <= i < s.len(),
            s.len() > 1,
    {
        if i + 1 < s.len() {
            assert((i + 1) % (s.len() as int) == i + 1);
        } else {
            assert((i + 1) % (s.len() as int) == 0);
        }
    }
    assert(s[k] != s[i]);
}

proof fn lemma_other_made(e: EditorModel)
    requires
        wf(e),
        e.windows.next_id < usize::MAX,
    ensures
        ({
            let m = other_window_made(e);
            &&& wf(m)
            &&& m.windows.selected != e.windows.selected
            &&& leaf(m.windows.root, e.windows.selected) == leaf(e.windows.root, e.windows.selected)
            &&& m.buffers == e.buffers
        }),
{
    lemma_cur(e);
    let s = ids(e.windows.root);
    assert(s.len() > 0) by {
        reveal(wf);
        lemma_leaf(e.windows.root, e.windows.selected);
    }
    if s.len() == 1 {
        let x = e.windows.selected;
        law_window_splits(e, false, None, area_of(e), x);
        lemma_window_commands(e, None);
        let m = window_split(e, SplitDir::Below);
        assert(m == native_done(e, NativeCmd::SplitWindowBelow, None).0);
        lemma_window_split(e, SplitDir::Below);
        reveal(wf);
        lemma_leaf(e.windows.root, x);
        crate::window::law_split(e.windows, SplitDir::Below);
        assert(ids(m.windows.root).len() == 2);
        assert(x != e.windows.next_id);
        lemma_next_is_other(m);
    } else {
        lemma_next_is_other(e);
    }
}

/// Output is shown in another window than the selected one, which is split where it is the
/// only one and keeps its buffer: the buffer of that name holds exactly the output there,
/// read-only, and no buffer of another name has its text changed.
pub proof fn law_output_beside(e: EditorModel, name: Seq<char>, text: Seq<char>)
    requires
        wf(e),
        e.next_buffer_id < usize::MAX,
        e.windows.next_id < usize::MAX,
    ensures
        ({
            let r = output_shown(e, name, text);
            let old = leaf(r.windows.root, e.windows.selected);
            &&& cur_buf(r).name == name && cur_buf(r).text == text && cur_buf(r).read_only
            &&& r.windows.selected != e.windows.selected
            &&& old is Some && (old->0).buffer == cur_win(e).buffer && (old->0).point == cur_win(
                e,
            ).point
            &&& forall|k: int|
                0 <= k < e.buffers.len() && e.buffers[k].name != name ==> (#[trigger] r.buffers[k])
                    .text == e.buffers[k].text
        }),
{
    lemma_cur(e);
    lemma_output_in(e, name, text);
    let (e1, id) = output_in(e, name, text);
    lemma_other_made(e1);
    let m = other_window_made(e1);
    lemma_cur(e1);
    lemma_cur(m);
    lemma_shown(m, id);
    let r = shown(m, id);
    let bs = remembered(m);
    assert(r.buffers == bs);
    assert(buf_ids(bs) =~= buf_ids(m.buffers));
    let i = buf_index(m.buffers, id);
    lemma_buf_index(m.buffers, id);
    assert(cur_index(r) == i);
    assert(cur_buf(r) == bs[i]);
    assert(bs[i] == m.buffers[i] || bs[i] == (BufferModel {
        last_point: cur_win(m).point,
        ..m.buffers[i]
    }));
    lemma_with_leaf(
        m.windows.root,
        m.windows.selected,
        Window {
            buffer: id,
            point: clip(
                bs[buf_index(bs, id)].text,
                bs[buf_index(bs, id)].last_point as int,
            ) as usize,
            top_line: 0,
            ..cur_win(m)
        },
    );
}

/// What a shell command wrote is shown as it is, its errors behind its output; how it
/// exited is shown only where it wrote nothing but blanks.
pub proof fn law_shell_output(
    full: Seq<char>,
    out: Seq<char>,
    err: Seq<char>,
    status: Seq<char>,
)
    ensures
        err.len() == 0 && trimmed(out).len() > 0 ==> shell_text(full, out, err, status) == out,
        err.len() > 0 && trimmed(out + "\n--- stderr ---\n"@ + err).len() > 0 ==> shell_text(
            full,
            out,
            err,
            status,
        ) == out + "\n--- stderr ---\n"@ + err,
        err.len() == 0 && trimmed(out).len() == 0 ==> shell_text(full, out, err, status) == "("@
            + full + " exited: "@ + status + ")"@,
{
}

} // verus!
