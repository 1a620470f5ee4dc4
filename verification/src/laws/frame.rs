//! What operations on the current buffer leave alone.

use crate::buffer::BufferModel;
use crate::editor::{
    cur_buf, cur_index, cur_win, lemma_buf_index, lemma_cur, lemma_put, put, wf, EditorModel,
};
use crate::keys::{Chord, Key};
use crate::window::{leaf, lemma_with_leaf, Window, WindowId};
use vstd::prelude::*;

verus! {

/// A key without modifiers.
pub open spec fn plain(c: char) -> Chord {
    Chord { ctrl: false, meta: false, key: Key::Char(c) }
}

/// RET.
pub open spec fn enter() -> Chord {
    Chord { ctrl: false, meta: false, key: Key::Enter }
}

/// Whether positions in the current buffer can be counted.
pub open spec fn counted(e: EditorModel) -> bool {
    cur_buf(e).text.len() <= usize::MAX
}

/// Whether an operation left all buffers but the current one alone, and all
/// windows but the selected one, which still shows that buffer.
pub open spec fn only_here(e: EditorModel, r: EditorModel) -> bool {
    &&& r.buffers.len() == e.buffers.len()
    &&& forall|i: int|
        0 <= i < e.buffers.len() && e.buffers[i].id != cur_win(e).buffer ==> #[trigger] r.buffers[i]
            == e.buffers[i]
    &&& r.windows.selected == e.windows.selected
    &&& cur_win(r).buffer == cur_win(e).buffer
    &&& cur_buf(r).id == cur_buf(e).id
    &&& forall|w: WindowId|
        w != e.windows.selected ==> #[trigger] leaf(r.windows.root, w) == leaf(e.windows.root, w)
}

/// Replacing the selected window and its buffer leaves the rest alone.
pub proof fn lemma_put_here(e: EditorModel, w: Window, b: BufferModel)
    requires
        wf(e),
        w.id == cur_win(e).id,
        w.buffer == cur_win(e).buffer,
        b.id == cur_buf(e).id,
    ensures
        wf(put(e, w, b)),
        cur_win(put(e, w, b)) == w,
        cur_buf(put(e, w, b)) == b,
        cur_index(put(e, w, b)) == cur_index(e),
        only_here(e, put(e, w, b)),
{
    lemma_cur(e);
    lemma_put(e, w, b);
    lemma_with_leaf(e.windows.root, e.windows.selected, w);
    lemma_buf_index(e.buffers, cur_win(e).buffer);
}

/// Leaving the rest alone is kept over what changes neither buffers nor windows.
pub proof fn lemma_here_same(e: EditorModel, a: EditorModel, b: EditorModel)
    requires
        only_here(e, a),
        b.buffers == a.buffers,
        b.windows == a.windows,
    ensures
        only_here(e, b),
        cur_buf(b) == cur_buf(a),
        cur_win(b) == cur_win(a),
{
}

/// An operation after another one that leaves the rest alone does so too.
pub proof fn lemma_here_chain(e: EditorModel, a: EditorModel, b: EditorModel)
    requires
        only_here(e, a),
        only_here(a, b),
        forall|i: int|
            0 <= i < e.buffers.len() ==> (#[trigger] a.buffers[i]).id == e.buffers[i].id,
    ensures
        only_here(e, b),
{
    assert forall|i: int|
        0 <= i < e.buffers.len() && e.buffers[i].id != cur_win(e).buffer implies #[trigger] b.buffers[i]
        == e.buffers[i] by {
        assert(a.buffers[i] == e.buffers[i]);
    }
}

} // verus!
