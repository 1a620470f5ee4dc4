//! Window management commands.

use crate::buffers::touched;
use crate::commands::basic::{count, times};
use crate::editor::{cur_win, has_buffer, lemma_cur, said, wf, Editor, EditorModel};
use crate::window::{
    deleted_tree, ids, law_delete, law_delete_others, law_select_next, law_split, leaf, lemma_leaf,
    next_selected, next_selected_by, selected_window, sole_tree, split_tree, without_leaf, Node,
    SplitDir, Window, WindowId, WindowTree,
};
use vstd::prelude::*;

verus! {

/// The editor with its windows replaced.
pub open spec fn with_windows(e: EditorModel, t: WindowTree) -> EditorModel {
    EditorModel { windows: t, ..e }
}

/// The editor with the selected window split.
pub open spec fn window_split(e: EditorModel, dir: SplitDir) -> EditorModel {
    with_windows(e, split_tree(e.windows, dir))
}

proof fn lemma_split_leaf(
    node: Node,
    id: WindowId,
    dir: SplitDir,
    w: Window,
    new_id: WindowId,
    x: WindowId,
)
    requires
        leaf(node, id) == Some(w),
    ensures
        ({
            let t = crate::window::with_node(
                node,
                id,
                Node::Split {
                    dir,
                    first: Box::new(Node::Leaf(w)),
                    second: Box::new(Node::Leaf(Window { id: new_id, ..w })),
                },
            );
            match leaf(t, x) {
                Some(y) => leaf(node, x) == Some(y) || y.buffer == w.buffer,
                None => true,
            }
        }),
    decreases node,
{
    let new = Node::Split {
        dir,
        first: Box::new(Node::Leaf(w)),
        second: Box::new(Node::Leaf(Window { id: new_id, ..w })),
    };
    match node {
        Node::Leaf(y) => {
            reveal_with_fuel(leaf, 3);
        },
        Node::Split { dir: d, first, second } => {
            if leaf(*first, id) is Some {
                lemma_split_leaf(*first, id, dir, w, new_id, x);
                lemma_leaf(node, id);
                assert forall|y: WindowId| leaf(new, y) is Some <==> y == id || y == new_id by {
                    reveal_with_fuel(leaf, 3);
                }
                lemma_split_other(*first, id, new, x, new_id);
            } else {
                lemma_split_leaf(*second, id, dir, w, new_id, x);
            }
        },
    }
}

proof fn lemma_split_other(node: Node, id: WindowId, new: Node, x: WindowId, new_id: WindowId)
    requires
        leaf(node, id) is Some,
        forall|y: WindowId| leaf(new, y) is Some <==> y == id || y == new_id,
    ensures
        leaf(crate::window::with_node(node, id, new), x) is None ==> leaf(node, x) is None,
    decreases node,
{
    lemma_leaf(node, id);
    match node {
        Node::Leaf(y) => {},
        Node::Split { dir: d, first, second } => {
            lemma_leaf(*first, id);
            lemma_leaf(*second, id);
            if leaf(*first, id) is Some {
                lemma_split_other(*first, id, new, x, new_id);
            } else {
                lemma_split_other(*second, id, new, x, new_id);
            }
        },
    }
}

/// Splitting keeps the editor in order.
pub proof fn lemma_window_split(e: EditorModel, dir: SplitDir)
    requires
        wf(e),
        e.windows.next_id < usize::MAX,
    ensures
        wf(window_split(e, dir)),
{
    reveal(wf);
    lemma_cur(e);
    law_split(e.windows, dir);
    let r = window_split(e, dir);
    let w = cur_win(e);
    assert forall|x: WindowId| (#[trigger] leaf(r.windows.root, x)) is Some implies has_buffer(
        r.buffers,
        leaf(r.windows.root, x)->0.buffer,
    ) by {
        lemma_split_leaf(e.windows.root, e.windows.selected, dir, w, e.windows.next_id, x);
        if leaf(e.windows.root, x) is Some {
            assert(has_buffer(e.buffers, leaf(e.windows.root, x)->0.buffer));
        }
    }
}

/// C-x 2.
pub fn split_window_below(ed: &mut Editor, _n: Option<u32>)
    requires
        wf(old(ed)@),
        old(ed)@.windows.next_id < usize::MAX,
    ensures
        final(ed)@ == window_split(old(ed)@, SplitDir::Below),
        wf(final(ed)@),
{
    proof {
        lemma_window_split(ed@, SplitDir::Below);
    }
    ed.windows.split(SplitDir::Below);
}

/// C-x 3.
pub fn split_window_right(ed: &mut Editor, _n: Option<u32>)
    requires
        wf(old(ed)@),
        old(ed)@.windows.next_id < usize::MAX,
    ensures
        final(ed)@ == window_split(old(ed)@, SplitDir::Right),
        wf(final(ed)@),
{
    proof {
        lemma_window_split(ed@, SplitDir::Right);
    }
    ed.windows.split(SplitDir::Right);
}

/// The editor with the next window selected.
pub open spec fn window_next(e: EditorModel) -> EditorModel {
    with_windows(e, next_selected(e.windows))
}

/// Selecting the next window keeps the editor in order.
pub proof fn lemma_window_next(e: EditorModel)
    requires
        wf(e),
    ensures
        wf(window_next(e)),
{
    reveal(wf);
    law_select_next(e.windows);
}

/// The editor with a later window selected and its buffer most recent.
pub open spec fn other_selected(e: EditorModel, n: Option<u32>) -> EditorModel {
    let t = next_selected_by(e.windows, times(n) as nat);
    EditorModel { windows: t, recency: touched(e.recency, selected_window(t).buffer), ..e }
}

/// C-x o.
pub fn other_window(ed: &mut Editor, n: Option<u32>)
    requires
        wf(old(ed)@),
    ensures
        final(ed)@ == other_selected(old(ed)@, n),
        wf(final(ed)@),
{
    let ghost e = ed@;
    let k: u32 = count(n);
    let mut i: u32 = 0;
    while i < k
        invariant
            i <= k,
            wf(ed@),
            ed@ == with_windows(e, next_selected_by(e.windows, i as nat)),
        decreases k - i,
    {
        let ghost now = ed@;
        proof {
            lemma_window_next(now);
        }
        ed.windows.select_next();
        assert(ed@ =~= window_next(now));
        assert(next_selected_by(e.windows, (i + 1) as nat) == next_selected(
            next_selected_by(e.windows, i as nat),
        ));
        i = i + 1;
    }
    proof {
        lemma_cur(ed@);
    }
    let id: usize = ed.windows.selected_ref().buffer;
    ed.touch_buffer(id);
    assert(ed@ =~= other_selected(e, n));
}

/// The editor without the selected window, the buffer of the window selected
/// instead most recent; the only window stays.
pub open spec fn window_deleted(e: EditorModel) -> EditorModel {
    match without_leaf(e.windows.root, e.windows.selected) {
        Some(_) => {
            let t = deleted_tree(e.windows, e.windows.selected);
            EditorModel {
                windows: t,
                recency: touched(e.recency, selected_window(t).buffer),
                ..e
            }
        },
        None => said(e, "Attempt to delete sole ordinary window"@),
    }
}

proof fn lemma_deleted_leaf(node: Node, id: WindowId, x: WindowId)
    requires
        ids(node).no_duplicates(),
    ensures
        match without_leaf(node, id) {
            Some(t) => leaf(t, x) is Some ==> leaf(node, x) == leaf(t, x),
            None => true,
        },
    decreases node,
{
    match node {
        Node::Leaf(y) => {},
        Node::Split { dir: d, first, second } => {
            let a = ids(*first);
            let b = ids(*second);
            let s = a + b;
            assert forall|i: int, j: int| 0 <= i < a.len() && 0 <= j < a.len() && i != j implies a[i]
                != a[j] by {
                assert(s[i] != s[j]);
            }
            assert forall|i: int, j: int| 0 <= i < b.len() && 0 <= j < b.len() && i != j implies b[i]
                != b[j] by {
                assert(s[a.len() + i] != s[a.len() + j]);
            }
            lemma_deleted_leaf(*first, id, x);
            lemma_deleted_leaf(*second, id, x);
            lemma_leaf(*first, x);
            lemma_leaf(*second, x);
            if a.contains(x) && b.contains(x) {
                let i = a.index_of(x);
                let j = b.index_of(x);
                assert(s[i] != s[a.len() + j]);
            }
        },
    }
}

/// C-x 0.
pub fn delete_window(ed: &mut Editor, _n: Option<u32>)
    requires
        wf(old(ed)@),
    ensures
        final(ed)@ == window_deleted(old(ed)@),
        wf(final(ed)@),
{
    let ghost e = ed@;
    let sel: WindowId = ed.windows.selected;
    if !ed.windows.delete(sel) {
        ed.message("Attempt to delete sole ordinary window");
        return ;
    }
    proof {
        reveal(wf);
        law_delete(e.windows, sel);
        let r = ed@;
        assert forall|x: WindowId| (#[trigger] leaf(r.windows.root, x)) is Some implies has_buffer(
            r.buffers,
            leaf(r.windows.root, x)->0.buffer,
        ) by {
            lemma_deleted_leaf(e.windows.root, sel, x);
            assert(has_buffer(e.buffers, leaf(e.windows.root, x)->0.buffer));
        }
        lemma_cur(r);
    }
    let id: usize = ed.windows.selected_ref().buffer;
    ed.touch_buffer(id);
    assert(ed@ =~= window_deleted(e));
}

/// C-x 1.
pub fn delete_other_windows(ed: &mut Editor, _n: Option<u32>)
    requires
        wf(old(ed)@),
    ensures
        final(ed)@ == with_windows(old(ed)@, sole_tree(old(ed)@.windows)),
        wf(final(ed)@),
{
    let ghost e = ed@;
    ed.windows.delete_others();
    proof {
        lemma_cur(e);
        reveal(wf);
        law_delete_others(e.windows);
        let r = ed@;
        assert forall|x: WindowId| (#[trigger] leaf(r.windows.root, x)) is Some implies has_buffer(
            r.buffers,
            leaf(r.windows.root, x)->0.buffer,
        ) by {
            assert(r.windows.root == Node::Leaf(cur_win(e)));
            assert(has_buffer(e.buffers, cur_win(e).buffer));
        }
    }
}

// ---- laws ------------------------------------------------------------------

/// The buffer of the window that C-x o or C-x 0 selects is the most recent one.
pub proof fn law_selected_most_recent(e: EditorModel, n: Option<u32>)
    ensures
        other_selected(e, n).recency[0] == cur_win(other_selected(e, n)).buffer,
        without_leaf(e.windows.root, e.windows.selected) is Some ==> window_deleted(e).recency[0]
            == cur_win(window_deleted(e)).buffer,
{
}

} // verus!
