//! What splitting, selecting and deleting windows do.

use crate::commands::run::native_done;
use crate::commands::windows::other_selected;
use crate::editor::{cur_win, lemma_cur, wf, EditorModel};
use crate::laws::motion::often;
use crate::laws::table::lemma_window_commands;
use crate::native::NativeCmd;
use crate::window::{
    first_half, ids, index_from, law_delete, law_delete_others, leaf, lemma_index_from, lemma_leaf,
    lemma_next_selected_by, lemma_placed_order, placed, second_half, with_node, without_leaf, Node,
    Rect, SplitDir, Window, WindowId,
};
use vstd::prelude::*;

verus! {

/// The two parts of a split rectangle: above and below each other, or side by side
/// with the last column of the left half left free for a divider.
pub open spec fn parts(rect: Rect, dir: SplitDir) -> (Rect, Rect) {
    match dir {
        SplitDir::Below => (
            Rect { h: (rect.h / 2) as u16, ..rect },
            Rect {
                y: (rect.y + rect.h / 2) as u16,
                h: (rect.h - rect.h / 2) as u16,
                ..rect
            },
        ),
        SplitDir::Right => (
            Rect {
                w: (if rect.w / 2 > 0 {
                    rect.w / 2 - 1
                } else {
                    0
                }) as u16,
                ..rect
            },
            Rect {
                x: (rect.x + rect.w / 2) as u16,
                w: (rect.w - rect.w / 2) as u16,
                ..rect
            },
        ),
    }
}

spec fn twin(dir: SplitDir, w: Window, new_id: WindowId) -> Node {
    Node::Split {
        dir,
        first: Box::new(Node::Leaf(w)),
        second: Box::new(Node::Leaf(Window { id: new_id, ..w })),
    }
}

proof fn lemma_split_placed(
    node: Node,
    id: WindowId,
    dir: SplitDir,
    w: Window,
    new_id: WindowId,
    rect: Rect,
    k: int,
)
    requires
        ids(node).no_duplicates(),
        0 <= k < ids(node).len(),
        ids(node)[k] == id,
        leaf(node, id) == Some(w),
    ensures
        ({
            let s = placed(node, rect);
            let (a, b) = parts(s[k].1, dir);
            placed(with_node(node, id, twin(dir, w, new_id)), rect) == s.update(k, (id, a)).insert(
                k + 1,
                (new_id, b),
            )
        }),
    decreases node,
{
    lemma_placed_order(node, rect);
    lemma_leaf(node, id);
    match node {
        Node::Leaf(x) => {
            let (a, b) = parts(rect, dir);
            assert(w == x);
            assert(first_half(dir, rect) == a);
            assert(second_half(dir, rect) == b);
            reveal_with_fuel(placed, 3);
            assert(placed(twin(dir, w, new_id), rect) =~= seq![(id, a), (new_id, b)]);
            assert(placed(node, rect).update(0, (id, a)).insert(1, (new_id, b)) =~= seq![
                (id, a),
                (new_id, b),
            ]);
        },
        Node::Split { dir: d, first, second } => {
            let p = ids(*first);
            let q = ids(*second);
            let s = p + q;
            assert forall|i: int, j: int| 0 <= i < p.len() && 0 <= j < p.len() && i != j implies p[i]
                != p[j] by {
                assert(s[i] != s[j]);
            }
            assert forall|i: int, j: int| 0 <= i < q.len() && 0 <= j < q.len() && i != j implies q[i]
                != q[j] by {
                assert(s[p.len() + i] != s[p.len() + j]);
            }
            lemma_leaf(*first, id);
            lemma_leaf(*second, id);
            let fr = first_half(d, rect);
            let sr = second_half(d, rect);
            lemma_placed_order(*first, fr);
            lemma_placed_order(*second, sr);
            let x = placed(*first, fr);
            let y = placed(*second, sr);
            let all = placed(node, rect);
            assert(all =~= x + y);
            let (a, b) = parts(all[k].1, dir);
            if k < p.len() {
                assert(p[k] == id);
                assert(p.contains(id));
                lemma_split_placed(*first, id, dir, w, new_id, fr, k);
                assert(x.update(k, (id, a)).insert(k + 1, (new_id, b)) + y =~= all.update(
                    k,
                    (id, a),
                ).insert(k + 1, (new_id, b)));
            } else {
                let j = k - p.len();
                assert(q[j] == id);
                assert(!p.contains(id)) by {
                    if p.contains(id) {
                        let i = p.index_of(id);
                        assert(s[i] != s[k]);
                    }
                }
                lemma_split_placed(*second, id, dir, w, new_id, sr, j);
                assert(x + y.update(j, (id, a)).insert(j + 1, (new_id, b)) =~= all.update(
                    k,
                    (id, a),
                ).insert(k + 1, (new_id, b)));
            }
        },
    }
}

proof fn lemma_split_leaves(
    node: Node,
    id: WindowId,
    dir: SplitDir,
    w: Window,
    new_id: WindowId,
    x: WindowId,
)
    requires
        leaf(node, id) == Some(w),
        leaf(node, new_id) is None,
        id != new_id,
    ensures
        leaf(with_node(node, id, twin(dir, w, new_id)), x) == if x == new_id {
            Some(Window { id: new_id, ..w })
        } else {
            leaf(node, x)
        },
    decreases node,
{
    lemma_leaf(node, id);
    reveal_with_fuel(leaf, 3);
    match node {
        Node::Leaf(y) => {},
        Node::Split { dir: d, first, second } => {
            if leaf(*first, id) is Some {
                lemma_split_leaves(*first, id, dir, w, new_id, x);
            } else {
                lemma_split_leaves(*second, id, dir, w, new_id, x);
            }
        },
    }
}

/// C-x 2 splits the selected window in two above each other, C-x 3 in two side by
/// side: the selected one stays selected in the first part, a new one with the
/// same buffer, point and top line takes the second, and no other window moves or
/// changes.
pub proof fn law_window_splits(e: EditorModel, right: bool, n: Option<u32>, area: Rect, x: WindowId)
    requires
        wf(e),
        e.windows.next_id < usize::MAX,
    ensures
        ({
            let c = if right {
                NativeCmd::SplitWindowRight
            } else {
                NativeCmd::SplitWindowBelow
            };
            let dir = if right {
                SplitDir::Right
            } else {
                SplitDir::Below
            };
            let (r, a) = native_done(e, c, n);
            let s = placed(e.windows.root, area);
            let k = ids(e.windows.root).index_of(e.windows.selected);
            let (p, q) = parts(s[k].1, dir);
            let new_id = e.windows.next_id;
            &&& a is Nothing
            &&& r == (EditorModel { windows: r.windows, ..e })
            &&& r.windows.selected == e.windows.selected
            &&& placed(r.windows.root, area) == s.update(k, (e.windows.selected, p)).insert(
                k + 1,
                (new_id, q),
            )
            &&& !ids(e.windows.root).contains(new_id)
            &&& leaf(r.windows.root, new_id) == Some(Window { id: new_id, ..cur_win(e) })
            &&& x != new_id ==> leaf(r.windows.root, x) == leaf(e.windows.root, x)
        }),
{
    lemma_window_commands(e, n);
    let dir = if right {
        SplitDir::Right
    } else {
        SplitDir::Below
    };
    reveal(wf);
    lemma_cur(e);
    let t = e.windows;
    lemma_leaf(t.root, t.selected);
    let s = ids(t.root);
    let k = s.index_of(t.selected);
    assert(s[k] == t.selected);
    assert(!s.contains(t.next_id)) by {
        if s.contains(t.next_id) {
            let i = s.index_of(t.next_id);
            assert(s[i] < t.next_id);
        }
    }
    lemma_leaf(t.root, t.next_id);
    lemma_split_placed(t.root, t.selected, dir, cur_win(e), t.next_id, area, k);
    lemma_split_leaves(t.root, t.selected, dir, cur_win(e), t.next_id, x);
    lemma_split_leaves(t.root, t.selected, dir, cur_win(e), t.next_id, t.next_id);
}

/// C-x o selects the next window in the order of the layout, after the last the
/// first, as often as a count says; no window or buffer changes.
pub proof fn law_other_window(e: EditorModel, n: Option<u32>, i: int)
    requires
        wf(e),
        0 <= i < ids(e.windows.root).len(),
        ids(e.windows.root)[i] == e.windows.selected,
    ensures
        ({
            let (r, a) = native_done(e, NativeCmd::OtherWindow, n);
            let s = ids(e.windows.root);
            &&& a is Nothing
            &&& r == (EditorModel { windows: r.windows, recency: r.recency, ..e })
            &&& r.windows.root == e.windows.root
            &&& r.windows.selected == s[(i + often(n)) % (s.len() as int)]
        }),
{
    lemma_window_commands(e, n);
    reveal(wf);
    let t = e.windows;
    let s = ids(t.root);
    lemma_next_selected_by(t, often(n) as nat);
    lemma_index_from(s, t.selected, 0);
    let j = index_from(s, t.selected, 0);
    assert(j == i) by {
        if j < i {
            assert(s[j] != s[i]);
        } else if j > i {
            assert(s[i] != t.selected);
        }
    }
    let r = native_done(e, NativeCmd::OtherWindow, n).0;
    assert(r == other_selected(e, n));
}

proof fn lemma_left(node: Node, id: WindowId, x: WindowId)
    requires
        ids(node).no_duplicates(),
        x != id,
    ensures
        match without_leaf(node, id) {
            Some(t) => leaf(t, x) == leaf(node, x),
            None => true,
        },
    decreases node,
{
    lemma_leaf(node, x);
    match node {
        Node::Leaf(y) => {},
        Node::Split { dir: d, first, second } => {
            let a = ids(*first);
            let b = ids(*second);
            let s = a + b;
            assert forall|i: int, j: int| 0 <= i < a.len() && 0 <= j < a.len() && i != j implies a[i]
                != a[j] by {
                assert(s[i] != s[j]);
            }
            assert forall|i: int, j: int| 0 <= i < b.len() && 0 <= j < b.len() && i != j implies b[i]
                != b[j] by {
                assert(s[a.len() + i] != s[a.len() + j]);
            }
            lemma_left(*first, id, x);
            lemma_left(*second, id, x);
        },
    }
}

/// C-x 0 takes the selected window away and leaves all others as they were; the
/// first of them is selected. The only window stays.
pub proof fn law_window_deleted(e: EditorModel, n: Option<u32>, x: WindowId)
    requires
        wf(e),
    ensures
        ({
            let (r, a) = native_done(e, NativeCmd::DeleteWindow, n);
            let s = ids(e.windows.root);
            &&& a is Nothing
            &&& r.buffers == e.buffers
            &&& s.len() == 1 ==> r == (EditorModel { echo: r.echo, ..e })
            &&& s.len() > 1 ==> {
                &&& ids(r.windows.root) == s.remove(s.index_of(e.windows.selected))
                &&& r.windows.selected == ids(r.windows.root)[0]
                &&& x != e.windows.selected ==> leaf(r.windows.root, x) == leaf(e.windows.root, x)
                &&& leaf(r.windows.root, e.windows.selected) is None
            }
        }),
{
    lemma_window_commands(e, n);
    reveal(wf);
    let t = e.windows;
    let s = ids(t.root);
    lemma_leaf(t.root, t.selected);
    law_delete(t, t.selected);
    lemma_one(t.root);
    if t.root is Split {
        lemma_gone(t.root, t.selected);
    }
    if x != t.selected {
        lemma_left(t.root, t.selected, x);
    }
    let r = native_done(e, NativeCmd::DeleteWindow, n).0;
    if s.len() > 1 {
        lemma_leaf(r.windows.root, t.selected);
        let k = s.index_of(t.selected);
        assert(s[k] == t.selected);
        let u = s.remove(k);
        assert(!u.contains(t.selected)) by {
            if u.contains(t.selected) {
                let j = u.index_of(t.selected);
                let j0 = if j < k {
                    j
                } else {
                    j + 1
                };
                assert(s[j0] == t.selected);
            }
        }
    }
}

proof fn lemma_one(node: Node)
    ensures
        ids(node).len() >= 1,
        (ids(node).len() == 1) == (node is Leaf),
    decreases node,
{
    match node {
        Node::Leaf(_) => {},
        Node::Split { dir, first, second } => {
            lemma_one(*first);
            lemma_one(*second);
        },
    }
}

proof fn lemma_gone(node: Node, id: WindowId)
    requires
        ids(node).contains(id),
        node is Split,
    ensures
        without_leaf(node, id) is Some,
    decreases node,
{
    match node {
        Node::Leaf(_) => {},
        Node::Split { dir, first, second } => {
            let a = ids(*first);
            let b = ids(*second);
            let k = ids(node).index_of(id);
            if k < a.len() {
                assert(a[k] == id);
                if *first is Split {
                    lemma_gone(*first, id);
                }
            } else {
                assert(b[k - a.len()] == id);
                if *second is Split {
                    lemma_gone(*second, id);
                }
            }
        },
    }
}

/// C-x 1 leaves only the selected window, as it was.
pub proof fn law_others_deleted(e: EditorModel, n: Option<u32>)
    requires
        wf(e),
    ensures
        ({
            let (r, a) = native_done(e, NativeCmd::DeleteOtherWindows, n);
            &&& a is Nothing
            &&& r == (EditorModel { windows: r.windows, ..e })
            &&& r.windows.selected == e.windows.selected
            &&& r.windows.root == Node::Leaf(cur_win(e))
        }),
{
    lemma_window_commands(e, n);
    reveal(wf);
    law_delete_others(e.windows);
}

} // verus!
