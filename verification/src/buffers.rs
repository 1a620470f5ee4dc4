//! The buffer list of the editor: making, finding, showing and removing
//! buffers.

use crate::buffer::{fresh, Buffer, BufferId, BufferModel};
use crate::editor::{
    buf_ids, buf_index, cur_buf, cur_index, cur_win, has_buffer, lemma_buf_index, lemma_cur,
    lemma_wf_same, wf, Editor, EditorModel,
};
use crate::lines::clip;
use crate::strings::same;
use crate::window::{
    ids, leaf, lemma_with_leaf, map_leaves, with_selected, Node, Window, WindowId, WindowTree,
};
use vstd::prelude::*;

verus! {

// ---- the recency list ------------------------------------------------------

/// `s` without any `x`.
pub open spec fn without(s: Seq<usize>, x: usize) -> Seq<usize>
    decreases s.len(),
{
    if s.len() == 0 {
        Seq::empty()
    } else if s.last() == x {
        without(s.drop_last(), x)
    } else {
        without(s.drop_last(), x).push(s.last())
    }
}

/// The recency list with `id` moved to the front.
pub open spec fn touched(s: Seq<usize>, id: usize) -> Seq<usize> {
    seq![id] + without(s, id)
}

/// Taking out a number takes out that number, and nothing else.
pub proof fn lemma_without(s: Seq<usize>, x: usize)
    ensures
        forall|y: usize| #[trigger] without(s, x).contains(y) <==> s.contains(y) && y != x,
        s.no_duplicates() ==> without(s, x).no_duplicates(),
        !s.contains(x) ==> without(s, x) == s,
    decreases s.len(),
{
    if s.len() > 0 {
        let t = s.drop_last();
        let r = without(t, x);
        lemma_without(t, x);
        assert(s =~= t.push(s.last()));
        assert forall|y: usize| #[trigger] without(s, x).contains(y) <==> s.contains(y) && y
            != x by {
            if t.contains(y) {
                let i = t.index_of(y);
                assert(s[i] == y);
            }
            if s.contains(y) && y != s.last() {
                let i = s.index_of(y);
                assert(t[i] == y);
            }
            if y == s.last() {
                assert(s[s.len() - 1] == y);
                if y != x {
                    assert(r.push(y)[r.len() as int] == y);
                }
            }
            if r.contains(y) && s.last() != x {
                let i = r.index_of(y);
                assert(r.push(s.last())[i] == y);
            }
            if s.last() != x && r.push(s.last()).contains(y) && y != s.last() {
                let i = r.push(s.last()).index_of(y);
                assert(r[i] == y);
            }
        }
        if s.no_duplicates() {
            assert forall|i: int, j: int| 0 <= i < t.len() && 0 <= j < t.len() && i != j implies t[i]
                != t[j] by {
                assert(s[i] != s[j]);
            }
            if s.last() != x {
                assert(!t.contains(s.last())) by {
                    if t.contains(s.last()) {
                        let i = t.index_of(s.last());
                        assert(s[i] != s[s.len() - 1]);
                    }
                }
                assert(!r.contains(s.last()));
            }
        }
        if !s.contains(x) {
            assert(s.last() != x) by {
                assert(s[s.len() - 1] == s.last());
            }
            assert(!t.contains(x)) by {
                if t.contains(x) {
                    let i = t.index_of(x);
                    assert(s[i] == x);
                }
            }
        }
    }
}

/// Touching what is in front changes nothing.
pub proof fn lemma_touched_front(s: Seq<usize>, id: usize)
    requires
        s.no_duplicates(),
        s.len() > 0,
        s[0] == id,
    ensures
        touched(s, id) == s,
{
    lemma_without_front(s, id);
    assert(touched(s, id) =~= s);
}

proof fn lemma_without_front(s: Seq<usize>, id: usize)
    requires
        s.no_duplicates(),
        s.len() > 0,
        s[0] == id,
    ensures
        without(s, id) == s.skip(1),
    decreases s.len(),
{
    if s.len() > 1 {
        let t = s.drop_last();
        assert(s[s.len() - 1] != s[0]);
        assert(t.no_duplicates());
        lemma_without_front(t, id);
        assert(t.skip(1).push(s.last()) =~= s.skip(1));
    } else {
        let t = s.drop_last();
        assert(t =~= Seq::<usize>::empty());
        assert(s.last() == id);
        assert(without(t, id) =~= Seq::<usize>::empty());
        assert(without(s, id) == without(t, id));
        assert(s.skip(1) =~= Seq::<usize>::empty());
    }
}

/// Touching keeps the list free of duplicates, and adds at most what is touched.
pub proof fn lemma_touched(s: Seq<usize>, id: usize)
    requires
        s.no_duplicates(),
    ensures
        touched(s, id).no_duplicates(),
        forall|y: usize| #[trigger] touched(s, id).contains(y) <==> s.contains(y) || y == id,
{
    lemma_without(s, id);
    let r = without(s, id);
    let t = touched(s, id);
    assert(!r.contains(id));
    assert forall|i: int, j: int| 0 <= i < t.len() && 0 <= j < t.len() && i != j implies t[i]
        != t[j] by {
        if i > 0 && j > 0 {
            assert(r[i - 1] != r[j - 1]);
        } else if i > 0 {
            assert(r.contains(r[i - 1]));
        } else {
            assert(r.contains(r[j - 1]));
        }
    }
    assert forall|y: usize| #[trigger] t.contains(y) <==> s.contains(y) || y == id by {
        if y == id {
            assert(t[0] == y);
        } else if r.contains(y) {
            let i = r.index_of(y);
            assert(t[i + 1] == y);
        }
        if t.contains(y) && y != id {
            let i = t.index_of(y);
            assert(r[i - 1] == y);
        }
    }
}

fn remove_id(s: &mut Vec<BufferId>, x: BufferId)
    ensures
        final(s)@ == without(old(s)@, x),
{
    let mut out: Vec<BufferId> = Vec::new();
    let mut i: usize = 0;
    while i < s.len()
        invariant
            i <= s@.len(),
            s@ == old(s)@,
            out@ == without(s@.take(i as int), x),
        decreases s@.len() - i,
    {
        assert(s@.take(i + 1).drop_last() =~= s@.take(i as int));
        if s[i] != x {
            out.push(s[i]);
        }
        i = i + 1;
    }
    assert(s@.take(s@.len() as int) =~= s@);
    *s = out;
}

// ---- finding ---------------------------------------------------------------

/// The index of the first buffer at or after `i` with this name.
pub open spec fn name_index(bs: Seq<BufferModel>, name: Seq<char>, i: int) -> int
    decreases bs.len() - i,
{
    if 0 <= i < bs.len() && bs[i].name != name {
        name_index(bs, name, i + 1)
    } else {
        i
    }
}

/// The id of the first buffer with this name.
pub open spec fn buffer_named(bs: Seq<BufferModel>, name: Seq<char>) -> Option<usize> {
    let i = name_index(bs, name, 0);
    if i < bs.len() {
        Some(bs[i].id)
    } else {
        None
    }
}

/// The index of the first buffer at or after `i` that visits this path.
pub open spec fn path_index(bs: Seq<BufferModel>, path: Seq<char>, i: int) -> int
    decreases bs.len() - i,
{
    if 0 <= i < bs.len() && bs[i].path != Some(path) {
        path_index(bs, path, i + 1)
    } else {
        i
    }
}

/// The id of the first buffer that visits this path.
pub open spec fn buffer_visiting(bs: Seq<BufferModel>, path: Seq<char>) -> Option<usize> {
    let i = path_index(bs, path, 0);
    if i < bs.len() {
        Some(bs[i].id)
    } else {
        None
    }
}

/// A buffer found by name or by path is a live buffer.
pub proof fn lemma_found(bs: Seq<BufferModel>, key: Seq<char>)
    ensures
        match buffer_named(bs, key) {
            Some(id) => has_buffer(bs, id),
            None => true,
        },
        match buffer_visiting(bs, key) {
            Some(id) => has_buffer(bs, id),
            None => true,
        },
        0 <= name_index(bs, key, 0) <= bs.len(),
        name_index(bs, key, 0) < bs.len() ==> bs[name_index(bs, key, 0)].name == key,
{
    lemma_name_index(bs, key, 0);
    lemma_path_index(bs, key, 0);
    let i = name_index(bs, key, 0);
    if i < bs.len() {
        assert(buf_ids(bs)[i] == bs[i].id);
    }
    let j = path_index(bs, key, 0);
    if j < bs.len() {
        assert(buf_ids(bs)[j] == bs[j].id);
    }
}

proof fn lemma_name_index(bs: Seq<BufferModel>, name: Seq<char>, i: int)
    requires
        0 <= i <= bs.len(),
    ensures
        i <= name_index(bs, name, i) <= bs.len(),
        name_index(bs, name, i) < bs.len() ==> bs[name_index(bs, name, i)].name == name,
    decreases bs.len() - i,
{
    if i < bs.len() && bs[i].name != name {
        lemma_name_index(bs, name, i + 1);
    }
}

proof fn lemma_path_index(bs: Seq<BufferModel>, path: Seq<char>, i: int)
    requires
        0 <= i <= bs.len(),
    ensures
        i <= path_index(bs, path, i) <= bs.len(),
    decreases bs.len() - i,
{
    if i < bs.len() && bs[i].path != Some(path) {
        lemma_path_index(bs, path, i + 1);
    }
}

// ---- making, showing, removing ---------------------------------------------

/// Whether a further id of each sort can be given out.
pub open spec fn has_ids(e: EditorModel) -> bool {
    e.next_buffer_id < usize::MAX && e.windows.next_id < usize::MAX && e.next_process_id < u64::MAX
}

/// The editor with one buffer more.
pub open spec fn with_buffer(e: EditorModel, b: BufferModel) -> EditorModel {
    EditorModel {
        buffers: e.buffers.push(b),
        next_buffer_id: (e.next_buffer_id + 1) as usize,
        recency: e.recency.push(e.next_buffer_id),
        ..e
    }
}

/// The editor with a fresh buffer that holds `text`.
pub open spec fn created(e: EditorModel, name: Seq<char>, text: Seq<char>) -> EditorModel {
    with_buffer(e, fresh(e.next_buffer_id, name, text))
}

/// The buffers with point remembered in the buffer that leaves the window.
pub open spec fn remembered(e: EditorModel) -> Seq<BufferModel> {
    e.buffers.update(cur_index(e), BufferModel { last_point: cur_win(e).point, ..cur_buf(e) })
}

/// The editor with buffer `id` in the selected window, at the point where it
/// was last left, and most recent.
pub open spec fn shown(e: EditorModel, id: usize) -> EditorModel {
    let bs = remembered(e);
    let b = bs[buf_index(bs, id)];
    EditorModel {
        buffers: bs,
        windows: with_selected(
            e.windows,
            Window {
                buffer: id,
                point: clip(b.text, b.last_point as int) as usize,
                top_line: 0,
                ..cur_win(e)
            },
        ),
        recency: touched(e.recency, id),
        ..e
    }
}

/// The buffers without the one with this id.
pub open spec fn without_buffer(bs: Seq<BufferModel>, id: usize) -> Seq<BufferModel> {
    if has_buffer(bs, id) {
        bs.remove(buf_index(bs, id))
    } else {
        bs
    }
}

/// Windows that show buffer `gone` show `other` from its start.
pub open spec fn fall_back(gone: usize, other: usize) -> spec_fn(Window) -> Window {
    |w: Window|
        if w.buffer == gone {
            Window { buffer: other, point: 0, top_line: 0, ..w }
        } else {
            w
        }
}

/// The editor without buffer `id` but with some buffer left.
pub open spec fn dropped(e: EditorModel, id: usize) -> EditorModel {
    let bs = without_buffer(e.buffers, id);
    let rest = EditorModel { buffers: bs, recency: without(e.recency, id), ..e };
    if bs.len() == 0 {
        created(rest, "*scratch*"@, ""@)
    } else {
        rest
    }
}

/// The editor without buffer `id`: windows that showed it show the most recent
/// other buffer, a new `*scratch*` if it was the last one.
pub open spec fn buffer_removed(e: EditorModel, id: usize) -> EditorModel {
    let rest = dropped(e, id);
    EditorModel {
        windows: WindowTree {
            root: map_leaves(e.windows.root, fall_back(id, rest.recency[0])),
            ..e.windows
        },
        ..rest
    }
}

/// A fresh buffer keeps the editor in order.
pub proof fn lemma_with_buffer(e: EditorModel, b: BufferModel)
    requires
        wf(e),
        b.id == e.next_buffer_id,
        e.next_buffer_id < usize::MAX,
    ensures
        wf(with_buffer(e, b)),
        has_buffer(with_buffer(e, b).buffers, b.id),
        cur_win(with_buffer(e, b)) == cur_win(e),
        cur_buf(with_buffer(e, b)) == cur_buf(e),
        buf_index(with_buffer(e, b).buffers, b.id) == e.buffers.len(),
        forall|id: usize| has_buffer(e.buffers, id) ==> #[trigger] has_buffer(
            with_buffer(e, b).buffers,
            id,
        ),
{
    reveal(wf);
    let r = with_buffer(e, b);
    let s = buf_ids(e.buffers);
    let t = buf_ids(r.buffers);
    assert(t =~= s.push(b.id));
    assert(t[s.len() as int] == b.id);
    assert(!s.contains(b.id)) by {
        if s.contains(b.id) {
            let i = s.index_of(b.id);
            assert(e.buffers[i].id < e.next_buffer_id);
        }
    }
    assert forall|id: usize| #[trigger] t.contains(id) <==> s.contains(id) || id == b.id by {
        if s.contains(id) {
            let i = s.index_of(id);
            assert(t[i] == id);
        }
        if t.contains(id) && id != b.id {
            let i = t.index_of(id);
            assert(s[i] == id);
        }
    }
    assert forall|i: int| 0 <= i < r.buffers.len() implies (#[trigger] r.buffers[i]).id
        < r.next_buffer_id by {
        if i < e.buffers.len() {
            assert(r.buffers[i] == e.buffers[i]);
        }
    }
    assert forall|w: WindowId| (#[trigger] leaf(r.windows.root, w)) is Some implies has_buffer(
        r.buffers,
        leaf(r.windows.root, w)->0.buffer,
    ) by {
        assert(has_buffer(e.buffers, leaf(e.windows.root, w)->0.buffer));
    }
    assert forall|id: usize| #[trigger] r.recency.contains(id) <==> has_buffer(r.buffers, id) by {
        let q = e.recency;
        if q.contains(id) {
            let i = q.index_of(id);
            assert(r.recency[i] == id);
        }
        if id == b.id {
            assert(r.recency[q.len() as int] == id);
        }
        if r.recency.contains(id) && id != b.id {
            let i = r.recency.index_of(id);
            assert(q[i] == id);
        }
        assert(q.contains(id) <==> has_buffer(e.buffers, id));
    }
    assert(!e.recency.contains(b.id));
    lemma_buf_index(e.buffers, cur_win(e).buffer);
    lemma_buf_index(r.buffers, cur_win(e).buffer);
    lemma_buf_index(r.buffers, b.id);
    lemma_cur(e);
    let i = cur_index(e);
    let j = cur_index(r);
    assert(t[i] == cur_win(e).buffer && t[j] == cur_win(e).buffer);
    assert(i == j);
    let k = buf_index(r.buffers, b.id);
    assert(t[k] == b.id);
    assert(k == s.len());
}

/// Showing a live buffer keeps the editor in order and makes it current.
pub proof fn lemma_shown(e: EditorModel, id: usize)
    requires
        wf(e),
        has_buffer(e.buffers, id),
    ensures
        wf(shown(e, id)),
        cur_win(shown(e, id)).buffer == id,
        cur_index(shown(e, id)) == buf_index(e.buffers, id),
        cur_buf(shown(e, id)).id == id,
        cur_win(shown(e, id)).point <= cur_buf(shown(e, id)).text.len(),
{
    reveal(wf);
    lemma_cur(e);
    let r = shown(e, id);
    assert(buf_ids(remembered(e)) =~= buf_ids(e.buffers));
    let w = Window {
        buffer: id,
        point: clip(
            remembered(e)[buf_index(remembered(e), id)].text,
            remembered(e)[buf_index(remembered(e), id)].last_point as int,
        ) as usize,
        top_line: 0,
        ..cur_win(e)
    };
    lemma_with_leaf(e.windows.root, e.windows.selected, w);
    assert(leaf(r.windows.root, e.windows.selected) == Some(w));
    lemma_touched(e.recency, id);
    lemma_buf_index(r.buffers, id);
    assert forall|x: WindowId| (#[trigger] leaf(r.windows.root, x)) is Some implies has_buffer(
        r.buffers,
        leaf(r.windows.root, x)->0.buffer,
    ) by {
        if x != e.windows.selected {
            assert(leaf(r.windows.root, x) == leaf(e.windows.root, x));
        }
    }
    assert forall|x: usize| #[trigger] r.recency.contains(x) <==> has_buffer(r.buffers, x) by {
        assert(e.recency.contains(x) <==> has_buffer(e.buffers, x));
    }
    assert forall|i: int| 0 <= i < r.buffers.len() implies (#[trigger] r.buffers[i]).id
        < r.next_buffer_id by {
        assert(e.buffers[i].id < e.next_buffer_id);
    }
}

/// Mapping the leaves, ids kept, maps what each id gives.
pub proof fn lemma_map_leaves(node: Node, f: spec_fn(Window) -> Window)
    requires
        forall|w: Window| (#[trigger] f(w)).id == w.id,
    ensures
        ids(map_leaves(node, f)) == ids(node),
        forall|id: WindowId|
            #[trigger] leaf(map_leaves(node, f), id) == match leaf(node, id) {
                Some(w) => Some(f(w)),
                None => None,
            },
    decreases node,
{
    match node {
        Node::Leaf(w) => {
            assert(f(w).id == w.id);
            assert forall|id: WindowId|
                #[trigger] leaf(map_leaves(node, f), id) == match leaf(node, id) {
                    Some(w) => Some(f(w)),
                    None => None,
                } by {
                assert(map_leaves(node, f) == Node::Leaf(f(w)));
            }
        },
        Node::Split { dir, first, second } => {
            lemma_map_leaves(*first, f);
            lemma_map_leaves(*second, f);
            let a = map_leaves(*first, f);
            let b = map_leaves(*second, f);
            assert forall|id: WindowId|
                #[trigger] leaf(map_leaves(node, f), id) == match leaf(node, id) {
                    Some(w) => Some(f(w)),
                    None => None,
                } by {
                assert(map_leaves(node, f) == Node::Split {
                    dir,
                    first: Box::new(a),
                    second: Box::new(b),
                });
                assert(leaf(a, id) == match leaf(*first, id) {
                    Some(w) => Some(f(w)),
                    None => None,
                });
                assert(leaf(b, id) == match leaf(*second, id) {
                    Some(w) => Some(f(w)),
                    None => None,
                });
            }
        },
    }
}

/// Taking out a buffer takes out that buffer, and nothing else.
pub proof fn lemma_without_buffer(bs: Seq<BufferModel>, id: usize)
    requires
        buf_ids(bs).no_duplicates(),
    ensures
        buf_ids(without_buffer(bs, id)).no_duplicates(),
        forall|x: usize| #[trigger] has_buffer(without_buffer(bs, id), x) <==> has_buffer(bs, x)
            && x != id,
        forall|i: int|
            0 <= i < without_buffer(bs, id).len() ==> exists|j: int|
                0 <= j < bs.len() && #[trigger] without_buffer(bs, id)[i] == bs[j],
{
    lemma_buf_index(bs, id);
    let s = buf_ids(bs);
    let r = without_buffer(bs, id);
    let t = buf_ids(r);
    if has_buffer(bs, id) {
        let k = buf_index(bs, id);
        assert(s[k] == id);
        assert(t =~= s.remove(k));
        assert forall|i: int| 0 <= i < r.len() implies exists|j: int|
            0 <= j < bs.len() && #[trigger] r[i] == bs[j] by {
            if i < k {
                assert(r[i] == bs[i]);
            } else {
                assert(r[i] == bs[i + 1]);
            }
        }
        assert forall|i: int, j: int| 0 <= i < t.len() && 0 <= j < t.len() && i != j implies t[i]
            != t[j] by {
            let i0 = if i < k { i } else { i + 1 };
            let j0 = if j < k { j } else { j + 1 };
            assert(s[i0] != s[j0]);
        }
        assert forall|x: usize| #[trigger] has_buffer(r, x) <==> has_buffer(bs, x) && x != id by {
            if s.contains(x) && x != id {
                let i = s.index_of(x);
                if i < k {
                    assert(t[i] == x);
                } else {
                    assert(t[i - 1] == x);
                }
            }
            if t.contains(x) {
                let i = t.index_of(x);
                if i < k {
                    assert(s[i] == x);
                } else {
                    assert(s[i + 1] == x);
                    assert(s[i + 1] != s[k]);
                }
            }
        }
    } else {
        assert forall|i: int| 0 <= i < r.len() implies exists|j: int|
            0 <= j < bs.len() && #[trigger] r[i] == bs[j] by {
            assert(r[i] == bs[i]);
        }
    }
}

/// Removing a buffer keeps the editor in order: no window shows it any more,
/// and some buffer is left.
pub proof fn lemma_buffer_removed(e: EditorModel, id: usize)
    requires
        wf(e),
        e.next_buffer_id < usize::MAX,
    ensures
        wf(buffer_removed(e, id)),
        !has_buffer(buffer_removed(e, id).buffers, id) || id == e.next_buffer_id,
        dropped(e, id).recency.len() > 0,
{
    reveal(wf);
    lemma_without_buffer(e.buffers, id);
    lemma_without(e.recency, id);
    lemma_cur(e);
    let bs = without_buffer(e.buffers, id);
    let rest = EditorModel { buffers: bs, recency: without(e.recency, id), ..e };
    let d = dropped(e, id);
    let t = buf_ids(bs);
    let nid = e.next_buffer_id;
    assert(!has_buffer(e.buffers, nid)) by {
        if has_buffer(e.buffers, nid) {
            let s = buf_ids(e.buffers);
            let i = s.index_of(nid);
            assert(e.buffers[i].id < nid);
        }
    }
    assert(!has_buffer(bs, nid));
    assert(!rest.recency.contains(nid)) by {
        assert(e.recency.contains(nid) <==> has_buffer(e.buffers, nid));
    }
    if bs.len() == 0 {
        assert(buf_ids(d.buffers) =~= seq![nid]);
        assert(buf_ids(d.buffers)[0] == nid);
        assert(rest.recency.len() == 0) by {
            if rest.recency.len() > 0 {
                let x = rest.recency[0];
                assert(rest.recency.contains(x));
                assert(e.recency.contains(x));
                assert(has_buffer(e.buffers, x));
                assert(has_buffer(bs, x));
            }
        }
        assert(d.recency =~= seq![nid]);
        assert(d.recency[0] == nid);
    } else {
        let x = bs[0].id;
        assert(t[0] == x);
        assert(has_buffer(bs, x));
        assert(e.recency.contains(x));
        assert(rest.recency.contains(x));
    }
    assert forall|x: usize| #[trigger] d.recency.contains(x) <==> has_buffer(d.buffers, x) by {
        assert(e.recency.contains(x) <==> has_buffer(e.buffers, x));
    }
    let other = d.recency[0];
    assert(d.recency.contains(other));
    assert(has_buffer(d.buffers, other));
    let f = fall_back(id, other);
    lemma_map_leaves(e.windows.root, f);
    let r = buffer_removed(e, id);
    assert forall|w: WindowId| (#[trigger] leaf(r.windows.root, w)) is Some implies has_buffer(
        r.buffers,
        leaf(r.windows.root, w)->0.buffer,
    ) by {
        let old_w = leaf(e.windows.root, w)->0;
        assert(leaf(e.windows.root, w) is Some);
        assert(has_buffer(e.buffers, old_w.buffer));
        if old_w.buffer != id {
            assert(has_buffer(bs, old_w.buffer));
        }
    }
    assert forall|i: int| 0 <= i < r.buffers.len() implies (#[trigger] r.buffers[i]).id
        < r.next_buffer_id by {
        if bs.len() > 0 {
            assert(bs[i] == r.buffers[i]);
            let j = choose|j: int| 0 <= j < e.buffers.len() && bs[i] == e.buffers[j];
            assert(e.buffers[j].id < e.next_buffer_id);
        }
    }
}

fn fall_back_in(node: &mut Node, gone: BufferId, other: BufferId)
    ensures
        *final(node) == map_leaves(*old(node), fall_back(gone, other)),
    decreases *old(node),
{
    match node {
        Node::Leaf(w) => {
            if w.buffer == gone {
                w.buffer = other;
                w.point = 0;
                w.top_line = 0;
            }
        },
        Node::Split { first, second, .. } => {
            fall_back_in(first, gone, other);
            fall_back_in(second, gone, other);
        },
    }
}

impl Editor {
    /// Make a buffer that holds `text`, without showing it.
    pub fn create_buffer(&mut self, name: &str, text: &str) -> (id: BufferId)
        requires
            wf(old(self)@),
            old(self)@.next_buffer_id < usize::MAX,
        ensures
            id == old(self)@.next_buffer_id,
            final(self)@ == created(old(self)@, name@, text@),
            wf(final(self)@),
    {
        let id: BufferId = self.next_buffer_id;
        self.next_buffer_id = id + 1;
        self.buffers.push(Buffer::new(id, name, text));
        self.recency.push(id);
        proof {
            assert(self@ =~= created(old(self)@, name@, text@));
            lemma_with_buffer(old(self)@, fresh(id, name@, text@));
        }
        id
    }

    /// The id of the buffer with this name, the oldest if there are several.
    pub fn buffer_by_name(&self, name: &str) -> (r: Option<BufferId>)
        ensures
            r == buffer_named(self@.buffers, name@),
    {
        let mut i: usize = 0;
        while i < self.buffers.len()
            invariant
                i <= self.buffers@.len(),
                name_index(self@.buffers, name@, 0) == name_index(self@.buffers, name@, i as int),
            decreases self.buffers@.len() - i,
        {
            assert(self@.buffers[i as int] == self.buffers@[i as int]@);
            if same(self.buffers[i].name.as_str(), name) {
                return Some(self.buffers[i].id);
            }
            i = i + 1;
        }
        None
    }

    /// The id of the buffer that visits this path, the oldest if there are
    /// several.
    pub fn buffer_by_path(&self, path: &str) -> (r: Option<BufferId>)
        ensures
            r == buffer_visiting(self@.buffers, path@),
    {
        let mut i: usize = 0;
        while i < self.buffers.len()
            invariant
                i <= self.buffers@.len(),
                path_index(self@.buffers, path@, 0) == path_index(self@.buffers, path@, i as int),
            decreases self.buffers@.len() - i,
        {
            assert(self@.buffers[i as int] == self.buffers@[i as int]@);
            let hit = match &self.buffers[i].path {
                Some(p) => same(p.as_str(), path),
                None => false,
            };
            if hit {
                return Some(self.buffers[i].id);
            }
            i = i + 1;
        }
        None
    }

    /// A number for a new background process.
    pub fn alloc_process_id(&mut self) -> (id: u64)
        requires
            old(self)@.next_process_id < u64::MAX,
        ensures
            id == old(self)@.next_process_id,
            final(self)@ == (EditorModel {
                next_process_id: (old(self)@.next_process_id + 1) as u64,
                ..old(self)@
            }),
            wf(old(self)@) ==> wf(final(self)@),
    {
        let id: u64 = self.next_process_id;
        self.next_process_id = id + 1;
        proof {
            if wf(old(self)@) {
                lemma_wf_same(old(self)@, self@);
            }
        }
        id
    }

    /// Make a buffer the most recent one.
    pub fn touch_buffer(&mut self, id: BufferId)
        requires
            wf(old(self)@),
            has_buffer(old(self)@.buffers, id),
        ensures
            final(self)@ == (EditorModel {
                recency: touched(old(self)@.recency, id),
                ..old(self)@
            }),
            wf(final(self)@),
    {
        remove_id(&mut self.recency, id);
        self.recency.insert(0, id);
        assert(self.recency@ =~= touched(old(self)@.recency, id));
        proof {
            reveal(wf);
            lemma_touched(old(self)@.recency, id);
            assert forall|x: usize| #[trigger] self@.recency.contains(x) <==> has_buffer(
                self@.buffers,
                x,
            ) by {
                assert(old(self)@.recency.contains(x) <==> has_buffer(old(self)@.buffers, x));
            }
        }
    }

    /// Show `id` in the selected window and mark it most recent. The point in
    /// the outgoing buffer is remembered and restored on return.
    pub fn show_buffer(&mut self, id: BufferId)
        requires
            wf(old(self)@),
            has_buffer(old(self)@.buffers, id),
        ensures
            final(self)@ == shown(old(self)@, id),
            wf(final(self)@),
    {
        let ghost e = self@;
        proof {
            lemma_cur(e);
            lemma_buf_index(e.buffers, e.windows.selected);
            lemma_shown(e, id);
            assert(buf_ids(remembered(e)) =~= buf_ids(e.buffers));
            lemma_buf_index(e.buffers, cur_win(e).buffer);
            lemma_buf_index(remembered(e), id);
        }
        let old_id: BufferId = self.windows.selected_ref().buffer;
        let old_point: usize = self.windows.selected_ref().point;
        let i: usize = self.buffer_index(old_id).unwrap();
        self.buffers[i].last_point = old_point;
        assert(self@.buffers =~= remembered(e));
        let j: usize = self.buffer_index(id).unwrap();
        let last: usize = self.buffers[j].last_point;
        let len: usize = self.buffers[j].len_chars();
        assert(self.buffers@[j as int]@ == remembered(e)[buf_index(remembered(e), id)]);
        let point: usize = if last <= len {
            last
        } else {
            len
        };
        let win = self.windows.selected_mut();
        win.buffer = id;
        win.point = point;
        win.top_line = 0;
        remove_id(&mut self.recency, id);
        self.recency.insert(0, id);
        assert(self.recency@ =~= touched(e.recency, id));
        assert(self@ =~= shown(e, id));
    }

    /// Remove a buffer; windows showing it fall back to another buffer
    /// (creating *scratch* if it was the last one).
    pub fn remove_buffer(&mut self, id: BufferId)
        requires
            wf(old(self)@),
            old(self)@.next_buffer_id < usize::MAX,
        ensures
            final(self)@ == buffer_removed(old(self)@, id),
            wf(final(self)@),
    {
        let ghost e = self@;
        proof {
            lemma_buffer_removed(e, id);
            lemma_buf_index(e.buffers, id);
        }
        match self.buffer_index(id) {
            Some(i) => {
                self.buffers.remove(i);
                assert(self@.buffers =~= e.buffers.remove(i as int));
            },
            None => {},
        }
        assert(self@.buffers =~= without_buffer(e.buffers, id));
        remove_id(&mut self.recency, id);
        if self.buffers.len() == 0 {
            let sid: BufferId = self.next_buffer_id;
            self.next_buffer_id = sid + 1;
            self.buffers.push(Buffer::new(sid, "*scratch*", ""));
            self.recency.push(sid);
            assert(self@.buffers =~= without_buffer(e.buffers, id).push(
                fresh(sid, "*scratch*"@, ""@),
            ));
        }
        assert(self@ =~= dropped(e, id));
        let other: BufferId = self.recency[0];
        fall_back_in(&mut self.windows.root, id, other);
        assert(self@ =~= buffer_removed(e, id));
    }
}

} // verus!
