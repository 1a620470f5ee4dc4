//! Window tree: binary splits over the terminal area. Each leaf shows one
//! buffer with its own point and scroll position.

use crate::buffer::BufferId;
use vstd::prelude::*;

verus! {

pub type WindowId = usize;

#[derive(Debug, Clone, Copy, PartialEq, Eq, Structural)]
pub struct Rect {
    pub x: u16,
    pub y: u16,
    pub w: u16,
    pub h: u16,
}

/// The rows of a rectangle that show text.
pub open spec fn text_rows(r: Rect) -> int {
    if r.h == 0 {
        0
    } else {
        r.h - 1
    }
}

impl Rect {
    /// Rows available for buffer text (reserving the mode line).
    pub fn text_height(&self) -> (n: usize)
        ensures
            n == text_rows(*self),
    {
        if self.h == 0 {
            0
        } else {
            (self.h - 1) as usize
        }
    }
}

#[derive(Debug, Clone, Copy, PartialEq, Eq, Structural)]
pub enum SplitDir {
    /// C-x 2: children stacked above/below.
    Below,
    /// C-x 3: children side by side.
    Right,
}

#[derive(Debug)]
pub struct Window {
    pub id: WindowId,
    pub buffer: BufferId,
    pub point: usize,
    /// First visible buffer line.
    pub top_line: usize,
}

#[derive(Debug)]
pub enum Node {
    Leaf(Window),
    Split { dir: SplitDir, first: Box<Node>, second: Box<Node> },
}

#[derive(Debug)]
pub struct WindowTree {
    pub root: Node,
    pub selected: WindowId,
    pub next_id: WindowId,
}

// ---- what a tree is --------------------------------------------------------

/// The leaf ids of a tree, depth first: the C-x o cycle order.
pub open spec fn ids(node: Node) -> Seq<WindowId>
    decreases node,
{
    match node {
        Node::Leaf(w) => seq![w.id],
        Node::Split { dir, first, second } => ids(*first) + ids(*second),
    }
}

/// The leaf windows of a tree, depth first.
pub open spec fn leaf_windows(node: Node) -> Seq<Window>
    decreases node,
{
    match node {
        Node::Leaf(w) => seq![w],
        Node::Split { dir, first, second } => leaf_windows(*first) + leaf_windows(*second),
    }
}

/// The first leaf with this id.
pub open spec fn leaf(node: Node, id: WindowId) -> Option<Window>
    decreases node,
{
    match node {
        Node::Leaf(w) => if w.id == id {
            Some(w)
        } else {
            None
        },
        Node::Split { dir, first, second } => match leaf(*first, id) {
            Some(w) => Some(w),
            None => leaf(*second, id),
        },
    }
}

/// The tree with the first leaf of this id replaced.
pub open spec fn with_node(node: Node, id: WindowId, new: Node) -> Node
    decreases node,
{
    match node {
        Node::Leaf(w) => if w.id == id {
            new
        } else {
            node
        },
        Node::Split { dir, first, second } => if leaf(*first, id) is Some {
            Node::Split { dir, first: Box::new(with_node(*first, id, new)), second }
        } else {
            Node::Split { dir, first, second: Box::new(with_node(*second, id, new)) }
        },
    }
}

/// The tree with the first window of this id replaced.
pub open spec fn with_leaf(node: Node, id: WindowId, w: Window) -> Node {
    with_node(node, id, Node::Leaf(w))
}

/// The tree without leaf `id`, whose sibling takes its place; none if `id` is
/// no leaf below a split.
pub open spec fn without_leaf(node: Node, id: WindowId) -> Option<Node>
    decreases node,
{
    match node {
        Node::Leaf(_) => None,
        Node::Split { dir, first, second } => if is_leaf(*first, id) {
            Some(*second)
        } else if is_leaf(*second, id) {
            Some(*first)
        } else {
            match without_leaf(*first, id) {
                Some(f) => Some(Node::Split { dir, first: Box::new(f), second }),
                None => match without_leaf(*second, id) {
                    Some(s) => Some(Node::Split { dir, first, second: Box::new(s) }),
                    None => None,
                },
            }
        },
    }
}

/// Whether a node is the leaf with this id.
pub open spec fn is_leaf(node: Node, id: WindowId) -> bool {
    match node {
        Node::Leaf(w) => w.id == id,
        Node::Split { .. } => false,
    }
}

/// Every leaf of the tree mapped.
pub open spec fn map_leaves(node: Node, f: spec_fn(Window) -> Window) -> Node
    decreases node,
{
    match node {
        Node::Leaf(w) => Node::Leaf(f(w)),
        Node::Split { dir, first, second } => Node::Split {
            dir,
            first: Box::new(map_leaves(*first, f)),
            second: Box::new(map_leaves(*second, f)),
        },
    }
}

/// A tree that can be worked with: no two leaves share an id, no id is taken
/// from the ids still to be given out, and the selected window exists.
pub open spec fn tree_wf(t: WindowTree) -> bool {
    &&& ids(t.root).no_duplicates()
    &&& forall|i: int| 0 <= i < ids(t.root).len() ==> #[trigger] ids(t.root)[i] < t.next_id
    &&& leaf(t.root, t.selected) is Some
}

/// The selected window.
pub open spec fn selected_window(t: WindowTree) -> Window {
    leaf(t.root, t.selected)->0
}

/// The tree with the selected window replaced.
pub open spec fn with_selected(t: WindowTree, w: Window) -> WindowTree {
    WindowTree { root: with_leaf(t.root, t.selected, w), ..t }
}

/// The tree after the selected window is split: the new window shows the same
/// place of the same buffer and is the second child.
pub open spec fn split_tree(t: WindowTree, dir: SplitDir) -> WindowTree {
    match leaf(t.root, t.selected) {
        Some(w) => WindowTree {
            root: with_node(
                t.root,
                t.selected,
                Node::Split {
                    dir,
                    first: Box::new(Node::Leaf(w)),
                    second: Box::new(Node::Leaf(Window { id: t.next_id, ..w })),
                },
            ),
            next_id: (t.next_id + 1) as usize,
            ..t
        },
        None => WindowTree { next_id: (t.next_id + 1) as usize, ..t },
    }
}

/// The tree after window `id` is deleted.
pub open spec fn deleted_tree(t: WindowTree, id: WindowId) -> WindowTree {
    match without_leaf(t.root, id) {
        Some(root) => WindowTree {
            root,
            selected: if t.selected == id {
                ids(root)[0]
            } else {
                t.selected
            },
            ..t
        },
        None => t,
    }
}

/// The tree with the selected window alone.
pub open spec fn sole_tree(t: WindowTree) -> WindowTree {
    match leaf(t.root, t.selected) {
        Some(w) => WindowTree { root: Node::Leaf(w), ..t },
        None => t,
    }
}

/// The index of the first `x` in `s` at or after `i`, or the length.
pub open spec fn index_from(s: Seq<usize>, x: usize, i: int) -> int
    decreases s.len() - i,
{
    if 0 <= i < s.len() && s[i] != x {
        index_from(s, x, i + 1)
    } else {
        i
    }
}

/// The tree with the window after the selected one selected.
pub open spec fn next_selected(t: WindowTree) -> WindowTree {
    let s = ids(t.root);
    let i = index_from(s, t.selected, 0);
    if i < s.len() {
        WindowTree { selected: s[(i + 1) % (s.len() as int)], ..t }
    } else {
        t
    }
}

/// The rectangle of each leaf when the tree fills `rect`.
pub open spec fn placed(node: Node, rect: Rect) -> Seq<(WindowId, Rect)>
    decreases node,
{
    match node {
        Node::Leaf(w) => seq![(w.id, rect)],
        Node::Split { dir, first, second } => placed(*first, first_half(dir, rect)) + placed(
            *second,
            second_half(dir, rect),
        ),
    }
}

/// The first part of a split rectangle: the upper half, or the left half
/// without its last column, which is the divider.
pub open spec fn first_half(dir: SplitDir, rect: Rect) -> Rect {
    match dir {
        SplitDir::Below => Rect { h: (rect.h / 2) as u16, ..rect },
        SplitDir::Right => Rect {
            w: if rect.w / 2 == 0 {
                0
            } else {
                (rect.w / 2 - 1) as u16
            },
            ..rect
        },
    }
}

/// The second part of a split rectangle.
pub open spec fn second_half(dir: SplitDir, rect: Rect) -> Rect {
    match dir {
        SplitDir::Below => Rect {
            y: (rect.y + rect.h / 2) as u16,
            h: (rect.h - rect.h / 2) as u16,
            ..rect
        },
        SplitDir::Right => Rect {
            x: (rect.x + rect.w / 2) as u16,
            w: (rect.w - rect.w / 2) as u16,
            ..rect
        },
    }
}

/// Whether the far corner of a rectangle can be written in its coordinates.
pub open spec fn fits(rect: Rect) -> bool {
    rect.x + rect.w <= u16::MAX && rect.y + rect.h <= u16::MAX
}

// ---- lemmas ----------------------------------------------------------------

/// A leaf is found exactly for the ids of the tree, and has the id asked for.
pub proof fn lemma_leaf(node: Node, id: WindowId)
    ensures
        (leaf(node, id) is Some) == ids(node).contains(id),
        leaf(node, id) is Some ==> leaf(node, id)->0.id == id,
        ids(node).len() >= 1,
    decreases node,
{
    match node {
        Node::Leaf(w) => {
            assert(ids(node)[0] == w.id);
        },
        Node::Split { dir, first, second } => {
            lemma_leaf(*first, id);
            lemma_leaf(*second, id);
            let a = ids(*first);
            let b = ids(*second);
            if a.contains(id) {
                let i = choose|i: int| 0 <= i < a.len() && a[i] == id;
                assert((a + b)[i] == id);
            }
            if b.contains(id) {
                let i = choose|i: int| 0 <= i < b.len() && b[i] == id;
                assert((a + b)[a.len() + i] == id);
            }
        },
    }
}

/// Replacing a window by one of the same id changes what that id gives, and
/// nothing else.
pub proof fn lemma_with_leaf(node: Node, id: WindowId, w: Window)
    requires
        w.id == id,
    ensures
        ids(with_leaf(node, id, w)) == ids(node),
        leaf(node, id) is Some ==> leaf(with_leaf(node, id, w), id) == Some(w),
        leaf(node, id) is None ==> with_leaf(node, id, w) == node,
        forall|other: WindowId|
            other != id ==> #[trigger] leaf(with_leaf(node, id, w), other) == leaf(node, other),
    decreases node,
{
    match node {
        Node::Leaf(x) => {
            assert forall|other: WindowId| other != id implies #[trigger] leaf(
                with_leaf(node, id, w),
                other,
            ) == leaf(node, other) by {
                if x.id == id {
                    assert(with_leaf(node, id, w) == Node::Leaf(w));
                    assert(leaf(Node::Leaf(w), other) is None);
                    assert(leaf(node, other) is None);
                } else {
                    assert(with_leaf(node, id, w) == node);
                }
            }
        },
        Node::Split { dir, first, second } => {
            lemma_with_leaf(*first, id, w);
            lemma_with_leaf(*second, id, w);
            let f = with_leaf(*first, id, w);
            let s = with_leaf(*second, id, w);
            assert forall|other: WindowId| other != id implies #[trigger] leaf(
                with_leaf(node, id, w),
                other,
            ) == leaf(node, other) by {
                assert(leaf(f, other) == leaf(*first, other));
                assert(leaf(s, other) == leaf(*second, other));
                if leaf(*first, id) is Some {
                    assert(with_leaf(node, id, w) == Node::Split { dir, first: Box::new(f), second });
                } else {
                    assert(with_leaf(node, id, w) == Node::Split { dir, first, second: Box::new(s) });
                }
            }
        },
    }
}

/// Replacing a window twice is replacing it once.
pub proof fn lemma_with_leaf_twice(node: Node, id: WindowId, v: Window, w: Window)
    requires
        v.id == id,
    ensures
        with_leaf(with_leaf(node, id, v), id, w) == with_leaf(node, id, w),
    decreases node,
{
    match node {
        Node::Leaf(x) => {},
        Node::Split { dir, first, second } => {
            lemma_with_leaf_twice(*first, id, v, w);
            lemma_with_leaf_twice(*second, id, v, w);
            lemma_with_leaf(*first, id, v);
        },
    }
}

/// Putting back the window that is there changes nothing.
pub proof fn lemma_with_leaf_same(node: Node, id: WindowId)
    ensures
        leaf(node, id) is Some ==> with_leaf(node, id, leaf(node, id)->0) == node,
    decreases node,
{
    match node {
        Node::Leaf(x) => {},
        Node::Split { dir, first, second } => {
            lemma_with_leaf_same(*first, id);
            lemma_with_leaf_same(*second, id);
        },
    }
}

proof fn lemma_without_leaf(node: Node, id: WindowId)
    requires
        ids(node).no_duplicates(),
    ensures
        match without_leaf(node, id) {
            Some(rest) => ids(node).contains(id) && ids(rest) == ids(node).remove(
                ids(node).index_of(id),
            ),
            None => !ids(node).contains(id) || node is Leaf,
        },
    decreases node,
{
    lemma_leaf(node, id);
    match node {
        Node::Leaf(x) => {},
        Node::Split { dir, first, second } => {
            let a = ids(*first);
            let b = ids(*second);
            let s = a + b;
            assert(a.no_duplicates()) by {
                assert forall|i: int, j: int| 0 <= i < a.len() && 0 <= j < a.len() && i != j implies a[i]
                    != a[j] by {
                    assert(s[i] != s[j]);
                }
            }
            assert(b.no_duplicates()) by {
                assert forall|i: int, j: int| 0 <= i < b.len() && 0 <= j < b.len() && i != j implies b[i]
                    != b[j] by {
                    assert(s[a.len() + i] != s[a.len() + j]);
                }
            }
            lemma_leaf(*first, id);
            lemma_leaf(*second, id);
            lemma_without_leaf(*first, id);
            lemma_without_leaf(*second, id);
            if s.contains(id) {
                let k = s.index_of(id);
                assert(s[k] == id);
                if k < a.len() {
                    assert(a[k] == id);
                    assert(a.contains(id));
                    assert(!b.contains(id)) by {
                        if b.contains(id) {
                            let j = b.index_of(id);
                            assert(s[a.len() + j] == id);
                        }
                    }
                    assert(a.index_of(id) == k);
                    assert(s.remove(k) =~= a.remove(k) + b);
                } else {
                    assert(b[k - a.len()] == id);
                    assert(b.contains(id));
                    assert(!a.contains(id)) by {
                        if a.contains(id) {
                            let j = a.index_of(id);
                            assert(s[j] == id);
                        }
                    }
                    assert(b.index_of(id) == k - a.len());
                    assert(s.remove(k) =~= a + b.remove(k - a.len()));
                }
                if is_leaf(*first, id) {
                    assert(a =~= seq![id]);
                    assert(s.remove(k) =~= b);
                } else if is_leaf(*second, id) {
                    assert(b =~= seq![id]);
                    assert(s.remove(k) =~= a);
                }
            } else {
                assert(!a.contains(id)) by {
                    if a.contains(id) {
                        let j = a.index_of(id);
                        assert(s[j] == id);
                    }
                }
                assert(!b.contains(id)) by {
                    if b.contains(id) {
                        let j = b.index_of(id);
                        assert(s[a.len() + j] == id);
                    }
                }
            }
        },
    }
}

/// Where a number is found in a list.
pub proof fn lemma_index_from(s: Seq<usize>, x: usize, i: int)
    requires
        0 <= i <= s.len(),
    ensures
        i <= index_from(s, x, i) <= s.len(),
        index_from(s, x, i) < s.len() ==> s[index_from(s, x, i)] == x,
        forall|j: int| i <= j < index_from(s, x, i) ==> s[j] != x,
    decreases s.len() - i,
{
    if i < s.len() && s[i] != x {
        lemma_index_from(s, x, i + 1);
    }
}

/// The layout names the windows in order.
pub proof fn lemma_placed_order(node: Node, rect: Rect)
    ensures
        placed(node, rect).len() == ids(node).len(),
        forall|i: int|
            0 <= i < ids(node).len() ==> (#[trigger] placed(node, rect)[i]).0 == ids(node)[i],
    decreases node,
{
    match node {
        Node::Leaf(w) => {},
        Node::Split { dir, first, second } => {
            lemma_placed_order(*first, first_half(dir, rect));
            lemma_placed_order(*second, second_half(dir, rect));
        },
    }
}

/// What keeps the ids of the windows keeps the layout.
pub proof fn lemma_placed_map(node: Node, f: spec_fn(Window) -> Window, rect: Rect)
    requires
        forall|w: Window| (#[trigger] f(w)).id == w.id,
    ensures
        placed(map_leaves(node, f), rect) == placed(node, rect),
    decreases node,
{
    match node {
        Node::Leaf(w) => {
            assert(f(w).id == w.id);
        },
        Node::Split { dir, first, second } => {
            lemma_placed_map(*first, f, first_half(dir, rect));
            lemma_placed_map(*second, f, second_half(dir, rect));
        },
    }
}

/// Maps a window to `w` where it has its id.
pub open spec fn swapped_in(w: Window) -> spec_fn(Window) -> Window {
    |x: Window|
        if x.id == w.id {
            w
        } else {
            x
        }
}

/// Replacing a leaf maps the leaves.
pub proof fn lemma_with_leaf_map(node: Node, w: Window)
    requires
        ids(node).no_duplicates(),
    ensures
        with_leaf(node, w.id, w) == map_leaves(node, swapped_in(w)),
    decreases node,
{
    match node {
        Node::Leaf(x) => {},
        Node::Split { dir, first, second } => {
            let a = ids(*first);
            let b = ids(*second);
            let s = a + b;
            assert forall|i: int, j: int| 0 <= i < a.len() && 0 <= j < a.len() && i != j implies a[i]
                != a[j] by {
                assert(s[i] != s[j]);
            }
            assert forall|i: int, j: int| 0 <= i < b.len() && 0 <= j < b.len() && i != j implies b[i]
                != b[j] by {
                assert(s[a.len() + i] != s[a.len() + j]);
            }
            lemma_with_leaf_map(*first, w);
            lemma_with_leaf_map(*second, w);
            lemma_leaf(*first, w.id);
            lemma_leaf(*second, w.id);
            lemma_with_leaf(*first, w.id, w);
            lemma_with_leaf(*second, w.id, w);
            if a.contains(w.id) && b.contains(w.id) {
                let i = a.index_of(w.id);
                let j = b.index_of(w.id);
                assert(s[i] != s[a.len() + j]);
            }
        },
    }
}

// ---- operations ------------------------------------------------------------

fn find_in(node: &Node, id: WindowId) -> (r: Option<&Window>)
    ensures
        match r {
            Some(w) => leaf(*node, id) == Some(*w),
            None => leaf(*node, id) is None,
        },
    decreases *node,
{
    match node {
        Node::Leaf(w) => if w.id == id {
            Some(w)
        } else {
            None
        },
        Node::Split { first, second, .. } => match find_in(first, id) {
            Some(w) => Some(w),
            None => find_in(second, id),
        },
    }
}

fn find_in_mut(node: &mut Node, id: WindowId) -> (r: Option<&mut Window>)
    ensures
        match r {
            Some(w) => leaf(*old(node), id) == Some(*w) && *final(node) == with_leaf(
                *old(node),
                id,
                *final(w),
            ),
            None => leaf(*old(node), id) is None && *final(node) == *old(node),
        },
    decreases *old(node),
{
    match node {
        Node::Leaf(w) => if w.id == id {
            Some(w)
        } else {
            None
        },
        Node::Split { first, second, .. } => {
            if find_in(first, id).is_some() {
                find_in_mut(first, id)
            } else {
                find_in_mut(second, id)
            }
        },
    }
}

/// The tree with its windows replaced, depth first, by those of a list.
pub open spec fn with_windows(node: Node, ws: Seq<Window>) -> Node
    decreases node,
{
    match node {
        Node::Leaf(w) => Node::Leaf(ws[0]),
        Node::Split { dir, first, second } => {
            let n = leaf_windows(*first).len() as int;
            Node::Split {
                dir,
                first: Box::new(with_windows(*first, ws.take(n))),
                second: Box::new(with_windows(*second, ws.skip(n))),
            }
        },
    }
}

fn windows_in<'a>(node: &'a mut Node) -> (r: Vec<&'a mut Window>)
    ensures
        r@.len() == leaf_windows(*old(node)).len(),
        forall|i: int| 0 <= i < r@.len() ==> *(#[trigger] r@[i]) == leaf_windows(*old(node))[i],
        *final(node) == with_windows(*old(node), Seq::new(r@.len(), |i: int| *final(r@[i]))),
    decreases *old(node),
{
    match node {
        Node::Leaf(w) => {
            let mut v: Vec<&'a mut Window> = Vec::new();
            v.push(w);
            assert(Seq::new(v@.len(), |i: int| *final(v@[i]))[0] == *final(v@[0]));
            v
        },
        Node::Split { first, second, .. } => {
            let mut a = windows_in(first);
            let mut b = windows_in(second);
            let ghost av = a@;
            let ghost bv = b@;
            a.append(&mut b);
            assert(a@ == av + bv);
            assert(Seq::new(a@.len(), |i: int| *final(a@[i])).take(av.len() as int) =~= Seq::new(
                av.len(),
                |i: int| *final(av[i]),
            ));
            assert(Seq::new(a@.len(), |i: int| *final(a@[i])).skip(av.len() as int) =~= Seq::new(
                bv.len(),
                |i: int| *final(bv[i]),
            ));
            a
        },
    }
}

fn collect_ids(node: &Node, out: &mut Vec<WindowId>)
    ensures
        final(out)@ == old(out)@ + ids(*node),
    decreases *node,
{
    match node {
        Node::Leaf(w) => {
            out.push(w.id);
            assert(out@ =~= old(out)@ + ids(*node));
        },
        Node::Split { first, second, .. } => {
            collect_ids(first, out);
            collect_ids(second, out);
            assert(out@ =~= old(out)@ + ids(*node));
        },
    }
}

fn split_in(node: Node, sel: WindowId, new_id: WindowId, dir: SplitDir) -> (r: Node)
    ensures
        match leaf(node, sel) {
            Some(w) => r == with_node(
                node,
                sel,
                Node::Split {
                    dir,
                    first: Box::new(Node::Leaf(w)),
                    second: Box::new(Node::Leaf(Window { id: new_id, ..w })),
                },
            ),
            None => r == node,
        },
    decreases node,
{
    match node {
        Node::Leaf(w) => if w.id == sel {
            let twin = Window { id: new_id, buffer: w.buffer, point: w.point, top_line: w.top_line };
            Node::Split { dir, first: Box::new(Node::Leaf(w)), second: Box::new(Node::Leaf(twin)) }
        } else {
            Node::Leaf(w)
        },
        Node::Split { dir: d, first, second } => {
            if find_in(&first, sel).is_some() {
                Node::Split { dir: d, first: Box::new(split_in(*first, sel, new_id, dir)), second }
            } else {
                Node::Split { dir: d, first, second: Box::new(split_in(*second, sel, new_id, dir)) }
            }
        },
    }
}

fn node_is_leaf(node: &Node, id: WindowId) -> (b: bool)
    ensures
        b == is_leaf(*node, id),
{
    match node {
        Node::Leaf(w) => w.id == id,
        Node::Split { .. } => false,
    }
}

fn can_delete(node: &Node, id: WindowId) -> (b: bool)
    ensures
        b == (without_leaf(*node, id) is Some),
    decreases *node,
{
    match node {
        Node::Leaf(_) => false,
        Node::Split { first, second, .. } => node_is_leaf(first, id) || node_is_leaf(second, id)
            || can_delete(first, id) || can_delete(second, id),
    }
}

fn delete_in(node: Node, id: WindowId) -> (r: Node)
    ensures
        match without_leaf(node, id) {
            Some(rest) => r == rest,
            None => r == node,
        },
    decreases node,
{
    match node {
        Node::Leaf(w) => Node::Leaf(w),
        Node::Split { dir, first, second } => {
            if node_is_leaf(&first, id) {
                *second
            } else if node_is_leaf(&second, id) {
                *first
            } else if can_delete(&first, id) {
                Node::Split { dir, first: Box::new(delete_in(*first, id)), second }
            } else {
                Node::Split { dir, first, second: Box::new(delete_in(*second, id)) }
            }
        },
    }
}

fn place_in(node: &Node, rect: Rect, out: &mut Vec<(WindowId, Rect)>)
    requires
        fits(rect),
    ensures
        final(out)@ == old(out)@ + placed(*node, rect),
    decreases *node,
{
    match node {
        Node::Leaf(w) => {
            out.push((w.id, rect));
            assert(out@ =~= old(out)@ + placed(*node, rect));
        },
        Node::Split { dir, first, second } => {
            match dir {
                SplitDir::Below => {
                    let top_h: u16 = rect.h / 2;
                    place_in(first, Rect { x: rect.x, y: rect.y, w: rect.w, h: top_h }, out);
                    place_in(
                        second,
                        Rect { x: rect.x, y: rect.y + top_h, w: rect.w, h: rect.h - top_h },
                        out,
                    );
                },
                SplitDir::Right => {
                    // Reserve one column for the vertical divider.
                    let left_w: u16 = rect.w / 2;
                    let shown: u16 = if left_w == 0 {
                        0
                    } else {
                        left_w - 1
                    };
                    place_in(first, Rect { x: rect.x, y: rect.y, w: shown, h: rect.h }, out);
                    place_in(
                        second,
                        Rect { x: rect.x + left_w, y: rect.y, w: rect.w - left_w, h: rect.h },
                        out,
                    );
                },
            }
            assert(out@ =~= old(out)@ + placed(*node, rect));
        },
    }
}

impl WindowTree {
    /// One window that shows a buffer from its start.
    pub fn new(buffer: BufferId) -> (t: Self)
        ensures
            t == (WindowTree {
                root: Node::Leaf(Window { id: 0, buffer, point: 0, top_line: 0 }),
                selected: 0,
                next_id: 1,
            }),
            tree_wf(t),
    {
        WindowTree {
            root: Node::Leaf(Window { id: 0, buffer, point: 0, top_line: 0 }),
            selected: 0,
            next_id: 1,
        }
    }

    /// The selected window, to be changed.
    pub fn selected_mut(&mut self) -> (w: &mut Window)
        requires
            leaf(old(self).root, old(self).selected) is Some,
        ensures
            *w == selected_window(*old(self)),
            *final(self) == with_selected(*old(self), *final(w)),
    {
        let id: WindowId = self.selected;
        self.find_mut(id).expect("selected window exists")
    }

    /// The selected window.
    pub fn selected_ref(&self) -> (w: &Window)
        requires
            leaf(self.root, self.selected) is Some,
        ensures
            *w == selected_window(*self),
    {
        let id: WindowId = self.selected;
        self.find(id).expect("selected window exists")
    }

    /// The window with this id.
    pub fn find(&self, id: WindowId) -> (r: Option<&Window>)
        ensures
            match r {
                Some(w) => leaf(self.root, id) == Some(*w),
                None => leaf(self.root, id) is None,
            },
    {
        find_in(&self.root, id)
    }

    /// The window with this id, to be changed.
    pub fn find_mut(&mut self, id: WindowId) -> (r: Option<&mut Window>)
        ensures
            match r {
                Some(w) => leaf(old(self).root, id) == Some(*w) && *final(self) == (WindowTree {
                    root: with_leaf(old(self).root, id, *final(w)),
                    ..*old(self)
                }),
                None => leaf(old(self).root, id) is None && *final(self) == *old(self),
            },
    {
        find_in_mut(&mut self.root, id)
    }

    /// All windows in depth-first order, to be changed.
    pub fn windows_mut(&mut self) -> (r: Vec<&mut Window>)
        ensures
            r@.len() == leaf_windows(old(self).root).len(),
            forall|i: int|
                0 <= i < r@.len() ==> *(#[trigger] r@[i]) == leaf_windows(old(self).root)[i],
            *final(self) == (WindowTree {
                root: with_windows(
                    old(self).root,
                    Seq::new(r@.len(), |i: int| *final(r@[i])),
                ),
                ..*old(self)
            }),
    {
        windows_in(&mut self.root)
    }

    /// Leaf windows in depth-first order (the C-x o cycle order).
    pub fn leaves(&self) -> (r: Vec<WindowId>)
        ensures
            r@ == ids(self.root),
    {
        let mut out: Vec<WindowId> = Vec::new();
        collect_ids(&self.root, &mut out);
        assert(out@ =~= ids(self.root));
        out
    }

    /// Split the selected window; the new window shows the same buffer and
    /// becomes the second child. Selection stays in the original.
    pub fn split(&mut self, dir: SplitDir)
        requires
            old(self).next_id < usize::MAX,
        ensures
            *final(self) == split_tree(*old(self), dir),
    {
        let new_id: WindowId = self.next_id;
        self.next_id = new_id + 1;
        let sel: WindowId = self.selected;
        let mut root = Node::Leaf(Window { id: 0, buffer: 0, point: 0, top_line: 0 });
        std::mem::swap(&mut root, &mut self.root);
        self.root = split_in(root, sel, new_id, dir);
    }

    /// Delete window `id`; its sibling absorbs the space. No-op on the last
    /// window. Returns false if it was the only window.
    pub fn delete(&mut self, id: WindowId) -> (deleted: bool)
        ensures
            deleted == (without_leaf(old(self).root, id) is Some),
            *final(self) == deleted_tree(*old(self), id),
    {
        if !can_delete(&self.root, id) {
            return false;
        }
        let mut root = Node::Leaf(Window { id: 0, buffer: 0, point: 0, top_line: 0 });
        std::mem::swap(&mut root, &mut self.root);
        self.root = delete_in(root, id);
        if self.selected == id {
            proof {
                lemma_leaf(self.root, id);
            }
            let leaves = self.leaves();
            self.selected = leaves[0];
        }
        true
    }

    /// Keep only the selected window (C-x 1).
    pub fn delete_others(&mut self)
        ensures
            *final(self) == sole_tree(*old(self)),
    {
        let sel: WindowId = self.selected;
        let keep = match find_in(&self.root, sel) {
            Some(w) => Window { id: w.id, buffer: w.buffer, point: w.point, top_line: w.top_line },
            None => {
                return ;
            },
        };
        self.root = Node::Leaf(keep);
    }

    /// Select the next window in the cycle order.
    pub fn select_next(&mut self)
        ensures
            *final(self) == next_selected(*old(self)),
    {
        let leaves = self.leaves();
        let mut i: usize = 0;
        while i < leaves.len()
            invariant
                i <= leaves@.len(),
                leaves@ == ids(self.root),
                *self == *old(self),
                index_from(leaves@, self.selected, 0) == index_from(
                    leaves@,
                    self.selected,
                    i as int,
                ),
            decreases leaves@.len() - i,
        {
            if leaves[i] == self.selected {
                let next: usize = if i + 1 < leaves.len() {
                    i + 1
                } else {
                    0
                };
                proof {
                    if i + 1 < leaves.len() {
                        vstd::arithmetic::div_mod::lemma_small_mod(
                            (i + 1) as nat,
                            leaves@.len(),
                        );
                    } else {
                        vstd::arithmetic::div_mod::lemma_mod_self_0(leaves@.len() as int);
                    }
                }
                self.selected = leaves[next];
                assert(*self == next_selected(*old(self)));
                return ;
            }
            i = i + 1;
        }
    }

    /// Compute leaf rectangles for the given text area.
    pub fn layout(&self, area: Rect) -> (r: Vec<(WindowId, Rect)>)
        requires
            fits(area),
        ensures
            r@ == placed(self.root, area),
    {
        let mut out: Vec<(WindowId, Rect)> = Vec::new();
        place_in(&self.root, area, &mut out);
        assert(out@ =~= placed(self.root, area));
        out
    }
}

// ---- laws ------------------------------------------------------------------

proof fn lemma_split_ids(node: Node, id: WindowId, dir: SplitDir, w: Window, new_id: WindowId)
    requires
        leaf(node, id) == Some(w),
        ids(node).no_duplicates(),
    ensures
        ({
            let s = ids(
                with_node(
                    node,
                    id,
                    Node::Split {
                        dir,
                        first: Box::new(Node::Leaf(w)),
                        second: Box::new(Node::Leaf(Window { id: new_id, ..w })),
                    },
                ),
            );
            s == ids(node).insert(ids(node).index_of(id) + 1, new_id)
        }),
    decreases node,
{
    let new = Node::Split {
        dir,
        first: Box::new(Node::Leaf(w)),
        second: Box::new(Node::Leaf(Window { id: new_id, ..w })),
    };
    lemma_leaf(node, id);
    match node {
        Node::Leaf(x) => {
            reveal_with_fuel(ids, 3);
            assert(ids(node)[0] == id);
            assert(ids(node).index_of(id) == 0);
            assert(ids(new) =~= ids(node).insert(1, new_id));
        },
        Node::Split { dir: d, first, second } => {
            let a = ids(*first);
            let b = ids(*second);
            let s = a + b;
            assert forall|i: int, j: int| 0 <= i < a.len() && 0 <= j < a.len() && i != j implies a[i]
                != a[j] by {
                assert(s[i] != s[j]);
            }
            assert forall|i: int, j: int| 0 <= i < b.len() && 0 <= j < b.len() && i != j implies b[i]
                != b[j] by {
                assert(s[a.len() + i] != s[a.len() + j]);
            }
            lemma_leaf(*first, id);
            lemma_leaf(*second, id);
            let k = s.index_of(id);
            assert(s.contains(id));
            assert(s[k] == id);
            if leaf(*first, id) is Some {
                lemma_split_ids(*first, id, dir, w, new_id);
                let i = a.index_of(id);
                assert(s[i] == id);
                assert(k == i);
                assert(a.insert(i + 1, new_id) + b =~= s.insert(i + 1, new_id));
            } else {
                lemma_split_ids(*second, id, dir, w, new_id);
                let i = b.index_of(id);
                assert(s[a.len() + i] == id);
                assert(k == a.len() + i);
                assert(a + b.insert(i + 1, new_id) =~= s.insert(a.len() + i + 1, new_id));
            }
        },
    }
}

/// Splitting keeps the tree in order: one window more, right after the
/// selected one, which stays selected.
pub proof fn law_split(t: WindowTree, dir: SplitDir)
    requires
        tree_wf(t),
        t.next_id < usize::MAX,
    ensures
        tree_wf(split_tree(t, dir)),
        split_tree(t, dir).selected == t.selected,
        ids(split_tree(t, dir).root) == ids(t.root).insert(
            ids(t.root).index_of(t.selected) + 1,
            t.next_id,
        ),
{
    let w = leaf(t.root, t.selected)->0;
    lemma_leaf(t.root, t.selected);
    lemma_split_ids(t.root, t.selected, dir, w, t.next_id);
    let s = ids(t.root);
    let k = s.index_of(t.selected);
    let r = split_tree(t, dir);
    let n = s.insert(k + 1, t.next_id);
    assert(s[k] == t.selected);
    assert(n[k] == t.selected);
    lemma_leaf(r.root, t.selected);
    assert(n.contains(t.selected));
    assert forall|i: int, j: int| 0 <= i < n.len() && 0 <= j < n.len() && i != j implies n[i]
        != n[j] by {
        let i0 = if i <= k { i } else { i - 1 };
        let j0 = if j <= k { j } else { j - 1 };
        if i != k + 1 && j != k + 1 {
            assert(s[i0] != s[j0]);
        } else if i == k + 1 {
            assert(s[j0] < t.next_id);
        } else {
            assert(s[i0] < t.next_id);
        }
    }
    assert forall|i: int| 0 <= i < n.len() implies #[trigger] n[i] < r.next_id by {
        if i <= k {
            assert(s[i] < t.next_id);
        } else if i > k + 1 {
            assert(s[i - 1] < t.next_id);
        }
    }
}

/// Deleting a window of a tree with more than one takes out that window and
/// no other, and the tree stays in order. The only window is not deleted.
pub proof fn law_delete(t: WindowTree, id: WindowId)
    requires
        tree_wf(t),
    ensures
        tree_wf(deleted_tree(t, id)),
        t.root is Leaf ==> deleted_tree(t, id) == t,
        t.root is Split && ids(t.root).contains(id) ==> ids(deleted_tree(t, id).root) == ids(
            t.root,
        ).remove(ids(t.root).index_of(id)),
        !ids(t.root).contains(id) ==> deleted_tree(t, id) == t,
        t.selected != id ==> deleted_tree(t, id).selected == t.selected,
{
    lemma_without_leaf(t.root, id);
    lemma_leaf(t.root, id);
    lemma_leaf(t.root, t.selected);
    let s = ids(t.root);
    match without_leaf(t.root, id) {
        Some(root) => {
            let k = s.index_of(id);
            let n = s.remove(k);
            assert(s[k] == id);
            lemma_leaf(root, ids(root)[0]);
            let r = deleted_tree(t, id);
            assert forall|i: int, j: int| 0 <= i < n.len() && 0 <= j < n.len() && i != j implies n[i]
                != n[j] by {
                let i0 = if i < k { i } else { i + 1 };
                let j0 = if j < k { j } else { j + 1 };
                assert(s[i0] != s[j0]);
            }
            assert forall|i: int| 0 <= i < n.len() implies #[trigger] n[i] < r.next_id by {
                if i < k {
                    assert(s[i] < t.next_id);
                } else {
                    assert(s[i + 1] < t.next_id);
                }
            }
            if t.selected != id {
                let m = s.index_of(t.selected);
                assert(s[m] == t.selected);
                assert(m != k);
                if m < k {
                    assert(n[m] == t.selected);
                } else {
                    assert(n[m - 1] == t.selected);
                }
                lemma_leaf(root, t.selected);
            }
        },
        None => {},
    }
}

/// Deleting the window that a split made gives back the tree.
pub proof fn law_delete_undoes_split(t: WindowTree, dir: SplitDir)
    requires
        tree_wf(t),
        t.next_id < usize::MAX,
    ensures
        deleted_tree(split_tree(t, dir), t.next_id).root == t.root,
        deleted_tree(split_tree(t, dir), t.next_id).selected == t.selected,
{
    lemma_leaf(t.root, t.selected);
    lemma_leaf(t.root, t.next_id);
    assert(!ids(t.root).contains(t.next_id));
    let w = leaf(t.root, t.selected)->0;
    let s = ids(t.root);
    assert(s[s.index_of(t.selected)] == t.selected);
    lemma_delete_twin(t.root, t.selected, dir, w, t.next_id);
}

proof fn lemma_delete_twin(node: Node, id: WindowId, dir: SplitDir, w: Window, new_id: WindowId)
    requires
        leaf(node, id) == Some(w),
        leaf(node, new_id) is None,
        id != new_id,
    ensures
        without_leaf(
            with_node(
                node,
                id,
                Node::Split {
                    dir,
                    first: Box::new(Node::Leaf(w)),
                    second: Box::new(Node::Leaf(Window { id: new_id, ..w })),
                },
            ),
            new_id,
        ) == Some(node),
    decreases node,
{
    let new = Node::Split {
        dir,
        first: Box::new(Node::Leaf(w)),
        second: Box::new(Node::Leaf(Window { id: new_id, ..w })),
    };
    match node {
        Node::Leaf(x) => {
            assert(w.id == id);
        },
        Node::Split { dir: d, first, second } => {
            if leaf(*first, id) is Some {
                lemma_delete_twin(*first, id, dir, w, new_id);
                assert(with_node(*first, id, new) is Split);
                lemma_no_leaf(*second, new_id);
            } else {
                lemma_delete_twin(*second, id, dir, w, new_id);
                assert(with_node(*second, id, new) is Split);
                lemma_no_leaf(*first, new_id);
            }
        },
    }
}

proof fn lemma_no_leaf(node: Node, id: WindowId)
    requires
        leaf(node, id) is None,
    ensures
        without_leaf(node, id) is None,
    decreases node,
{
    match node {
        Node::Leaf(x) => {},
        Node::Split { dir: d, first, second } => {
            lemma_no_leaf(*first, id);
            lemma_no_leaf(*second, id);
        },
    }
}

/// Keeping one window keeps the selected one, and the tree stays in order.
pub proof fn law_delete_others(t: WindowTree)
    requires
        tree_wf(t),
    ensures
        tree_wf(sole_tree(t)),
        ids(sole_tree(t).root) == seq![t.selected],
        selected_window(sole_tree(t)) == selected_window(t),
{
    lemma_leaf(t.root, t.selected);
    let s = ids(t.root);
    assert(s[s.index_of(t.selected)] == t.selected);
    assert(ids(sole_tree(t).root) =~= seq![t.selected]);
}

/// Selecting the next window selects a window of the tree and changes nothing
/// else.
pub proof fn law_select_next(t: WindowTree)
    requires
        tree_wf(t),
    ensures
        tree_wf(next_selected(t)),
        next_selected(t).root == t.root,
        ids(t.root).contains(next_selected(t).selected),
{
    lemma_leaf(t.root, t.selected);
    let s = ids(t.root);
    lemma_index_from(s, t.selected, 0);
    let i = index_from(s, t.selected, 0);
    assert(s[s.index_of(t.selected)] == t.selected);
    assert(i < s.len());
    let k = (i + 1) % (s.len() as int);
    assert(s[k] == next_selected(t).selected);
    lemma_leaf(t.root, s[k]);
}

/// The tree with the next window selected, `k` times.
pub open spec fn next_selected_by(t: WindowTree, k: nat) -> WindowTree
    decreases k,
{
    if k == 0 {
        t
    } else {
        next_selected(next_selected_by(t, (k - 1) as nat))
    }
}

/// Where the next window, `k` times, is in the order of the layout.
pub proof fn lemma_next_selected_by(t: WindowTree, k: nat)
    requires
        tree_wf(t),
    ensures
        next_selected_by(t, k).root == t.root,
        next_selected_by(t, k).next_id == t.next_id,
        next_selected_by(t, k).selected == ids(t.root)[(index_from(ids(t.root), t.selected, 0)
            + k) % (ids(t.root).len() as int)],
    decreases k,
{
    let s = ids(t.root);
    let n = s.len() as int;
    lemma_leaf(t.root, t.selected);
    lemma_index_from(s, t.selected, 0);
    let i = index_from(s, t.selected, 0);
    assert(s[s.index_of(t.selected)] == t.selected);
    if k == 0 {
        vstd::arithmetic::div_mod::lemma_small_mod(i as nat, n as nat);
    } else {
        lemma_next_selected_by(t, (k - 1) as nat);
        let u = next_selected_by(t, (k - 1) as nat);
        let j = (i + k - 1) % n;
        lemma_index_from(s, u.selected, 0);
        let f = index_from(s, u.selected, 0);
        assert(0 <= j < n) by {
            vstd::arithmetic::div_mod::lemma_mod_bound(i + k - 1, n);
        }
        assert(s[j] == u.selected);
        assert(f <= j);
        assert(f == j) by {
            if f < j {
                assert(s[f] != s[j]);
            }
        }
        vstd::arithmetic::div_mod::lemma_add_mod_noop(i + k - 1, 1, n);
        vstd::arithmetic::div_mod::lemma_add_mod_noop(j, 1, n);
        vstd::arithmetic::div_mod::lemma_mod_twice(i + k - 1, n);
    }
}

/// Going to the next window as often as there are windows comes back to the
/// window where it began.
pub proof fn law_windows_cycle(t: WindowTree)
    requires
        tree_wf(t),
    ensures
        next_selected_by(t, ids(t.root).len()) == t,
{
    let s = ids(t.root);
    let n = s.len() as int;
    lemma_next_selected_by(t, s.len());
    lemma_leaf(t.root, t.selected);
    lemma_index_from(s, t.selected, 0);
    let i = index_from(s, t.selected, 0);
    assert(s[s.index_of(t.selected)] == t.selected);
    vstd::arithmetic::div_mod::lemma_mod_add_multiples_vanish(i, n);
    vstd::arithmetic::div_mod::lemma_small_mod(i as nat, n as nat);
}

/// Whether a cell lies in a rectangle.
pub open spec fn in_rect(r: Rect, x: int, y: int) -> bool {
    r.x <= x < r.x + r.w && r.y <= y < r.y + r.h
}

/// Whether a cell lies on a divider column of the tree.
pub open spec fn on_divider(node: Node, rect: Rect, x: int, y: int) -> bool
    decreases node,
{
    match node {
        Node::Leaf(_) => false,
        Node::Split { dir, first, second } => {
            ||| dir == SplitDir::Right && rect.w / 2 > 0 && x == rect.x + rect.w / 2 - 1 && rect.y
                <= y < rect.y + rect.h
            ||| on_divider(*first, first_half(dir, rect), x, y)
            ||| on_divider(*second, second_half(dir, rect), x, y)
        },
    }
}

proof fn lemma_placed(node: Node, rect: Rect, x: int, y: int)
    requires
        fits(rect),
    ensures
        placed(node, rect).len() == ids(node).len(),
        forall|i: int| 0 <= i < ids(node).len() ==> (#[trigger] placed(node, rect)[i]).0 == ids(node)[i],
        forall|i: int|
            0 <= i < ids(node).len() && in_rect((#[trigger] placed(node, rect)[i]).1, x, y)
                ==> in_rect(rect, x, y) && !on_divider(node, rect, x, y),
        forall|i: int, j: int|
            0 <= i < j < ids(node).len() && in_rect((#[trigger] placed(node, rect)[i]).1, x, y)
                ==> !in_rect((#[trigger] placed(node, rect)[j]).1, x, y),
        in_rect(rect, x, y) && !on_divider(node, rect, x, y) ==> exists|i: int|
            0 <= i < ids(node).len() && in_rect((#[trigger] placed(node, rect)[i]).1, x, y),
        on_divider(node, rect, x, y) ==> in_rect(rect, x, y),
    decreases node,
{
    match node {
        Node::Leaf(w) => {
            assert(placed(node, rect)[0] == (w.id, rect));
        },
        Node::Split { dir, first, second } => {
            let ra = first_half(dir, rect);
            let rb = second_half(dir, rect);
            lemma_placed(*first, ra, x, y);
            lemma_placed(*second, rb, x, y);
            let a = placed(*first, ra);
            let b = placed(*second, rb);
            let all = placed(node, rect);
            assert(all == a + b);
            if in_rect(rect, x, y) && !on_divider(node, rect, x, y) {
                if in_rect(ra, x, y) {
                    let i = choose|i: int|
                        0 <= i < ids(*first).len() && in_rect((#[trigger] a[i]).1, x, y);
                    assert(all[i] == a[i]);
                } else {
                    let i = choose|i: int|
                        0 <= i < ids(*second).len() && in_rect((#[trigger] b[i]).1, x, y);
                    assert(all[a.len() + i] == b[i]);
                }
            }
            assert forall|i: int| 0 <= i < all.len() implies (#[trigger] all[i]).0 == ids(node)[i] by {
                if i < a.len() {
                    assert(all[i] == a[i]);
                } else {
                    assert(all[i] == b[i - a.len()]);
                }
            }
            assert forall|i: int| 0 <= i < all.len() && in_rect((#[trigger] all[i]).1, x, y) implies
                in_rect(rect, x, y) && !on_divider(node, rect, x, y) by {
                if i < a.len() {
                    assert(all[i] == a[i]);
                } else {
                    assert(all[i] == b[i - a.len()]);
                }
            }
            assert forall|i: int, j: int|
                0 <= i < j < all.len() && in_rect((#[trigger] all[i]).1, x, y) implies !in_rect(
                (#[trigger] all[j]).1,
                x,
                y,
            ) by {
                if j < a.len() {
                    assert(all[i] == a[i] && all[j] == a[j]);
                } else if i >= a.len() {
                    assert(all[i] == b[i - a.len()] && all[j] == b[j - a.len()]);
                } else {
                    assert(all[i] == a[i] && all[j] == b[j - a.len()]);
                }
            }
        },
    }
}

/// The layout partitions the area: one rectangle per window in cycle order,
/// and each cell of the area lies in exactly one of them or on a divider.
pub proof fn law_layout_partitions(t: WindowTree, area: Rect, x: int, y: int)
    requires
        fits(area),
    ensures
        placed(t.root, area).len() == ids(t.root).len(),
        forall|i: int|
            0 <= i < ids(t.root).len() ==> (#[trigger] placed(t.root, area)[i]).0 == ids(
                t.root,
            )[i],
        forall|i: int|
            0 <= i < ids(t.root).len() && in_rect((#[trigger] placed(t.root, area)[i]).1, x, y)
                ==> in_rect(area, x, y) && !on_divider(t.root, area, x, y),
        forall|i: int, j: int|
            0 <= i < j < ids(t.root).len() && in_rect(
                (#[trigger] placed(t.root, area)[i]).1,
                x,
                y,
            ) ==> !in_rect((#[trigger] placed(t.root, area)[j]).1, x, y),
        in_rect(area, x, y) && !on_divider(t.root, area, x, y) ==> exists|i: int|
            0 <= i < ids(t.root).len() && in_rect((#[trigger] placed(t.root, area)[i]).1, x, y),
{
    lemma_placed(t.root, area, x, y);
}

} // verus!
