//! Where windows lie on the terminal, and prompts.

use crate::buffer::{appended, BufferId};
use crate::editor::{
    buf_index, has_buffer, lemma_buf_index, lemma_wf_same, wf, Editor, EditorModel,
    MAX_COMPLETION_ROWS,
};
use crate::input::{
    prefix_value, InputMode, InputModel, KindModel, PrefixArg, Prompt, PromptKind, PromptModel,
};
use crate::lines::{line_of, max, min};
use crate::strings::copy;
use crate::window::{
    first_half, fits, ids, leaf, placed, second_half, text_rows, Node, Rect, SplitDir, Window,
    WindowId, WindowTree,
};
use vstd::prelude::*;

verus! {

/// The rows that the minibuffer's candidates take above the echo line.
pub open spec fn candidate_rows(e: EditorModel) -> int {
    match e.input {
        InputModel::Prompt(p) => min(p.completions.len() as int, MAX_COMPLETION_ROWS as int),
        _ => 0,
    }
}

/// The part of the terminal that windows share: all but the echo line and the
/// candidate rows above it.
pub open spec fn area_of(e: EditorModel) -> Rect {
    Rect {
        x: 0,
        y: 0,
        w: e.term_size.0,
        h: if e.term_size.1 >= 1 + candidate_rows(e) {
            (e.term_size.1 - 1 - candidate_rows(e)) as u16
        } else {
            0
        },
    }
}

/// The first rectangle of window `id` in a layout.
pub open spec fn rect_in(s: Seq<(WindowId, Rect)>, id: WindowId, i: int) -> Option<Rect>
    decreases s.len() - i,
{
    if 0 <= i < s.len() {
        if s[i].0 == id {
            Some(s[i].1)
        } else {
            rect_in(s, id, i + 1)
        }
    } else {
        None
    }
}

/// The rectangle of a window; 80 by 24 for an unknown one.
pub open spec fn rect_of(e: EditorModel, id: WindowId) -> Rect {
    match rect_in(placed(e.windows.root, area_of(e)), id, 0) {
        Some(r) => r,
        None => Rect { x: 0, y: 0, w: 80, h: 24 },
    }
}

/// The text rows of the selected window, at least one.
pub open spec fn height_of(e: EditorModel) -> int {
    max(text_rows(rect_of(e, e.windows.selected)), 1)
}

/// A window that follows text appended to its buffer: where its point was at
/// the old end it goes to the new end, and the window scrolls so that the
/// last line shows.
pub open spec fn following(
    w: Window,
    rect: Rect,
    id: usize,
    old_len: int,
    new_len: int,
    last_line: int,
) -> Window {
    let height = max(text_rows(rect), 1);
    if w.buffer != id || w.point != old_len {
        w
    } else {
        Window {
            point: new_len as usize,
            top_line: if last_line >= w.top_line + height {
                (last_line + 1 - height) as usize
            } else {
                w.top_line
            },
            ..w
        }
    }
}

/// A tree whose windows follow text appended to a buffer.
pub open spec fn following_tree(
    node: Node,
    rect: Rect,
    id: usize,
    old_len: int,
    new_len: int,
    last_line: int,
) -> Node
    decreases node,
{
    match node {
        Node::Leaf(w) => Node::Leaf(following(w, rect, id, old_len, new_len, last_line)),
        Node::Split { dir, first, second } => Node::Split {
            dir,
            first: Box::new(
                following_tree(*first, first_half(dir, rect), id, old_len, new_len, last_line),
            ),
            second: Box::new(
                following_tree(*second, second_half(dir, rect), id, old_len, new_len, last_line),
            ),
        },
    }
}

/// The editor with generated text added at the end of buffer `id`, windows
/// following the output.
pub open spec fn output_added(e: EditorModel, id: usize, text: Seq<char>) -> EditorModel {
    if has_buffer(e.buffers, id) && text.len() > 0 {
        let i = buf_index(e.buffers, id);
        let b = appended(e.buffers[i], text);
        let n = b.text.len() as int;
        EditorModel {
            buffers: e.buffers.update(i, b),
            windows: WindowTree {
                root: following_tree(
                    e.windows.root,
                    area_of(e),
                    id,
                    e.buffers[i].text.len() as int,
                    n,
                    line_of(b.text, n),
                ),
                ..e.windows
            },
            ..e
        }
    } else {
        e
    }
}

/// The editor with a prompt up.
pub open spec fn asked(
    e: EditorModel,
    kind: KindModel,
    prompt: Seq<char>,
    input: Seq<char>,
) -> EditorModel {
    EditorModel {
        input: InputModel::Prompt(
            PromptModel {
                kind,
                prompt,
                input,
                cursor: input.len() as int,
                completions: Seq::empty(),
                selected: 0,
            },
        ),
        ..e
    }
}

fn follow_in(
    node: &mut Node,
    rect: Rect,
    id: BufferId,
    old_len: usize,
    new_len: usize,
    last_line: usize,
)
    requires
        fits(rect),
        last_line < usize::MAX,
    ensures
        *final(node) == following_tree(
            *old(node),
            rect,
            id,
            old_len as int,
            new_len as int,
            last_line as int,
        ),
    decreases *old(node),
{
    match node {
        Node::Leaf(w) => {
            if w.buffer == id && w.point == old_len {
                w.point = new_len;
                let rows: usize = rect.text_height();
                let height: usize = if rows > 1 {
                    rows
                } else {
                    1
                };
                if last_line >= w.top_line && last_line - w.top_line >= height {
                    w.top_line = last_line - height + 1;
                }
            }
        },
        Node::Split { dir, first, second } => {
            match dir {
                SplitDir::Below => {
                    let top_h: u16 = rect.h / 2;
                    follow_in(
                        first,
                        Rect { x: rect.x, y: rect.y, w: rect.w, h: top_h },
                        id,
                        old_len,
                        new_len,
                        last_line,
                    );
                    follow_in(
                        second,
                        Rect { x: rect.x, y: rect.y + top_h, w: rect.w, h: rect.h - top_h },
                        id,
                        old_len,
                        new_len,
                        last_line,
                    );
                },
                SplitDir::Right => {
                    let left_w: u16 = rect.w / 2;
                    let shown: u16 = if left_w == 0 {
                        0
                    } else {
                        left_w - 1
                    };
                    follow_in(
                        first,
                        Rect { x: rect.x, y: rect.y, w: shown, h: rect.h },
                        id,
                        old_len,
                        new_len,
                        last_line,
                    );
                    follow_in(
                        second,
                        Rect { x: rect.x + left_w, y: rect.y, w: rect.w - left_w, h: rect.h },
                        id,
                        old_len,
                        new_len,
                        last_line,
                    );
                },
            }
        },
    }
}

proof fn lemma_following_tree(
    node: Node,
    rect: Rect,
    id: usize,
    old_len: int,
    new_len: int,
    last_line: int,
)
    ensures
        ids(following_tree(node, rect, id, old_len, new_len, last_line)) == ids(node),
        forall|w: WindowId|
            (#[trigger] leaf(
                following_tree(node, rect, id, old_len, new_len, last_line),
                w,
            ) is Some) == (leaf(node, w) is Some),
        forall|w: WindowId|
            (#[trigger] leaf(
                following_tree(node, rect, id, old_len, new_len, last_line),
                w,
            )) is Some ==> leaf(
                following_tree(node, rect, id, old_len, new_len, last_line),
                w,
            )->0.buffer == leaf(node, w)->0.buffer,
    decreases node,
{
    let t = following_tree(node, rect, id, old_len, new_len, last_line);
    match node {
        Node::Leaf(x) => {
            let y = following(x, rect, id, old_len, new_len, last_line);
            assert(t == Node::Leaf(y));
            assert(y.id == x.id && y.buffer == x.buffer);
            assert forall|w: WindowId| (#[trigger] leaf(t, w) is Some) == (leaf(node, w) is Some) by {
                assert(leaf(Node::Leaf(y), w) is Some <==> y.id == w);
            }
            assert forall|w: WindowId| (#[trigger] leaf(t, w)) is Some implies leaf(t, w)->0.buffer
                == leaf(node, w)->0.buffer by {
                assert(leaf(Node::Leaf(y), w) == Some(y));
            }
        },
        Node::Split { dir, first, second } => {
            let ra = first_half(dir, rect);
            let rb = second_half(dir, rect);
            lemma_following_tree(*first, ra, id, old_len, new_len, last_line);
            lemma_following_tree(*second, rb, id, old_len, new_len, last_line);
            let a = following_tree(*first, ra, id, old_len, new_len, last_line);
            let b = following_tree(*second, rb, id, old_len, new_len, last_line);
            assert(t == Node::Split { dir, first: Box::new(a), second: Box::new(b) });
            assert forall|w: WindowId| (#[trigger] leaf(t, w) is Some) == (leaf(node, w) is Some) by {
                assert((leaf(a, w) is Some) == (leaf(*first, w) is Some));
                assert((leaf(b, w) is Some) == (leaf(*second, w) is Some));
            }
            assert forall|w: WindowId| (#[trigger] leaf(t, w)) is Some implies leaf(t, w)->0.buffer
                == leaf(node, w)->0.buffer by {
                assert((leaf(a, w) is Some) == (leaf(*first, w) is Some));
                assert((leaf(b, w) is Some) == (leaf(*second, w) is Some));
            }
        },
    }
}

/// Output in a buffer keeps the editor in order.
pub proof fn lemma_output_added(e: EditorModel, id: usize, text: Seq<char>)
    requires
        wf(e),
    ensures
        wf(output_added(e, id, text)),
{
    reveal(wf);
    if has_buffer(e.buffers, id) && text.len() > 0 {
        let i = buf_index(e.buffers, id);
        lemma_buf_index(e.buffers, id);
        let b = appended(e.buffers[i], text);
        let n = b.text.len() as int;
        let r = output_added(e, id, text);
        lemma_following_tree(
            e.windows.root,
            area_of(e),
            id,
            e.buffers[i].text.len() as int,
            n,
            line_of(b.text, n),
        );
        assert(crate::editor::buf_ids(r.buffers) =~= crate::editor::buf_ids(e.buffers));
        assert forall|k: int| 0 <= k < r.buffers.len() implies (#[trigger] r.buffers[k]).id
            < r.next_buffer_id by {
            assert(e.buffers[k].id < e.next_buffer_id);
        }
        assert forall|w: WindowId| (#[trigger] leaf(r.windows.root, w)) is Some implies has_buffer(
            r.buffers,
            leaf(r.windows.root, w)->0.buffer,
        ) by {
            assert(leaf(e.windows.root, w) is Some);
        }
    }
}

impl Editor {
    /// Rows the minibuffer candidate list occupies above the echo line.
    pub fn completion_rows(&self) -> (n: u16)
        ensures
            n == candidate_rows(self@),
            n <= MAX_COMPLETION_ROWS,
    {
        match &self.input {
            InputMode::Prompt(p) => {
                let n: usize = p.completions.len();
                if n < MAX_COMPLETION_ROWS {
                    n as u16
                } else {
                    MAX_COMPLETION_ROWS as u16
                }
            },
            _ => 0,
        }
    }

    /// Terminal area available to windows (echo line and any minibuffer
    /// candidate rows excluded: the list grows upward).
    pub fn window_area(&self) -> (r: Rect)
        ensures
            r == area_of(self@),
            fits(r),
    {
        let below: u16 = 1 + self.completion_rows();
        Rect {
            x: 0,
            y: 0,
            w: self.term_size.0,
            h: if self.term_size.1 >= below {
                self.term_size.1 - below
            } else {
                0
            },
        }
    }

    /// The rectangle of a window.
    pub fn window_rect(&self, id: WindowId) -> (r: Rect)
        ensures
            r == rect_of(self@, id),
    {
        let all = self.windows.layout(self.window_area());
        let mut i: usize = 0;
        while i < all.len()
            invariant
                i <= all@.len(),
                rect_in(all@, id, 0) == rect_in(all@, id, i as int),
                all@ == placed(self@.windows.root, area_of(self@)),
            decreases all@.len() - i,
        {
            if all[i].0 == id {
                return all[i].1;
            }
            i = i + 1;
        }
        Rect { x: 0, y: 0, w: 80, h: 24 }
    }

    /// The text rows of the selected window, at least one.
    pub fn selected_text_height(&self) -> (n: usize)
        ensures
            n == height_of(self@),
            n >= 1,
    {
        let n: usize = self.window_rect(self.windows.selected).text_height();
        if n > 1 {
            n
        } else {
            1
        }
    }

    /// Append generated text to buffer `id` and make windows showing it follow
    /// the output: a window whose point sat at the old end of buffer keeps
    /// point at the end and scrolls so the tail stays visible; a window whose
    /// point was moved away by the user is left alone. Returns the appended
    /// char range.
    pub fn append_to_buffer(&mut self, id: BufferId, text: &str) -> (r: (usize, usize))
        requires
            wf(old(self)@),
        ensures
            final(self)@ == output_added(old(self)@, id, text@),
            wf(final(self)@),
            ({
                let bs = old(self)@.buffers;
                let n = bs[buf_index(bs, id)].text.len();
                if has_buffer(bs, id) {
                    r.0 == n && r.1 == n + text@.len()
                } else {
                    r.0 == 0 && r.1 == 0
                }
            }),
    {
        let ghost e = self@;
        proof {
            lemma_buf_index(e.buffers, id);
            lemma_output_added(e, id, text@);
        }
        let i: usize = match self.buffer_index(id) {
            Some(i) => i,
            None => {
                return (0, 0);
            },
        };
        let (old_len, new_len) = self.buffers[i].append_generated(text);
        assert(self@.buffers =~= e.buffers.update(i as int, appended(e.buffers[i as int], text@)));
        if old_len == new_len {
            assert(self@ =~= e);
            return (old_len, new_len);
        }
        let last_line: usize = self.buffers[i].char_to_line(new_len);
        let _count: usize = self.buffers[i].len_lines();
        let area = self.window_area();
        follow_in(&mut self.windows.root, area, id, old_len, new_len, last_line);
        assert(self@ =~= output_added(e, id, text@));
        (old_len, new_len)
    }

    /// Put up a prompt.
    pub fn prompt(&mut self, kind: PromptKind, prompt: &str)
        ensures
            final(self)@ == asked(old(self)@, kind@, prompt@, Seq::empty()),
            wf(old(self)@) ==> wf(final(self)@),
    {
        self.prompt_prefilled(kind, prompt, String::new());
    }

    /// Put up a prompt that starts with some input.
    pub fn prompt_prefilled(&mut self, kind: PromptKind, prompt: &str, input: String)
        ensures
            final(self)@ == asked(old(self)@, kind@, prompt@, input@),
            wf(old(self)@) ==> wf(final(self)@),
    {
        let cursor: usize = input.as_str().unicode_len();
        let p = Prompt {
            kind,
            prompt: copy(prompt),
            cursor,
            input,
            completions: Vec::new(),
            selected: 0,
        };
        assert(p@.completions =~= Seq::<Seq<char>>::empty());
        self.input = InputMode::Prompt(p);
        proof {
            if wf(old(self)@) {
                lemma_wf_same(old(self)@, self@);
            }
        }
    }

    /// The number of the prefix argument.
    pub fn prefix_num(&self) -> (r: Option<u32>)
        ensures
            r == prefix_value(self@.prefix),
    {
        match self.prefix {
            PrefixArg::Unset => None,
            PrefixArg::Universal => Some(4),
            PrefixArg::Num(n) => Some(n),
        }
    }
}

// ---- laws ------------------------------------------------------------------

proof fn lemma_rect_in_skip(s: Seq<(WindowId, Rect)>, id: WindowId, i: int)
    requires
        0 <= i <= s.len(),
        forall|k: int| 0 <= k < i ==> (#[trigger] s[k]).0 != id,
    ensures
        rect_in(s, id, 0) == rect_in(s, id, i),
    decreases i,
{
    if i > 0 {
        lemma_rect_in_skip(s, id, i - 1);
        assert(s[i - 1].0 != id);
    }
}

proof fn lemma_rect_in_shift(a: Seq<(WindowId, Rect)>, b: Seq<(WindowId, Rect)>, id: WindowId, i: int)
    requires
        0 <= i <= b.len(),
    ensures
        rect_in(a + b, id, a.len() + i) == rect_in(b, id, i),
    decreases b.len() - i,
{
    if i < b.len() {
        assert((a + b)[a.len() + i] == b[i]);
        if b[i].0 != id {
            lemma_rect_in_shift(a, b, id, i + 1);
        }
    }
}

proof fn lemma_rect_in_first(a: Seq<(WindowId, Rect)>, b: Seq<(WindowId, Rect)>, id: WindowId, i: int)
    requires
        0 <= i <= a.len(),
        rect_in(a, id, i) is Some,
    ensures
        rect_in(a + b, id, i) == rect_in(a, id, i),
    decreases a.len() - i,
{
    if i < a.len() {
        assert((a + b)[i] == a[i]);
        if a[i].0 != id {
            lemma_rect_in_first(a, b, id, i + 1);
        }
    }
}

proof fn lemma_rect_in_none(s: Seq<(WindowId, Rect)>, id: WindowId, i: int)
    requires
        0 <= i <= s.len(),
        rect_in(s, id, i) is None,
    ensures
        forall|k: int| i <= k < s.len() ==> (#[trigger] s[k]).0 != id,
    decreases s.len() - i,
{
    if i < s.len() {
        lemma_rect_in_none(s, id, i + 1);
    }
}

proof fn lemma_followed(
    node: Node,
    rect: Rect,
    id: usize,
    old_len: int,
    new_len: int,
    last_line: int,
    w: WindowId,
)
    ensures
        (leaf(node, w) is Some) == (rect_in(placed(node, rect), w, 0) is Some),
        leaf(node, w) is Some ==> leaf(
            following_tree(node, rect, id, old_len, new_len, last_line),
            w,
        ) == Some(
            following(
                leaf(node, w)->0,
                rect_in(placed(node, rect), w, 0)->0,
                id,
                old_len,
                new_len,
                last_line,
            ),
        ),
    decreases node,
{
    let t = following_tree(node, rect, id, old_len, new_len, last_line);
    match node {
        Node::Leaf(x) => {
            let y = following(x, rect, id, old_len, new_len, last_line);
            assert(t == Node::Leaf(y));
            assert(y.id == x.id);
            assert(placed(node, rect)[0] == (x.id, rect));
            reveal_with_fuel(rect_in, 2);
            assert(leaf(t, w) == if y.id == w {
                Some(y)
            } else {
                None
            });
        },
        Node::Split { dir, first, second } => {
            let ra = first_half(dir, rect);
            let rb = second_half(dir, rect);
            let a = placed(*first, ra);
            let b = placed(*second, rb);
            lemma_followed(*first, ra, id, old_len, new_len, last_line, w);
            lemma_followed(*second, rb, id, old_len, new_len, last_line, w);
            lemma_following_tree(*first, ra, id, old_len, new_len, last_line);
            let fa = following_tree(*first, ra, id, old_len, new_len, last_line);
            let fb = following_tree(*second, rb, id, old_len, new_len, last_line);
            assert(t == Node::Split { dir, first: Box::new(fa), second: Box::new(fb) });
            assert(placed(node, rect) == a + b);
            assert((leaf(fa, w) is Some) == (leaf(*first, w) is Some));
            if leaf(*first, w) is Some {
                lemma_rect_in_first(a, b, w, 0);
            } else {
                lemma_rect_in_none(a, w, 0);
                assert forall|k: int| 0 <= k < a.len() implies (#[trigger] (a + b)[k]).0 != w by {
                    assert(a[k].0 != w);
                }
                lemma_rect_in_skip(a + b, w, a.len() as int);
                lemma_rect_in_shift(a, b, w, 0);
            }
        },
    }
}

/// A window whose point sat at the end of a buffer stays at its end when output
/// is added, with the last line on screen; any other window is left alone.
pub proof fn law_output_followed(e: EditorModel, id: usize, text: Seq<char>, w: WindowId)
    requires
        wf(e),
        has_buffer(e.buffers, id),
        text.len() > 0,
        leaf(e.windows.root, w) is Some,
        e.buffers[buf_index(e.buffers, id)].text.len() + text.len() <= usize::MAX,
    ensures
        ({
            let r = output_added(e, id, text);
            let b = e.buffers[buf_index(e.buffers, id)];
            let t = b.text + text;
            let x = leaf(e.windows.root, w)->0;
            let y = leaf(r.windows.root, w);
            if x.buffer == id && x.point == b.text.len() {
                match y {
                    Some(y) => y.point == t.len() && line_of(t, t.len() as int) < y.top_line + max(
                        text_rows(rect_of(e, w)),
                        1,
                    ),
                    None => false,
                }
            } else {
                y == Some(x)
            }
        }),
{
    let i = buf_index(e.buffers, id);
    lemma_buf_index(e.buffers, id);
    let b = appended(e.buffers[i], text);
    let n = b.text.len() as int;
    crate::lines::lemma_line_of_bound(b.text, n);
    lemma_followed(
        e.windows.root,
        area_of(e),
        id,
        e.buffers[i].text.len() as int,
        n,
        line_of(b.text, n),
        w,
    );
}

} // verus!
