//! Mouse events. Left click selects the window under the pointer and moves its
//! point to the clicked glyph; dragging extends a region from the press point
//! (mark at the anchor, point follows the pointer); the wheel scrolls the
//! window under the pointer by 3 lines without moving point, unless the scroll
//! would push point off screen, in which case point is clamped to the nearest
//! visible line.
//!
//! `handle` reports whether editor state changed, so that only events that did
//! something cause a redraw.

use crate::buffer::{Buffer, BufferId, BufferModel};
use crate::buffers::{lemma_touched, lemma_touched_front, touched};
use crate::columns::{char_at_display_col, gutter_of, gutter_width, position_at};
use crate::commands::movement::{at_column, column_on};
use crate::dired::files::{lemma_with_buffer_at, with_buffer_at};
use crate::editor::{
    at_point, buf_index, cur_buf, cur_index, cur_win, has_buffer, lemma_buf_index, lemma_cur,
    lemma_put, lemma_wf_same, lemma_with_buf, moved, put, wf, with_buf, Editor, EditorModel,
};
use crate::input::InputMode;
use crate::layout::area_of;
use crate::lines::{
    clip, end_at, lemma_line_around, lemma_line_begin, lemma_line_ends, line_begin, line_count,
    line_of, max, min, minus, start_at,
};
use crate::window::{
    ids, in_rect, leaf, lemma_leaf, lemma_placed_map, lemma_placed_order, lemma_with_leaf,
    lemma_with_leaf_map, lemma_with_leaf_same, placed, swapped_in, text_rows, with_leaf,     Rect, Window, WindowId, WindowTree,
};
use vstd::prelude::*;

verus! {

/// The lines that one turn of the wheel scrolls.
pub const WHEEL_LINES: isize = 3;

/// What the mouse did.
#[derive(Debug, Clone, Copy, PartialEq, Eq, Structural)]
pub enum MouseKind {
    DownLeft,
    DragLeft,
    UpLeft,
    ScrollUp,
    ScrollDown,
    Other,
}

/// A mouse event of the terminal.
#[derive(Debug, Clone, Copy, PartialEq, Eq, Structural)]
pub struct MouseEvent {
    pub kind: MouseKind,
    pub column: u16,
    pub row: u16,
}

// ---- hitting windows -------------------------------------------------------

/// The first window of a layout, from index `i` on, whose rectangle holds a
/// cell.
pub open spec fn hit_in(s: Seq<(WindowId, Rect)>, x: int, y: int, i: int) -> Option<
    (WindowId, Rect),
>
    decreases s.len() - i,
{
    if 0 <= i < s.len() {
        if in_rect(s[i].1, x, y) {
            Some(s[i])
        } else {
            hit_in(s, x, y, i + 1)
        }
    } else {
        None
    }
}

/// The window whose rectangle (mode line included) holds a cell.
pub open spec fn hit(e: EditorModel, x: u16, y: u16) -> Option<(WindowId, Rect)> {
    hit_in(placed(e.windows.root, area_of(e)), x as int, y as int, 0)
}

proof fn lemma_hit_in(s: Seq<(WindowId, Rect)>, x: int, y: int, i: int)
    requires
        0 <= i <= s.len(),
    ensures
        match hit_in(s, x, y, i) {
            Some(h) => in_rect(h.1, x, y) && s.contains(h),
            None => true,
        },
    decreases s.len() - i,
{
    if i < s.len() && !in_rect(s[i].1, x, y) {
        lemma_hit_in(s, x, y, i + 1);
    }
}

/// The window under a cell is a window of the editor.
pub proof fn lemma_hit(e: EditorModel, x: u16, y: u16)
    requires
        wf(e),
    ensures
        match hit(e, x, y) {
            Some(h) => {
                &&& in_rect(h.1, x as int, y as int)
                &&& leaf(e.windows.root, h.0) is Some
                &&& has_buffer(e.buffers, leaf(e.windows.root, h.0)->0.buffer)
                &&& leaf(e.windows.root, h.0)->0.id == h.0
            },
            None => true,
        },
{
    reveal(wf);
    let s = placed(e.windows.root, area_of(e));
    lemma_hit_in(s, x as int, y as int, 0);
    match hit(e, x, y) {
        Some(h) => {
            let i = s.index_of(h);
            assert(s[i] == h);
            lemma_placed_order(e.windows.root, area_of(e));
            assert(ids(e.windows.root)[i] == h.0);
            lemma_leaf(e.windows.root, h.0);
        },
        None => {},
    }
}

fn window_at(ed: &Editor, x: u16, y: u16) -> (r: Option<(WindowId, Rect)>)
    ensures
        r == hit(ed@, x, y),
{
    let all = ed.windows.layout(ed.window_area());
    let mut i: usize = 0;
    while i < all.len()
        invariant
            i <= all@.len(),
            all@ == placed(ed@.windows.root, area_of(ed@)),
            hit(ed@, x, y) == hit_in(all@, x as int, y as int, i as int),
        decreases all@.len() - i,
    {
        let (id, r) = all[i];
        if x >= r.x && x - r.x < r.w && y >= r.y && y - r.y < r.h {
            return Some((id, r));
        }
        i = i + 1;
    }
    None
}

/// The position that a cell of a window's text area shows.
pub open spec fn cell_position(
    e: EditorModel,
    w: Window,
    b: BufferModel,
    rect: Rect,
    x: u16,
    y: u16,
) -> int {
    position_at(
        b.text,
        min(w.top_line + (y - rect.y), line_count(b.text) - 1),
        minus(x - rect.x, gutter_of(e, b, rect)),
    )
}

fn point_in(ed: &Editor, win: &Window, buf: &Buffer, rect: &Rect, x: u16, y: u16) -> (p: usize)
    requires
        in_rect(*rect, x as int, y as int),
    ensures
        p == cell_position(ed@, *win, buf@, *rect, x, y),
        p <= buf@.text.len(),
{
    let row: usize = (y - rect.y) as usize;
    let last: usize = buf.len_lines() - 1;
    let line: usize = if win.top_line <= last && row <= last - win.top_line {
        win.top_line + row
    } else {
        last
    };
    let gutter: usize = gutter_width(ed, buf, rect);
    let col: usize = (x - rect.x) as usize;
    let dcol: usize = if col >= gutter {
        col - gutter
    } else {
        0
    };
    char_at_display_col(buf, line, dcol)
}

// ---- clicking --------------------------------------------------------------

/// The editor with another window selected, its buffer most recent, no drag, no
/// goal column, and no mark in that buffer.
pub open spec fn window_clicked(e: EditorModel, id: WindowId) -> EditorModel {
    let e1 = EditorModel {
        windows: WindowTree { selected: id, ..e.windows },
        recency: touched(e.recency, (leaf(e.windows.root, id)->0).buffer),
        mouse_drag: None,
        goal_col: None,
        ..e
    };
    with_buf(e1, BufferModel { mark: None, mark_active: false, ..cur_buf(e1) })
}

/// The editor after a click on a cell: the window there is selected and its
/// region given up; on text, point goes to the glyph there, from which a drag may
/// begin.
pub open spec fn pressed(e: EditorModel, x: u16, y: u16) -> EditorModel {
    match hit(e, x, y) {
        Some((id, rect)) => {
            let e1 = window_clicked(e, id);
            if y - rect.y >= text_rows(rect) {
                e1
            } else {
                let p = cell_position(e1, cur_win(e1), cur_buf(e1), rect, x, y);
                EditorModel { mouse_drag: Some((id, p as usize)), ..moved(e1, p) }
            }
        },
        None => e,
    }
}

/// The editor after a click on a cell, and whether that changed anything.
pub open spec fn clicked(e: EditorModel, x: u16, y: u16) -> (EditorModel, bool) {
    (pressed(e, x, y), pressed(e, x, y) != e)
}

/// A click changes nothing exactly where the window was selected, its buffer in
/// front and without a mark, no goal column set, and point and drag are what they
/// were.
proof fn lemma_press_changes(e: EditorModel, x: u16, y: u16)
    requires
        wf(e),
        hit(e, x, y) is Some,
    ensures
        ({
            let id = (hit(e, x, y)->0).0;
            let b = cur_buf(e);
            let r = pressed(e, x, y);
            (r == e) == (id == e.windows.selected && e.recency.len() > 0 && e.recency[0]
                == cur_win(e).buffer && b.mark is None && !b.mark_active && e.goal_col is None
                && r.mouse_drag == e.mouse_drag && cur_win(r) == cur_win(e))
        }),
{
    lemma_hit(e, x, y);
    let (id, rect) = hit(e, x, y)->0;
    let w = leaf(e.windows.root, id)->0;
    let e0 = EditorModel {
        windows: WindowTree { selected: id, ..e.windows },
        recency: touched(e.recency, w.buffer),
        mouse_drag: None,
        goal_col: None,
        ..e
    };
    lemma_selected(e, id);
    lemma_cur(e);
    let b0 = cur_buf(e0);
    let b1 = BufferModel { mark: None, mark_active: false, ..b0 };
    lemma_with_buf(e0, b1);
    let e1 = window_clicked(e, id);
    assert(e1 == with_buf(e0, b1));
    let p = cell_position(e1, cur_win(e1), cur_buf(e1), rect, x, y);
    lemma_put(e1, at_point(e1, p), b1);
    let r = pressed(e, x, y);
    let text = y - rect.y < text_rows(rect);
    if text {
        lemma_wf_same(moved(e1, p), r);
        assert(cur_win(r) == at_point(e1, p));
    }
    assert(cur_buf(r) == b1);
    assert(r.recency[0] == w.buffer);
    assert(r.windows.selected == id);
    if id == e.windows.selected && e.recency.len() > 0 && e.recency[0] == cur_win(e).buffer
        && cur_buf(e).mark is None && !cur_buf(e).mark_active && e.goal_col is None && r.mouse_drag
        == e.mouse_drag && cur_win(r) == cur_win(e) {
        assert(e.recency.no_duplicates()) by {
            reveal(wf);
        }
        lemma_touched_front(e.recency, w.buffer);
        assert(e0.windows == e.windows);
        assert(b1 == cur_buf(e));
        assert(e1.buffers =~= e.buffers);
        if text {
            lemma_with_leaf_same(e.windows.root, id);
            assert(r.windows == e.windows);
            assert(r.buffers =~= e.buffers);
        }
        assert(r =~= e);
    }
}

/// Selecting another window, its buffer most recent, keeps the editor in order.
pub proof fn lemma_selected(e: EditorModel, id: WindowId)
    requires
        wf(e),
        leaf(e.windows.root, id) is Some,
    ensures
        wf(
            EditorModel {
                windows: WindowTree { selected: id, ..e.windows },
                recency: touched(e.recency, (leaf(e.windows.root, id)->0).buffer),
                mouse_drag: None,
                goal_col: None,
                ..e
            },
        ),
{
    reveal(wf);
    let buffer = (leaf(e.windows.root, id)->0).buffer;
    lemma_touched(e.recency, buffer);
    let r = EditorModel {
        windows: WindowTree { selected: id, ..e.windows },
        recency: touched(e.recency, buffer),
        mouse_drag: None,
        goal_col: None,
        ..e
    };
    assert forall|x: usize| #[trigger] r.recency.contains(x) <==> has_buffer(r.buffers, x) by {
        assert(e.recency.contains(x) <==> has_buffer(e.buffers, x));
    }
}

fn same_drag(a: Option<(WindowId, usize)>, b: Option<(WindowId, usize)>) -> (r: bool)
    ensures
        r == (a == b),
{
    match (a, b) {
        (Some((i, p)), Some((j, q))) => i == j && p == q,
        (None, None) => true,
        _ => false,
    }
}

/// Handle a press of the left button on a cell.
pub fn click(ed: &mut Editor, x: u16, y: u16) -> (b: bool)
    requires
        wf(old(ed)@),
    ensures
        (final(ed)@, b) == clicked(old(ed)@, x, y),
        wf(final(ed)@),
{
    let ghost e = ed@;
    proof {
        lemma_hit(e, x, y);
    }
    let (wid, rect) = match window_at(ed, x, y) {
        Some((w, r)) => (w, r),
        None => {
            return false;
        },
    };
    proof {
        lemma_cur(e);
        lemma_press_changes(e, x, y);
        lemma_selected(e, wid);
        reveal(wf);
        assert(e.recency.contains(cur_win(e).buffer));
    }
    let buf = ed.cur_buffer();
    let marked = buf.mark.is_some() || buf.mark_active;
    let front: BufferId = ed.recency[0];
    let kept = ed.windows.selected == wid && front == ed.windows.selected_ref().buffer && !marked
        && ed.goal_col.is_none();
    let drag = ed.mouse_drag;
    ed.windows.selected = wid;
    ed.mouse_drag = None;
    ed.goal_col = None;
    proof {
        assert(wf(ed@));
        lemma_cur(ed@);
    }
    let id: BufferId = ed.windows.selected_ref().buffer;
    ed.touch_buffer(id);
    // A plain click always deactivates any existing region (Emacs mouse-1).
    let buf = ed.cur_buffer_mut();
    buf.mark = None;
    buf.mark_active = false;
    let ghost e1 = ed@;
    assert(e1 =~= window_clicked(e, wid));
    let row: usize = (y - rect.y) as usize;
    if row >= rect.text_height() {
        // Mode line: selecting the window is all a click does.
        return !(kept && drag.is_none());
    }
    proof {
        lemma_cur(e1);
    }
    let was: usize = ed.windows.selected_ref().point;
    let p: usize = point_in(ed, ed.windows.selected_ref(), ed.cur_buffer(), &rect, x, y);
    let (win, _buf) = ed.cur();
    win.point = p;
    let ghost e2 = ed@;
    // Anchor for a possible drag-selection starting at this press.
    ed.mouse_drag = Some((wid, p));
    proof {
        lemma_wf_same(e2, ed@);
        lemma_put(e1, at_point(e1, p as int), cur_buf(e1));
        assert(e2 == moved(e1, p as int));
        assert(ed@ =~= pressed(e, x, y));
        assert(cur_win(ed@) == at_point(e1, p as int));
        assert(cur_win(e1) == leaf(e.windows.root, wid)->0);
    }
    !(kept && same_drag(drag, Some((wid, p))) && was == p)
}

// ---- dragging --------------------------------------------------------------

/// The editor after a drag to a cell, and whether it did anything: the mark
/// stays at the anchor of the press, and point follows the pointer. Drags
/// outside the window of the press, or onto its mode line, change nothing.
pub open spec fn dragged(e: EditorModel, x: u16, y: u16) -> (EditorModel, bool) {
    match (e.mouse_drag, hit(e, x, y)) {
        (Some((id, anchor)), Some((hit_id, rect))) => if hit_id != id || y - rect.y >= text_rows(
            rect,
        ) {
            (e, false)
        } else {
            let w = leaf(e.windows.root, id)->0;
            let i = buf_index(e.buffers, w.buffer);
            let b = e.buffers[i];
            let p = cell_position(e, w, b, rect, x, y);
            (
                EditorModel {
                    windows: WindowTree {
                        root: with_leaf(e.windows.root, id, Window { point: p as usize, ..w }),
                        ..e.windows
                    },
                    ..with_buffer_at(
                        e,
                        i,
                        BufferModel { mark: Some(anchor), mark_active: true, ..b },
                    )
                },
                w.point != p || !b.mark_active || b.mark != Some(anchor),
            )
        },
        _ => (e, false),
    }
}

/// Replacing a window by one of the same id that shows a live buffer keeps the
/// editor in order.
pub proof fn lemma_with_window(e: EditorModel, id: WindowId, w: Window)
    requires
        wf(e),
        leaf(e.windows.root, id) is Some,
        w.id == id,
        has_buffer(e.buffers, w.buffer),
    ensures
        wf(
            EditorModel {
                windows: WindowTree { root: with_leaf(e.windows.root, id, w), ..e.windows },
                ..e
            },
        ),
{
    reveal(wf);
    lemma_with_leaf(e.windows.root, id, w);
    let r = EditorModel {
        windows: WindowTree { root: with_leaf(e.windows.root, id, w), ..e.windows },
        ..e
    };
    lemma_leaf(e.windows.root, e.windows.selected);
    lemma_leaf(r.windows.root, r.windows.selected);
    assert forall|x: WindowId| (#[trigger] leaf(r.windows.root, x)) is Some implies has_buffer(
        r.buffers,
        leaf(r.windows.root, x)->0.buffer,
    ) by {
        if x != id {
            assert(leaf(r.windows.root, x) == leaf(e.windows.root, x));
        }
    }
}

/// Extend the drag-selection to a cell.
pub fn drag(ed: &mut Editor, x: u16, y: u16) -> (b: bool)
    requires
        wf(old(ed)@),
    ensures
        (final(ed)@, b) == dragged(old(ed)@, x, y),
        wf(final(ed)@),
{
    let ghost e = ed@;
    proof {
        lemma_hit(e, x, y);
    }
    let (wid, anchor) = match ed.mouse_drag {
        Some((w, a)) => (w, a),
        None => {
            return false;
        },
    };
    let (hit_wid, rect) = match window_at(ed, x, y) {
        Some((w, r)) => (w, r),
        None => {
            return false;
        },
    };
    let row: usize = (y - rect.y) as usize;
    if hit_wid != wid || row >= rect.text_height() {
        return false;
    }
    let ghost w0 = leaf(e.windows.root, wid)->0;
    let win = ed.windows.find(wid).unwrap();
    let was: usize = win.point;
    let buf_id: BufferId = win.buffer;
    proof {
        lemma_buf_index(e.buffers, buf_id);
    }
    let i: usize = ed.buffer_index(buf_id).unwrap();
    let p: usize = point_in(ed, win, &ed.buffers[i], &rect, x, y);
    let marked = match ed.buffers[i].mark {
        Some(m) => m == anchor,
        None => false,
    };
    let activated = !ed.buffers[i].mark_active || !marked;
    ed.buffers[i].mark = Some(anchor);
    ed.buffers[i].mark_active = true;
    let ghost b1 = BufferModel {
        mark: Some(anchor),
        mark_active: true,
        ..e.buffers[i as int]
    };
    proof {
        lemma_with_buffer_at(e, i as int, b1);
        assert(ed@.buffers =~= e.buffers.update(i as int, b1));
        assert(ed@ =~= with_buffer_at(e, i as int, b1));
        lemma_with_window(ed@, wid, Window { point: p, ..w0 });
    }
    let win = ed.windows.find_mut(wid).unwrap();
    win.point = p;
    assert(ed@ =~= dragged(e, x, y).0);
    was != p || activated
}

// ---- scrolling -------------------------------------------------------------

/// A number between two bounds, the nearest one outside them.
pub open spec fn clamp(n: int, low: int, high: int) -> int {
    if n < low {
        low
    } else if n > high {
        high
    } else {
        n
    }
}

/// A window scrolled by some lines: point goes along only where it would leave
/// the screen, keeping its column.
pub open spec fn wheeled(w: Window, t: Seq<char>, rect: Rect, delta: int) -> Window {
    let last = line_count(t) - 1;
    let height = max(text_rows(rect), 1);
    let top = clamp(w.top_line + delta, 0, last);
    let p = clip(t, w.point as int);
    let line = line_of(t, p);
    Window {
        top_line: top as usize,
        point: (if top <= line < top + height {
            p
        } else {
            at_column(
                t,
                clamp(line, top, min(top + height - 1, last)),
                p - start_at(t, p),
            )
        }) as usize,
        ..w
    }
}

/// The editor with the window under a cell scrolled.
pub open spec fn wheel_turned(e: EditorModel, x: u16, y: u16, delta: int) -> EditorModel {
    match hit(e, x, y) {
        Some((id, rect)) => {
            let w = leaf(e.windows.root, id)->0;
            let t = e.buffers[buf_index(e.buffers, w.buffer)].text;
            EditorModel {
                windows: WindowTree {
                    root: with_leaf(e.windows.root, id, wheeled(w, t, rect, delta)),
                    ..e.windows
                },
                ..e
            }
        },
        None => e,
    }
}

fn shifted(top: usize, delta: isize, last: usize) -> (r: usize)
    ensures
        r == clamp(top + delta, 0, last as int),
{
    if delta < 0 {
        // -(delta + 1) is never negative and never overflows.
        let back: usize = (-(delta + 1)) as usize;
        let r: usize = if top > back {
            top - back - 1
        } else {
            0
        };
        if r > last {
            last
        } else {
            r
        }
    } else {
        let fore: usize = delta as usize;
        if top >= last || fore >= last - top {
            last
        } else {
            top + fore
        }
    }
}

/// Scroll the window under a cell by some lines. Returns whether that changed
/// anything.
pub fn scroll(ed: &mut Editor, x: u16, y: u16, delta: isize) -> (b: bool)
    requires
        wf(old(ed)@),
    ensures
        final(ed)@ == wheel_turned(old(ed)@, x, y, delta as int),
        b == (final(ed)@ != old(ed)@),
        wf(final(ed)@),
{
    let ghost e = ed@;
    proof {
        lemma_hit(e, x, y);
    }
    let (wid, rect) = match window_at(ed, x, y) {
        Some((w, r)) => (w, r),
        None => {
            return false;
        },
    };
    let rows: usize = rect.text_height();
    let height: usize = if rows > 1 {
        rows
    } else {
        1
    };
    let ghost w0 = leaf(e.windows.root, wid)->0;
    let win = ed.windows.find(wid).unwrap();
    proof {
        lemma_buf_index(e.buffers, win.buffer);
    }
    let i: usize = ed.buffer_index(win.buffer).unwrap();
    let buf = &ed.buffers[i];
    let ghost t = buf@.text;
    assert(buf@ == e.buffers[i as int]);
    let last: usize = buf.len_lines() - 1;
    let top: usize = shifted(win.top_line, delta, last);
    // Point follows only when pushed off screen, keeping its column.
    let len: usize = buf.len_chars();
    let p: usize = if win.point <= len {
        win.point
    } else {
        len
    };
    let line: usize = buf.char_to_line(p);
    let new_point: usize = if line >= top && line - top < height {
        p
    } else {
        let low: usize = if height - 1 <= last - top {
            top + (height - 1)
        } else {
            last
        };
        let target: usize = if line < top {
            top
        } else if line > low {
            low
        } else {
            line
        };
        let col: usize = p - buf.line_start(p);
        column_on(buf, target, col)
    };
    let ghost w1 = wheeled(w0, t, rect, delta as int);
    proof {
        lemma_with_window(e, wid, w1);
    }
    let win = ed.windows.find_mut(wid).unwrap();
    let kept = win.top_line == top && win.point == new_point;
    win.top_line = top;
    win.point = new_point;
    assert(ed@ =~= wheel_turned(e, x, y, delta as int));
    proof {
        lemma_with_leaf(e.windows.root, wid, w1);
        if kept {
            assert(w1 == w0);
            lemma_with_leaf_same(e.windows.root, wid);
            assert(ed@ =~= e);
        } else {
            assert(leaf(ed@.windows.root, wid) == Some(w1));
        }
    }
    !kept
}

/// The editor after a mouse event, and whether it changed anything that shows.
/// A prompt owns the input focus: the mouse is ignored while one is up.
pub open spec fn mouse_handled(e: EditorModel, ev: MouseEvent) -> (EditorModel, bool) {
    if !(e.input is Normal) {
        (e, false)
    } else {
        match ev.kind {
            MouseKind::DownLeft => clicked(e, ev.column, ev.row),
            MouseKind::DragLeft => dragged(e, ev.column, ev.row),
            MouseKind::UpLeft => (EditorModel { mouse_drag: None, ..e }, false),
            MouseKind::ScrollUp => {
                let r = wheel_turned(e, ev.column, ev.row, -(WHEEL_LINES as int));
                (r, r != e)
            },
            MouseKind::ScrollDown => {
                let r = wheel_turned(e, ev.column, ev.row, WHEEL_LINES as int);
                (r, r != e)
            },
            MouseKind::Other => (e, false),
        }
    }
}

/// Handle a mouse event. Returns whether editor state changed.
pub fn handle(ed: &mut Editor, ev: MouseEvent) -> (b: bool)
    requires
        wf(old(ed)@),
    ensures
        (final(ed)@, b) == mouse_handled(old(ed)@, ev),
        wf(final(ed)@),
{
    match &ed.input {
        InputMode::Normal => {},
        _ => {
            return false;
        },
    }
    match ev.kind {
        MouseKind::DownLeft => click(ed, ev.column, ev.row),
        MouseKind::DragLeft => drag(ed, ev.column, ev.row),
        MouseKind::UpLeft => {
            // A click that never dragged leaves no region; a finished drag
            // keeps its region active (already on screen, nothing to draw).
            ed.mouse_drag = None;
            proof {
                lemma_wf_same(old(ed)@, ed@);
            }
            false
        },
        MouseKind::ScrollUp => {
            scroll(ed, ev.column, ev.row, -WHEEL_LINES)
        },
        MouseKind::ScrollDown => {
            scroll(ed, ev.column, ev.row, WHEEL_LINES)
        },
        MouseKind::Other => false,
    }
}

// ---- laws ------------------------------------------------------------------

/// Whether a position lies from the start to the end of a line that a window of
/// some rows shows from line `top` on.
pub open spec fn on_shown_line(t: Seq<char>, p: int, top: int, rows: int) -> bool {
    exists|l: int|
        top <= l < top + rows && l < line_count(t) && #[trigger] line_begin(t, l) <= p <= end_at(
            t,
            line_begin(t, l),
        )
}

/// The wheel scrolls by the lines it is turned, as far as the text goes; point
/// stays where it is if its line is still in view, and otherwise goes to a line
/// that is.
pub proof fn law_wheel_keeps_point(w: Window, t: Seq<char>, rect: Rect, delta: int)
    requires
        t.len() <= usize::MAX,
    ensures
        ({
            let r = wheeled(w, t, rect, delta);
            let rows = max(text_rows(rect), 1);
            let line = line_of(t, clip(t, w.point as int));
            &&& r.top_line == clamp(w.top_line + delta, 0, line_count(t) - 1)
            &&& r.id == w.id && r.buffer == w.buffer
            &&& r.top_line <= line < r.top_line + rows ==> r.point == clip(t, w.point as int)
            &&& on_shown_line(t, r.point as int, r.top_line as int, rows)
        }),
{
    let last = line_count(t) - 1;
    let rows = max(text_rows(rect), 1);
    let top = clamp(w.top_line + delta, 0, last);
    let p = clip(t, w.point as int);
    let line = line_of(t, p);
    lemma_line_around(t, p);
    lemma_line_ends(t, p);
    lemma_line_begin(t, line);
    assert(0 <= top <= last <= t.len());
    let r = wheeled(w, t, rect, delta);
    assert(r.top_line == top);
    if top <= line < top + rows {
        assert(end_at(t, line_begin(t, line)) == end_at(t, p));
        assert(line_begin(t, line) <= p);
    } else {
        let l = clamp(line, top, min(top + rows - 1, last));
        let begin = line_begin(t, l);
        lemma_line_begin(t, l);
        lemma_line_ends(t, begin);
        assert(top <= l < top + rows);
        let q = at_column(t, l, p - start_at(t, p));
        assert(r.point == q);
        assert(line_begin(t, l) <= q <= end_at(t, begin));
    }
}

/// A click on a window selects it, makes its buffer the most recent one, and
/// gives its region up.
pub proof fn law_click_selects(e: EditorModel, x: u16, y: u16)
    requires
        wf(e),
        hit(e, x, y) is Some,
    ensures
        ({
            let id = (hit(e, x, y)->0).0;
            let r = pressed(e, x, y);
            &&& r.windows.selected == id
            &&& r.recency[0] == cur_win(r).buffer
            &&& cur_buf(r).mark is None
            &&& !cur_buf(r).mark_active
        }),
{
    lemma_hit(e, x, y);
    let (id, rect) = hit(e, x, y)->0;
    lemma_selected(e, id);
    let e0 = EditorModel {
        windows: WindowTree { selected: id, ..e.windows },
        recency: touched(e.recency, (leaf(e.windows.root, id)->0).buffer),
        mouse_drag: None,
        goal_col: None,
        ..e
    };
    let b = BufferModel { mark: None, mark_active: false, ..cur_buf(e0) };
    lemma_with_buf(e0, b);
    let e1 = window_clicked(e, id);
    let p = cell_position(e1, cur_win(e1), cur_buf(e1), rect, x, y);
    lemma_put(e1, at_point(e1, p), b);
    let r = pressed(e, x, y);
    if y - rect.y < text_rows(rect) {
        lemma_wf_same(moved(e1, p), r);
        assert(cur_win(r) == at_point(e1, p));
    }
    assert(cur_buf(r) == b);
}

proof fn lemma_one_place(e: EditorModel, x: u16, y: u16, to_x: u16, to_y: u16)
    requires
        wf(e),
        match (hit(e, x, y), hit(e, to_x, to_y)) {
            (Some(a), Some(b)) => a.0 == b.0,
            _ => false,
        },
    ensures
        hit(e, x, y) == hit(e, to_x, to_y),
{
    reveal(wf);
    let s = placed(e.windows.root, area_of(e));
    lemma_hit_in(s, x as int, y as int, 0);
    lemma_hit_in(s, to_x as int, to_y as int, 0);
    let i = s.index_of(hit(e, x, y)->0);
    let j = s.index_of(hit(e, to_x, to_y)->0);
    lemma_placed_order(e.windows.root, area_of(e));
    assert(ids(e.windows.root)[i] == ids(e.windows.root)[j]);
}

/// Pressing on the text of a window and dragging to another cell of it marks
/// what lies between: the window is selected, the mark is where the press was,
/// point is where the pointer is, and no text changes.
pub proof fn law_drag_marks(e: EditorModel, x: u16, y: u16, to_x: u16, to_y: u16)
    requires
        wf(e),
        match (hit(e, x, y), hit(e, to_x, to_y)) {
            (Some((id, rect)), Some((to_id, _))) => id == to_id && y - rect.y < text_rows(rect)
                && to_y - rect.y < text_rows(rect),
            _ => false,
        },
    ensures
        ({
            let (id, rect) = hit(e, x, y)->0;
            let r = dragged(clicked(e, x, y).0, to_x, to_y).0;
            let w = leaf(e.windows.root, id)->0;
            let b = e.buffers[buf_index(e.buffers, w.buffer)];
            &&& r.windows.selected == id
            &&& cur_buf(r).mark_active
            &&& cur_buf(r).mark == Some(cell_position(e, w, b, rect, x, y) as usize)
            &&& cur_win(r).point == cell_position(e, w, b, rect, to_x, to_y) as usize
            &&& cur_buf(r).text == b.text
        }),
{
    lemma_hit(e, x, y);
    lemma_hit(e, to_x, to_y);
    let (id, rect) = hit(e, x, y)->0;
    let w = leaf(e.windows.root, id)->0;
    let i = buf_index(e.buffers, w.buffer);
    let b = e.buffers[i];
    lemma_buf_index(e.buffers, w.buffer);
    let e0 = EditorModel {
        windows: WindowTree { selected: id, ..e.windows },
        recency: touched(e.recency, w.buffer),
        mouse_drag: None,
        goal_col: None,
        ..e
    };
    lemma_selected(e, id);
    assert(cur_win(e0) == w);
    assert(cur_buf(e0) == b);
    let b1 = BufferModel { mark: None, mark_active: false, ..b };
    lemma_with_buf(e0, b1);
    let e1 = window_clicked(e, id);
    let p = cell_position(e1, w, b1, rect, x, y);
    assert(p == cell_position(e, w, b, rect, x, y));
    let w1 = at_point(e1, p);
    lemma_put(e1, w1, b1);
    let e2 = clicked(e, x, y).0;
    lemma_wf_same(moved(e1, p), e2);
    assert(cur_win(e2) == w1);
    assert(cur_buf(e2) == b1);
    assert(cur_index(e2) == i);
    assert(ids(e1.windows.root).no_duplicates()) by {
        reveal(wf);
    }
    lemma_with_leaf_map(e1.windows.root, w1);
    lemma_placed_map(e1.windows.root, swapped_in(w1), area_of(e));
    assert(area_of(e2) == area_of(e));
    assert(hit(e2, to_x, to_y) == hit(e, to_x, to_y));
    lemma_one_place(e, x, y, to_x, to_y);
    let q = cell_position(e2, w1, b1, rect, to_x, to_y);
    assert(q == cell_position(e, w, b, rect, to_x, to_y));
    let w2 = Window { point: q as usize, ..w1 };
    let b2 = BufferModel { mark: Some(p as usize), mark_active: true, ..b1 };
    lemma_put(e2, w2, b2);
    let r = dragged(e2, to_x, to_y).0;
    assert(r =~= put(e2, w2, b2));
}

} // verus!
