//! What the mouse does.

use crate::buffer::BufferModel;
use crate::buffers::touched;
use crate::columns::{char_width, column_from, gutter_of, law_click_inverts_column, shown_column};
use crate::editor::{
    at_point, buf_index, cur_buf, cur_win, lemma_put, lemma_wf_same, lemma_with_buf, moved, wf,
    EditorModel,
};
use crate::layout::area_of;
use crate::lines::{end_at, line_count, line_of, minus};
use crate::mouse::{
    cell_position, hit, hit_in, lemma_selected, mouse_handled, pressed, window_clicked, MouseEvent,
    MouseKind,
};
use crate::window::{leaf, lemma_with_leaf, placed, text_rows, Rect, WindowId, WindowTree};
use vstd::prelude::*;

verus! {

/// While a prompt or a search is up the mouse does nothing.
pub proof fn law_pointer_ignored(e: EditorModel, ev: MouseEvent)
    requires
        !(e.input is Normal),
    ensures
        mouse_handled(e, ev) == (e, false),
{
}

proof fn lemma_hit(s: Seq<(WindowId, Rect)>, x: int, y: int, i: int)
    requires
        0 <= i <= s.len(),
    ensures
        match hit_in(s, x, y, i) {
            Some((id, r)) => s.contains((id, r)) && r.x <= x < r.x + r.w && r.y <= y < r.y + r.h,
            None => forall|k: int|
                i <= k < s.len() ==> {
                    let r = (#[trigger] s[k]).1;
                    !(r.x <= x < r.x + r.w && r.y <= y < r.y + r.h)
                },
        },
    decreases s.len() - i,
{
    if i < s.len() && !crate::window::in_rect(s[i].1, x, y) {
        lemma_hit(s, x, y, i + 1);
    }
}

/// The window under the pointer is one whose rectangle holds that cell, and there is none
/// only where no rectangle does.
pub proof fn law_pointer_hits(e: EditorModel, x: u16, y: u16)
    ensures
        ({
            let s = placed(e.windows.root, area_of(e));
            match hit(e, x, y) {
                Some((id, r)) => s.contains((id, r)) && r.x <= x < r.x + r.w && r.y <= y < r.y
                    + r.h,
                None => forall|k: int|
                    0 <= k < s.len() ==> {
                        let r = (#[trigger] s[k]).1;
                        !(r.x <= x < r.x + r.w && r.y <= y < r.y + r.h)
                    },
            }
        }),
{
    lemma_hit(placed(e.windows.root, area_of(e)), x as int, y as int, 0);
}

proof fn lemma_columns_nat(t: Seq<char>, start: int, p: int)
    requires
        0 <= start <= p <= t.len(),
    ensures
        0 <= column_from(t, start, p),
    decreases p - start,
{
    if start < p {
        lemma_columns_nat(t, start, p - 1);
        assert(crate::columns::glyph(t[p - 1], column_from(t, start, p - 1)) >= 0);
    }
}

/// A click on the cell at which a char is shown selects its window and puts point at that
/// char.
pub proof fn law_click_on_char(e: EditorModel, id: WindowId, rect: Rect, x: u16, y: u16, p: int)
    requires
        wf(e),
        hit(e, x, y) == Some((id, rect)),
        ({
            let w = leaf(e.windows.root, id)->0;
            let t = e.buffers[buf_index(e.buffers, w.buffer)].text;
            &&& 0 <= p < end_at(t, p)
            &&& p < t.len() <= usize::MAX
            &&& line_of(t, p) == w.top_line + y - rect.y
            &&& y - rect.y < text_rows(rect)
        }),
    ensures
        ({
            let w = leaf(e.windows.root, id)->0;
            let b = e.buffers[buf_index(e.buffers, w.buffer)];
            let r = pressed(e, x, y);
            (b.text[p] == '\t' || char_width(b.text[p]) > 0) && shown_column(b.text, p)
                < usize::MAX && x == rect.x + gutter_of(e, b, rect) + shown_column(b.text, p)
                ==> r.windows.selected == id && cur_win(r).point == p
        }),
{
    crate::mouse::lemma_hit(e, x, y);
    lemma_selected(e, id);
    let w = leaf(e.windows.root, id)->0;
    let i = buf_index(e.buffers, w.buffer);
    let b = e.buffers[i];
    let t = b.text;
    law_click_inverts_column(t, p);
    crate::lines::lemma_line_around(t, p);
    let e0 = EditorModel {
        windows: WindowTree { selected: id, ..e.windows },
        recency: touched(e.recency, w.buffer),
        mouse_drag: None,
        goal_col: None,
        ..e
    };
    let b1 = BufferModel { mark: None, mark_active: false, ..b };
    assert(cur_win(e0) == w);
    assert(cur_buf(e0) == b);
    lemma_with_buf(e0, b1);
    let e1 = window_clicked(e, id);
    assert(cur_win(e1) == w);
    assert(cur_buf(e1) == b1);
    let q = cell_position(e1, w, b1, rect, x, y);
    assert(q == cell_position(e, w, b, rect, x, y));
    lemma_put(e1, at_point(e1, q), b1);
    let r = pressed(e, x, y);
    lemma_wf_same(moved(e1, q), r);
    assert(cur_win(r) == at_point(e1, q));
    if (t[p] == '\t' || char_width(t[p]) > 0) && shown_column(t, p) < usize::MAX && x == rect.x
        + gutter_of(e, b, rect) + shown_column(t, p) {
        lemma_columns_nat(t, crate::lines::start_at(t, p), p);
        assert(minus(x - rect.x, gutter_of(e, b, rect)) == shown_column(t, p));
        assert(cell_position(e, w, b, rect, x, y) == p);
    }
}

/// The wheel scrolls the window under the pointer by three lines, up for up and down for
/// down, as far as the text goes; no other window, no buffer and not the selection change.
pub proof fn law_wheel_scrolls(e: EditorModel, ev: MouseEvent, other: WindowId)
    requires
        wf(e),
        e.input is Normal,
        ev.kind == MouseKind::ScrollUp || ev.kind == MouseKind::ScrollDown,
    ensures
        ({
            let r = mouse_handled(e, ev).0;
            &&& r.buffers == e.buffers
            &&& r.windows.selected == e.windows.selected
            &&& match hit(e, ev.column, ev.row) {
                Some((id, _)) => {
                    let w = leaf(e.windows.root, id);
                    let v = leaf(r.windows.root, id);
                    let t = e.buffers[buf_index(e.buffers, (w->0).buffer)].text;
                    let last = line_count(t) - 1;
                    let to = if ev.kind == MouseKind::ScrollUp {
                        (w->0).top_line - 3
                    } else {
                        (w->0).top_line + 3
                    };
                    &&& t.len() < usize::MAX ==> v is Some && (v->0).buffer == (w->0).buffer
                        && (v->0).top_line == (if to < 0 {
                        0
                    } else if to > last {
                        last
                    } else {
                        to
                    })
                    &&& other != id ==> leaf(r.windows.root, other) == leaf(e.windows.root, other)
                },
                None => r == e,
            }
        }),
{
    crate::mouse::lemma_hit(e, ev.column, ev.row);
    if let Some((id, rect)) = hit(e, ev.column, ev.row) {
        let w = leaf(e.windows.root, id)->0;
        let t = e.buffers[buf_index(e.buffers, w.buffer)].text;
        let delta = if ev.kind == MouseKind::ScrollUp {
            -3
        } else {
            3int
        };
        let v = crate::mouse::wheeled(w, t, rect, delta);
        lemma_with_leaf(e.windows.root, id, v);
        crate::lines::lemma_line_around(t, 0);
        if t.len() < usize::MAX {
            crate::mouse::law_wheel_keeps_point(w, t, rect, delta);
        }
    }
}

} // verus!
