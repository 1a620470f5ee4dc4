//! What setting the mark does.

use crate::buffer::{region_of, BufferModel};
use crate::commands::ring::marked;
use crate::commands::run::native_done;
use crate::editor::{
    at_point, cur_buf, cur_point, edit_cur, lemma_cur, lemma_put, lemma_wf_same, wf, EditorModel,
};
use crate::input::{ActionModel, InputModel, KindModel};
use crate::laws::frame::counted;
use crate::laws::table::lemma_search_commands;
use crate::native::NativeCmd;
use vstd::prelude::*;

verus! {

/// Setting the mark puts it at point and leaves text and point; from there on the region is
/// what lies between that place and wherever point goes. Rectangles do the same, but the
/// region is then a rectangle.
pub proof fn law_mark_set(e: EditorModel, n: Option<u32>, q: int)
    requires
        wf(e),
        counted(e),
        0 <= q <= cur_buf(e).text.len(),
    ensures
        ({
            let r = native_done(e, NativeCmd::SetMarkCommand, n).0;
            let s = native_done(e, NativeCmd::RectangleMarkMode, n).0;
            let p = cur_point(e);
            &&& cur_buf(r).text == cur_buf(e).text && cur_point(r) == p && !r.rect_mode
            &&& cur_buf(s).text == cur_buf(e).text && cur_point(s) == p && s.rect_mode
            &&& region_of(cur_buf(r), q) == (if p <= q {
                Some((p, q))
            } else {
                Some((q, p))
            })
            &&& region_of(cur_buf(s), q) == region_of(cur_buf(r), q)
        }),
{
    lemma_search_commands(e, n);
    lemma_cur(e);
    let p = cur_point(e);
    let b = BufferModel { mark: Some(p as usize), mark_active: true, ..cur_buf(e) };
    lemma_put(e, at_point(e, p), b);
    let m = edit_cur(e, p, b);
    let r = native_done(e, NativeCmd::SetMarkCommand, n).0;
    let s = native_done(e, NativeCmd::RectangleMarkMode, n).0;
    lemma_wf_same(m, r);
    lemma_wf_same(m, s);
    assert(cur_buf(r) == b && cur_buf(s) == b);
}

/// string-rectangle asks for its string where a rectangle was begun and is still marked,
/// and the buffer can be written to; else it only says why not.
pub proof fn law_rectangle_asked(e: EditorModel, n: Option<u32>)
    requires
        wf(e),
    ensures
        ({
            let (r, a) = native_done(e, NativeCmd::StringRectangle, n);
            let b = cur_buf(e);
            &&& a == ActionModel::Nothing
            &&& if !b.read_only && e.rect_mode && b.mark_active && b.mark is Some {
                &&& r == (EditorModel { input: r.input, ..e })
                &&& r.input matches InputModel::Prompt(p) && p.kind == KindModel::RectInsert
                    && p.input.len() == 0
            } else {
                r == (EditorModel { echo: r.echo, ..e }) && r.echo is Some
            }
        }),
{
    lemma_search_commands(e, n);
}

} // verus!
